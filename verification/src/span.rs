//! Positions in a source text: byte ranges, and the lines and columns that
//! they fall on.

use std::cmp::Ordering;
use vstd::prelude::*;
use vstd::string::StringSliceAdditionalSpecFns;

verus! {

/// A half-open range of byte offsets: `start` is the first offset inside,
/// `end` the first one past it.
#[derive(Copy, Clone, Debug, PartialEq, Structural)]
pub struct Span {
    /// Inclusive
    pub start: usize,
    /// Exclusive
    pub end: usize,
}

/// Builds a span from its two ends, so that `Span(start, end)` can be written
/// where a tuple struct would have allowed it.
#[allow(non_snake_case)]
pub fn Span(start: usize, end: usize) -> (span: Span)
    ensures
        span == (Span { start, end }),
{
    Span { start, end }
}

impl Span {
    /// Whether offset `i` lies inside the span.
    pub open spec fn spec_contains(&self, i: usize) -> bool {
        self.start <= i < self.end
    }

    /// Whether offset `i` lies inside the span.
    #[verifier::when_used_as_spec(spec_contains)]
    pub fn contains(&self, i: usize) -> (inside: bool)
        ensures
            inside == self.spec_contains(i),
    {
        i >= self.start && i < self.end
    }
}

impl Default for Span {
    fn default() -> (span: Span)
        ensures
            span == (Span { start: 0, end: 0 }),
    {
        Span { start: 0, end: 0 }
    }
}

impl From<std::ops::Range<usize>> for Span {
    /// The span of the offsets of a range.
    fn from(r: std::ops::Range<usize>) -> (span: Span)
        ensures
            span == (Span { start: r.start, end: r.end }),
    {
        Span { start: r.start, end: r.end }
    }
}

impl vstd::std_specs::convert::FromSpecImpl<std::ops::Range<usize>> for Span {
    open spec fn obeys_from_spec() -> bool {
        true
    }

    open spec fn from_spec(r: std::ops::Range<usize>) -> Span {
        Span { start: r.start, end: r.end }
    }
}

/// What std's `RangeInclusive::start` returns: the lower bound that the range
/// was made with. std leaves the bounds open once the range has been
/// iterated to its end, so nothing is said of such a range.
pub assume_specification<Idx>[ std::ops::RangeInclusive::<Idx>::start ](
    r: &std::ops::RangeInclusive<Idx>,
) -> (start: &Idx)
    ensures
        !r@.exhausted ==> *start == r@.start,
;

/// What std's `RangeInclusive::end` returns: the upper bound that the range
/// was made with, which the range includes. As for the lower bound, nothing
/// is said of a range that has been iterated to its end.
pub assume_specification<Idx>[ std::ops::RangeInclusive::<Idx>::end ](
    r: &std::ops::RangeInclusive<Idx>,
) -> (end: &Idx)
    ensures
        !r@.exhausted ==> *end == r@.end,
;

impl Span {
    /// The span of the offsets of an inclusive range. The end of a span lies
    /// one past its last offset, so the range may not end at `usize::MAX`.
    pub fn from_inclusive(r: std::ops::RangeInclusive<usize>) -> (span: Span)
        requires
            !r@.exhausted,
            r@.end < usize::MAX,
        ensures
            span == (Span { start: r@.start, end: (r@.end + 1) as usize }),
    {
        Span { start: *r.start(), end: *r.end() + 1 }
    }
}

/// A span together with the lines and columns of its two ends. Lines and
/// columns count from zero.
#[derive(Copy, Clone, Debug, PartialEq, Structural)]
pub struct Location {
    pub span: Span,
    pub line: usize,
    pub end_line: usize,
    pub column: usize,
    pub end_column: usize,
}

impl Default for Location {
    fn default() -> (location: Location)
        ensures
            location == (Location {
                span: Span { start: 0, end: 0 },
                line: 0,
                end_line: 0,
                column: 0,
                end_column: 0,
            }),
    {
        Location { span: Span { start: 0, end: 0 }, line: 0, end_line: 0, column: 0, end_column: 0 }
    }
}

impl Location {
    /// What `self + other` is: both ends of the span are the smaller of the
    /// two, the start position is that of the operand that starts on the
    /// earlier line, the end position that of the operand that ends on the
    /// later line. Where the lines are the same, `other` gives the position.
    pub open spec fn joined(self, other: Location) -> Location {
        Location {
            span: Span {
                start: if self.span.start <= other.span.start {
                    self.span.start
                } else {
                    other.span.start
                },
                end: if self.span.end <= other.span.end {
                    self.span.end
                } else {
                    other.span.end
                },
            },
            line: if self.line < other.line {
                self.line
            } else {
                other.line
            },
            column: if self.line < other.line {
                self.column
            } else {
                other.column
            },
            end_line: if self.end_line > other.end_line {
                self.end_line
            } else {
                other.end_line
            },
            end_column: if self.end_line > other.end_line {
                self.end_column
            } else {
                other.end_column
            },
        }
    }

    /// How two locations compare: by the line they start on, and on the same
    /// line by the column. Nothing else is looked at, so two locations that
    /// compare as equal may still differ.
    pub open spec fn start_order(&self, other: &Location) -> Ordering {
        if self.line == other.line {
            if self.column < other.column {
                Ordering::Less
            } else if self.column > other.column {
                Ordering::Greater
            } else {
                Ordering::Equal
            }
        } else if self.line < other.line {
            Ordering::Less
        } else {
            Ordering::Greater
        }
    }
}

impl std::ops::Add for Location {
    type Output = Location;

    /// Joins two locations into one, as [`Location::joined`] says.
    fn add(self, other: Location) -> (sum: Location)
        ensures
            sum == self.joined(other),
    {
        let span_start = self.span.start.min(other.span.start);
        let span_end = self.span.end.min(other.span.end);

        let line;
        let column;
        if self.line < other.line {
            line = self.line;
            column = self.column;
        } else {
            line = other.line;
            column = other.column;
        }

        let end_line;
        let end_column;
        if self.end_line > other.end_line {
            end_line = self.end_line;
            end_column = self.end_column;
        } else {
            end_line = other.end_line;
            end_column = other.end_column;
        }

        Location { span: Span(span_start, span_end), line, end_line, column, end_column }
    }
}

impl vstd::std_specs::ops::AddSpecImpl for Location {
    open spec fn obeys_add_spec() -> bool {
        true
    }

    open spec fn add_req(self, other: Location) -> bool {
        true
    }

    open spec fn add_spec(self, other: Location) -> Location {
        self.joined(other)
    }
}

impl PartialOrd for Location {
    /// Compares two locations by where they start, as
    /// [`Location::start_order`] says. Any two locations compare.
    fn partial_cmp(&self, o: &Location) -> (order: Option<Ordering>)
        ensures
            order == Some(self.start_order(o)),
    {
        if self.line == o.line {
            return self.column.partial_cmp(&o.column);
        }
        self.line.partial_cmp(&o.line)
    }
}

impl vstd::std_specs::cmp::PartialOrdSpecImpl for Location {
    open spec fn obeys_partial_cmp_spec() -> bool {
        true
    }

    open spec fn partial_cmp_spec(&self, o: &Location) -> Option<Ordering> {
        Some(self.start_order(o))
    }
}

/// The byte that ends a line.
pub const NEWLINE: u8 = 0x0a;

/// The offsets at which a new line begins after a newline byte, in
/// increasing order: one past each newline in `bytes`.
pub open spec fn line_breaks(bytes: Seq<u8>) -> Seq<usize>
    decreases bytes.len(),
{
    if bytes.len() == 0 {
        Seq::empty()
    } else if bytes.last() == NEWLINE {
        line_breaks(bytes.drop_last()).push(bytes.len() as usize)
    } else {
        line_breaks(bytes.drop_last())
    }
}

/// The spans of the lines of `bytes`. A line runs up to and including the
/// newline that ends it; the last line runs to the end of the text, and is
/// empty where the text is empty or ends in a newline. So a text with `n`
/// newlines has `n + 1` lines.
pub open spec fn line_table(bytes: Seq<u8>) -> Seq<Span> {
    let breaks = line_breaks(bytes);
    Seq::new(
        breaks.len() + 1,
        |k: int|
            Span {
                start: if k == 0 {
                    0
                } else {
                    breaks[k - 1]
                },
                end: if k < breaks.len() {
                    breaks[k]
                } else {
                    bytes.len() as usize
                },
            },
    )
}

/// Whether `table` can be the line table of a text: it has a first line that
/// starts at offset 0, each line starts where the one before it ended, and
/// every line but the last holds at least one byte.
pub open spec fn is_line_table(table: Seq<Span>) -> bool {
    &&& table.len() > 0
    &&& table[0].start == 0
    &&& table.last().start <= table.last().end
    &&& forall|k: int|
        0 <= k < table.len() - 1 ==> (#[trigger] table[k]).start < table[k].end && table[k].end
            == table[k + 1].start
}

/// The line of `table` that offset `at` falls on.
pub open spec fn line_of(table: Seq<Span>, at: usize) -> int {
    choose|k: int| 0 <= k < table.len() && (#[trigger] table[k]).spec_contains(at)
}

/// The breaks of a text lie inside it, past offset 0, and increase.
pub proof fn lemma_line_breaks_increase(bytes: Seq<u8>)
    requires
        bytes.len() <= usize::MAX,
    ensures
        line_breaks(bytes).len() <= bytes.len(),
        forall|k: int|
            0 <= k < line_breaks(bytes).len() ==> 0 < (#[trigger] line_breaks(bytes)[k])
                <= bytes.len(),
        forall|j: int, k: int|
            0 <= j < k < line_breaks(bytes).len() ==> line_breaks(bytes)[j] < line_breaks(
                bytes,
            )[k],
    decreases bytes.len(),
{
    if bytes.len() > 0 {
        lemma_line_breaks_increase(bytes.drop_last());
    }
}

/// The lines of a text that fits in memory form a line table, and the last
/// line ends where the text ends.
pub proof fn lemma_line_table_is_line_table(bytes: Seq<u8>)
    requires
        bytes.len() <= usize::MAX,
    ensures
        is_line_table(line_table(bytes)),
        line_table(bytes).last().end == bytes.len(),
{
    lemma_line_breaks_increase(bytes);
}

/// In a line table, the lines before line `k` cover exactly the offsets
/// below its start, and no offset falls on two lines.
pub proof fn lemma_lines_are_ordered(table: Seq<Span>, j: int, k: int)
    requires
        is_line_table(table),
        0 <= j <= k < table.len(),
    ensures
        table[j].start <= table[k].start,
        j < k ==> table[j].end <= table[k].start,
    decreases k - j,
{
    if j < k {
        lemma_lines_are_ordered(table, j + 1, k);
    }
}

/// An offset falls on at most one line, so `line_of` names the line that any
/// search finds.
pub proof fn lemma_line_of_is_unique(table: Seq<Span>, k: int, at: usize)
    requires
        is_line_table(table),
        0 <= k < table.len(),
        table[k].spec_contains(at),
    ensures
        line_of(table, at) == k,
{
    let found = line_of(table, at);
    if found < k {
        lemma_lines_are_ordered(table, found, k);
    } else if k < found {
        lemma_lines_are_ordered(table, k, found);
    }
}

/// Turns byte offsets into lines and columns, for one source text.
pub struct SpanConverter {
    line_spans: Vec<Span>,
}

impl View for SpanConverter {
    type V = Seq<Span>;

    /// The span of each line of the text, first line first.
    closed spec fn view(&self) -> Seq<Span> {
        self.line_spans@
    }
}

impl SpanConverter {
    /// Every converter that [`SpanConverter::new`] builds holds a line table.
    pub open spec fn wf(&self) -> bool {
        is_line_table(self@)
    }

    /// The length of the text that the converter was built for.
    pub open spec fn source_len(&self) -> usize {
        self@.last().end
    }

    /// Finds the lines of `source`. A line break is the byte `0x0a`, which in
    /// UTF-8 is never part of a longer character, so offsets are counted in
    /// bytes as they are in the string.
    pub fn new(source: &str) -> (converter: Self)
        ensures
            converter.wf(),
            converter@ == line_table(source.spec_bytes()),
            converter.source_len() == source.spec_bytes().len(),
    {
        let bytes = source.as_bytes();
        let mut line_spans: Vec<Span> = Vec::new();
        let mut prev_start: usize = 0;
        let mut i: usize = 0;

        while i < bytes.len()
            invariant
                i <= bytes@.len(),
                prev_start <= i,
                line_spans@.len() == line_breaks(bytes@.take(i as int)).len(),
                prev_start == if line_spans@.len() == 0 {
                    0
                } else {
                    line_breaks(bytes@.take(i as int)).last()
                },
                forall|k: int|
                    0 <= k < line_spans@.len() ==> #[trigger] line_spans@[k] == line_table(
                        bytes@.take(i as int),
                    )[k],
            decreases bytes@.len() - i,
        {
            let ghost before = bytes@.take(i as int);
            let ghost after = bytes@.take(i + 1);
            assert(after.drop_last() == before);
            assert(after.last() == bytes@[i as int]);
            if bytes[i] == NEWLINE {
                line_spans.push(Span(prev_start, i + 1));
                prev_start = i + 1;
            }
            i += 1;
        }
        assert(bytes@.take(i as int) == bytes@);
        line_spans.push(Span(prev_start, source.len()));
        proof {
            assert(line_spans@ == line_table(bytes@));
            lemma_line_table_is_line_table(bytes@);
        }
        SpanConverter { line_spans }
    }

    /// The location of `span`: for each of its two ends the line that the
    /// offset falls on, and as column the distance from that line's start.
    ///
    /// Both ends have to fall on a line, so the span may not reach the end of
    /// the text, and it may not end before it starts.
    pub fn convert(&self, span: Span) -> (location: Location)
        requires
            self.wf(),
            span.start <= span.end < self.source_len(),
        ensures
            location.span == span,
            location.line == line_of(self@, span.start),
            location.column == span.start - self@[location.line as int].start,
            location.end_line == line_of(self@, span.end),
            location.end_column == span.end - self@[location.end_line as int].start,
    {
        let mut start: Option<(usize, usize)> = None;
        let mut end: Option<(usize, usize)> = None;
        let mut i: usize = 0;

        while i < self.line_spans.len()
            invariant_except_break
                end is None,
                i < self.line_spans@.len() ==> self.line_spans@[i as int].start <= span.end,
                i == self.line_spans@.len() ==> self.source_len() <= span.end,
            invariant
                self.wf(),
                span.start <= span.end < self.source_len(),
                i <= self.line_spans@.len(),
                start matches Some(found) ==> found.0 < self@.len() && self@[found.0 as int].spec_contains(span.start)
                    && found.1 == span.start - self@[found.0 as int].start,
                start is None && i < self.line_spans@.len() ==> self.line_spans@[i as int].start <= span.start,
            ensures
                start is Some,
                end matches Some(found) && found.0 < self@.len() && self@[found.0 as int].spec_contains(span.end)
                    && found.1 == span.end - self@[found.0 as int].start,
            decreases self.line_spans@.len() - i,
        {
            let line_span = &self.line_spans[i];
            if line_span.contains(span.start) {
                start = Some((i, span.start - line_span.start));
            }
            if line_span.contains(span.end) {
                end = Some((i, span.end - line_span.start));

                break ;
            }
            i += 1;
        }

        let start = start.unwrap();
        let end = end.unwrap();
        proof {
            lemma_line_of_is_unique(self@, start.0 as int, span.start);
            lemma_line_of_is_unique(self@, end.0 as int, span.end);
        }

        Location { span, line: start.0, end_line: end.0, column: start.1, end_column: end.1 }
    }
}

} // verus!
