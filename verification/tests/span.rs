use keyed_arena::{Location, Span, SpanConverter};

fn location(span: Span, line: usize, column: usize, end_line: usize, end_column: usize) -> Location {
    Location { span, line, end_line, column, end_column }
}

#[test]
fn span_contains_its_start_and_not_its_end() {
    let span = Span(2, 5);
    assert_eq!(span, Span { start: 2, end: 5 });
    assert!(!span.contains(1));
    assert!(span.contains(2));
    assert!(span.contains(4));
    assert!(!span.contains(5));
    assert!(!Span(3, 3).contains(3));
    assert!(!Span(5, 2).contains(3));
}

#[test]
fn span_from_ranges() {
    assert_eq!(Span::from(2..5), Span(2, 5));
    let into: Span = (7..7).into();
    assert_eq!(into, Span(7, 7));
    assert_eq!(Span::from_inclusive(2..=5), Span(2, 6));
    assert_eq!(Span::from_inclusive(0..=0), Span(0, 1));
    assert_eq!(Span::from_inclusive(0..=usize::MAX - 1), Span(0, usize::MAX));
}

#[test]
fn span_and_location_defaults_are_zero() {
    assert_eq!(Span::default(), Span(0, 0));
    assert_eq!(Location::default(), location(Span(0, 0), 0, 0, 0, 0));
}

#[test]
fn location_add_takes_the_outer_lines() {
    let first = location(Span(3, 9), 1, 4, 2, 6);
    let second = location(Span(5, 20), 3, 0, 5, 2);
    let sum = first + second;
    assert_eq!(sum, location(Span(3, 9), 1, 4, 5, 2));
    let sum = second + first;
    assert_eq!(sum, location(Span(3, 9), 1, 4, 5, 2));
}

#[test]
fn location_add_on_the_same_line_takes_the_right_operand() {
    let left = location(Span(10, 12), 2, 8, 2, 10);
    let right = location(Span(4, 6), 2, 3, 2, 5);
    assert_eq!(left + right, location(Span(4, 6), 2, 3, 2, 5));
    assert_eq!(right + left, location(Span(4, 6), 2, 8, 2, 10));
}

#[test]
fn location_order_is_by_line_then_column() {
    let a = location(Span(0, 1), 1, 5, 9, 9);
    let b = location(Span(7, 8), 2, 0, 2, 1);
    let c = location(Span(3, 4), 1, 7, 1, 8);
    let d = location(Span(5, 6), 1, 5, 1, 6);
    assert!(a < b);
    assert!(b > a);
    assert!(a < c);
    assert!(c < b);
    assert!(a <= d && a >= d);
    assert_eq!(a.partial_cmp(&d), Some(std::cmp::Ordering::Equal));
    assert_eq!(b.partial_cmp(&c), Some(std::cmp::Ordering::Greater));
    assert_ne!(a, d);
}

#[test]
fn span_converter_finds_lines_and_columns() {
    let converter = SpanConverter::new("ab\ncde\n\nf");
    assert_eq!(converter.convert(Span(0, 1)), location(Span(0, 1), 0, 0, 0, 1));
    assert_eq!(converter.convert(Span(1, 2)), location(Span(1, 2), 0, 1, 0, 2));
    assert_eq!(converter.convert(Span(2, 3)), location(Span(2, 3), 0, 2, 1, 0));
    assert_eq!(converter.convert(Span(3, 6)), location(Span(3, 6), 1, 0, 1, 3));
    assert_eq!(converter.convert(Span(4, 7)), location(Span(4, 7), 1, 1, 2, 0));
    assert_eq!(converter.convert(Span(7, 8)), location(Span(7, 8), 2, 0, 3, 0));
    assert_eq!(converter.convert(Span(0, 8)), location(Span(0, 8), 0, 0, 3, 0));
    assert_eq!(converter.convert(Span(5, 5)), location(Span(5, 5), 1, 2, 1, 2));
}

#[test]
fn span_converter_counts_columns_in_bytes() {
    let source = "é\nxü y";
    assert_eq!(source.len(), 8);
    let converter = SpanConverter::new(source);
    assert_eq!(converter.convert(Span(0, 2)), location(Span(0, 2), 0, 0, 0, 2));
    assert_eq!(converter.convert(Span(3, 4)), location(Span(3, 4), 1, 0, 1, 1));
    assert_eq!(converter.convert(Span(4, 7)), location(Span(4, 7), 1, 1, 1, 4));
}

#[test]
fn span_converter_of_one_line() {
    let converter = SpanConverter::new("hello");
    assert_eq!(converter.convert(Span(0, 4)), location(Span(0, 4), 0, 0, 0, 4));
    assert_eq!(converter.convert(Span(4, 4)), location(Span(4, 4), 0, 4, 0, 4));
}

#[test]
fn span_converter_with_a_newline_at_the_end() {
    let converter = SpanConverter::new("a\nb\n");
    assert_eq!(converter.convert(Span(0, 3)), location(Span(0, 3), 0, 0, 1, 1));
    assert_eq!(converter.convert(Span(1, 2)), location(Span(1, 2), 0, 1, 1, 0));
    assert_eq!(converter.convert(Span(3, 3)), location(Span(3, 3), 1, 1, 1, 1));
}
