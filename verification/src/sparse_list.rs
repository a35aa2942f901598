//! A list that keeps the order of its values when one is removed.
//!
//! Removing a value leaves its position behind, empty, so that no other
//! value moves and no position is given out twice. Only [`SparseList::pop`]
//! takes a position away, and only the last one.

use crate::key::{Key, INVALID_ID};
use std::marker::PhantomData;
use vstd::prelude::*;

verus! {

/// The positions at or after `from` that hold a value, each with its value,
/// in the order of the list.
pub open spec fn occupied_from<T>(slots: Seq<Option<T>>, from: int) -> Seq<(int, T)>
    decreases slots.len() - from,
{
    if 0 <= from < slots.len() {
        match slots[from] {
            Some(value) => seq![(from, value)] + occupied_from(slots, from + 1),
            None => occupied_from(slots, from + 1),
        }
    } else {
        Seq::empty()
    }
}

/// The positions that hold a value, each with its value, in the order of
/// the list. This is what the list looks like to one who walks it.
pub open spec fn occupied<T>(slots: Seq<Option<T>>) -> Seq<(int, T)> {
    occupied_from(slots, 0)
}

/// There are no more values than positions.
pub proof fn lemma_occupied_len<T>(slots: Seq<Option<T>>, from: int)
    requires
        0 <= from <= slots.len(),
    ensures
        occupied_from(slots, from).len() <= slots.len() - from,
    decreases slots.len() - from,
{
    if from < slots.len() {
        lemma_occupied_len(slots, from + 1);
    }
}

/// What lies before `from` has no part in what is found from `from` on.
pub proof fn lemma_occupied_from_ignores_prefix<T>(
    slots: Seq<Option<T>>,
    other: Seq<Option<T>>,
    from: int,
)
    requires
        0 <= from,
        slots.len() == other.len(),
        forall|i: int| from <= i < slots.len() ==> slots[i] == other[i],
    ensures
        occupied_from(slots, from) == occupied_from(other, from),
    decreases slots.len() - from,
{
    if from < slots.len() {
        lemma_occupied_from_ignores_prefix(slots, other, from + 1);
    }
}

/// A position added at the end comes last among the occupied ones, if it
/// holds a value, and changes nothing before it.
pub proof fn lemma_occupied_push<T>(slots: Seq<Option<T>>, slot: Option<T>, from: int)
    requires
        0 <= from <= slots.len(),
    ensures
        occupied_from(slots.push(slot), from) == occupied_from(slots, from) + match slot {
            Some(value) => seq![(slots.len() as int, value)],
            None => Seq::empty(),
        },
    decreases slots.len() - from,
{
    if from < slots.len() {
        lemma_occupied_push(slots, slot, from + 1);
    } else {
        assert(occupied_from(slots.push(slot), from + 1) == Seq::<(int, T)>::empty());
    }
}

/// Emptying a position takes one value away where it held one, and none
/// where it held none.
pub proof fn lemma_occupied_len_after_clearing<T>(slots: Seq<Option<T>>, index: int, from: int)
    requires
        0 <= from <= slots.len(),
        0 <= index < slots.len(),
    ensures
        occupied_from(slots.update(index, None), from).len() == occupied_from(slots, from).len()
            - if from <= index && slots[index] is Some {
            1int
        } else {
            0int
        },
    decreases slots.len() - from,
{
    if from < slots.len() {
        lemma_occupied_len_after_clearing(slots, index, from + 1);
    }
}

/// Taking the last position away after its value was removed gives no
/// value, and still leaves the list one position shorter: what is left is
/// what a pop would have left of the list before.
pub proof fn lemma_pop_after_removing_last<T>(list: Seq<Option<T>>)
    requires
        list.len() > 0,
    ensures
        list.update(list.len() - 1, None).last() is None,
        list.update(list.len() - 1, None).drop_last() == list.drop_last(),
        list.update(list.len() - 1, None).drop_last().len() == list.len() - 1,
{
}

/// Two lists that hold values at the same positions hold equally many, and
/// a walk meets the same positions in both.
pub proof fn lemma_occupied_len_same_shape<T>(slots: Seq<Option<T>>, other: Seq<Option<T>>, from: int)
    requires
        0 <= from,
        slots.len() == other.len(),
        forall|i: int| 0 <= i < slots.len() ==> (slots[i] is Some <==> other[i] is Some),
    ensures
        occupied_from(slots, from).len() == occupied_from(other, from).len(),
        forall|j: int|
            0 <= j < occupied_from(slots, from).len() ==> (#[trigger] occupied_from(slots, from)[j]).0
                == occupied_from(other, from)[j].0,
    decreases slots.len() - from,
{
    if from < slots.len() {
        lemma_occupied_len_same_shape(slots, other, from + 1);
    }
}

/// Borrows every value of `slots` mutably, first to last, each with its
/// position. What the caller writes through a reference replaces that value;
/// no position is added, taken away, emptied or filled.
fn collect_occupied<'a, T>(slots: &'a mut Vec<Option<T>>) -> (out: Vec<(usize, &'a mut T)>)
    ensures
        out@.len() == occupied(old(slots)@).len(),
        forall|j: int|
            0 <= j < out@.len() ==> (#[trigger] out@[j]).0 == occupied(old(slots)@)[j].0 && *out@[j].1
                == occupied(old(slots)@)[j].1,
        final(slots)@.len() == old(slots)@.len(),
        forall|i: int|
            0 <= i < old(slots)@.len() ==> (old(slots)@[i] is Some <==> (#[trigger] final(slots)@[i]) is Some),
        forall|j: int|
            0 <= j < out@.len() ==> final(slots)@[(#[trigger] out@[j]).0 as int] == Some(
                *final(out@[j].1),
            ),
{
    let mut out: Vec<(usize, &'a mut T)> = Vec::new();
    let ghost n = slots@.len() as int;
    let ghost fin = final(slots)@;
    let mut rest: &'a mut [Option<T>] = slots.as_mut_slice();
    let mut index: usize = 0;
    assert(n <= usize::MAX) by {
        assert(old(slots)@.len() == old(slots).len());
    }
    while rest.len() > 0
        invariant
            n == old(slots)@.len(),
            n <= usize::MAX,
            0 <= index <= n,
            index <= fin.len(),
            rest@ == old(slots)@.skip(index as int),
            out@.len() == occupied(old(slots)@.take(index as int)).len(),
            forall|j: int|
                0 <= j < out@.len() ==> (#[trigger] out@[j]).0 == occupied(
                    old(slots)@.take(index as int),
                )[j].0 && *out@[j].1 == occupied(old(slots)@.take(index as int))[j].1 && out@[j].0
                    < index,
            fin.skip(index as int) == final(rest)@,
            forall|i: int|
                0 <= i < index ==> (old(slots)@[i] is Some <==> (#[trigger] fin[i]) is Some),
            forall|j: int|
                0 <= j < out@.len() ==> fin[(#[trigger] out@[j]).0 as int] == Some(*final(out@[j].1)),
        decreases rest@.len(),
    {
        let ghost d = index as int;
        proof {
            lemma_occupied_push(old(slots)@.take(d), old(slots)@[d], 0);
            assert(old(slots)@.take(d).push(old(slots)@[d]) == old(slots)@.take(d + 1));
        }
        let (head, tail) = rest.split_at_mut(1);
        let ghost head_fin = final(head)@;
        let ghost tail_fin = final(tail)@;
        assert(fin.skip(d) == head_fin + tail_fin);
        rest = tail;
        match &mut head[0] {
            Some(value) => {
                out.push((index, value));
            },
            None => {},
        }
        proof {
            assert(head_fin.len() == 1);
            assert(fin[d] == fin.skip(d)[0]);
            assert(fin.skip(d + 1) =~= fin.skip(d).skip(1));
            assert((head_fin + tail_fin).skip(1) =~= tail_fin);
        }
        index += 1;
    }
    proof {
        assert(old(slots)@.take(index as int) == old(slots)@);
    }
    out
}

/// A list whose positions are never reused or moved. A position holds a
/// value or, after [`SparseList::remove`], nothing.
#[derive(Debug)]
pub struct SparseList<K: Key, T> {
    inner: Vec<Option<T>>,
    used_count: usize,
    _phantom: PhantomData<K>,
}

impl<K: Key, T> View for SparseList<K, T> {
    type V = Seq<Option<T>>;

    /// The positions of the list, first to last.
    closed spec fn view(&self) -> Seq<Option<T>> {
        self.inner@
    }
}

impl<K: Key, T> SparseList<K, T> {
    /// The invariant of a list: it keeps count of the positions that hold a
    /// value.
    pub closed spec fn wf(&self) -> bool {
        self.used_count == occupied(self.inner@).len()
    }

    /// An empty list.
    pub fn new() -> (list: Self)
        ensures
            list.wf(),
            list@ == Seq::<Option<T>>::empty(),
    {
        SparseList { inner: Vec::new(), used_count: 0, _phantom: PhantomData }
    }

    /// Appends `data` at a new last position and returns the key of that
    /// position.
    pub fn push(&mut self, data: T) -> (key: K)
        requires
            old(self).wf(),
        ensures
            final(self).wf(),
            final(self)@ == old(self)@.push(Some(data)),
            key.spec_id() == old(self)@.len(),
            key.spec_id() != INVALID_ID,
    {
        proof {
            lemma_occupied_push(self.inner@, Some(data), 0);
        }
        self.inner.push(Some(data));
        proof {
            lemma_occupied_len(self.inner@, 0);
            assert(self.inner@.len() == self.inner.len());
        }
        self.used_count += 1;
        K::from_id(self.inner.len() - 1)
    }

    /// Takes the value at position `index` out of the list and leaves the
    /// position empty. A position that the list does not have is a
    /// programming error, so the caller has to show that it is in range.
    pub fn remove(&mut self, index: usize) -> (removed: Option<T>)
        requires
            old(self).wf(),
            index < old(self)@.len(),
        ensures
            final(self).wf(),
            removed == old(self)@[index as int],
            final(self)@ == old(self)@.update(index as int, None),
    {
        proof {
            lemma_occupied_len_after_clearing(self.inner@, index as int, 0);
        }
        let removed = self.inner[index].take();
        if removed.is_some() {
            self.used_count -= 1;
        }
        removed
    }

    /// Takes the last position away, with the value that it holds, if any.
    /// On a list without positions this returns `None` and changes nothing.
    pub fn pop(&mut self) -> (popped: Option<T>)
        requires
            old(self).wf(),
        ensures
            final(self).wf(),
            old(self)@.len() == 0 ==> popped is None && final(self)@ == old(self)@,
            old(self)@.len() > 0 ==> popped == old(self)@.last() && final(self)@ == old(self)@.drop_last(),
    {
        proof {
            if self.inner@.len() > 0 {
                lemma_occupied_push(self.inner@.drop_last(), self.inner@.last(), 0);
                assert(self.inner@.drop_last().push(self.inner@.last()) == self.inner@);
            }
        }
        match self.inner.pop() {
            Some(Some(data)) => {
                self.used_count -= 1;
                Some(data)
            },
            _ => None,
        }
    }

    /// Walks the values of the list, first to last. Empty positions are
    /// passed over.
    pub fn iter<'a>(&'a self) -> (iter: SparseListIter<'a, T>)
        ensures
            iter.remaining() == occupied(self@),
    {
        SparseListIter { slots: self.inner.as_slice(), pos: 0 }
    }

    /// How many positions hold a value.
    pub fn used_count(&self) -> (count: usize)
        requires
            self.wf(),
        ensures
            count == occupied(self@).len(),
    {
        self.used_count
    }

    /// How many positions the list has, empty ones included.
    pub fn slot_count(&self) -> (count: usize)
        ensures
            count == self@.len(),
    {
        self.inner.len()
    }

    /// Walks the values of the list, first to last, with leave to change
    /// them. What the caller writes through a reference replaces that value;
    /// the positions and what they hold otherwise stay as they are.
    pub fn iter_mut<'a>(&'a mut self) -> (iter: SparseListIterMut<'a, T>)
        ensures
            iter.remaining().len() == occupied(old(self)@).len(),
            forall|j: int|
                0 <= j < iter.remaining().len() ==> *#[trigger] iter.remaining()[j] == occupied(
                    old(self)@,
                )[j].1,
            final(self)@.len() == old(self)@.len(),
            forall|i: int|
                0 <= i < old(self)@.len() ==> (old(self)@[i] is Some <==> (#[trigger] final(self)@[i])
                    is Some),
            forall|j: int|
                0 <= j < iter.remaining().len() ==> final(self)@[occupied(old(self)@)[j].0] == Some(
                    *final(#[trigger] iter.remaining()[j]),
                ),
            old(self).wf() ==> final(self).wf(),
    {
        let ghost after = final(self).inner@;
        let mut found = collect_occupied(&mut self.inner);
        proof {
            lemma_occupied_len_same_shape(old(self).inner@, after, 0);
        }
        let ghost all = found@;
        let mut rest: Vec<&'a mut T> = Vec::new();
        while found.len() > 0
            invariant
                found@ == all.take(found@.len() as int),
                found@.len() <= all.len(),
                rest@.len() == all.len() - found@.len(),
                forall|k: int|
                    0 <= k < rest@.len() ==> *#[trigger] rest@[k] == *all[all.len() - 1 - k].1
                        && *final(rest@[k]) == *final(all[all.len() - 1 - k].1),
            decreases found@.len(),
        {
            let ghost last = found@.len() - 1;
            assert(found@[last] == all[last]);
            if let Some((_, value)) = found.pop() {
                rest.push(value);
            }
            assert(found@ == all.take(found@.len() as int));
        }
        SparseListIterMut { rest }
    }

    /// Walks the keys of the positions that hold a value, first to last.
    pub fn iter_keys<'a>(&'a self) -> (iter: SparseListIterKeys<'a, K, T>)
        ensures
            iter.remaining() == occupied(self@),
    {
        SparseListIterKeys { slots: self.inner.as_slice(), pos: 0, _phantom: PhantomData }
    }

    /// Walks the values of the list, first to last, each with the key of its
    /// position and with leave to change it. What the caller writes through
    /// a reference replaces that value; the positions and what they hold
    /// otherwise stay as they are.
    pub fn iter_mut_with_keys<'a>(&'a mut self) -> (iter: SparseListIterMutKeys<'a, K, T>)
        ensures
            iter.remaining().len() == occupied(old(self)@).len(),
            forall|j: int|
                0 <= j < iter.remaining().len() ==> (#[trigger] iter.remaining()[j]).0 == occupied(
                    old(self)@,
                )[j].0 && *iter.remaining()[j].1 == occupied(old(self)@)[j].1,
            final(self)@.len() == old(self)@.len(),
            forall|i: int|
                0 <= i < old(self)@.len() ==> (old(self)@[i] is Some <==> (#[trigger] final(self)@[i])
                    is Some),
            forall|j: int|
                0 <= j < iter.remaining().len() ==> final(self)@[(#[trigger] iter.remaining()[j]).0 as int]
                    == Some(*final(iter.remaining()[j].1)),
            old(self).wf() ==> final(self).wf(),
    {
        let ghost after = final(self).inner@;
        let mut found = collect_occupied(&mut self.inner);
        proof {
            lemma_occupied_len_same_shape(old(self).inner@, after, 0);
        }
        let ghost all = found@;
        let mut rest: Vec<(usize, &'a mut T)> = Vec::new();
        while found.len() > 0
            invariant
                found@ == all.take(found@.len() as int),
                found@.len() <= all.len(),
                rest@.len() == all.len() - found@.len(),
                forall|k: int|
                    0 <= k < rest@.len() ==> (#[trigger] rest@[k]).0 == all[all.len() - 1 - k].0
                        && *rest@[k].1 == *all[all.len() - 1 - k].1 && *final(rest@[k].1) == *final(
                        all[all.len() - 1 - k].1
                    ),
            decreases found@.len(),
        {
            let ghost last = found@.len() - 1;
            assert(found@[last] == all[last]);
            if let Some((index, value)) = found.pop() {
                rest.push((index, value));
            }
            assert(found@ == all.take(found@.len() as int));
        }
        SparseListIterMutKeys { rest, _phantom: PhantomData }
    }

    /// Takes the list apart and walks its values, first to last.
    pub fn into_iter(self) -> (iter: SparseListIntoIter<T>)
        ensures
            iter.remaining() == occupied(self@),
    {
        SparseListIntoIter { slots: self.inner, pos: 0 }
    }

    /// Appends each of `values` at a new last position, in their order.
    pub fn extend(&mut self, values: Vec<T>)
        requires
            old(self).wf(),
        ensures
            final(self).wf(),
            final(self)@ == old(self)@ + values@.map_values(|value: T| Some(value)),
    {
        let ghost items = values@;
        let ghost added = items.map_values(|value: T| Some(value));
        for value in it: values
            invariant
                self.wf(),
                it.seq() == items,
                added == items.map_values(|value: T| Some(value)),
                self@ == old(self)@ + added.take(it.index()),
        {
            assert(added.take(it.index() + 1) == added.take(it.index()).push(Some(value)));
            let _ = self.push(value);
        }
        assert(added.take(items.len() as int) == added);
    }
}

impl<K: Key, T> std::ops::Index<K> for SparseList<K, T> {
    type Output = Option<T>;

    /// What the position that `index` names holds.
    fn index(&self, index: K) -> (slot: &Option<T>)
        ensures
            *slot == self@[index.spec_id() as int],
    {
        &self.inner[index.id()]
    }
}

impl<K: Key, T> vstd::std_specs::core::IndexSpecImpl<K> for SparseList<K, T> {
    /// Only the key of a position that the list has can be used as an index.
    open spec fn index_req(&self, index: &K) -> bool {
        index.spec_id() < self@.len()
    }
}

/// Walks the values of a [`SparseList`] by reference.
pub struct SparseListIter<'a, T: 'a> {
    slots: &'a [Option<T>],
    pos: usize,
}

impl<'a, T: 'a> SparseListIter<'a, T> {
    /// The positions still to come that hold a value, each with its value.
    pub closed spec fn remaining(&self) -> Seq<(int, T)> {
        occupied_from(self.slots@, self.pos as int)
    }

    /// The next value, or `None` when no position that is left holds one.
    pub fn next(&mut self) -> (item: Option<&'a T>)
        ensures
            match item {
                Some(value) => old(self).remaining().len() > 0 && *value == old(self).remaining()[0].1 && final(self).remaining() == old(self).remaining().drop_first(),
                None => old(self).remaining().len() == 0 && final(self).remaining().len() == 0,
            },
    {
        while self.pos < self.slots.len()
            invariant
                self.slots == old(self).slots,
                self.remaining() == old(self).remaining(),
            decreases self.slots@.len() - self.pos,
        {
            let i = self.pos;
            self.pos += 1;
            if let Some(value) = &self.slots[i] {
                assert(old(self).remaining() == seq![(i as int, *value)] + self.remaining());
                assert(old(self).remaining().drop_first() == self.remaining());
                return Some(value);
            }
        }

        None
    }
}

/// Walks the values of a [`SparseList`] by mutable reference.
pub struct SparseListIterMut<'a, T: 'a> {
    rest: Vec<&'a mut T>,
}

impl<'a, T: 'a> SparseListIterMut<'a, T> {
    /// The references still to come, the next one first.
    pub closed spec fn remaining(&self) -> Seq<&'a mut T> {
        self.rest@.reverse()
    }

    /// The next value, or `None` when none is left.
    pub fn next(&mut self) -> (item: Option<&'a mut T>)
        ensures
            match item {
                Some(value) => old(self).remaining().len() > 0 && value == old(self).remaining()[0]
                    && final(self).remaining() == old(self).remaining().drop_first(),
                None => old(self).remaining().len() == 0 && final(self).remaining().len() == 0,
            },
    {
        let item = self.rest.pop();
        assert(old(self).rest@.len() > 0 ==> self.rest@.reverse() =~= old(self).rest@.reverse().drop_first());
        item
    }
}

/// Walks the keys of the occupied positions of a [`SparseList`].
pub struct SparseListIterKeys<'a, K: Key, T: 'a> {
    slots: &'a [Option<T>],
    pos: usize,
    _phantom: PhantomData<K>,
}

impl<'a, K: Key, T: 'a> SparseListIterKeys<'a, K, T> {
    /// The positions still to come that hold a value, each with its value.
    pub closed spec fn remaining(&self) -> Seq<(int, T)> {
        occupied_from(self.slots@, self.pos as int)
    }

    /// The key of the next position that holds a value, or `None` when no
    /// position that is left holds one.
    pub fn next(&mut self) -> (item: Option<K>)
        ensures
            match item {
                Some(key) => old(self).remaining().len() > 0 && key.spec_id() == old(self).remaining()[0].0 && final(self).remaining() == old(self).remaining().drop_first(),
                None => old(self).remaining().len() == 0 && final(self).remaining().len() == 0,
            },
    {
        while self.pos < self.slots.len()
            invariant
                self.slots == old(self).slots,
                self.remaining() == old(self).remaining(),
            decreases self.slots@.len() - self.pos,
        {
            let i = self.pos;
            self.pos += 1;
            if self.slots[i].is_some() {
                assert(old(self).remaining() == seq![(i as int, self.slots@[i as int].unwrap())]
                    + self.remaining());
                assert(old(self).remaining().drop_first() == self.remaining());
                return Some(K::from_id(i));
            }
        }

        None
    }
}

/// Walks the values of a [`SparseList`] by mutable reference, each with the
/// key of its position.
pub struct SparseListIterMutKeys<'a, K: Key, T: 'a> {
    rest: Vec<(usize, &'a mut T)>,
    _phantom: PhantomData<K>,
}

impl<'a, K: Key, T: 'a> SparseListIterMutKeys<'a, K, T> {
    /// The positions still to come, each with the reference to its value,
    /// the next one first.
    pub closed spec fn remaining(&self) -> Seq<(usize, &'a mut T)> {
        self.rest@.reverse()
    }

    /// The next key and value, or `None` when none is left.
    pub fn next(&mut self) -> (item: Option<(K, &'a mut T)>)
        ensures
            match item {
                Some(entry) => old(self).remaining().len() > 0 && entry.0.spec_id() == old(self).remaining()[0].0 && *entry.1 == *old(self).remaining()[0].1 && *final(entry.1)
                    == *final(old(self).remaining()[0].1) && final(self).remaining() == old(self).remaining().drop_first(),
                None => old(self).remaining().len() == 0 && final(self).remaining().len() == 0,
            },
    {
        let item = self.rest.pop();
        assert(old(self).rest@.len() > 0 ==> self.rest@.reverse() =~= old(self).rest@.reverse().drop_first());
        match item {
            Some((index, value)) => Some((K::from_id(index), value)),
            None => None,
        }
    }
}

/// Walks the values of a [`SparseList`] that was taken apart.
pub struct SparseListIntoIter<T> {
    slots: Vec<Option<T>>,
    pos: usize,
}

impl<T> SparseListIntoIter<T> {
    /// The positions still to come that hold a value, each with its value.
    pub closed spec fn remaining(&self) -> Seq<(int, T)> {
        occupied_from(self.slots@, self.pos as int)
    }

    /// The next value, or `None` when no position that is left holds one.
    pub fn next(&mut self) -> (item: Option<T>)
        ensures
            match item {
                Some(value) => old(self).remaining().len() > 0 && value == old(self).remaining()[0].1 && final(self).remaining() == old(self).remaining().drop_first(),
                None => old(self).remaining().len() == 0 && final(self).remaining().len() == 0,
            },
    {
        while self.pos < self.slots.len()
            invariant
                self.slots@.len() == old(self).slots@.len(),
                self.remaining() == old(self).remaining(),
            decreases self.slots@.len() - self.pos,
        {
            let i = self.pos;
            let ghost before = self.slots@;
            let ghost unchanged = self.remaining();
            self.pos += 1;
            let item = self.slots[i].take();
            proof {
                lemma_occupied_from_ignores_prefix(before, self.slots@, i + 1);
            }
            if item.is_some() {
                assert(unchanged == seq![(i as int, item.unwrap())] + self.remaining());
                assert(unchanged.drop_first() == self.remaining());
                return item;
            }
        }

        None
    }
}

} // verus!
