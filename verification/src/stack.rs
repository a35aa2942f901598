//! A last-in, first-out stack.

use std::iter::Rev;
use std::slice::Iter;
use vstd::prelude::*;
use vstd::std_specs::iter::IteratorSpec;

verus! {

/// A stack. Where a position is counted, it is counted from the top: 0 is
/// the item pushed last.
#[derive(Debug, Clone, PartialEq)]
pub struct Stack<T>(Vec<T>);

impl<T> View for Stack<T> {
    type V = Seq<T>;

    /// The items from the bottom of the stack to its top.
    closed spec fn view(&self) -> Seq<T> {
        self.0@
    }
}

/// The place, counted from the bottom, of the item that is `index` places
/// below the top of a stack of `len` items; the bottom itself where the stack
/// is not that deep.
pub open spec fn from_top(len: nat, index: usize) -> int {
    if index < len {
        len - index - 1
    } else {
        0
    }
}

impl<T> Stack<T> {
    /// Creates a new stack
    pub fn new() -> (stack: Self)
        ensures
            stack@ == Seq::<T>::empty(),
    {
        Stack(Vec::with_capacity(4))
    }

    /// The stack that holds `items`, the last of them on top.
    pub fn from_vec(items: Vec<T>) -> (stack: Self)
        ensures
            stack@ == items@,
    {
        Stack(items)
    }

    /// The items of the stack, from the bottom to the top.
    pub fn into_vec(self) -> (items: Vec<T>)
        ensures
            items@ == self@,
    {
        self.0
    }

    /// Clears the stack
    pub fn clear(&mut self)
        ensures
            final(self)@ == Seq::<T>::empty(),
    {
        self.0.clear();
    }

    /// Creates a new stack with at least `capacity` empty slots
    pub fn with_capacity(capacity: usize) -> (stack: Self)
        ensures
            stack@ == Seq::<T>::empty(),
    {
        Stack(Vec::with_capacity(capacity.max(4)))
    }

    /// Pushes the item onto the stack
    pub fn push(&mut self, item: T)
        ensures
            final(self)@ == old(self)@.push(item),
    {
        self.0.push(item);
    }

    /// Pops the item pushed last, or returns `None` where there is none
    pub fn pop(&mut self) -> (item: Option<T>)
        ensures
            old(self)@.len() == 0 ==> item is None && final(self)@ == old(self)@,
            old(self)@.len() > 0 ==> item == Some(old(self)@.last()) && final(self)@ == old(self)@.drop_last(),
    {
        self.0.pop()
    }

    /// Gets a reference to the item pushed last, if there is one
    pub fn last(&self) -> (item: Option<&T>)
        ensures
            match item {
                Some(item) => self@.len() > 0 && *item == self@.last(),
                None => self@.len() == 0,
            },
    {
        self.0.as_slice().last()
    }

    /// Gets a mutable reference to the item pushed last, if there is one.
    /// Whatever the caller writes through it replaces that item and no other.
    pub fn last_mut(&mut self) -> (item: Option<&mut T>)
        ensures
            match item {
                Some(item) => old(self)@.len() > 0 && *item == old(self)@.last() && final(self)@
                    == old(self)@.update(old(self)@.len() - 1, *final(item)),
                None => old(self)@.len() == 0 && final(self)@ == old(self)@,
            },
    {
        self.0.as_mut_slice().last_mut()
    }

    /// Iterate from the top of the stack to the bottom.
    pub fn iter<'a>(&'a self) -> (iter: Rev<Iter<'a, T>>)
        ensures
            iter.remaining() == self@.reverse().map_values(|item: T| &item),
            iter.obeys_prophetic_iter_laws(),
            iter.decrease() is Some,
            iter.initial_value_relation(&iter),
    {
        self.0.iter().rev()
    }

    /// Iterate from the top of the stack to the bottom, mutably. Whatever
    /// the caller writes through a reference replaces that item and no other.
    pub fn iter_mut<'a>(&'a mut self) -> (iter: StackIterMut<'a, T>)
        ensures
            iter.remaining().len() == old(self)@.len(),
            final(self)@.len() == old(self)@.len(),
            forall|i: int|
                0 <= i < old(self)@.len() ==> *#[trigger] iter.remaining()[i] == old(self)@[from_top(
                    old(self)@.len(),
                    i as usize,
                )],
            forall|i: int|
                0 <= i < old(self)@.len() ==> final(self)@[from_top(old(self)@.len(), i as usize)]
                    == *final(#[trigger] iter.remaining()[i]),
    {
        let mut rest: Vec<&'a mut T> = Vec::new();
        let ghost len = self.0@.len() as int;
        let ghost after = final(self).0@;
        assert(len <= usize::MAX) by {
            assert(self.0@.len() == self.0.len());
        }
        let mut below: &'a mut [T] = self.0.as_mut_slice();
        let ghost mut done: int = 0;
        while below.len() > 0
            invariant
                len == old(self).0@.len(),
                0 <= done <= len,
                done <= after.len(),
                below@ == old(self).0@.skip(done),
                rest@.len() == done,
                forall|j: int| 0 <= j < done ==> *#[trigger] rest@[j] == old(self).0@[j],
                after.skip(done) == final(below)@,
                forall|j: int| 0 <= j < done ==> after[j] == *final(#[trigger] rest@[j]),
            decreases below@.len(),
        {
            let (head, tail) = below.split_at_mut(1);
            let ghost head_after = final(head)@;
            let ghost tail_after = final(tail)@;
            assert(after.skip(done) == head_after + tail_after);
            below = tail;
            rest.push(&mut head[0]);
            proof {
                assert(head_after.len() == 1);
                assert(after[done] == after.skip(done)[0]);
                assert(after.skip(done + 1) =~= after.skip(done).skip(1));
                assert((head_after + tail_after).skip(1) =~= tail_after);
                done = done + 1;
            }
        }
        StackIterMut { rest }
    }

    /// How many items the stack holds
    pub fn len(&self) -> (len: usize)
        ensures
            len == self@.len(),
    {
        self.0.len()
    }
}

/// Walks the items of a [`Stack`] by mutable reference, from the top down.
pub struct StackIterMut<'a, T: 'a> {
    rest: Vec<&'a mut T>,
}

impl<'a, T: 'a> StackIterMut<'a, T> {
    /// The references still to come, the next one first.
    pub closed spec fn remaining(&self) -> Seq<&'a mut T> {
        self.rest@.reverse()
    }

    /// The next item down, or `None` below the bottom.
    pub fn next(&mut self) -> (item: Option<&'a mut T>)
        ensures
            match item {
                Some(item) => old(self).remaining().len() > 0 && item == old(self).remaining()[0]
                    && final(self).remaining() == old(self).remaining().drop_first(),
                None => old(self).remaining().len() == 0 && final(self).remaining().len() == 0,
            },
    {
        let item = self.rest.pop();
        assert(old(self).rest@.len() > 0 ==> self.rest@.reverse() =~= old(self).rest@.reverse().drop_first());
        item
    }
}

impl<T> std::ops::Index<usize> for Stack<T> {
    type Output = T;

    /// The item `index` places below the top.
    fn index(&self, index: usize) -> (item: &T)
        ensures
            *item == self@[from_top(self@.len(), index)],
    {
        let index = self.0.len().saturating_sub(index + 1);
        &self.0[index]
    }
}

impl<T> vstd::std_specs::core::IndexSpecImpl<usize> for Stack<T> {
    /// An empty stack has no item to give, and `usize::MAX` places below the
    /// top cannot be counted.
    open spec fn index_req(&self, index: &usize) -> bool {
        self@.len() > 0 && *index < usize::MAX
    }
}

} // verus!
