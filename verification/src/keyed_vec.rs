//! An append-only list addressed by key.

use crate::key::{Key, INVALID_ID};
use std::marker::PhantomData;
use vstd::prelude::*;

verus! {

/// The list after each of `items` was inserted into `list`, in their order.
pub open spec fn insert_all<T>(list: Seq<T>, items: Seq<T>) -> Seq<T>
    decreases items.len(),
{
    if items.len() == 0 {
        list
    } else {
        insert_all(list.push(items.first()), items.drop_first())
    }
}

/// However many values are inserted, the list only grows, every key that
/// was issued before keeps naming the value that it named, and the key
/// issued for a value names that value.
pub proof fn lemma_inserts_keep_every_key<T>(list: Seq<T>, items: Seq<T>)
    ensures
        insert_all(list, items) == list + items,
        insert_all(list, items).len() == list.len() + items.len(),
        forall|key: int| 0 <= key < list.len() ==> insert_all(list, items)[key] == list[key],
        forall|j: int|
            0 <= j < items.len() ==> insert_all(list, items)[list.len() + j] == items[j],
    decreases items.len(),
{
    if items.len() > 0 {
        lemma_inserts_keep_every_key(list.push(items.first()), items.drop_first());
        assert(list.push(items.first()) + items.drop_first() == list + items);
    } else {
        assert(list + items == list);
    }
}

/// A list that only grows. The key of a value is its position, so a key that
/// was issued once stays valid, and keeps naming the same position, for as
/// long as the list lives.
#[derive(Debug)]
pub struct KeyedVec<K: Key, T> {
    inner: Vec<T>,
    _phantom: PhantomData<K>,
}

impl<K: Key, T> View for KeyedVec<K, T> {
    type V = Seq<T>;

    /// The values in the order in which they were inserted.
    closed spec fn view(&self) -> Seq<T> {
        self.inner@
    }
}

impl<K: Key, T> KeyedVec<K, T> {
    /// An empty list.
    pub fn new() -> (list: Self)
        ensures
            list@ == Seq::<T>::empty(),
    {
        KeyedVec { inner: Vec::new(), _phantom: PhantomData }
    }

    /// The list that holds `values`, the first under key 0.
    pub fn from_vec(values: Vec<T>) -> (list: Self)
        ensures
            list@ == values@,
    {
        KeyedVec { inner: values, _phantom: PhantomData }
    }

    /// The values of the list, in the order of their keys.
    pub fn into_vec(self) -> (values: Vec<T>)
        ensures
            values@ == self@,
    {
        self.inner
    }

    /// Appends `data` and returns its key, which stands for the length of
    /// the list before the call.
    pub fn insert(&mut self, data: T) -> (key: K)
        ensures
            key.spec_id() == old(self)@.len(),
            key.spec_id() != INVALID_ID,
            final(self)@ == old(self)@.push(data),
    {
        let key = K::from_id(self.inner.len());
        self.inner.push(data);
        assert(self.inner@.len() == self.inner.len());
        key
    }

    /// The value that `key` names. A key that this list did not issue is a
    /// programming error, so the caller has to show that it is in range.
    pub fn get(&self, key: K) -> (value: &T)
        requires
            key.spec_id() < self@.len(),
        ensures
            *value == self@[key.spec_id() as int],
    {
        let id = key.id();
        &self.inner[id]
    }

    /// Mutable access to the value that `key` names. Whatever the caller
    /// writes through the reference replaces that value and no other.
    pub fn get_mut(&mut self, key: K) -> (value: &mut T)
        requires
            key.spec_id() < old(self)@.len(),
        ensures
            *value == old(self)@[key.spec_id() as int],
            final(self)@ == old(self)@.update(key.spec_id() as int, *final(value)),
    {
        let id = key.id();
        &mut self.inner[id]
    }
}

impl<K: Key, T> std::ops::Index<K> for KeyedVec<K, T> {
    type Output = T;

    /// The value that `key` names.
    #[inline]
    fn index(&self, key: K) -> (value: &T)
        ensures
            *value == self@[key.spec_id() as int],
    {
        self.get(key)
    }
}

impl<K: Key, T> vstd::std_specs::core::IndexSpecImpl<K> for KeyedVec<K, T> {
    /// Only a key that the list issued can be used as an index.
    open spec fn index_req(&self, key: &K) -> bool {
        key.spec_id() < self@.len()
    }
}

impl<K: Key, T: Clone> Clone for KeyedVec<K, T> {
    /// A list of the same length whose values are clones of this one's,
    /// position by position.
    fn clone(&self) -> (copy: Self)
        ensures
            copy@.len() == self@.len(),
            forall|i: int| 0 <= i < self@.len() ==> cloned::<T>(#[trigger] self@[i], copy@[i]),
    {
        KeyedVec { inner: self.inner.clone(), _phantom: PhantomData }
    }
}

} // verus!
