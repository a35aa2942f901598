//! A keyed map that recycles the slots of removed values.
//!
//! Keys carry no generation: a key that is kept after its value was removed
//! names whatever is put into the same slot later. Keeping keys and values
//! apart is left to the caller.

use crate::key::{Key, INVALID_ID};
use vstd::prelude::*;

verus! {

/// One cell of a [`SlotMap`]. A cell is in exactly one of three states.
#[derive(Debug, Clone)]
pub enum Slot<T> {
    /// The cell holds a value.
    Occupied(T),
    /// The cell's key was handed out, but no value was put in yet.
    Reserved,
    /// The cell is unused: it was freed, and may be handed out again.
    Empty,
}

impl<T> Slot<T> {
    /// The value in the cell, if it holds one.
    pub open spec fn value(self) -> Option<T> {
        match self {
            Slot::Occupied(data) => Some(data),
            _ => None,
        }
    }

    /// Empties the cell and returns the value that it held, if any.
    pub fn take(&mut self) -> (taken: Option<T>)
        ensures
            *final(self) == Slot::<T>::Empty,
            taken == old(self).value(),
    {
        let mut slot = Slot::Empty;
        std::mem::swap(self, &mut slot);
        match slot {
            Slot::Occupied(data) => Some(data),
            _ => None,
        }
    }

    /// Puts `data` into the cell, whatever state it was in.
    #[inline]
    pub fn insert(&mut self, data: T)
        ensures
            *final(self) == Slot::Occupied(data),
    {
        *self = Slot::Occupied(data);
    }

    /// Whether the cell is [`Slot::Reserved`].
    pub fn is_reserved(&self) -> (reserved: bool)
        ensures
            reserved == (self is Reserved),
    {
        match self {
            Slot::Reserved => true,
            _ => false,
        }
    }

    /// Whether the cell is [`Slot::Occupied`].
    pub fn has_data(&self) -> (occupied: bool)
        ensures
            occupied == (self is Occupied),
    {
        match self {
            Slot::Occupied(_) => true,
            _ => false,
        }
    }

    /// The value in the cell, if it holds one.
    pub fn as_ref(&self) -> (data: Option<&T>)
        ensures
            match data {
                Some(data) => self.value() == Some(*data),
                None => self.value() is None,
            },
    {
        match self {
            Slot::Occupied(data) => Some(data),
            _ => None,
        }
    }

    /// Mutable access to the value in the cell, if it holds one. The cell
    /// stays occupied, with whatever the caller writes through the reference.
    pub fn as_mut(&mut self) -> (data: Option<&mut T>)
        ensures
            match data {
                Some(data) => old(self).value() == Some(*data) && *final(self) == Slot::Occupied(
                    *final(data),
                ),
                None => old(self).value() is None && *final(self) == *old(self),
            },
    {
        match self {
            Slot::Occupied(data) => Some(data),
            _ => None,
        }
    }
}

/// The integers that `keys` stand for, in the same order.
pub open spec fn key_ids<K: Key>(keys: Seq<K>) -> Seq<usize> {
    keys.map_values(|key: K| key.spec_id())
}

/// What a [`SlotMap`] holds: its cells, in the order of their keys, and the
/// keys that wait to be handed out again, the one freed last at the end.
#[verifier::ext_equal]
pub struct SlotMapView<T> {
    pub slots: Seq<Slot<T>>,
    pub free: Seq<usize>,
}

impl<T> SlotMapView<T> {
    /// Whether `id` is the key of a cell that is [`Slot::Empty`].
    pub open spec fn is_empty_slot(self, id: usize) -> bool {
        id < self.slots.len() && self.slots[id as int] is Empty
    }

    /// Whether `id` is the key of a cell that is [`Slot::Reserved`].
    pub open spec fn is_reserved(self, id: usize) -> bool {
        id < self.slots.len() && self.slots[id as int] is Reserved
    }

    /// Whether `id` is a key in use: that of a cell that is reserved or
    /// occupied.
    pub open spec fn is_valid(self, id: usize) -> bool {
        id < self.slots.len() && !(self.slots[id as int] is Empty)
    }

    /// The value that key `id` names, if it names one.
    pub open spec fn value(self, id: usize) -> Option<T> {
        if id < self.slots.len() {
            self.slots[id as int].value()
        } else {
            None
        }
    }

    /// The invariant of a map: every waiting key names an empty cell, none
    /// waits twice, and the cells can be counted in a `usize`.
    pub open spec fn wf(self) -> bool {
        &&& self.slots.len() <= usize::MAX
        &&& self.free.no_duplicates()
        &&& forall|i: int| 0 <= i < self.free.len() ==> self.is_empty_slot(#[trigger] self.free[i])
    }

    /// The key that the next [`SlotMap::insert`] or [`SlotMap::reserve_slot`]
    /// returns: the one freed last, or a new one where none waits.
    pub open spec fn next_key(self) -> usize {
        if self.free.len() > 0 {
            self.free.last()
        } else {
            self.slots.len() as usize
        }
    }

    /// The map after its next key was handed out and the key's cell set to
    /// `slot`. A cell is added only where no key waits.
    pub open spec fn acquire(self, slot: Slot<T>) -> Self {
        if self.free.len() > 0 {
            SlotMapView {
                slots: self.slots.update(self.free.last() as int, slot),
                free: self.free.drop_last(),
            }
        } else {
            SlotMapView { slots: self.slots.push(slot), free: self.free }
        }
    }

    /// The map after cell `id` was set to hold `data`.
    pub open spec fn fill(self, id: usize, data: T) -> Self {
        SlotMapView { slots: self.slots.update(id as int, Slot::Occupied(data)), free: self.free }
    }

    /// The map after [`SlotMap::remove`] of key `id`: a key in use is freed,
    /// and waits as the next to be handed out; any other leaves the map as
    /// it is.
    pub open spec fn remove(self, id: usize) -> Self {
        if self.is_valid(id) {
            SlotMapView {
                slots: self.slots.update(id as int, Slot::Empty),
                free: self.free.push(id),
            }
        } else {
            self
        }
    }
}

impl<T> SlotMapView<T> {
    /// The cells of the map, in the order of their keys, and its waiting
    /// keys: all that has to be kept to have the map again.
    pub open spec fn parts(self) -> (Seq<Slot<T>>, Seq<usize>) {
        (self.slots, self.free)
    }

    /// The map that `slots` and `free` are the parts of, if they are those
    /// of a map.
    pub open spec fn from_parts(slots: Seq<Slot<T>>, free: Seq<usize>) -> Option<Self> {
        let map = SlotMapView { slots, free };
        if map.wf() {
            Some(map)
        } else {
            None
        }
    }

    /// The map after each key of `ids` was removed, in their order.
    pub open spec fn remove_all(self, ids: Seq<usize>) -> Self
        decreases ids.len(),
    {
        if ids.len() == 0 {
            self
        } else {
            self.remove(ids.first()).remove_all(ids.drop_first())
        }
    }

    /// The map after a key was handed out for each of `slots`, in their
    /// order, and its cell set to that slot.
    pub open spec fn acquire_all(self, slots: Seq<Slot<T>>) -> Self
        decreases slots.len(),
    {
        if slots.len() == 0 {
            self
        } else {
            self.acquire(slots.first()).acquire_all(slots.drop_first())
        }
    }

    /// The keys that are handed out, one after the other, for `slots`.
    pub open spec fn next_keys(self, slots: Seq<Slot<T>>) -> Seq<usize>
        decreases slots.len(),
    {
        if slots.len() == 0 {
            Seq::empty()
        } else {
            seq![self.next_key()] + self.acquire(slots.first()).next_keys(slots.drop_first())
        }
    }
}

/// Handing a key out keeps the invariant, as long as a key waits or the
/// cells can still be counted after one more.
pub proof fn lemma_acquire_keeps_wf<T>(map: SlotMapView<T>, slot: Slot<T>)
    requires
        map.wf(),
        map.free.len() > 0 || map.slots.len() < usize::MAX,
    ensures
        map.acquire(slot).wf(),
        map.acquire(slot).slots[map.next_key() as int] == slot,
{
    let after = map.acquire(slot);
    if map.free.len() > 0 {
        assert(map.is_empty_slot(map.free.last()));
        assert forall|i: int| 0 <= i < after.free.len() implies after.is_empty_slot(
            #[trigger] after.free[i],
        ) by {
            assert(map.is_empty_slot(map.free[i]));
            assert(map.free[i] != map.free[map.free.len() - 1]);
        }
    } else {
        assert forall|i: int| 0 <= i < after.free.len() implies after.is_empty_slot(
            #[trigger] after.free[i],
        ) by {
            assert(map.is_empty_slot(map.free[i]));
        }
    }
}

/// Removing a key keeps the invariant, whatever the key.
pub proof fn lemma_remove_keeps_wf<T>(map: SlotMapView<T>, id: usize)
    requires
        map.wf(),
    ensures
        map.remove(id).wf(),
{
    let after = map.remove(id);
    if map.is_valid(id) {
        assert forall|i: int| 0 <= i < after.free.len() implies after.is_empty_slot(
            #[trigger] after.free[i],
        ) by {
            if i < map.free.len() {
                assert(map.is_empty_slot(map.free[i]));
            }
        }
        assert forall|i: int, j: int|
            0 <= i < after.free.len() && 0 <= j < after.free.len() && i != j implies after.free[i]
            != after.free[j] by {
            if i < map.free.len() {
                assert(map.is_empty_slot(map.free[i]));
            }
            if j < map.free.len() {
                assert(map.is_empty_slot(map.free[j]));
            }
        }
    }
}

/// A key that was freed is the next to be handed out, and handing it out
/// adds no cell: the map is as before but for the cell of that key.
pub proof fn lemma_freed_key_is_reused<T>(map: SlotMapView<T>, id: usize, slot: Slot<T>)
    requires
        map.is_valid(id),
    ensures
        map.remove(id).next_key() == id,
        map.remove(id).acquire(slot) == (SlotMapView {
            slots: map.slots.update(id as int, slot),
            free: map.free,
        }),
{
    assert(map.free.push(id).drop_last() == map.free);
}

/// Removing a key that is not in use changes nothing; so neither does
/// removing a key a second time, nor removing one that was never handed out.
pub proof fn lemma_remove_twice_is_remove_once<T>(map: SlotMapView<T>, id: usize)
    ensures
        !map.remove(id).is_valid(id),
        map.remove(id).value(id) is None,
        map.remove(id).remove(id) == map.remove(id),
        id >= map.slots.len() ==> map.remove(id) == map,
{
}

/// A key that was reserved and not filled yet names no value.
pub proof fn lemma_reserved_key_has_no_value<T>(map: SlotMapView<T>)
    requires
        map.wf(),
    ensures
        map.acquire(Slot::Reserved).value(map.next_key()) is None,
        map.acquire(Slot::Reserved).is_reserved(map.next_key()),
{
    if map.free.len() > 0 {
        assert(map.is_empty_slot(map.free.last()));
    }
}

/// Removing keys that are in use, each once, puts them on top of the waiting
/// keys in the order of their removal.
pub proof fn lemma_removed_keys_wait_in_order<T>(map: SlotMapView<T>, ids: Seq<usize>)
    requires
        map.wf(),
        ids.no_duplicates(),
        forall|i: int| 0 <= i < ids.len() ==> map.is_valid(#[trigger] ids[i]),
    ensures
        map.remove_all(ids).wf(),
        map.remove_all(ids).free == map.free + ids,
        map.remove_all(ids).slots.len() == map.slots.len(),
    decreases ids.len(),
{
    if ids.len() > 0 {
        let next = map.remove(ids.first());
        let rest = ids.drop_first();
        lemma_remove_keeps_wf(map, ids.first());
        assert forall|i: int| 0 <= i < rest.len() implies next.is_valid(#[trigger] rest[i]) by {
            assert(rest[i] == ids[i + 1]);
            assert(map.is_valid(ids[i + 1]));
            assert(ids[i + 1] != ids[0]);
        }
        lemma_removed_keys_wait_in_order(next, rest);
        assert(map.free.push(ids.first()) + rest == map.free + ids);
    } else {
        assert(map.free + ids == map.free);
    }
}

/// While keys wait, they are handed out last freed first, and no cell is
/// added: where `stack` lies on top of the waiting keys, the next keys are
/// `stack` read backwards, and what lay below is still there afterwards.
pub proof fn lemma_waiting_keys_return_in_reverse<T>(
    map: SlotMapView<T>,
    below: Seq<usize>,
    stack: Seq<usize>,
    slots: Seq<Slot<T>>,
)
    requires
        map.wf(),
        map.free == below + stack,
        slots.len() == stack.len(),
    ensures
        map.next_keys(slots) == stack.reverse(),
        map.acquire_all(slots).wf(),
        map.acquire_all(slots).free == below,
        map.acquire_all(slots).slots.len() == map.slots.len(),
    decreases slots.len(),
{
    if slots.len() > 0 {
        let next = map.acquire(slots.first());
        lemma_acquire_keeps_wf(map, slots.first());
        assert(map.free.last() == stack.last());
        assert(next.free == below + stack.drop_last());
        lemma_waiting_keys_return_in_reverse(next, below, stack.drop_last(), slots.drop_first());
        assert(seq![stack.last()] + stack.drop_last().reverse() == stack.reverse());
    } else {
        assert(below + stack == below);
    }
}

/// Keys that were freed come back last freed first, before any cell is
/// added: after the keys `ids`, all in use, were removed, the next keys to be
/// handed out are `ids` read backwards, and once they are all out the map has
/// the cells and the waiting keys that it had before.
pub proof fn lemma_freed_keys_return_last_freed_first<T>(
    map: SlotMapView<T>,
    ids: Seq<usize>,
    slots: Seq<Slot<T>>,
)
    requires
        map.wf(),
        ids.no_duplicates(),
        forall|i: int| 0 <= i < ids.len() ==> map.is_valid(#[trigger] ids[i]),
        slots.len() == ids.len(),
    ensures
        map.remove_all(ids).next_keys(slots) == ids.reverse(),
        map.remove_all(ids).acquire_all(slots).wf(),
        map.remove_all(ids).acquire_all(slots).free == map.free,
        map.remove_all(ids).acquire_all(slots).slots.len() == map.slots.len(),
{
    lemma_removed_keys_wait_in_order(map, ids);
    lemma_waiting_keys_return_in_reverse(map.remove_all(ids), map.free, ids, slots);
}

/// A map that is taken apart and put together again is the same map: every
/// cell is in the state it was in, reserved cells and empty ones too, and the
/// same keys wait in the same order.
pub proof fn lemma_parts_make_the_same_map<T>(map: SlotMapView<T>)
    requires
        map.wf(),
    ensures
        SlotMapView::from_parts(map.parts().0, map.parts().1) == Some(map),
{
}

/// A map from keys to values that hands the keys of removed values out
/// again, last freed first, before it makes a new one.
#[derive(Debug, Clone)]
pub struct SlotMap<K: Key, T> {
    inner: Vec<Slot<T>>,
    free: Vec<K>,
}

impl<K: Key, T> View for SlotMap<K, T> {
    type V = SlotMapView<T>;

    closed spec fn view(&self) -> SlotMapView<T> {
        SlotMapView { slots: self.inner@, free: key_ids(self.free@) }
    }
}

impl<K: Key, T> SlotMap<K, T> {
    /// Hands out the next key, with its cell reserved.
    fn get_slot(&mut self) -> (key: K)
        requires
            old(self)@.wf(),
        ensures
            final(self)@.wf(),
            key.spec_id() == old(self)@.next_key(),
            key.spec_id() != INVALID_ID,
            final(self)@ == old(self)@.acquire(Slot::Reserved),
    {
        let ghost before = self@;
        let k;
        if let Some(key) = self.free.pop() {
            assert(before.is_empty_slot(before.free.last()));
            let id = key.id();
            self.inner[id] = Slot::Reserved;
            k = key;
            assert(self@.free == before.free.drop_last());
        } else {
            k = K::from_id(self.inner.len());
            self.inner.push(Slot::Reserved);
            assert(self@.free == before.free);
            assert(self.inner@.len() == self.inner.len());
        }
        proof {
            lemma_acquire_keeps_wf(before, Slot::Reserved);
        }

        k
    }

    /// Whether the key names a reserved cell or a value that the map holds.
    fn is_key_valid(&self, k: &K) -> (valid: bool)
        ensures
            valid == self@.is_valid(k.spec_id()),
    {
        if k.id() < self.inner.len() {
            let d = &self.inner[k.id()];
            d.has_data() || d.is_reserved()
        } else {
            false
        }
    }

    /// An empty map.
    pub fn new() -> (map: Self)
        ensures
            map@.wf(),
            map@.slots == Seq::<Slot<T>>::empty(),
            map@.free == Seq::<usize>::empty(),
    {
        SlotMap { inner: Vec::new(), free: Vec::new() }
    }

    /// Takes the map apart into its cells, in the order of their keys, and
    /// its waiting keys, the one freed last at the end.
    pub fn into_parts(self) -> (parts: (Vec<Slot<T>>, Vec<K>))
        ensures
            (parts.0@, key_ids(parts.1@)) == self@.parts(),
    {
        (self.inner, self.free)
    }

    /// Puts a map together from its cells and its waiting keys, as
    /// [`SlotMap::into_parts`] gives them. Where they do not make a map,
    /// because a waiting key names no empty cell or waits twice, both come
    /// back in `Err`.
    pub fn from_parts(slots: Vec<Slot<T>>, free: Vec<K>) -> (map: Result<Self, (Vec<Slot<T>>, Vec<K>)>)
        ensures
            match map {
                Ok(map) => SlotMapView::from_parts(slots@, key_ids(free@)) == Some(map@),
                Err(parts) => SlotMapView::from_parts(slots@, key_ids(free@)) is None && parts == (
                    slots,
                    free,
                ),
            },
    {
        let ghost view = SlotMapView { slots: slots@, free: key_ids(free@) };
        let mut seen: Vec<bool> = Vec::new();
        while seen.len() < slots.len()
            invariant
                seen@.len() <= slots@.len(),
                forall|p: int| 0 <= p < seen@.len() ==> !seen@[p],
            decreases slots@.len() - seen@.len(),
        {
            seen.push(false);
        }
        let mut checked: usize = 0;
        while checked < free.len()
            invariant
                view == (SlotMapView { slots: slots@, free: key_ids(free@) }),
                checked <= free@.len(),
                seen@.len() == slots@.len(),
                forall|p: int|
                    0 <= p < seen@.len() ==> (#[trigger] seen@[p] <==> exists|q: int|
                        0 <= q < checked && #[trigger] view.free[q] == p),
                forall|q: int| 0 <= q < checked ==> view.is_empty_slot(#[trigger] view.free[q]),
                forall|q: int, r: int| 0 <= q < r < checked ==> view.free[q] != view.free[r],
            decreases free@.len() - checked,
        {
            let id = free[checked].id();
            assert(view.free[checked as int] == id);
            if id >= slots.len() {
                assert(!view.is_empty_slot(view.free[checked as int]));
                return Err((slots, free));
            }
            if slots[id].has_data() || slots[id].is_reserved() {
                assert(!view.is_empty_slot(view.free[checked as int]));
                return Err((slots, free));
            }
            if seen[id] {
                let ghost earlier = choose|q: int| 0 <= q < checked && view.free[q] == id;
                assert(view.free[earlier] == view.free[checked as int]);
                return Err((slots, free));
            }
            seen[id] = true;
            checked += 1;
        }
        assert(slots@.len() == slots.len());
        Ok(SlotMap { inner: slots, free })
    }

    /// Puts `data` into the map and returns its key: the key freed last, or
    /// a new one where no freed key waits.
    pub fn insert(&mut self, data: T) -> (key: K)
        requires
            old(self)@.wf(),
        ensures
            final(self)@.wf(),
            key.spec_id() == old(self)@.next_key(),
            key.spec_id() != INVALID_ID,
            final(self)@ == old(self)@.acquire(Slot::Occupied(data)),
    {
        let key = self.get_slot();
        let id = key.id();
        self.inner[id].insert(data);
        assert(self@.slots == old(self)@.acquire(Slot::Occupied(data)).slots);

        key
    }

    /// Returns a key whose value comes later, through
    /// [`SlotMap::insert_reserved`]. The key is picked as by
    /// [`SlotMap::insert`].
    #[inline]
    pub fn reserve_slot(&mut self) -> (key: K)
        requires
            old(self)@.wf(),
        ensures
            final(self)@.wf(),
            key.spec_id() == old(self)@.next_key(),
            key.spec_id() != INVALID_ID,
            final(self)@ == old(self)@.acquire(Slot::Reserved),
    {
        self.get_slot()
    }

    /// Fills the cell that `key` reserved. Where `key` does not name a
    /// reserved cell, the map stays as it is and `data` comes back in `Err`.
    pub fn insert_reserved(&mut self, key: K, data: T) -> (filled: Result<(), T>)
        requires
            old(self)@.wf(),
        ensures
            final(self)@.wf(),
            old(self)@.is_reserved(key.spec_id()) ==> filled == Ok::<(), T>(()) && final(self)@
                == old(self)@.fill(key.spec_id(), data),
            !old(self)@.is_reserved(key.spec_id()) ==> filled == Err::<(), T>(data) && final(self)@
                == old(self)@,
    {
        if !self.is_key_valid(&key) {
            return Err(data);
        }
        let id = key.id();
        if !self.inner[id].is_reserved() {
            return Err(data);
        }
        self.inner[id].insert(data);

        Ok(())
    }

    /// The value that `key` names. A reserved cell holds no value yet, so
    /// its key gives `None`, as does a key that is not in use.
    pub fn get(&self, key: K) -> (value: Option<&T>)
        ensures
            match value {
                Some(value) => self@.value(key.spec_id()) == Some(*value),
                None => self@.value(key.spec_id()) is None,
            },
    {
        if !self.is_key_valid(&key) {
            return None;
        }
        let id = key.id();
        self.inner[id].as_ref()
    }

    /// Mutable access to the value that `key` names, if it names one.
    /// Whatever the caller writes through the reference replaces that value
    /// and nothing else.
    pub fn get_mut(&mut self, key: K) -> (value: Option<&mut T>)
        ensures
            match value {
                Some(value) => old(self)@.value(key.spec_id()) == Some(*value) && final(self)@
                    == old(self)@.fill(key.spec_id(), *final(value)),
                None => old(self)@.value(key.spec_id()) is None && final(self)@ == old(self)@,
            },
            old(self)@.wf() ==> final(self)@.wf(),
    {
        if !self.is_key_valid(&key) {
            return None;
        }
        let id = key.id();
        self.inner[id].as_mut()
    }

    /// Takes the value that `key` names out of the map. A key in use is
    /// freed, whether its cell held a value or was only reserved, and is the
    /// next to be handed out. A key that is not in use changes nothing.
    pub fn remove(&mut self, key: K) -> (removed: Option<T>)
        requires
            old(self)@.wf(),
        ensures
            final(self)@.wf(),
            removed == old(self)@.value(key.spec_id()),
            final(self)@ == old(self)@.remove(key.spec_id()),
    {
        if !self.is_key_valid(&key) {
            return None;
        }
        let id = key.id();
        let removed = self.inner[id].take();
        self.free.push(key);
        proof {
            assert(self@.free == old(self)@.free.push(id));
            lemma_remove_keeps_wf(old(self)@, id);
        }

        removed
    }

    /// The key of the cell that was added last, whatever state it is in;
    /// `None` where the map never had a cell.
    pub fn key_of_last_item(&self) -> (key: Option<K>)
        ensures
            match key {
                Some(key) => self@.slots.len() > 0 && key.spec_id() == self@.slots.len() - 1,
                None => self@.slots.len() == 0,
            },
    {
        if self.inner.is_empty() {
            None
        } else {
            Some(K::from_id(self.inner.len() - 1))
        }
    }
}

impl<K: Key, T> std::ops::Index<K> for SlotMap<K, T> {
    type Output = T;

    /// The value that `key` names.
    #[inline]
    fn index(&self, key: K) -> (value: &T)
        ensures
            Some(*value) == self@.value(key.spec_id()),
    {
        self.get(key).unwrap()
    }
}

impl<K: Key, T> vstd::std_specs::core::IndexSpecImpl<K> for SlotMap<K, T> {
    /// Only a key that names a value can be used as an index.
    open spec fn index_req(&self, key: &K) -> bool {
        self@.value(key.spec_id()) is Some
    }
}

} // verus!
