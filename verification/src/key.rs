//! The contract between a key type and the containers that issue it.

use vstd::prelude::*;

verus! {

/// The integer that stands for "no key". No container hands out a key that
/// stands for it, so a key made from it names nothing anywhere.
pub const INVALID_ID: usize = usize::MAX;

/// A handle that stands for a non-negative integer.
///
/// A container mints a key with [`Key::from_id`] and reads its integer back
/// with [`Key::id`]; an implementation must return from `id` the integer that
/// `from_id` was given. What a given integer means is up to the container
/// that issued the key.
pub trait Key: Sized {
    /// The integer that this key stands for. A key type that is verified
    /// says here what its integer is; the placeholder below says nothing.
    open spec fn spec_id(&self) -> usize {
        arbitrary()
    }

    /// Makes the key that stands for `id`.
    fn from_id(id: usize) -> (key: Self)
        ensures
            key.spec_id() == id,
    ;

    /// Reads back the integer that this key stands for.
    fn id(&self) -> (id: usize)
        ensures
            id == self.spec_id(),
    ;
}

/// A bare index is a key for itself.
impl Key for usize {
    open spec fn spec_id(&self) -> usize {
        *self
    }

    fn from_id(id: usize) -> (key: Self) {
        id
    }

    fn id(&self) -> (id: usize) {
        *self
    }
}

} // verus!
