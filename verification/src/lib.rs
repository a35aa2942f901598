//! Index-based containers addressed by typed keys.
//!
//! A key is a small copyable handle around an integer. Each container hands
//! keys out and takes them back for lookup, so that no reference into the
//! container has to be held across mutations:
//!
//! - [`keyed_vec::KeyedVec`] only grows; a key stays valid forever.
//! - [`slotmap::SlotMap`] recycles the slots of removed values and can hand a
//!   key out before the value exists.
//! - [`sparse_list::SparseList`] leaves a tombstone where a value was removed,
//!   so that the order of the survivors never changes.
//!
//! Beside them stand a plain [`stack::Stack`] and, in [`span`], the spans,
//! lines and columns of a source text.
//!
//! Every container has a view, a mathematical value that says what it holds,
//! and the contract of each operation says how the view changes. What holds
//! across several operations is stated as a lemma next to the container.

pub mod key;
pub mod keyed_vec;
pub mod slotmap;
pub mod span;
pub mod sparse_list;
pub mod stack;

pub use key::{Key, INVALID_ID};
pub use span::{Location, Span, SpanConverter};
