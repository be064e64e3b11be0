//! An iterator adapter that keeps the last elements it produced and can replay
//! them.
//!
//! [`KeepLast`] wraps an iterator. Each element pulled from it is written into a
//! ring of cells of fixed capacity, over the oldest element once the ring is
//! full. Backtracking moves a replay offset back into the ring, and the next
//! calls hand out clones of the retained elements before the iterator is pulled
//! again.
//!
//! - [`slot`]: the cell, which is empty or holds an element;
//! - [`array`]: the kinds of storage a ring can live in;
//! - [`layout`]: which cell holds which element;
//! - [`model`]: the adapter as a state machine, and what is proved of it;
//! - [`keep_last`]: the adapter;
//! - [`ext`]: constructors as methods on iterators.

pub mod array;
pub mod ext;
pub mod keep_last;
pub mod layout;
pub mod model;
pub mod slot;

pub use array::{Array, AsSlice, StaticArray};
pub use ext::KeepLastExt;
pub use keep_last::KeepLast;
pub use model::RingView;
pub use slot::Slot;
