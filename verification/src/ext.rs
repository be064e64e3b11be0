//! Adapter constructors as methods on every iterator.

use vstd::prelude::*;
use crate::array::{Array, StaticArray};
use crate::keep_last::KeepLast;
use crate::model::RingView;

verus! {

/// Wraps an iterator into a [`KeepLast`].
pub trait KeepLastExt: Iterator {
    /// An adapter that retains the latest element only.
    fn keep_last(self) -> (ring: KeepLast<Self, [Self::Item; 1]>) where Self: Sized
        ensures
            ring.wf(),
            ring.upstream() == self,
            ring@ == RingView::<Self::Item>::empty(1),
    {
        self.keep_last_with()
    }

    /// An adapter over storage of kind `B`, whose length is fixed by its type.
    fn keep_last_with<B>(self) -> (ring: KeepLast<Self, B>) where
        B: Array<Item = Self::Item> + StaticArray,
        Self: Sized,

        ensures
            ring.wf(),
            ring.upstream() == self,
            ring@ == RingView::<Self::Item>::empty(B::slot_count(0)),
    {
        KeepLast::new_static(self)
    }

    /// An adapter over storage of kind `B`, asked for with `capacity` cells.
    fn keep_last_n<B>(self, capacity: usize) -> (ring: KeepLast<Self, B>) where
        B: Array<Item = Self::Item>,
        Self: Sized,

        ensures
            ring.wf(),
            ring.upstream() == self,
            ring@ == RingView::<Self::Item>::empty(B::slot_count(capacity)),
    {
        KeepLast::new(self, capacity)
    }
}

impl<I: Iterator> KeepLastExt for I {

}

} // verus!
