//! A storage cell that may or may not hold an element.

use vstd::prelude::*;

verus! {

/// One cell of backing storage: either empty or holding a live element.
///
/// The cell itself does not say when it may be read. Whoever owns the storage
/// keeps track of which cells are occupied, and every read states that fact as
/// a precondition.
pub struct Slot<T> {
    cell: Option<T>,
}

impl<T> View for Slot<T> {
    type V = Option<T>;

    closed spec fn view(&self) -> Option<T> {
        self.cell
    }
}

impl<T> Slot<T> {
    /// Whether the cell holds an element.
    pub open spec fn is_init(&self) -> bool {
        self@ is Some
    }

    /// The element held by an occupied cell.
    pub open spec fn value(&self) -> T
        recommends
            self.is_init(),
    {
        self@->0
    }

    /// An empty cell.
    pub fn uninit() -> (slot: Self)
        ensures
            slot@ == None::<T>,
    {
        Slot { cell: None }
    }

    /// A cell holding `value`.
    pub fn new(value: T) -> (slot: Self)
        ensures
            slot@ == Some(value),
    {
        Slot { cell: Some(value) }
    }

    /// Borrows the element of an occupied cell.
    pub fn assume_init_ref(&self) -> (item: &T)
        requires
            self.is_init(),
        ensures
            *item == self.value(),
    {
        match &self.cell {
            Some(item) => item,
            None => vstd::pervasive::unreached(),
        }
    }

    /// Mutably borrows the element of an occupied cell. The cell stays occupied.
    pub fn assume_init_mut(&mut self) -> (item: &mut T)
        requires
            old(self).is_init(),
        ensures
            *item == old(self).value(),
            final(self)@ == Some(*final(item)),
    {
        match &mut self.cell {
            Some(item) => item,
            None => vstd::pervasive::unreached(),
        }
    }

    /// Destroys the element of an occupied cell and leaves the cell empty.
    pub fn assume_init_drop(&mut self)
        requires
            old(self).is_init(),
        ensures
            final(self)@ == None::<T>,
    {
        self.cell = None;
    }

    /// Stores `value` and hands back what the cell held before, occupied or not.
    pub fn replace(&mut self, value: T) -> (previous: Slot<T>)
        ensures
            final(self)@ == Some(value),
            previous@ == old(self)@,
    {
        let mut previous = Slot { cell: Some(value) };
        core::mem::swap(&mut self.cell, &mut previous.cell);
        previous
    }
}

} // verus!
