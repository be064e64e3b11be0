//! Backing storage: fixed-length blocks of cells.
//!
//! A block is made once, with every cell empty, and is never resized. It does
//! not know which of its cells are occupied; that is the business of the
//! adapter that owns it. Three kinds of block exist: an array held inline, an
//! array on the heap, and a slice on the heap whose length is chosen when it is
//! made.

use vstd::prelude::*;
use crate::layout::all_uninit;
use crate::slot::Slot;

verus! {

/// A fixed-length block of cells that can be borrowed as one contiguous slice.
pub trait AsSlice<T> {
    /// The cells of the block, in storage order.
    spec fn slots(&self) -> Seq<T>;

    /// The cells for reading.
    fn as_slice(&self) -> (slice: &[T])
        ensures
            slice@ == self.slots(),
    ;

    /// The cells for writing. What the caller leaves in the slice is what the
    /// block holds afterwards.
    fn as_mut_slice(&mut self) -> (slice: &mut [T])
        ensures
            slice@ == old(self).slots(),
            final(slice)@ == final(self).slots(),
    ;

    /// Number of cells.
    fn len(&self) -> (n: usize)
        ensures
            n == self.slots().len(),
    {
        self.as_slice().len()
    }
}

impl<T, const N: usize> AsSlice<T> for [T; N] {
    open spec fn slots(&self) -> Seq<T> {
        self@
    }

    fn as_slice(&self) -> (slice: &[T]) {
        self
    }

    fn as_mut_slice(&mut self) -> (slice: &mut [T]) {
        self
    }
}

impl<T, const N: usize> AsSlice<T> for Box<[T; N]> {
    open spec fn slots(&self) -> Seq<T> {
        self@
    }

    fn as_slice(&self) -> (slice: &[T]) {
        let block: &[T; N] = &**self;
        block
    }

    fn as_mut_slice(&mut self) -> (slice: &mut [T]) {
        let block: &mut [T; N] = &mut **self;
        block
    }
}

impl<T> AsSlice<T> for Box<[T]> {
    open spec fn slots(&self) -> Seq<T> {
        self@
    }

    fn as_slice(&self) -> (slice: &[T]) {
        &**self
    }

    fn as_mut_slice(&mut self) -> (slice: &mut [T]) {
        &mut **self
    }
}

/// A kind of backing storage for elements of type `Item`.
pub trait Array {
    /// The elements that the storage is for.
    type Item;

    /// The block of cells.
    type Uninit: AsSlice<Slot<Self::Item>>;

    /// How many cells a block has that was asked for with `capacity`.
    spec fn slot_count(capacity: usize) -> nat;

    /// A fresh block in which every cell is empty.
    fn new_uninit(capacity: usize) -> (block: Self::Uninit)
        ensures
            block.slots().len() == Self::slot_count(capacity),
            block.slots().len() <= usize::MAX,
            all_uninit(block.slots()),
    ;
}

/// Storage whose length is fixed by its type: whatever capacity is asked for,
/// the block has the same number of cells.
pub trait StaticArray: Array {
    proof fn slot_count_is_fixed(a: usize, b: usize)
        ensures
            Self::slot_count(a) == Self::slot_count(b),
    ;
}

/// An array of `N` empty cells.
///
/// Calls `core::array::from_fn`, which builds an array by calling its argument
/// once for every index. Trusted: each element of the array is what the call
/// for its index returned, here an empty cell.
#[verifier::external_body]
fn uninit_array<T, const N: usize>() -> (block: [Slot<T>; N])
    ensures
        all_uninit(block@),
{
    core::array::from_fn(|_| Slot::uninit())
}

/// Turns a vector into a boxed slice.
///
/// Calls `Vec::into_boxed_slice`. Trusted: the slice holds the elements of the
/// vector, as many and in the same order.
#[verifier::external_body]
fn into_boxed_slice<T>(cells: Vec<T>) -> (block: Box<[T]>)
    ensures
        block@ == cells@,
{
    cells.into_boxed_slice()
}

impl<T, const N: usize> Array for [T; N] {
    type Item = T;

    type Uninit = [Slot<T>; N];

    open spec fn slot_count(capacity: usize) -> nat {
        N as nat
    }

    /// `N` empty cells, held inline. The capacity asked for is not looked at.
    fn new_uninit(capacity: usize) -> (block: [Slot<T>; N]) {
        let block: [Slot<T>; N] = uninit_array();
        proof {
            vstd::array::array_len_matches_n(&block);
            assert(block.slots() == block@);
        }
        block
    }
}

impl<T, const N: usize> StaticArray for [T; N] {
    proof fn slot_count_is_fixed(a: usize, b: usize) {
    }
}

impl<T, const N: usize> Array for Box<[T; N]> {
    type Item = T;

    type Uninit = Box<[Slot<T>; N]>;

    open spec fn slot_count(capacity: usize) -> nat {
        N as nat
    }

    /// `N` empty cells on the heap. The capacity asked for is not looked at.
    fn new_uninit(capacity: usize) -> (block: Box<[Slot<T>; N]>) {
        let block: [Slot<T>; N] = uninit_array();
        proof {
            vstd::array::array_len_matches_n(&block);
            assert(block.slots() == block@);
        }
        Box::new(block)
    }
}

impl<T, const N: usize> StaticArray for Box<[T; N]> {
    proof fn slot_count_is_fixed(a: usize, b: usize) {
    }
}

impl<T> Array for Box<[T]> {
    type Item = T;

    type Uninit = Box<[Slot<T>]>;

    open spec fn slot_count(capacity: usize) -> nat {
        capacity as nat
    }

    /// `capacity` empty cells on the heap.
    fn new_uninit(capacity: usize) -> (block: Box<[Slot<T>]>) {
        let mut cells: Vec<Slot<T>> = Vec::with_capacity(capacity);
        while cells.len() < capacity
            invariant
                cells.len() <= capacity,
                all_uninit(cells@),
            decreases capacity - cells.len(),
        {
            cells.push(Slot::uninit());
        }
        into_boxed_slice(cells)
    }
}

} // verus!
