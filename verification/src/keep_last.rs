//! The ring adapter.
//!
//! [`KeepLast`] pulls elements from an upstream iterator and keeps the newest of
//! them in a fixed block of cells. Its replay offset says how many of the newest
//! elements are handed out again before upstream is pulled the next time.
//!
//! Everything the adapter does is stated over its view, a
//! [`RingView`](crate::model::RingView), and, where cells are handed out, over
//! the cells themselves.

use core::ops::Range;
use vstd::prelude::*;
use vstd::std_specs::iter::IteratorSpec;
use crate::array::{Array, AsSlice, StaticArray};
use crate::layout::{
    all_init, all_uninit, head_cells, head_part, lemma_replay_index, lemma_store,
    lemma_store_uncounted, lemma_window_start, lemma_with_parts, occupied_prefix, retained,
    still_occupied, tail_cells, tail_part, values, window, with_parts, written_into,
};
use crate::model::RingView;
use crate::slot::Slot;

verus! {

/// What the caller gets for an element that was pulled from upstream: the
/// element itself where there are no cells to keep it in, else a clone, the
/// element having gone into storage.
pub open spec fn handed_on<T: Clone>(capacity: nat, item: T, out: T) -> bool {
    if capacity == 0 {
        out == item
    } else {
        cloned(item, out)
    }
}

/// The part `start..end` of `cells` for writing.
fn subslice_mut<T>(cells: &mut [T], start: usize, end: usize) -> (part: &mut [T])
    requires
        start <= end <= old(cells)@.len(),
    ensures
        part@ == old(cells)@.subrange(start as int, end as int),
        final(cells)@ == old(cells)@.subrange(0, start as int) + final(part)@
            + old(cells)@.subrange(end as int, old(cells)@.len() as int),
{
    let (_, rest) = cells.split_at_mut(start);
    let (part, _) = rest.split_at_mut(end - start);
    part
}

/// An adapter that pulls elements from an upstream sequence, retains the newest
/// of them in backing storage of kind `B`, and can hand retained elements out
/// again before it pulls the next one.
pub struct KeepLast<I: Iterator, B: Array<Item = I::Item>> {
    inner: I,
    buf: B::Uninit,
    write_idx: usize,
    backtrack: usize,
}

impl<I: Iterator, B: Array<Item = I::Item>> View for KeepLast<I, B> {
    type V = RingView<I::Item>;

    open spec fn view(&self) -> RingView<I::Item> {
        RingView {
            window: window(self.slots(), self.write_count()),
            capacity: self.slots().len(),
            write_count: self.write_count(),
            position: self.replay_offset(),
        }
    }
}

impl<I: Iterator, B: Array<Item = I::Item>> KeepLast<I, B> {
    /// The wrapped upstream sequence.
    pub closed spec fn upstream(&self) -> I {
        self.inner
    }

    /// The cells of the backing storage, in storage order.
    pub closed spec fn slots(&self) -> Seq<Slot<I::Item>> {
        self.buf.slots()
    }

    /// Number of elements written since the last reset.
    pub closed spec fn write_count(&self) -> nat {
        self.write_idx as nat
    }

    /// Number of newest elements still to be replayed.
    pub closed spec fn replay_offset(&self) -> nat {
        self.backtrack as nat
    }

    /// The invariant of the adapter: the abstract state is well-formed, and
    /// exactly the retained elements occupy cells, which are the first cells of
    /// the storage.
    pub open spec fn wf(&self) -> bool {
        &&& self@.wf()
        &&& occupied_prefix(self.slots(), self@.window.len())
    }

    /// Whether `self` differs from `before` in its cells at most.
    pub open spec fn same_counters(&self, before: &Self) -> bool {
        &&& self.upstream() == before.upstream()
        &&& self.write_count() == before.write_count()
        &&& self.replay_offset() == before.replay_offset()
    }

    /// An adapter over storage of kind `B`, asked for with `capacity` cells,
    /// that has not pulled anything from `inner` yet.
    pub fn new(inner: I, capacity: usize) -> (ring: Self)
        ensures
            ring.wf(),
            ring.upstream() == inner,
            ring@ == RingView::<I::Item>::empty(B::slot_count(capacity)),
    {
        let ring = Self { inner, buf: B::new_uninit(capacity), write_idx: 0, backtrack: 0 };
        assert(ring@.window =~= Seq::empty());
        ring
    }

    /// An adapter over storage whose length is fixed by its type, that has not
    /// pulled anything from `inner` yet.
    pub fn new_static(inner: I) -> (ring: Self) where B: StaticArray
        ensures
            ring.wf(),
            ring.upstream() == inner,
            ring@ == RingView::<I::Item>::empty(B::slot_count(0)),
    {
        let ring = Self { inner, buf: B::new_uninit(0), write_idx: 0, backtrack: 0 };
        assert(ring@.window =~= Seq::empty());
        ring
    }

    /// Number of retained elements: the smaller of write count and capacity.
    pub fn len(&self) -> (n: usize)
        ensures
            n == retained(self@.write_count, self@.capacity),
            n == self@.window.len(),
    {
        let cap: usize = self.capacity();
        if self.write_idx <= cap {
            self.write_idx
        } else {
            cap
        }
    }

    /// Whether nothing has been written since the last reset.
    pub fn is_empty(&self) -> (b: bool)
        ensures
            b == (self@.write_count == 0),
    {
        self.write_idx == 0
    }

    /// Number of storage cells.
    pub fn capacity(&self) -> (n: usize)
        ensures
            n == self@.capacity,
    {
        self.buf.len()
    }

    /// The current replay offset.
    pub fn position(&self) -> (n: usize)
        ensures
            n == self@.position,
    {
        self.backtrack
    }

    /// Moves the replay offset back by `n` more elements, at most to the oldest
    /// retained element.
    pub fn backtrack(&mut self, n: usize)
        ensures
            final(self)@ == old(self)@.backtrack(n as nat),
            old(self)@.position + n >= old(self)@.window.len() ==> final(self)@.position
                == old(self)@.window.len(),
            final(self).slots() == old(self).slots(),
            final(self).upstream() == old(self).upstream(),
            old(self).wf() ==> final(self).wf(),
    {
        self.backtrack_to(self.backtrack.saturating_add(n))
    }

    /// Sets the replay offset to `n`, at most to the number of retained
    /// elements.
    pub fn backtrack_to(&mut self, n: usize)
        ensures
            final(self)@ == old(self)@.backtrack_to(n as nat),
            n >= old(self)@.window.len() ==> final(self)@.position == old(self)@.window.len(),
            final(self).slots() == old(self).slots(),
            final(self).upstream() == old(self).upstream(),
            old(self).wf() ==> final(self).wf(),
    {
        let len: usize = self.len();
        self.backtrack = if n <= len {
            n
        } else {
            len
        };
    }

    /// Writes `item`, which was just pulled from upstream, into the cell whose
    /// turn it is, and returns a clone of it. An element that the cell held
    /// before is destroyed. Without cells the item is handed through.
    pub fn record(&mut self, item: I::Item) -> (out: I::Item) where I::Item: Clone
        requires
            old(self).wf(),
        ensures
            final(self).wf(),
            final(self).upstream() == old(self).upstream(),
            final(self)@ == old(self)@.write(item),
            written_into(old(self).slots(), final(self).slots(), old(self)@.write_count, item),
            handed_on(old(self)@.capacity, item, out),
    {
        let cap: usize = self.buf.len();
        if cap == 0 {
            return item;
        }
        let idx: usize = self.write_idx % cap;
        let buf = self.buf.as_mut_slice();
        let mut replaced = buf[idx].replace(item);
        if self.write_idx >= cap {
            replaced.assume_init_drop();
        }
        let out = buf[idx].assume_init_ref().clone();
        proof {
            if self.write_idx < usize::MAX {
                lemma_store(old(self).slots(), buf@, self.write_idx as nat, item);
            } else {
                lemma_store_uncounted(old(self).slots(), buf@, self.write_idx as nat, item);
            }
        }
        self.write_idx = self.write_idx.saturating_add(1);
        out
    }

    /// Hands out a clone of the retained element at the replay offset and moves
    /// the offset one element towards the newest. Upstream is not touched.
    pub fn replay(&mut self) -> (out: I::Item) where I::Item: Clone
        requires
            old(self).wf(),
            old(self)@.position > 0,
        ensures
            final(self).wf(),
            final(self).upstream() == old(self).upstream(),
            final(self).slots() == old(self).slots(),
            final(self)@ == old(self)@.replay(),
            cloned(old(self)@.replay_item(), out),
    {
        let buf = self.buf.as_slice();
        let cap: usize = buf.len();
        let idx: usize = self.write_idx.saturating_sub(self.backtrack);
        proof {
            lemma_replay_index(self.slots(), self.write_idx as nat, self.backtrack as nat);
        }
        self.backtrack -= 1;
        buf[idx % cap].assume_init_ref().clone()
    }

    /// Produces the next element: a retained one while the replay offset is
    /// positive, else the next one of the upstream sequence, which is recorded
    /// on the way. Returns `None` when nothing is left to replay and upstream
    /// has nothing more to give.
    ///
    /// For a replay offset of zero the contract says first what holds whatever
    /// upstream gave, and then which element that was where upstream keeps to
    /// the laws of iterators.
    pub fn next(&mut self) -> (out: Option<I::Item>) where I::Item: Clone
        requires
            old(self).wf(),
        ensures
            final(self).wf(),
            final(self)@.capacity == old(self)@.capacity,
            final(self).upstream().obeys_prophetic_iter_laws()
                == old(self).upstream().obeys_prophetic_iter_laws(),
            old(self)@.position > 0 ==> ({
                &&& final(self).upstream() == old(self).upstream()
                &&& final(self).slots() == old(self).slots()
                &&& final(self)@ == old(self)@.replay()
                &&& out matches Some(o) && cloned(old(self)@.replay_item(), o)
            }),
            old(self)@.position == 0 ==> (match out {
                Some(o) => (exists|item: I::Item|
                    ({
                        &&& final(self)@ == #[trigger] old(self)@.write(item)
                        &&& written_into(
                            old(self).slots(),
                            final(self).slots(),
                            old(self)@.write_count,
                            item,
                        )
                        &&& handed_on(old(self)@.capacity, item, o)
                    })),
                None => final(self)@ == old(self)@ && final(self).slots() == old(self).slots(),
            }),
            old(self)@.position == 0 && old(self).upstream().obeys_prophetic_iter_laws() ==> ({
                let pending = old(self).upstream().remaining();
                if pending.len() > 0 {
                    &&& final(self).upstream().remaining() == pending.drop_first()
                    &&& final(self)@ == old(self)@.write(pending[0])
                    &&& written_into(
                        old(self).slots(),
                        final(self).slots(),
                        old(self)@.write_count,
                        pending[0],
                    )
                    &&& out matches Some(o) && handed_on(old(self)@.capacity, pending[0], o)
                } else {
                    &&& final(self).upstream().remaining() == pending
                    &&& final(self)@ == old(self)@
                    &&& final(self).slots() == old(self).slots()
                    &&& out is None
                }
            }),
    {
        if self.backtrack == 0 {
            match self.inner.next() {
                Some(item) => Some(self.record(item)),
                None => None,
            }
        } else {
            Some(self.replay())
        }
    }

    /// Destroys every retained element and resets the counters. The capacity
    /// stays; the adapter is as if it had just been made over the same upstream.
    pub fn clear(&mut self)
        requires
            old(self).wf(),
        ensures
            final(self).wf(),
            final(self).upstream() == old(self).upstream(),
            final(self)@ == old(self)@.clear(),
            all_uninit(final(self).slots()),
    {
        let len: usize = self.len();
        let mut i: usize = 0;
        while i < len
            invariant
                i <= len <= self.slots().len(),
                self.slots().len() == old(self).slots().len(),
                self.slots().len() <= usize::MAX,
                self.upstream() == old(self).upstream(),
                forall|j: int|
                    0 <= j < self.slots().len() ==> ((#[trigger] self.slots()[j]).is_init() <==> i
                        <= j < len),
            decreases len - i,
        {
            let buf = self.buf.as_mut_slice();
            buf[i].assume_init_drop();
            i += 1;
        }
        self.write_idx = 0;
        self.backtrack = 0;
        assert(self@.window =~= Seq::empty());
    }

    /// All cells of the storage, occupied or not, in storage order.
    pub fn as_uninit_slice(&self) -> (cells: &[Slot<I::Item>])
        ensures
            cells@ == self.slots(),
    {
        self.buf.as_slice()
    }

    /// All cells of the storage for writing. What the caller leaves in them
    /// becomes the storage of the adapter, which stays well-formed if the same
    /// cells are occupied as before.
    pub fn as_uninit_slice_mut(&mut self) -> (cells: &mut [Slot<I::Item>])
        ensures
            cells@ == old(self).slots(),
            final(self).slots() == final(cells)@,
            final(self).same_counters(old(self)),
            old(self).wf() && final(cells)@.len() == cells@.len() && occupied_prefix(
                final(cells)@,
                old(self)@.window.len(),
            ) ==> final(self).wf(),
    {
        self.buf.as_mut_slice()
    }

    /// The occupied cells in storage order, which is the order of arrival only
    /// until the storage has wrapped.
    pub fn as_init_slice(&self) -> (cells: &[Slot<I::Item>])
        requires
            self.wf(),
        ensures
            cells@ == self.slots().subrange(0, self@.window.len() as int),
            all_init(cells@),
    {
        let len: usize = self.len();
        let buf = self.as_uninit_slice();
        &buf[0..len]
    }

    /// The occupied cells in storage order, for writing. The adapter stays
    /// well-formed if the caller leaves every one of them occupied.
    pub fn as_init_slice_mut(&mut self) -> (cells: &mut [Slot<I::Item>])
        requires
            old(self).wf(),
        ensures
            cells@ == old(self).slots().subrange(0, old(self)@.window.len() as int),
            all_init(cells@),
            final(self).slots() == final(cells)@ + old(self).slots().subrange(
                old(self)@.window.len() as int,
                old(self)@.capacity as int,
            ),
            final(self).same_counters(old(self)),
            still_occupied(cells@, final(cells)@) ==> final(self).wf(),
    {
        let len: usize = self.len();
        let buf = self.as_uninit_slice_mut();
        let (cells, _) = buf.split_at_mut(len);
        cells
    }

    /// The retained elements as two runs of cells which, one after the other,
    /// hold the window from oldest to newest. The second run is empty until the
    /// storage has wrapped.
    pub fn as_slices(&self) -> (runs: (&[Slot<I::Item>], &[Slot<I::Item>]))
        requires
            self.wf(),
        ensures
            runs.0@ == head_cells(self.slots(), self@.write_count),
            runs.1@ == tail_cells(self.slots(), self@.write_count),
            all_init(runs.0@),
            all_init(runs.1@),
            values(runs.0@) + values(runs.1@) == self@.window,
    {
        let cap: usize = self.capacity();
        let idx: usize = if cap == 0 {
            0
        } else {
            self.write_idx.saturating_sub(cap) % cap
        };
        proof {
            if cap > 0 {
                lemma_window_start(self.write_idx as nat, cap as nat);
            }
        }
        let buf = self.as_init_slice();
        let (tail, head) = buf.split_at(idx);
        (head, tail)
    }

    /// The two runs of [`Self::as_slices`] for writing. If the caller leaves
    /// every cell occupied, the adapter stays well-formed and its window holds
    /// what the two runs hold then.
    pub fn as_mut_slices(&mut self) -> (runs: (&mut [Slot<I::Item>], &mut [Slot<I::Item>]))
        requires
            old(self).wf(),
        ensures
            runs.0@ == head_cells(old(self).slots(), old(self)@.write_count),
            runs.1@ == tail_cells(old(self).slots(), old(self)@.write_count),
            all_init(runs.0@),
            all_init(runs.1@),
            values(runs.0@) + values(runs.1@) == old(self)@.window,
            final(self).slots() == final(runs.1)@ + final(runs.0)@ + old(self).slots().subrange(
                old(self)@.window.len() as int,
                old(self)@.capacity as int,
            ),
            final(self).same_counters(old(self)),
            still_occupied(runs.0@, final(runs.0)@) && still_occupied(runs.1@, final(runs.1)@)
                ==> final(self).wf() && final(self)@.window == values(final(runs.0)@) + values(
                final(runs.1)@,
            ),
    {
        let cap: usize = self.capacity();
        let idx: usize = if cap == 0 {
            0
        } else {
            self.write_idx.saturating_sub(cap) % cap
        };
        proof {
            if cap > 0 {
                lemma_window_start(self.write_idx as nat, cap as nat);
            }
        }
        let buf = self.as_init_slice_mut();
        let (tail, head) = buf.split_at_mut(idx);
        (head, tail)
    }

    /// The retained elements, oldest first, as one or two runs of cells.
    pub fn peek(&self) -> (runs: (&[Slot<I::Item>], &[Slot<I::Item>]))
        requires
            self.wf(),
        ensures
            runs.0@ == head_cells(self.slots(), self@.write_count),
            runs.1@ == tail_cells(self.slots(), self@.write_count),
            all_init(runs.0@),
            all_init(runs.1@),
            values(runs.0@) + values(runs.1@) == self@.window,
    {
        self.as_slices()
    }

    /// The two runs of [`Self::peek`] for writing, on the terms of
    /// [`Self::as_mut_slices`].
    pub fn peek_mut(&mut self) -> (runs: (&mut [Slot<I::Item>], &mut [Slot<I::Item>]))
        requires
            old(self).wf(),
        ensures
            runs.0@ == head_cells(old(self).slots(), old(self)@.write_count),
            runs.1@ == tail_cells(old(self).slots(), old(self)@.write_count),
            all_init(runs.0@),
            all_init(runs.1@),
            values(runs.0@) + values(runs.1@) == old(self)@.window,
            final(self).slots() == final(runs.1)@ + final(runs.0)@ + old(self).slots().subrange(
                old(self)@.window.len() as int,
                old(self)@.capacity as int,
            ),
            final(self).same_counters(old(self)),
            still_occupied(runs.0@, final(runs.0)@) && still_occupied(runs.1@, final(runs.1)@)
                ==> final(self).wf() && final(self)@.window == values(final(runs.0)@) + values(
                final(runs.1)@,
            ),
    {
        self.as_mut_slices()
    }

    /// The element at place `index` of the window, counted from the oldest.
    pub fn index(&self, index: usize) -> (item: &I::Item)
        requires
            self.wf(),
            index < self@.window.len(),
        ensures
            *item == self@.window[index as int],
    {
        let (head, tail) = self.as_slices();
        if index < head.len() {
            head[index].assume_init_ref()
        } else {
            tail[index - head.len()].assume_init_ref()
        }
    }

    /// The element at place `index` of the window, counted from the oldest, for
    /// writing. What the caller leaves there takes its place in the window.
    pub fn index_mut(&mut self, index: usize) -> (item: &mut I::Item)
        requires
            old(self).wf(),
            index < old(self)@.window.len(),
        ensures
            *item == old(self)@.window[index as int],
            final(self).wf(),
            final(self).upstream() == old(self).upstream(),
            final(self)@ == (RingView {
                window: old(self)@.window.update(index as int, *final(item)),
                ..old(self)@
            }),
    {
        let (head, tail) = self.as_mut_slices();
        let head_len: usize = head.len();
        if index < head_len {
            head[index].assume_init_mut()
        } else {
            tail[index - head_len].assume_init_mut()
        }
    }

    /// The part of the window from place `range.start` up to, not including,
    /// place `range.end`, as two runs of cells: what lies before the wrap of the
    /// storage and what lies after it.
    pub fn range(&self, range: Range<usize>) -> (runs: (&[Slot<I::Item>], &[Slot<I::Item>]))
        requires
            self.wf(),
            range.start <= range.end <= self@.window.len(),
        ensures
            runs.0@ == head_part(
                self.slots(),
                self@.write_count,
                range.start as nat,
                range.end as nat,
            ),
            runs.1@ == tail_part(
                self.slots(),
                self@.write_count,
                range.start as nat,
                range.end as nat,
            ),
            all_init(runs.0@),
            all_init(runs.1@),
            values(runs.0@) + values(runs.1@) == self@.window.subrange(
                range.start as int,
                range.end as int,
            ),
    {
        let start: usize = range.start;
        let end: usize = range.end;
        let (head, tail) = self.as_slices();
        let runs = if start < head.len() && end <= head.len() {
            (&head[start..end], &tail[0..0])
        } else if start < head.len() {
            let end: usize = end - head.len();
            (&head[start..head.len()], &tail[0..end])
        } else {
            let start: usize = start - head.len();
            let end: usize = end - head.len();
            (&head[0..0], &tail[start..end])
        };
        assert(values(runs.0@) + values(runs.1@) =~= self@.window.subrange(
            range.start as int,
            range.end as int,
        ));
        runs
    }

    /// The two runs of [`Self::range`] for writing. What the caller leaves in
    /// them takes the place of the cells that were handed out. If every cell is
    /// left occupied, the adapter stays well-formed and its window has changed
    /// in the places of `range` only.
    pub fn range_mut(&mut self, range: Range<usize>) -> (runs: (
        &mut [Slot<I::Item>],
        &mut [Slot<I::Item>],
    ))
        requires
            old(self).wf(),
            range.start <= range.end <= old(self)@.window.len(),
        ensures
            runs.0@ == head_part(
                old(self).slots(),
                old(self)@.write_count,
                range.start as nat,
                range.end as nat,
            ),
            runs.1@ == tail_part(
                old(self).slots(),
                old(self)@.write_count,
                range.start as nat,
                range.end as nat,
            ),
            all_init(runs.0@),
            all_init(runs.1@),
            values(runs.0@) + values(runs.1@) == old(self)@.window.subrange(
                range.start as int,
                range.end as int,
            ),
            final(self).slots() == with_parts(
                old(self).slots(),
                old(self)@.write_count,
                range.start as nat,
                range.end as nat,
                final(runs.0)@,
                final(runs.1)@,
            ),
            final(self).same_counters(old(self)),
            still_occupied(runs.0@, final(runs.0)@) && still_occupied(runs.1@, final(runs.1)@)
                ==> final(self).wf() && final(self)@.window == old(self)@.window.subrange(
                0,
                range.start as int,
            ) + values(final(runs.0)@) + values(final(runs.1)@) + old(self)@.window.subrange(
                range.end as int,
                old(self)@.window.len() as int,
            ),
    {
        let start: usize = range.start;
        let end: usize = range.end;
        let (head, tail) = self.as_mut_slices();
        let head_len: usize = head.len();
        let runs = if start < head_len && end <= head_len {
            (subslice_mut(head, start, end), subslice_mut(tail, 0, 0))
        } else if start < head_len {
            (subslice_mut(head, start, head_len), subslice_mut(tail, 0, end - head_len))
        } else {
            (
                subslice_mut(head, head_len, head_len),
                subslice_mut(tail, start - head_len, end - head_len),
            )
        };
        proof {
            let cells = old(self).slots();
            let count = old(self)@.write_count;
            let first_run = runs.0@;
            let second_run = runs.1@;
            assert(values(first_run) + values(second_run) =~= old(self)@.window.subrange(
                range.start as int,
                range.end as int,
            ));
            assert forall|first: Seq<Slot<I::Item>>, second: Seq<Slot<I::Item>>|
                still_occupied(first_run, first) && still_occupied(second_run, second) implies {
                let after = #[trigger] with_parts(
                    cells,
                    count,
                    range.start as nat,
                    range.end as nat,
                    first,
                    second,
                );
                &&& after.len() == cells.len()
                &&& occupied_prefix(after, retained(count, cells.len()))
                &&& window(after, count) == window(cells, count).subrange(0, range.start as int)
                    + values(first) + values(second) + window(cells, count).subrange(
                    range.end as int,
                    retained(count, cells.len()) as int,
                )
            } by {
                lemma_with_parts(
                    cells,
                    count,
                    range.start as nat,
                    range.end as nat,
                    first,
                    second,
                );
            }
        }
        runs
    }
}

} // verus!
