//! Where the retained elements live in the backing storage.
//!
//! The adapter writes element number `k` (counting from zero) into cell
//! `k % capacity`. Until the storage has been filled once, the retained elements
//! are the first cells in order. Afterwards every cell is occupied and the oldest
//! element sits at the cell that the next write will overwrite.

use vstd::prelude::*;
use vstd::arithmetic::div_mod::{
    lemma_fundamental_div_mod, lemma_fundamental_div_mod_converse, lemma_mod_bound,
    lemma_mod_multiples_vanish, lemma_mod_self_0, lemma_mod_sub_multiples_vanish, lemma_small_mod,
};
use crate::slot::Slot;

verus! {

/// Number of retained elements after `write_count` writes into `capacity` cells.
pub open spec fn retained(write_count: nat, capacity: nat) -> nat {
    if write_count <= capacity {
        write_count
    } else {
        capacity
    }
}

/// Storage index of the oldest retained element: 0 until the storage has
/// wrapped, afterwards the cell that the next write will overwrite.
pub open spec fn window_start(write_count: nat, capacity: nat) -> nat {
    if capacity == 0 || write_count < capacity {
        0
    } else {
        write_count % capacity
    }
}

/// Whether every cell of `cells` is empty.
pub open spec fn all_uninit<T>(cells: Seq<Slot<T>>) -> bool {
    forall|i: int| 0 <= i < cells.len() ==> !(#[trigger] cells[i]).is_init()
}

/// Whether every cell of `cells` is occupied.
pub open spec fn all_init<T>(cells: Seq<Slot<T>>) -> bool {
    forall|i: int| 0 <= i < cells.len() ==> (#[trigger] cells[i]).is_init()
}

/// Whether exactly the first `count` cells of `cells` are occupied.
pub open spec fn occupied_prefix<T>(cells: Seq<Slot<T>>, count: nat) -> bool {
    &&& count <= cells.len()
    &&& forall|i: int| 0 <= i < cells.len() ==> ((#[trigger] cells[i]).is_init() <==> i < count)
}

/// Whether `after` has as many cells as `before` and all of them are occupied.
pub open spec fn still_occupied<T>(before: Seq<Slot<T>>, after: Seq<Slot<T>>) -> bool {
    after.len() == before.len() && all_init(after)
}

/// The elements held by `cells`, cell by cell.
pub open spec fn values<T>(cells: Seq<Slot<T>>) -> Seq<T> {
    Seq::new(cells.len(), |i: int| cells[i].value())
}

/// The cells from the oldest retained element to the end of the occupied part.
pub open spec fn head_cells<T>(cells: Seq<Slot<T>>, write_count: nat) -> Seq<Slot<T>> {
    cells.subrange(
        window_start(write_count, cells.len()) as int,
        retained(write_count, cells.len()) as int,
    )
}

/// The cells before the oldest retained element; they hold the newest elements
/// once the storage has wrapped.
pub open spec fn tail_cells<T>(cells: Seq<Slot<T>>, write_count: nat) -> Seq<Slot<T>> {
    cells.subrange(0, window_start(write_count, cells.len()) as int)
}

/// The retained elements, oldest first.
pub open spec fn window<T>(cells: Seq<Slot<T>>, write_count: nat) -> Seq<T> {
    values(head_cells(cells, write_count)) + values(tail_cells(cells, write_count))
}

/// A place of the window measured inside a first run of `run` cells: the place
/// itself, or the end of the run if the place lies beyond it.
pub open spec fn within(place: nat, run: nat) -> int {
    if place <= run {
        place as int
    } else {
        run as int
    }
}

/// A place of the window measured inside the second run, which follows a first
/// run of `run` cells: 0 if the place lies in the first run.
pub open spec fn past(place: nat, run: nat) -> int {
    if place <= run {
        0
    } else {
        place - run
    }
}

/// The cells of the first run that hold places `start..end` of the window.
pub open spec fn head_part<T>(cells: Seq<Slot<T>>, write_count: nat, start: nat, end: nat) -> Seq<
    Slot<T>,
> {
    let head = head_cells(cells, write_count);
    head.subrange(within(start, head.len()), within(end, head.len()))
}

/// The cells of the second run that hold places `start..end` of the window.
pub open spec fn tail_part<T>(cells: Seq<Slot<T>>, write_count: nat, start: nat, end: nat) -> Seq<
    Slot<T>,
> {
    let head = head_cells(cells, write_count);
    tail_cells(cells, write_count).subrange(past(start, head.len()), past(end, head.len()))
}

/// The storage `cells` with the cells that hold places `start..end` of the
/// window exchanged for `first`, in the first run, and `second`, in the second.
pub open spec fn with_parts<T>(
    cells: Seq<Slot<T>>,
    write_count: nat,
    start: nat,
    end: nat,
    first: Seq<Slot<T>>,
    second: Seq<Slot<T>>,
) -> Seq<Slot<T>> {
    let head = head_cells(cells, write_count);
    let tail = tail_cells(cells, write_count);
    tail.subrange(0, past(start, head.len())) + second + tail.subrange(
        past(end, head.len()),
        tail.len() as int,
    ) + head.subrange(0, within(start, head.len())) + first + head.subrange(
        within(end, head.len()),
        head.len() as int,
    ) + cells.subrange(retained(write_count, cells.len()) as int, cells.len() as int)
}

/// Whether `after` is `before` with `item` stored in cell `index` and nothing
/// else touched.
pub open spec fn stored_at<T>(
    before: Seq<Slot<T>>,
    after: Seq<Slot<T>>,
    index: int,
    item: T,
) -> bool {
    &&& after.len() == before.len()
    &&& 0 <= index < before.len()
    &&& after[index]@ == Some(item)
    &&& forall|j: int| 0 <= j < before.len() && j != index ==> after[j] == before[j]
}

/// Whether storage `after` is storage `before` once `item` was written as
/// element number `write_count`: into cell `write_count % capacity`, or nowhere
/// if there are no cells.
pub open spec fn written_into<T>(
    before: Seq<Slot<T>>,
    after: Seq<Slot<T>>,
    write_count: nat,
    item: T,
) -> bool {
    if before.len() == 0 {
        after == before
    } else {
        stored_at(before, after, (write_count % before.len()) as int, item)
    }
}

/// The window start lies inside the occupied part, and it is what is left of
/// the write count, less one full round, when that is divided by the capacity.
pub proof fn lemma_window_start(write_count: nat, capacity: nat)
    requires
        capacity > 0,
    ensures
        window_start(write_count, capacity) < capacity,
        window_start(write_count, capacity) <= retained(write_count, capacity),
        write_count >= capacity ==> (write_count - capacity) % (capacity as int) == window_start(
            write_count,
            capacity,
        ),
        0int % (capacity as int) == 0,
{
    let c = capacity as int;
    lemma_mod_bound(write_count as int, c);
    lemma_small_mod(0, capacity);
    if write_count >= capacity {
        lemma_mod_sub_multiples_vanish(write_count as int, c);
    }
}

/// Element `i` of the window sits in cell `(start + i) % capacity`.
pub proof fn lemma_window_index<T>(cells: Seq<Slot<T>>, write_count: nat, i: int)
    requires
        0 <= i < retained(write_count, cells.len()),
    ensures
        window(cells, write_count).len() == retained(write_count, cells.len()),
        0 <= (window_start(write_count, cells.len()) + i) % (cells.len() as int) < retained(
            write_count,
            cells.len(),
        ),
        window(cells, write_count)[i] == cells[(window_start(write_count, cells.len()) + i) % (
        cells.len() as int)].value(),
{
    let c = cells.len() as int;
    let start = window_start(write_count, cells.len()) as int;
    lemma_window_start(write_count, cells.len());
    lemma_mod_bound(start + i, c);
    if start + i < c {
        lemma_small_mod((start + i) as nat, cells.len());
    } else {
        lemma_mod_sub_multiples_vanish(start + i, c);
        lemma_small_mod((start + i - c) as nat, cells.len());
    }
}

/// The element that lies `back` places before the write position sits in cell
/// `(write_count - back) % capacity`.
pub proof fn lemma_replay_index<T>(cells: Seq<Slot<T>>, write_count: nat, back: nat)
    requires
        0 < back <= retained(write_count, cells.len()),
    ensures
        0 <= (write_count - back) % (cells.len() as int) < retained(write_count, cells.len()),
        window(cells, write_count)[retained(write_count, cells.len()) - back] == cells[(write_count
            - back) % (cells.len() as int)].value(),
{
    let c = cells.len() as int;
    let len = retained(write_count, cells.len()) as int;
    let start = window_start(write_count, cells.len()) as int;
    lemma_window_index(cells, write_count, len - back);
    if write_count >= cells.len() {
        // start + len - back and write_count - back differ by a multiple of c
        let w = write_count as int;
        lemma_fundamental_div_mod(w, c);
        lemma_mod_multiples_vanish(w / c - 1, start + len - back, c);
        assert(c * (w / c - 1) + (start + len - back) == w - back) by (nonlinear_arith)
            requires
                w == c * (w / c) + start,
                len == c,
        ;
    }
}

/// Storing into cell `write_count % capacity` and counting the write appends the
/// item to the window, and drops the oldest element when the storage was full.
pub proof fn lemma_store<T>(
    before: Seq<Slot<T>>,
    after: Seq<Slot<T>>,
    write_count: nat,
    item: T,
)
    requires
        before.len() > 0,
        occupied_prefix(before, retained(write_count, before.len())),
        stored_at(before, after, (write_count % before.len()) as int, item),
    ensures
        occupied_prefix(after, retained(write_count + 1, after.len())),
        window(after, write_count + 1) == if write_count < before.len() {
            window(before, write_count).push(item)
        } else {
            window(before, write_count).drop_first().push(item)
        },
{
    let cap = before.len();
    let c = cap as int;
    let index = (write_count % cap) as int;
    lemma_window_start(write_count, cap);
    lemma_window_start(write_count + 1, cap);
    if write_count < cap {
        lemma_small_mod(write_count, cap);
        if write_count + 1 == cap {
            lemma_mod_self_0(c);
        }
        assert(window(after, write_count + 1) =~= window(before, write_count).push(item));
    } else {
        let w = write_count as int;
        let next = window_start(write_count + 1, cap) as int;
        assert(next == if index + 1 < c { index + 1 } else { 0 }) by {
            lemma_fundamental_div_mod(w, c);
            if index + 1 < c {
                assert((w / c) * c == c * (w / c)) by (nonlinear_arith);
                lemma_fundamental_div_mod_converse(w + 1, c, w / c, index + 1);
            } else {
                assert(w + 1 == (w / c + 1) * c + 0) by (nonlinear_arith)
                    requires
                        w == c * (w / c) + index,
                        index + 1 == c,
                ;
                lemma_fundamental_div_mod_converse(w + 1, c, w / c + 1, 0);
            }
        }
        assert(window(after, write_count + 1) =~= window(before, write_count).drop_first().push(
            item,
        ));
    }
}

/// Storing into cell `write_count % capacity` of full storage without counting
/// the write replaces the oldest element of the window in place.
pub proof fn lemma_store_uncounted<T>(
    before: Seq<Slot<T>>,
    after: Seq<Slot<T>>,
    write_count: nat,
    item: T,
)
    requires
        before.len() > 0,
        write_count >= before.len(),
        occupied_prefix(before, retained(write_count, before.len())),
        stored_at(before, after, (write_count % before.len()) as int, item),
    ensures
        occupied_prefix(after, retained(write_count, after.len())),
        window(after, write_count) == window(before, write_count).update(0, item),
{
    lemma_window_start(write_count, before.len());
    assert(window(after, write_count) =~= window(before, write_count).update(0, item));
}

/// Exchanging the cells of places `start..end` for as many occupied cells
/// keeps the occupied part where it was and changes the window in those places
/// only.
pub proof fn lemma_with_parts<T>(
    cells: Seq<Slot<T>>,
    write_count: nat,
    start: nat,
    end: nat,
    first: Seq<Slot<T>>,
    second: Seq<Slot<T>>,
)
    requires
        occupied_prefix(cells, retained(write_count, cells.len())),
        start <= end <= retained(write_count, cells.len()),
        first.len() == head_part(cells, write_count, start, end).len(),
        second.len() == tail_part(cells, write_count, start, end).len(),
        all_init(first),
        all_init(second),
    ensures
        with_parts(cells, write_count, start, end, first, second).len() == cells.len(),
        occupied_prefix(
            with_parts(cells, write_count, start, end, first, second),
            retained(write_count, cells.len()),
        ),
        window(with_parts(cells, write_count, start, end, first, second), write_count) == window(
            cells,
            write_count,
        ).subrange(0, start as int) + values(first) + values(second) + window(
            cells,
            write_count,
        ).subrange(end as int, retained(write_count, cells.len()) as int),
{
    if cells.len() > 0 {
        lemma_window_start(write_count, cells.len());
    }
    let after = with_parts(cells, write_count, start, end, first, second);
    assert(window(after, write_count) =~= window(cells, write_count).subrange(0, start as int)
        + values(first) + values(second) + window(cells, write_count).subrange(
        end as int,
        retained(write_count, cells.len()) as int,
    ));
}

} // verus!
