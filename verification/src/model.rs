//! The adapter as a mathematical state machine.
//!
//! [`RingView`] is what a ring adapter looks like once storage layout is
//! forgotten: the retained elements in the order they arrived, the capacity, the
//! write counter and the replay offset. The executable operations are specified
//! as steps of this machine, and the properties at the end of this module are
//! proved about the machine.

use vstd::prelude::*;
use crate::layout::retained;

verus! {

/// Abstract state of a ring adapter.
#[verifier::ext_equal]
pub struct RingView<T> {
    /// The retained elements, oldest first.
    pub window: Seq<T>,
    /// Number of storage cells.
    pub capacity: nat,
    /// Number of elements written since the last reset. It stops at
    /// `usize::MAX`.
    pub write_count: nat,
    /// Number of newest elements that are replayed before the upstream sequence
    /// is pulled again.
    pub position: nat,
}

/// The last `count` elements of `items`, or all of them if there are fewer.
pub open spec fn last_items<T>(items: Seq<T>, count: nat) -> Seq<T> {
    if items.len() <= count {
        items
    } else {
        items.subrange(items.len() - count, items.len() as int)
    }
}

impl<T> RingView<T> {
    /// The relations that hold between the parts of every reachable state.
    pub open spec fn wf(self) -> bool {
        &&& self.capacity <= usize::MAX
        &&& self.write_count <= usize::MAX
        &&& self.window.len() == retained(self.write_count, self.capacity)
        &&& self.position <= self.window.len()
    }

    /// The state of a new adapter with `capacity` cells.
    pub open spec fn empty(capacity: nat) -> Self {
        RingView { window: Seq::empty(), capacity, write_count: 0, position: 0 }
    }

    /// The state after `item` was pulled from upstream and written.
    ///
    /// Without cells nothing is kept and the state does not change. Once the
    /// counter has reached `usize::MAX` it stays there, and the write replaces
    /// the element at the front of the window.
    pub open spec fn write(self, item: T) -> Self {
        if self.capacity == 0 {
            self
        } else if self.write_count >= usize::MAX {
            RingView { window: self.window.update(0, item), ..self }
        } else if self.window.len() < self.capacity {
            RingView {
                window: self.window.push(item),
                write_count: self.write_count + 1,
                ..self
            }
        } else {
            RingView {
                window: self.window.drop_first().push(item),
                write_count: self.write_count + 1,
                ..self
            }
        }
    }

    /// The element that the next replay step hands out.
    pub open spec fn replay_item(self) -> T
        recommends
            0 < self.position <= self.window.len(),
    {
        self.window[self.window.len() - self.position]
    }

    /// The state after one replay step.
    pub open spec fn replay(self) -> Self
        recommends
            0 < self.position,
    {
        RingView { position: (self.position - 1) as nat, ..self }
    }

    /// The state after the replay offset was set to `n`, clamped to the number
    /// of retained elements.
    pub open spec fn backtrack_to(self, n: nat) -> Self {
        RingView {
            position: if n <= self.window.len() {
                n
            } else {
                self.window.len()
            },
            ..self
        }
    }

    /// The state after the replay offset was moved back by `n` more elements.
    pub open spec fn backtrack(self, n: nat) -> Self {
        self.backtrack_to(self.position + n)
    }

    /// The state after a reset: that of a new adapter with the same capacity.
    pub open spec fn clear(self) -> Self {
        Self::empty(self.capacity)
    }

    /// The state after every element of `items` was written in order.
    pub open spec fn write_all(self, items: Seq<T>) -> Self
        decreases items.len(),
    {
        if items.len() == 0 {
            self
        } else {
            self.write_all(items.drop_last()).write(items.last())
        }
    }

    /// The state after `count` replay steps.
    pub open spec fn replay_many(self, count: nat) -> Self
        decreases count,
    {
        if count == 0 {
            self
        } else {
            self.replay().replay_many((count - 1) as nat)
        }
    }

    /// The elements that `count` replay steps hand out, in order.
    pub open spec fn replayed(self, count: nat) -> Seq<T>
        decreases count,
    {
        if count == 0 {
            Seq::empty()
        } else {
            seq![self.replay_item()] + self.replay().replayed((count - 1) as nat)
        }
    }

    /// Writing a run of elements, while the counter stays below its limit,
    /// leaves the newest `capacity` of all elements written so far.
    pub proof fn lemma_write_all(self, items: Seq<T>)
        requires
            self.wf(),
            self.write_count + items.len() <= usize::MAX,
        ensures
            self.write_all(items).wf(),
            self.write_all(items).capacity == self.capacity,
            self.write_all(items).position == self.position,
            self.capacity > 0 ==> self.write_all(items).write_count == self.write_count
                + items.len(),
            self.write_all(items).window == last_items(self.window + items, self.capacity),
        decreases items.len(),
    {
        if items.len() == 0 {
            assert(self.window + items =~= self.window);
        } else {
            let front = items.drop_last();
            let before = self.write_all(front);
            self.lemma_write_all(front);
            assert(self.window + items =~= (self.window + front).push(items.last()));
            assert(before.write(items.last()).window =~= last_items(
                self.window + items,
                self.capacity,
            ));
        }
    }

    /// Replaying `count` elements hands out the stretch of the window that
    /// starts `position` places before its end, and touches nothing but the
    /// replay offset.
    pub proof fn lemma_replayed(self, count: nat)
        requires
            self.wf(),
            count <= self.position,
        ensures
            self.replay_many(count) == (RingView {
                position: (self.position - count) as nat,
                ..self
            }),
            self.replayed(count) == self.window.subrange(
                self.window.len() - self.position,
                self.window.len() - self.position + count,
            ),
        decreases count,
    {
        if count > 0 {
            self.replay().lemma_replayed((count - 1) as nat);
        }
        assert(self.replayed(count) =~= self.window.subrange(
            self.window.len() - self.position,
            self.window.len() - self.position + count,
        ));
    }
}

/// After a whole sequence has been consumed without backtracking, the adapter
/// retains the last `min(length, capacity)` elements of it, oldest first.
pub proof fn lemma_retains_last_items<T>(capacity: nat, items: Seq<T>)
    requires
        capacity <= usize::MAX,
        items.len() <= usize::MAX,
    ensures
        RingView::empty(capacity).write_all(items).window.len() == retained(
            items.len(),
            capacity,
        ),
        RingView::empty(capacity).write_all(items).window == last_items(items, capacity),
        RingView::empty(capacity).write_all(items).position == 0,
{
    let start = RingView::<T>::empty(capacity);
    start.lemma_write_all(items);
    assert(start.window + items =~= items);
}

/// Backtracking by `n` and then consuming `k <= n` elements hands out again the
/// elements that were produced `n`, `n - 1`, ..., `n - k + 1` steps earlier, in
/// the order in which they first came, and does not move the write counter.
pub proof fn lemma_backtrack_replays_history<T>(capacity: nat, items: Seq<T>, n: nat, k: nat)
    requires
        capacity <= usize::MAX,
        items.len() <= usize::MAX,
        k <= n <= retained(items.len(), capacity),
    ensures
        ({
            let consumed = RingView::empty(capacity).write_all(items);
            let rewound = consumed.backtrack(n);
            &&& rewound.position == n
            &&& rewound.replayed(k) == items.subrange(items.len() - n, items.len() - n + k)
            &&& rewound.replay_many(k).write_count == consumed.write_count
            &&& rewound.replay_many(k).window == consumed.window
            &&& rewound.replay_many(k).position == n - k
        }),
{
    let consumed = RingView::<T>::empty(capacity).write_all(items);
    lemma_retains_last_items(capacity, items);
    RingView::<T>::empty(capacity).lemma_write_all(items);
    let rewound = consumed.backtrack(n);
    rewound.lemma_replayed(k);
    assert(rewound.replayed(k) =~= items.subrange(items.len() - n, items.len() - n + k));
}

/// Backtracking by more than is retained stops at the oldest retained element.
pub proof fn lemma_backtrack_clamps<T>(state: RingView<T>, n: nat)
    requires
        n > state.window.len(),
    ensures
        state.backtrack(n).position == state.window.len(),
        state.backtrack_to(n).position == state.window.len(),
{
}

/// A reset leaves nothing retained and nothing to replay, and from then on the
/// adapter goes through the states that a new adapter of the same capacity
/// would go through.
pub proof fn lemma_clear_starts_afresh<T>(state: RingView<T>, items: Seq<T>)
    ensures
        state.clear().window.len() == 0,
        state.clear().position == 0,
        state.clear() == RingView::<T>::empty(state.capacity),
        state.clear().write_all(items) == RingView::<T>::empty(state.capacity).write_all(items),
{
}

/// With more than `capacity` elements counted up from zero, the adapter ends up
/// holding the numbers `total - capacity` to `total - 1`.
pub proof fn lemma_counting_round_trip(capacity: nat, total: nat)
    requires
        capacity < total <= usize::MAX,
    ensures
        RingView::empty(capacity).write_all(Seq::new(total, |i: int| i)).window == Seq::new(
            capacity,
            |i: int| total - capacity + i,
        ),
{
    let items = Seq::new(total, |i: int| i);
    lemma_retains_last_items(capacity, items);
    assert(last_items(items, capacity) =~= Seq::new(capacity, |i: int| total - capacity + i));
}

} // verus!
