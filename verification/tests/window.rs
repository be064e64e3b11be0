use keep_last::{Array, AsSlice, KeepLast, KeepLastExt, Slot};
use std::vec::IntoIter;

type HeapRing = KeepLast<IntoIter<u32>, Box<[u32]>>;

fn heap_ring(capacity: usize, total: u32) -> HeapRing {
    (0..total).collect::<Vec<u32>>().into_iter().keep_last_n(capacity)
}

fn values(cells: &[Slot<u32>]) -> Vec<u32> {
    cells.iter().map(|cell| *cell.assume_init_ref()).collect()
}

fn window(runs: (&[Slot<u32>], &[Slot<u32>])) -> Vec<u32> {
    let mut all = values(runs.0);
    all.extend(values(runs.1));
    all
}

fn consume(ring: &mut HeapRing) -> Vec<u32> {
    let mut seen = Vec::new();
    while let Some(item) = ring.next() {
        seen.push(item);
    }
    seen
}

#[test]
fn retains_the_last_items_for_every_capacity_and_length() {
    for capacity in 0..7usize {
        for total in 0..20u32 {
            let mut ring = heap_ring(capacity, total);
            let seen = consume(&mut ring);
            assert!(seen.into_iter().eq(0..total));
            let kept = capacity.min(total as usize);
            assert_eq!(ring.len(), kept);
            assert_eq!(ring.capacity(), capacity);
            assert_eq!(ring.position(), 0);
            let expected: Vec<u32> = (total - kept as u32..total).collect();
            assert_eq!(window(ring.as_slices()), expected);
            assert_eq!(window(ring.peek()), expected);
        }
    }
}

#[test]
fn round_trip_leaves_the_newest_numbers() {
    let mut ring = heap_ring(5, 13);
    consume(&mut ring);
    let (head, tail) = ring.peek();
    assert_eq!(values(head), vec![8, 9]);
    assert_eq!(values(tail), vec![10, 11, 12]);
    assert_eq!(values(ring.as_init_slice()), vec![10, 11, 12, 8, 9]);
}

#[test]
fn backtrack_replays_what_was_produced() {
    for n in 0..=4usize {
        for k in 0..=n {
            let mut ring = heap_ring(4, 20);
            let mut produced = Vec::new();
            for _ in 0..9 {
                produced.push(ring.next().unwrap());
            }
            ring.backtrack(n);
            assert_eq!(ring.position(), n);
            let mut replayed = Vec::new();
            for _ in 0..k {
                replayed.push(ring.next().unwrap());
            }
            assert_eq!(replayed, produced[9 - n..9 - n + k].to_vec());
            assert_eq!(ring.position(), n - k);
            assert_eq!(window(ring.peek()), vec![5, 6, 7, 8]);
            for _ in k..n {
                ring.next().unwrap();
            }
            assert_eq!(ring.next(), Some(9));
        }
    }
}

#[test]
fn backtrack_beyond_the_window_clamps() {
    let mut ring = heap_ring(4, 20);
    ring.next();
    ring.next();
    ring.backtrack(3);
    assert_eq!(ring.position(), 2);
    ring.backtrack(usize::MAX);
    assert_eq!(ring.position(), 2);
    for _ in 0..10 {
        ring.next();
    }
    ring.backtrack(1);
    ring.backtrack(2);
    assert_eq!(ring.position(), 3);
    ring.backtrack(2);
    assert_eq!(ring.position(), 4);
}

#[test]
fn backtrack_to_sets_the_offset() {
    let mut ring = heap_ring(4, 20);
    for _ in 0..3 {
        ring.next();
    }
    ring.backtrack_to(2);
    assert_eq!(ring.position(), 2);
    ring.backtrack_to(1);
    assert_eq!(ring.position(), 1);
    ring.backtrack_to(9);
    assert_eq!(ring.position(), 3);
    ring.backtrack_to(0);
    assert_eq!(ring.position(), 0);
    assert_eq!(ring.next(), Some(3));
}

#[test]
fn clear_makes_the_adapter_fresh() {
    let mut ring = heap_ring(3, 10);
    for _ in 0..5 {
        ring.next();
    }
    ring.backtrack(2);
    assert!(!ring.is_empty());
    ring.clear();
    assert_eq!(ring.len(), 0);
    assert_eq!(ring.position(), 0);
    assert_eq!(ring.capacity(), 3);
    assert!(ring.is_empty());
    assert_eq!(window(ring.peek()), Vec::<u32>::new());
    assert_eq!(ring.next(), Some(5));
    assert_eq!(ring.len(), 1);
    assert_eq!(values(ring.as_init_slice()), vec![5]);
    ring.backtrack(4);
    assert_eq!(ring.position(), 1);
}

#[test]
fn capacity_zero_passes_elements_through() {
    let mut ring = heap_ring(0, 4);
    assert_eq!(ring.capacity(), 0);
    assert_eq!(ring.next(), Some(0));
    assert_eq!(ring.next(), Some(1));
    assert_eq!(ring.len(), 0);
    assert!(ring.is_empty());
    ring.backtrack(3);
    assert_eq!(ring.position(), 0);
    let (head, tail) = ring.as_slices();
    assert!(head.is_empty());
    assert!(tail.is_empty());
    assert!(ring.as_uninit_slice().is_empty());
    ring.clear();
    assert_eq!(ring.next(), Some(2));
    assert_eq!(ring.next(), Some(3));
    assert_eq!(ring.next(), None);
    assert_eq!(ring.next(), None);

    let mut inline = (0..3u32).keep_last_with::<[u32; 0]>();
    assert_eq!(inline.next(), Some(0));
    assert_eq!(inline.len(), 0);
    assert_eq!(inline.range(0..0).0.len(), 0);
}

#[test]
fn keep_last_holds_one_element() {
    let mut ring = (10..14u32).keep_last();
    assert_eq!(ring.capacity(), 1);
    assert!(ring.is_empty());
    assert_eq!(ring.next(), Some(10));
    assert_eq!(ring.next(), Some(11));
    assert_eq!(ring.len(), 1);
    assert_eq!(*ring.index(0), 11);
    ring.backtrack(7);
    assert_eq!(ring.position(), 1);
    assert_eq!(ring.next(), Some(11));
    assert_eq!(ring.next(), Some(12));
}

#[test]
fn storage_kinds_have_the_length_they_promise() {
    let inline = <[u32; 3] as Array>::new_uninit(9);
    assert_eq!(AsSlice::len(&inline), 3);
    assert_eq!(inline.as_slice().len(), 3);
    let boxed = <Box<[u32; 4]> as Array>::new_uninit(9);
    assert_eq!(AsSlice::len(&boxed), 4);
    let mut heap = <Box<[u32]> as Array>::new_uninit(9);
    assert_eq!(AsSlice::len(&heap), 9);
    assert_eq!(AsSlice::as_mut_slice(&mut heap).len(), 9);
    let none = <Box<[u32]> as Array>::new_uninit(0);
    assert_eq!(AsSlice::len(&none), 0);

    let mut ring = (0..10u32).keep_last_with::<Box<[u32; 4]>>();
    assert_eq!(ring.capacity(), 4);
    for _ in 0..6 {
        ring.next();
    }
    assert_eq!(window(ring.peek()), vec![2, 3, 4, 5]);

    let mut ring = (0..10u32).keep_last_n::<[u32; 2]>(7);
    assert_eq!(ring.capacity(), 2);
    for _ in 0..3 {
        ring.next();
    }
    assert_eq!(window(ring.peek()), vec![1, 2]);
    assert_eq!(ring.as_uninit_slice().len(), 2);
}

#[test]
fn index_counts_from_the_oldest() {
    let mut ring = heap_ring(4, 20);
    for _ in 0..3 {
        ring.next();
    }
    assert_eq!(*ring.index(0), 0);
    assert_eq!(*ring.index(2), 2);
    for _ in 3..6 {
        ring.next();
    }
    assert_eq!(*ring.index(0), 2);
    assert_eq!(*ring.index(1), 3);
    assert_eq!(*ring.index(2), 4);
    assert_eq!(*ring.index(3), 5);
    *ring.index_mut(2) = 40;
    *ring.index_mut(0) += 100;
    assert_eq!(window(ring.peek()), vec![102, 3, 40, 5]);
    ring.backtrack(2);
    assert_eq!(ring.next(), Some(40));
    assert_eq!(ring.next(), Some(5));
    assert_eq!(ring.next(), Some(6));
}

#[test]
fn range_splits_at_the_wrap() {
    let mut ring = heap_ring(5, 20);
    for _ in 0..8 {
        ring.next();
    }
    // window 3 4 5 6 7, stored as 5 6 7 3 4
    let (first, second) = ring.range(0..2);
    assert_eq!((values(first), values(second)), (vec![3, 4], vec![]));
    let (first, second) = ring.range(1..4);
    assert_eq!((values(first), values(second)), (vec![4], vec![5, 6]));
    let (first, second) = ring.range(2..5);
    assert_eq!((values(first), values(second)), (vec![], vec![5, 6, 7]));
    let (first, second) = ring.range(3..4);
    assert_eq!((values(first), values(second)), (vec![], vec![6]));
    let (first, second) = ring.range(0..5);
    assert_eq!((values(first), values(second)), (vec![3, 4], vec![5, 6, 7]));
    let (first, second) = ring.range(2..2);
    assert_eq!((values(first), values(second)), (vec![], vec![]));
    let (first, second) = ring.range(5..5);
    assert_eq!((values(first), values(second)), (vec![], vec![]));
}

#[test]
fn range_mut_writes_into_the_window() {
    let mut ring = heap_ring(5, 20);
    for _ in 0..8 {
        ring.next();
    }
    {
        let (first, second) = ring.range_mut(1..4);
        assert_eq!(first.len(), 1);
        assert_eq!(second.len(), 2);
        *first[0].assume_init_mut() = 44;
        second[1] = Slot::new(66);
    }
    assert_eq!(window(ring.peek()), vec![3, 44, 5, 66, 7]);
    {
        let (first, second) = ring.range_mut(0..1);
        assert_eq!((first.len(), second.len()), (1, 0));
        *first[0].assume_init_mut() = 33;
    }
    {
        let (first, second) = ring.range_mut(4..5);
        assert_eq!((first.len(), second.len()), (0, 1));
        *second[0].assume_init_mut() = 77;
    }
    {
        let (head, tail) = ring.as_mut_slices();
        assert_eq!((head.len(), tail.len()), (2, 3));
        *tail[0].assume_init_mut() = 55;
    }
    assert_eq!(window(ring.as_slices()), vec![33, 44, 55, 66, 77]);
    assert_eq!(ring.len(), 5);
    assert_eq!(ring.next(), Some(8));
    assert_eq!(window(ring.peek()), vec![44, 55, 66, 77, 8]);
}

#[test]
fn raw_cells_are_in_storage_order() {
    let mut ring = heap_ring(3, 20);
    ring.next();
    assert_eq!(ring.as_uninit_slice().len(), 3);
    assert_eq!(ring.as_init_slice().len(), 1);
    for _ in 1..4 {
        ring.next();
    }
    assert_eq!(values(ring.as_uninit_slice()), vec![3, 1, 2]);
    *ring.as_uninit_slice_mut()[1].assume_init_mut() = 11;
    assert_eq!(window(ring.peek()), vec![11, 2, 3]);
}

#[test]
fn record_and_replay_are_the_two_steps_of_next() {
    let mut ring = heap_ring(2, 0);
    assert_eq!(ring.next(), None);
    assert_eq!(ring.record(7), 7);
    assert_eq!(ring.record(8), 8);
    assert_eq!(ring.record(9), 9);
    assert_eq!(window(ring.peek()), vec![8, 9]);
    assert_eq!(ring.len(), 2);
    ring.backtrack(2);
    assert_eq!(ring.replay(), 8);
    assert_eq!(ring.position(), 1);
    assert_eq!(ring.replay(), 9);
    assert_eq!(ring.position(), 0);
    assert_eq!(ring.next(), None);
}

#[test]
fn cells_hold_what_was_stored() {
    let mut cell: Slot<String> = Slot::uninit();
    let previous = cell.replace("a".to_string());
    drop(previous);
    assert_eq!(cell.assume_init_ref(), "a");
    cell.assume_init_mut().push('b');
    let mut previous = cell.replace("c".to_string());
    assert_eq!(previous.assume_init_ref(), "ab");
    previous.assume_init_drop();
    assert_eq!(cell.assume_init_ref(), "c");
    let other = Slot::new(5u8);
    assert_eq!(*other.assume_init_ref(), 5);
}
