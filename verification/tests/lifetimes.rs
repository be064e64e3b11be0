use keep_last::KeepLastExt;
use std::cell::Cell;
use std::rc::Rc;

struct Counted {
    live: Rc<Cell<usize>>,
    id: usize,
}

impl Counted {
    fn new(live: &Rc<Cell<usize>>, id: usize) -> Self {
        live.set(live.get() + 1);
        Counted { live: Rc::clone(live), id }
    }
}

impl Clone for Counted {
    fn clone(&self) -> Self {
        Counted::new(&self.live, self.id)
    }
}

impl Drop for Counted {
    fn drop(&mut self) {
        self.live.set(self.live.get() - 1);
    }
}

#[test]
fn every_retained_element_is_destroyed_exactly_once() {
    let live = Rc::new(Cell::new(0usize));
    let source = live.clone();
    let upstream = (0..50usize).map(move |id| Counted::new(&source, id));
    let mut ring = upstream.keep_last_with::<[Counted; 4]>();
    assert_eq!(live.get(), 0);

    for step in 0..10usize {
        let item = ring.next().unwrap();
        assert_eq!(item.id, step);
        drop(item);
        assert_eq!(live.get(), (step + 1).min(4));
    }

    ring.backtrack(3);
    let item = ring.next().unwrap();
    assert_eq!(item.id, 7);
    assert_eq!(live.get(), 5);
    drop(item);
    assert_eq!(live.get(), 4);

    ring.clear();
    assert_eq!(live.get(), 0);

    for _ in 0..2 {
        drop(ring.next());
    }
    assert_eq!(live.get(), 2);

    drop(ring);
    assert_eq!(live.get(), 0);
}

#[test]
fn dropping_a_wrapped_adapter_in_the_middle_of_a_replay_frees_everything() {
    let live = Rc::new(Cell::new(0usize));
    let source = live.clone();
    let upstream = (0..9usize).map(move |id| Counted::new(&source, id));
    let mut ring = upstream.keep_last_n::<Box<[Counted]>>(3);
    let mut held = Vec::new();
    while let Some(item) = ring.next() {
        held.push(item);
        assert!(live.get() <= 3 + held.len());
    }
    assert_eq!(live.get(), 3 + 9);
    held.clear();
    assert_eq!(live.get(), 3);
    ring.backtrack(2);
    drop(ring.next());
    assert_eq!(live.get(), 3);
    drop(ring);
    assert_eq!(live.get(), 0);
}

#[test]
fn capacity_zero_keeps_nothing_alive() {
    let live = Rc::new(Cell::new(0usize));
    let source = live.clone();
    let upstream = (0..3usize).map(move |id| Counted::new(&source, id));
    let mut ring = upstream.keep_last_n::<Box<[Counted]>>(0);
    let item = ring.next().unwrap();
    assert_eq!(live.get(), 1);
    drop(item);
    assert_eq!(live.get(), 0);
    drop(ring);
    assert_eq!(live.get(), 0);
}
