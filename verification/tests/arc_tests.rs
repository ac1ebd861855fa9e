use arcane::arc::{Arc, UniqueArc};
use arcane::borrow::ArcBorrow;
use arcane::cell::CellHeap;
use std::sync::Mutex;

#[derive(PartialEq, Eq, Debug)]
enum Action {
    Created(usize),
    Dropped(usize),
}
use Action::{Created, Dropped};

struct Logging<'a>(&'a Mutex<Vec<Action>>, usize);

impl<'a> Logging<'a> {
    pub fn new(log: &'a Mutex<Vec<Action>>, id: usize) -> Self {
        log.lock().unwrap().push(Action::Created(id));
        Self(log, id)
    }
}

impl<'a> Drop for Logging<'a> {
    fn drop(&mut self) {
        self.0.lock().unwrap().push(Action::Dropped(self.1))
    }
}

#[test]
fn test_arc() {
    let log: Mutex<Vec<Action>> = Mutex::new(vec![]);
    let mut heap = CellHeap::new();

    let a = Arc::new(&mut heap, Logging::new(&log, 0));
    let b = Arc::new(&mut heap, Logging::new(&log, 1));
    let c = a.clone(&mut heap);
    a.drop(&mut heap);
    b.drop(&mut heap);
    c.drop(&mut heap);
    drop(heap);

    assert_eq!(
        log.into_inner().unwrap(),
        vec![Created(0), Created(1), Dropped(1), Dropped(0)]
    );
}

#[test]
fn test_uninque_arc() {
    let log: Mutex<Vec<Action>> = Mutex::new(vec![]);
    let mut heap = CellHeap::new();

    let a = Arc::new(&mut heap, Logging::new(&log, 0));
    let b = Arc::new(&mut heap, Logging::new(&log, 1));
    let c = a.clone(&mut heap);
    let Err(a) = Arc::try_into_unique(a, &heap) else {
        panic!()
    };
    a.drop(&mut heap);
    let Ok(b) = Arc::try_into_unique(b, &heap) else {
        panic!()
    };
    b.drop(&mut heap);
    let Ok(c) = Arc::try_into_unique(c, &heap) else {
        panic!()
    };
    c.drop(&mut heap);
    drop(heap);

    assert_eq!(
        log.into_inner().unwrap(),
        vec![Created(0), Created(1), Dropped(1), Dropped(0)]
    );
}

#[test]
fn test_arc_borrow() {
    let log: Mutex<Vec<Action>> = Mutex::new(vec![]);
    let mut heap = CellHeap::new();

    let a = Arc::new(&mut heap, Logging::new(&log, 0));
    let a_borrow = ArcBorrow::from(&a);
    let b = Arc::new(&mut heap, Logging::new(&log, 1));
    let c: Arc<_> = ArcBorrow::clone_arc(a_borrow, &mut heap);
    a.drop(&mut heap);
    b.drop(&mut heap);
    c.drop(&mut heap);
    drop(heap);

    assert_eq!(
        log.into_inner().unwrap(),
        vec![Created(0), Created(1), Dropped(1), Dropped(0)]
    );
}

#[test]
fn arc_counts_and_ptr_eq() {
    let mut heap = CellHeap::new();
    let a = Arc::new(&mut heap, 5u64);
    let addr_a = Arc::as_arc_ptr(&a).data_ptr();
    let b = a.clone(&mut heap);
    assert!(Arc::ptr_eq(&a, &b));
    assert_eq!(heap.load_count(addr_a), 2);
    let other = Arc::new(&mut heap, 5u64);
    assert!(!Arc::ptr_eq(&a, &other));
    a.drop(&mut heap);
    assert_eq!(heap.load_count(addr_a), 1);
    assert_eq!(*b.get(&heap), 5);
    b.drop(&mut heap);
    assert_eq!(heap.load_count(addr_a), 0);
    other.drop(&mut heap);
}

#[test]
fn unique_arc_replace_and_share() {
    let mut heap = CellHeap::new();
    let u = UniqueArc::new(&mut heap, 3u32);
    assert_eq!(*u.get(&heap), 3);
    let previous = u.replace(&mut heap, 8);
    assert_eq!(previous, 3);
    assert_eq!(*u.get(&heap), 8);
    let shared = UniqueArc::into_shared(u);
    let addr = Arc::as_arc_ptr(&shared).data_ptr();
    assert_eq!(heap.load_count(addr), 1);
    let unique_again = Arc::try_into_unique(shared, &heap).ok().unwrap();
    unique_again.drop(&mut heap);
    assert_eq!(heap.load_count(addr), 0);
}
