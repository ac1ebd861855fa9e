use arcane::arc::Arc;
use arcane::cell::CellHeap;
use arcane::once::ArcOnce;

#[test]
fn once_slot_handles() {
    let mut heap = CellHeap::new();
    let mut slot: ArcOnce<Arc<i32>> = ArcOnce::empty();
    assert!(slot.get().is_none());

    let seven = Arc::new(&mut heap, 7);
    let seven_addr = Arc::as_arc_ptr(&seven).data_ptr();
    assert!(slot.set(seven).is_none());
    assert_eq!(*slot.get().unwrap().get(&heap), 7);

    let nine = Arc::new(&mut heap, 9);
    let rejected = slot.set(nine);
    // the second write comes straight back
    let rejected = rejected.unwrap();
    assert_eq!(*rejected.get(&heap), 9);
    rejected.drop(&mut heap);
    assert_eq!(*slot.get().unwrap().get(&heap), 7);

    let held = slot.take().unwrap();
    assert!(slot.get().is_none());
    assert_eq!(heap.load_count(seven_addr), 1);
    held.drop(&mut heap);
    // the cell of the first write is reclaimed exactly once
    assert_eq!(heap.load_count(seven_addr), 0);
}

#[test]
fn once_slot_set_succeeds_exactly_once() {
    let mut slot: ArcOnce<u32> = ArcOnce::empty();
    assert_eq!(slot.set(1), None);
    assert_eq!(slot.set(2), Some(2));
    assert_eq!(slot.set(3), Some(3));
    assert_eq!(slot.get(), Some(&1));
    assert_eq!(slot.take(), Some(1));
    assert_eq!(slot.get(), None);
}

#[test]
fn once_slot_default_is_empty() {
    let slot: ArcOnce<u32> = Default::default();
    assert!(slot.get().is_none());
}
