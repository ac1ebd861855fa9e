use arcane::cell::CellHeap;
use arcane::dedup::{DedupArc, DedupTable, DefaultDedup};

#[test]
fn dedup_eq_is_pointer_identity() {
    let mut heap = CellHeap::new();
    let mut table: DedupTable<u64, DefaultDedup> = DedupTable::new(Default::default());
    let a = DedupArc::new(&mut table, &mut heap, 42);
    let b = DedupArc::new(&mut table, &mut heap, 42);
    let other = DedupArc::new(&mut table, &mut heap, 43);
    assert!(a == b);
    assert!(a != other);
    a.drop(&mut table, &mut heap);
    b.drop(&mut table, &mut heap);
    other.drop(&mut table, &mut heap);
}

#[test]
fn dedup() {
    let mut heap = CellHeap::new();
    let mut table: DedupTable<u64, DefaultDedup> = DedupTable::new(Default::default());

    let a = DedupArc::new(&mut table, &mut heap, 0);
    let b = DedupArc::new(&mut table, &mut heap, 0);
    let c = b.clone(&mut heap);
    let addr = DedupArc::as_arc_ptr(&a).data_ptr();
    assert!(DedupArc::ptr_eq(&a, &b));
    assert!(DedupArc::ptr_eq(&b, &c));
    assert_eq!(heap.load_count(addr), 3);
    a.drop(&mut table, &mut heap);
    b.drop(&mut table, &mut heap);
    c.drop(&mut table, &mut heap);
    assert_eq!(heap.load_count(addr), 0);
}

#[test]
fn dedup_identity() {
    // interning equal values answers with the same cell; unequal values
    // keep cells of their own
    let mut heap = CellHeap::new();
    let mut table: DedupTable<u64, DefaultDedup> = DedupTable::new(Default::default());

    let a = DedupArc::new(&mut table, &mut heap, 42);
    let b = DedupArc::new(&mut table, &mut heap, 42);
    let other = DedupArc::new(&mut table, &mut heap, 7);
    assert!(DedupArc::ptr_eq(&a, &b));
    assert!(!DedupArc::ptr_eq(&a, &other));
    // the cell briefly allocated for the second 42 was freed again, not
    // leaked: its number lies between a's cell and other's cell
    assert_eq!(heap.load_count(1), 0);
    assert_eq!(*a.get(&heap), 42);
    assert_eq!(*b.get(&heap), 42);
    assert_eq!(*other.get(&heap), 7);

    let addr = DedupArc::as_arc_ptr(&a).data_ptr();
    a.drop(&mut table, &mut heap);
    assert_eq!(heap.load_count(addr), 1);
    b.drop(&mut table, &mut heap);
    // the cell is reclaimed exactly once, at the last drop
    assert_eq!(heap.load_count(addr), 0);
    other.drop(&mut table, &mut heap);
}

#[test]
fn dedup_reclaim_then_reintern() {
    // once the last handle for a value is gone, interning the value again
    // makes a fresh cell
    let mut heap = CellHeap::new();
    let mut table: DedupTable<u64, DefaultDedup> = DedupTable::new(Default::default());

    let a = DedupArc::new(&mut table, &mut heap, 1);
    let first_addr = DedupArc::as_arc_ptr(&a).data_ptr();
    a.drop(&mut table, &mut heap);
    let b = DedupArc::new(&mut table, &mut heap, 1);
    let second_addr = DedupArc::as_arc_ptr(&b).data_ptr();
    assert_ne!(first_addr, second_addr);
    b.drop(&mut table, &mut heap);
}

#[test]
fn dedup_try_into_unique_siblings() {
    // an interned handle converts to unique exactly when it is the last
    // one for its cell
    let mut heap = CellHeap::new();
    let mut table: DedupTable<u64, DefaultDedup> = DedupTable::new(Default::default());

    let a = DedupArc::new(&mut table, &mut heap, 10);
    let b = DedupArc::new(&mut table, &mut heap, 10);
    let c = b.clone(&mut heap);
    let addr = DedupArc::as_arc_ptr(&a).data_ptr();
    assert_eq!(heap.load_count(addr), 3);

    let Err(a) = DedupArc::try_into_unique(a, &mut table, &heap) else {
        panic!()
    };
    a.drop(&mut table, &mut heap);
    let Err(b) = DedupArc::try_into_unique(b, &mut table, &heap) else {
        panic!()
    };
    b.drop(&mut table, &mut heap);
    assert_eq!(heap.load_count(addr), 1);
    let Ok(c) = DedupArc::try_into_unique(c, &mut table, &heap) else {
        panic!()
    };
    // the destructor runs exactly once, at the unique's drop
    assert_eq!(heap.load_count(addr), 1);
    c.drop(&mut heap);
    assert_eq!(heap.load_count(addr), 0);
}
