use arcane::cell::CellHeap;
use arcane::singleton::{CacheSlot, SingletonRegistry, StaticTypeMap};

struct A(usize);
struct B(usize);

const KEY_A: u64 = 11;
const KEY_B: u64 = 22;

#[test]
fn test_singleton_with() {
    let mut heap_a = CellHeap::new();
    let mut reg_a: SingletonRegistry<A> = SingletonRegistry::new();
    let mut heap_b = CellHeap::new();
    let mut reg_b: SingletonRegistry<B> = SingletonRegistry::new();

    let (addr, _) = reg_a.singleton_with(&mut heap_a, KEY_A, A(1));
    assert_eq!(heap_a.payload(addr).0, 1);
    let (addr, unused) = reg_a.singleton_with(&mut heap_a, KEY_A, A(2));
    assert_eq!(heap_a.payload(addr).0, 1);
    assert_eq!(unused.unwrap().0, 2);
    let (addr, _) = reg_b.singleton_with(&mut heap_b, KEY_B, B(3));
    assert_eq!(heap_b.payload(addr).0, 3);
    let (addr, _) = reg_b.singleton_with(&mut heap_b, KEY_B, B(4));
    assert_eq!(heap_b.payload(addr).0, 3);
    let (addr, _) = reg_a.singleton_with(&mut heap_a, KEY_A, A(5));
    assert_eq!(heap_a.payload(addr).0, 1);
    let (addr, _) = reg_b.singleton_with(&mut heap_b, KEY_B, B(6));
    assert_eq!(heap_b.payload(addr).0, 3);
}

#[test]
fn singleton_cache_slot() {
    let mut heap = CellHeap::new();
    let mut registry: SingletonRegistry<u32> = SingletonRegistry::new();
    let mut slot: CacheSlot<u32> = CacheSlot::new();

    assert!(slot.load().is_none());
    let (addr, unused) = slot.get(&mut registry, &mut heap, KEY_A, 9);
    assert!(unused.is_none());
    assert_eq!(*heap.payload(addr), 9);
    assert_eq!(slot.load(), Some(addr));
    // the cached answer short-circuits the registry and hands the
    // candidate back
    let (again, unused) = slot.get(&mut registry, &mut heap, KEY_A, 10);
    assert_eq!(again, addr);
    assert_eq!(unused, Some(10));
}

#[test]
fn singleton_default_value() {
    let mut heap = CellHeap::new();
    let mut registry: SingletonRegistry<u64> = SingletonRegistry::new();
    let mut slot: CacheSlot<u64> = CacheSlot::new();
    let addr = arcane::singleton::singleton(&mut slot, &mut registry, &mut heap, KEY_B);
    assert_eq!(*heap.payload(addr), 0);
    let again = arcane::singleton::singleton(&mut slot, &mut registry, &mut heap, KEY_B);
    assert_eq!(addr, again);
}

#[test]
fn static_type_map_bindings() {
    let mut map: StaticTypeMap<u32> = StaticTypeMap::new();
    assert!(map.get(1).is_none());
    assert!(map.get_or_insert(1, 10).is_none());
    assert_eq!(map.get(1), Some(&10));
    // a bound key keeps its value and hands the candidate back
    assert_eq!(map.get_or_insert(1, 11), Some(11));
    assert_eq!(map.get(1), Some(&10));
    assert_eq!(map.insert(1, 12), Some(10));
    assert_eq!(map.get(1), Some(&12));
    assert!(map.get(2).is_none());
}
