use arcane::cell::CellHeap;
use arcane::singleton::SingletonRegistry;

// a per-key counter slot: the model of an inline cache holding a counter,
// fetched through the registry and bumped in place
fn bump(heap: &mut CellHeap<usize>, registry: &mut SingletonRegistry<usize>, key: u64) -> usize {
    let (addr, _) = registry.singleton_with(heap, key, 0);
    let value = *heap.payload(addr);
    heap.replace_payload(addr, value + 1);
    value
}

#[test]
fn inline_cache() {
    let mut heap = CellHeap::new();
    let mut registry: SingletonRegistry<usize> = SingletonRegistry::new();
    const A: u64 = 1;
    const B: u64 = 2;

    assert_eq!(bump(&mut heap, &mut registry, A), 0);
    assert_eq!(bump(&mut heap, &mut registry, A), 1);
    assert_eq!(bump(&mut heap, &mut registry, B), 0);
    assert_eq!(bump(&mut heap, &mut registry, A), 2);
    assert_eq!(bump(&mut heap, &mut registry, B), 1);
}

// four distinct reference sites, keyed apart
const A0: u64 = 10;
const A1: u64 = 11;
const B0: u64 = 12;
const B1: u64 = 13;

fn a(heap: &mut CellHeap<usize>, reg: &mut SingletonRegistry<usize>) -> (usize, usize) {
    (bump(heap, reg, A0), bump(heap, reg, A1))
}

fn b(heap: &mut CellHeap<usize>, reg: &mut SingletonRegistry<usize>) -> (usize, usize) {
    (bump(heap, reg, B0), bump(heap, reg, B1))
}

fn c(heap: &mut CellHeap<usize>, reg: &mut SingletonRegistry<usize>) -> (usize, usize) {
    (bump(heap, reg, A0), bump(heap, reg, B1))
}

fn step(r: (usize, usize), x: usize, y: usize) {
    assert_eq!(r.0, x);
    assert_eq!(r.1, y);
}

#[test]
fn type_cache() {
    let mut heap = CellHeap::new();
    let mut registry: SingletonRegistry<usize> = SingletonRegistry::new();

    step(a(&mut heap, &mut registry), 0, 0);
    step(a(&mut heap, &mut registry), 1, 1);
    step(b(&mut heap, &mut registry), 0, 0);
    step(b(&mut heap, &mut registry), 1, 1);
    step(a(&mut heap, &mut registry), 2, 2);
    step(c(&mut heap, &mut registry), 3, 2);
    step(a(&mut heap, &mut registry), 4, 3);
    step(b(&mut heap, &mut registry), 2, 3);
}

#[test]
fn huge() {
    let mut heap = CellHeap::new();
    let mut registry: SingletonRegistry<usize> = SingletonRegistry::new();
    let keys: u64 = 1 << 10;

    for i in 0..1usize << 10 {
        for key in 0..keys {
            assert_eq!(bump(&mut heap, &mut registry, key), i);
        }
    }
}

#[test]
fn distinct_keys_distinct_slots() {
    let mut heap = CellHeap::new();
    let mut registry: SingletonRegistry<usize> = SingletonRegistry::new();
    let mut addresses = Vec::new();
    for key in 0..1500u64 {
        let (addr, _) = registry.singleton_with(&mut heap, key, 0);
        addresses.push(addr);
    }
    for key in 0..1500u64 {
        let (addr, _) = registry.singleton_with(&mut heap, key, 1);
        assert_eq!(addr, addresses[key as usize]);
        assert_eq!(*heap.payload(addr), 0);
    }
    addresses.sort();
    addresses.dedup();
    assert_eq!(addresses.len(), 1500);
}
