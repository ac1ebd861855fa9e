//! Lazy singletons and per-key storage slots.
//!
//! A [`StaticTypeMap`] maps 64-bit type keys to values; a
//! [`SingletonRegistry`] builds on it to hand out, for every key, one cell
//! of the heap that holds the key's singleton — constructed on first
//! request and only then, never replaced ([`lemma_singleton_at_most_once`]).
//! Distinct keys get distinct cells and the same key always answers with
//! the same cell ([`lemma_slot_addresses`]); the cells start from the value
//! the first request brings, which is how per-key zero-initialized storage
//! slots are had. A [`CacheSlot`] is the per-call-site cache in front of
//! the registry.

use vstd::prelude::*;
use crate::cell::CellHeap;
use core::marker::PhantomData;

verus! {

broadcast use vstd::std_specs::hash::group_hash_axioms;

/// A map from 64-bit type keys to values.
pub struct StaticTypeMap<T> {
    inner: std::collections::HashMap<u64, T>,
}

impl<T> StaticTypeMap<T> {
    /// The key/value pairs held.
    pub closed spec fn view(self) -> Map<u64, T> {
        self.inner@
    }

    /// An empty map.
    pub fn new() -> (this: Self)
        ensures
            this@ == Map::<u64, T>::empty(),
    {
        StaticTypeMap { inner: std::collections::HashMap::new() }
    }

    /// Look the key up.
    pub fn get(&self, key: u64) -> (r: Option<&T>)
        ensures
            match r {
                Some(value) => self@.contains_key(key) && *value == self@[key],
                None => !self@.contains_key(key),
            },
    {
        self.inner.get(&key)
    }

    /// Bind `key` to `value`, handing back what it was bound to before.
    pub fn insert(&mut self, key: u64, value: T) -> (r: Option<T>)
        ensures
            final(self)@ == old(self)@.insert(key, value),
            match r {
                Some(previous) => old(self)@.contains_key(key) && previous == old(self)@[key],
                None => !old(self)@.contains_key(key),
            },
    {
        self.inner.insert(key, value)
    }

    /// Bind `key` to `value` unless it is bound already; hand back the
    /// value that was not used, if any, and say whether the binding is
    /// new.
    pub fn get_or_insert(&mut self, key: u64, value: T) -> (r: Option<T>)
        ensures
            final(self)@.contains_key(key),
            match r {
                Some(unused) => old(self)@.contains_key(key) && unused == value && final(self)@
                    == old(self)@,
                None => !old(self)@.contains_key(key) && final(self)@ == old(self)@.insert(
                    key,
                    value,
                ),
            },
    {
        if self.inner.contains_key(&key) {
            Some(value)
        } else {
            self.inner.insert(key, value);
            None
        }
    }
}

/// The registry of singletons: for each key, the one heap cell that holds
/// the key's singleton value.
pub struct SingletonRegistry<T> {
    map: StaticTypeMap<usize>,
    _marker: PhantomData<T>,
}

impl<T> SingletonRegistry<T> {
    /// Which cell each key's singleton lives in.
    pub closed spec fn slots(self) -> Map<u64, usize> {
        self.map@
    }

    /// The registry's invariant over the heap: every singleton cell is
    /// live — the registry keeps its one reference forever, as a leaked
    /// allocation — and no two keys share a cell.
    pub open spec fn wf(self, heap: CellHeap<T>) -> bool {
        &&& forall|key: u64| #[trigger]
            self.slots().contains_key(key) ==> heap.live(self.slots()[key] as int)
        &&& forall|k1: u64, k2: u64|
            #[trigger] self.slots().contains_key(k1) && #[trigger] self.slots().contains_key(k2)
                && k1 != k2 ==> self.slots()[k1] != self.slots()[k2]
    }

    /// An empty registry.
    pub fn new() -> (this: Self)
        ensures
            this.slots() == Map::<u64, usize>::empty(),
            forall|heap: CellHeap<T>| this.wf(heap),
    {
        let this = SingletonRegistry { map: StaticTypeMap::new(), _marker: PhantomData };
        proof {
            assert forall|heap: CellHeap<T>| this.wf(heap) by {
                assert(forall|key: u64| !this.slots().contains_key(key));
            }
        }
        this
    }

    /// The singleton cell for `key`. When the key asks for the first
    /// time, `candidate` — the constructed value — moves into a fresh
    /// cell; afterwards the registry answers with that same cell forever
    /// and hands the unused candidate back.
    pub fn singleton_with(&mut self, heap: &mut CellHeap<T>, key: u64, candidate: T) -> (r: (
        usize,
        Option<T>,
    ))
        requires
            old(heap).wf(),
            old(self).wf(*old(heap)),
        ensures
            final(heap).wf(),
            final(self).wf(*final(heap)),
            final(self).slots().contains_key(key),
            final(self).slots()[key] == r.0,
            final(heap).live(r.0 as int),
            match r.1 {
                Some(unused) => {
                    &&& unused == candidate
                    &&& old(self).slots().contains_key(key)
                    &&& *final(self) == *old(self)
                    &&& *final(heap) == *old(heap)
                },
                None => {
                    &&& !old(self).slots().contains_key(key)
                    &&& final(self).slots() == old(self).slots().insert(key, r.0)
                    &&& r.0 as int == old(heap).len()
                    &&& final(heap).len() == old(heap).len() + 1
                    &&& final(heap).cell_payload(r.0 as int) == Some(candidate)
                    &&& final(heap).cell_count(r.0 as int) == 1
                    &&& forall|j: int|
                        0 <= j < old(heap).len() ==> old(heap).same_cell(*final(heap), j)
                },
            },
    {
        match self.map.get(key) {
            Some(found) => {
                let addr = *found;
                proof {
                    assert(self.slots().contains_key(key));
                }
                (addr, Some(candidate))
            },
            None => {
                let addr = heap.alloc_cell(candidate);
                self.map.insert(key, addr);
                proof {
                    assert forall|k: u64| #[trigger]
                        self.slots().contains_key(k) implies heap.live(
                        self.slots()[k] as int,
                    ) by {
                        if k != key {
                            assert(old(self).slots().contains_key(k));
                            assert(old(heap).same_cell(*heap, old(self).slots()[k] as int));
                        }
                    }
                    assert forall|k1: u64, k2: u64|
                        #[trigger] self.slots().contains_key(k1)
                            && #[trigger] self.slots().contains_key(k2) && k1 != k2 implies self.slots()[k1]
                        != self.slots()[k2] by {
                        if k1 != key && k2 != key {
                            assert(old(self).slots().contains_key(k1));
                            assert(old(self).slots().contains_key(k2));
                        } else if k1 == key {
                            assert(old(self).slots().contains_key(k2));
                            assert(old(heap).live(old(self).slots()[k2] as int));
                        } else {
                            assert(old(self).slots().contains_key(k1));
                            assert(old(heap).live(old(self).slots()[k1] as int));
                        }
                    }
                }
                (addr, None)
            },
        }
    }

    /// The singleton cell for `key`, constructed from the type's default
    /// value on the first request.
    pub fn singleton(&mut self, heap: &mut CellHeap<T>, key: u64) -> (r: usize) where
        T: Default,
        requires
            old(heap).wf(),
            old(self).wf(*old(heap)),
        ensures
            final(heap).wf(),
            final(self).wf(*final(heap)),
            final(self).slots().contains_key(key),
            final(self).slots()[key] == r,
            final(heap).live(r as int),
            old(self).slots().contains_key(key) ==> *final(heap) == *old(heap) && *final(self)
                == *old(self) && r == old(self).slots()[key],
            !old(self).slots().contains_key(key) ==> final(self).slots() == old(self).slots().insert(key, r) && r as int == old(heap).len() && final(heap).len() == old(heap).len() + 1 && final(heap).cell_count(r as int) == 1 && forall|j: int|
                0 <= j < old(heap).len() ==> old(heap).same_cell(*final(heap), j),
    {
        let candidate = make_default::<T>();
        let (addr, _unused) = self.singleton_with(heap, key, candidate);
        addr
    }
}

/// Relies on `core::default::Default::default` of the payload type;
/// nothing is assumed of the value it makes.
#[verifier::external_body]
fn make_default<T: Default>() -> T {
    Default::default()
}

/// A per-call-site cache in front of the singleton registry: it remembers
/// the cell the registry answered for this call site's key, so later
/// requests skip the registry.
pub struct CacheSlot<T> {
    cached: Option<usize>,
    _marker: PhantomData<T>,
}

impl<T> CacheSlot<T> {
    /// The cached cell, if the slot is filled.
    pub closed spec fn spec_cached(self) -> Option<usize> {
        self.cached
    }

    /// The slot caches nothing, or exactly the registry's cell for `key`.
    pub open spec fn wf(self, registry: SingletonRegistry<T>, key: u64) -> bool {
        match self.spec_cached() {
            Some(addr) => registry.slots().contains_key(key) && registry.slots()[key] == addr,
            None => true,
        }
    }

    /// An empty slot.
    pub fn new() -> (this: Self)
        ensures
            this.spec_cached() is None,
    {
        CacheSlot { cached: None, _marker: PhantomData }
    }

    /// Read the cached cell.
    pub fn load(&self) -> (r: Option<usize>)
        ensures
            r == self.spec_cached(),
    {
        self.cached
    }

    /// Remember a cell.
    pub fn store(&mut self, addr: usize)
        ensures
            final(self).spec_cached() == Some(addr),
    {
        self.cached = Some(addr);
    }

    /// The singleton cell for `key`: the cached answer when there is one,
    /// else the registry's — which is then cached, so every later request
    /// through this slot is served without touching the registry. Either
    /// way the cell returned is the registry's cell for `key`, and the
    /// candidate comes back whenever the singleton existed already.
    pub fn get(&mut self, registry: &mut SingletonRegistry<T>, heap: &mut CellHeap<T>, key: u64,
        candidate: T) -> (r: (usize, Option<T>))
        requires
            old(heap).wf(),
            old(registry).wf(*old(heap)),
            old(self).wf(*old(registry), key),
        ensures
            final(heap).wf(),
            final(registry).wf(*final(heap)),
            final(self).wf(*final(registry), key),
            final(self).spec_cached() == Some(r.0),
            final(registry).slots().contains_key(key),
            final(registry).slots()[key] == r.0,
            final(heap).live(r.0 as int),
            forall|k: u64| #[trigger]
                old(registry).slots().contains_key(k) ==> final(registry).slots().contains_key(k)
                    && final(registry).slots()[k] == old(registry).slots()[k],
            old(self).spec_cached() is Some ==> *final(heap) == *old(heap) && *final(registry)
                == *old(registry),
            old(registry).slots().contains_key(key) ==> *final(heap) == *old(heap) && *final(registry) == *old(registry),
            match r.1 {
                Some(unused) => unused == candidate && old(registry).slots().contains_key(key),
                None => {
                    &&& !old(registry).slots().contains_key(key)
                    &&& final(registry).slots() == old(registry).slots().insert(key, r.0)
                    &&& r.0 as int == old(heap).len()
                    &&& final(heap).len() == old(heap).len() + 1
                    &&& final(heap).cell_payload(r.0 as int) == Some(candidate)
                    &&& final(heap).cell_count(r.0 as int) == 1
                    &&& forall|j: int|
                        0 <= j < old(heap).len() ==> old(heap).same_cell(*final(heap), j)
                },
            },
    {
        match self.load() {
            Some(addr) => (addr, Some(candidate)),
            None => fill_cache(self, registry, heap, key, candidate),
        }
    }
}

/// The cold path of [`CacheSlot::get`]: ask the registry and remember its
/// answer in the slot, so that later requests are served from the cache.
pub fn fill_cache<T>(
    slot: &mut CacheSlot<T>,
    registry: &mut SingletonRegistry<T>,
    heap: &mut CellHeap<T>,
    key: u64,
    candidate: T,
) -> (r: (usize, Option<T>))
    requires
        old(heap).wf(),
        old(registry).wf(*old(heap)),
    ensures
        final(heap).wf(),
        final(registry).wf(*final(heap)),
        final(slot).wf(*final(registry), key),
        final(slot).spec_cached() == Some(r.0),
        final(registry).slots().contains_key(key),
        final(registry).slots()[key] == r.0,
        final(heap).live(r.0 as int),
        forall|k: u64| #[trigger]
            old(registry).slots().contains_key(k) ==> final(registry).slots().contains_key(k)
                && final(registry).slots()[k] == old(registry).slots()[k],
        old(registry).slots().contains_key(key) ==> *final(heap) == *old(heap) && *final(registry) == *old(registry),
        match r.1 {
            Some(unused) => unused == candidate && old(registry).slots().contains_key(key),
            None => {
                &&& !old(registry).slots().contains_key(key)
                &&& final(registry).slots() == old(registry).slots().insert(key, r.0)
                &&& r.0 as int == old(heap).len()
                &&& final(heap).len() == old(heap).len() + 1
                &&& final(heap).cell_payload(r.0 as int) == Some(candidate)
                &&& final(heap).cell_count(r.0 as int) == 1
                &&& forall|j: int|
                    0 <= j < old(heap).len() ==> old(heap).same_cell(*final(heap), j)
            },
        },
{
    let (addr, unused) = registry.singleton_with(heap, key, candidate);
    slot.store(addr);
    (addr, unused)
}

/// The free-standing singleton entry point: the per-call-site slot backed
/// by the registry, constructing the type's default value on the first
/// request for `key`.
pub fn singleton<T: Default>(
    slot: &mut CacheSlot<T>,
    registry: &mut SingletonRegistry<T>,
    heap: &mut CellHeap<T>,
    key: u64,
) -> (r: usize)
    requires
        old(heap).wf(),
        old(registry).wf(*old(heap)),
        old(slot).wf(*old(registry), key),
    ensures
        final(heap).wf(),
        final(registry).wf(*final(heap)),
        final(slot).wf(*final(registry), key),
        final(slot).spec_cached() == Some(r),
        final(registry).slots().contains_key(key),
        final(registry).slots()[key] == r,
        final(heap).live(r as int),
        forall|k: u64| #[trigger]
            old(registry).slots().contains_key(k) ==> final(registry).slots().contains_key(k)
                && final(registry).slots()[k] == old(registry).slots()[k],
        old(registry).slots().contains_key(key) ==> *final(heap) == *old(heap) && *final(registry) == *old(registry),
        !old(registry).slots().contains_key(key) ==> final(registry).slots() == old(registry).slots().insert(key, r) && r as int == old(heap).len() && final(heap).len() == old(heap).len() + 1 && final(heap).cell_count(r as int) == 1 && forall|j: int|
            0 <= j < old(heap).len() ==> old(heap).same_cell(*final(heap), j),
{
    let candidate = make_default::<T>();
    let (addr, _unused) = slot.get(registry, heap, key, candidate);
    addr
}

/// Distinct keys answer with distinct cells, and one key always answers
/// with one cell.
///
/// In a well-formed registry, the cells recorded for two different keys
/// differ — their storage never overlaps — while the cell recorded for a
/// key is the one every request with that key returns, since
/// [`SingletonRegistry::singleton_with`] answers with `slots()[key]` and
/// leaves the map unchanged once the key is present.
pub proof fn lemma_slot_addresses<T>(
    registry: SingletonRegistry<T>,
    heap: CellHeap<T>,
    k1: u64,
    k2: u64,
)
    requires
        registry.wf(heap),
        registry.slots().contains_key(k1),
        registry.slots().contains_key(k2),
        k1 != k2,
    ensures
        registry.slots()[k1] != registry.slots()[k2],
{
}

/// A key's singleton is constructed at most once.
///
/// The states a registry passes through only grow: once a key is present
/// it stays present, bound to the same cell. A request constructs — moves
/// its candidate in — exactly when the key is absent, so over any run of
/// requests for one key, only the first constructs; every later request
/// hands its candidate back untouched. The premises are exactly what
/// [`SingletonRegistry::singleton_with`] ensures of each call.
pub proof fn lemma_singleton_at_most_once(
    present: Seq<bool>,
    constructed: Seq<bool>,
)
    requires
        present.len() == constructed.len() + 1,
        forall|i: int|
            0 <= i < constructed.len() ==> (#[trigger] constructed[i] <==> !present[i]),
        forall|i: int| 0 <= i < constructed.len() ==> (#[trigger] present[i + 1]),
    ensures
        forall|i: int, j: int|
            0 <= i < j < constructed.len() ==> !(#[trigger] constructed[i]
                && #[trigger] constructed[j]),
{
    assert forall|i: int, j: int|
        0 <= i < j < constructed.len() implies !(#[trigger] constructed[i]
        && #[trigger] constructed[j]) by {
        if constructed[i] && constructed[j] {
            assert(present[i + 1]);
            assert(!present[j]);
            lemma_present_monotone(present, constructed, i + 1, j);
        }
    }
}

/// Presence is monotone: a key present after some request stays present.
proof fn lemma_present_monotone(present: Seq<bool>, constructed: Seq<bool>, i: int, j: int)
    requires
        present.len() == constructed.len() + 1,
        forall|n: int| 0 <= n < constructed.len() ==> (#[trigger] present[n + 1]),
        1 <= i <= j < present.len(),
        present[i],
    ensures
        present[j],
    decreases j - i,
{
    if i < j {
        assert(present[(j - 1) + 1]);
    }
}

} // verus!
