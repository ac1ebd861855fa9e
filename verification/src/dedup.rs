//! The deduplication table: interning by structural equality.
//!
//! A [`DedupTable`] maps each value, up to the equality a [`Dedup`]
//! discipline defines, to the single live cell holding it. Handing it a
//! unique handle either finds the existing cell for an equal value — the
//! unique handle comes back for the caller to dispose of — or adopts the
//! unique handle's cell as the canonical one. Equality of the
//! [`DedupArc`] handles it gives out therefore reduces to pointer
//! identity: [`lemma_dedup_identity`] proves that two interned handles
//! over equal values name the same cell.
//!
//! The table stores `(hash, address)` records in a hash table of the
//! `hashbrown` crate, held behind trusted wrappers; it owns no reference
//! count — the cells stay alive through the handles — and the drop of the
//! last handle for a cell erases the cell's record before the cell is
//! freed.

use vstd::prelude::*;
use vstd::multiset::Multiset;
use crate::arc::{Arc, UniqueArc};
use crate::cell::{CellHeap, MAX_COUNT};
use crate::ptr::ArcPtr;
use core::marker::PhantomData;

verus! {

/// A deduplication discipline: the equality and the hash under which
/// values are interned.
///
/// The equality must be an equivalence relation and the hash must respect
/// it; each implementation proves the four laws.
pub trait Dedup<T>: Sized {
    /// The equality this discipline considers.
    spec fn eq_spec(&self, lhs: T, rhs: T) -> bool;

    /// The hash this discipline computes.
    spec fn hash_spec(&self, value: T) -> u64;

    /// The equality is reflexive.
    proof fn lemma_eq_reflexive(&self, value: T)
        ensures
            self.eq_spec(value, value),
    ;

    /// The equality is symmetric.
    proof fn lemma_eq_symmetric(&self, lhs: T, rhs: T)
        ensures
            self.eq_spec(lhs, rhs) == self.eq_spec(rhs, lhs),
    ;

    /// The equality is transitive.
    proof fn lemma_eq_transitive(&self, a: T, b: T, c: T)
        requires
            self.eq_spec(a, b),
            self.eq_spec(b, c),
        ensures
            self.eq_spec(a, c),
    ;

    /// Equal values hash equal.
    proof fn lemma_eq_same_hash(&self, lhs: T, rhs: T)
        requires
            self.eq_spec(lhs, rhs),
        ensures
            self.hash_spec(lhs) == self.hash_spec(rhs),
    ;

    /// Compute the hash of a value.
    fn dedup_hash(&self, value: &T) -> (r: u64)
        ensures
            r == self.hash_spec(*value),
    ;

    /// Decide the equality of two values.
    fn dedup_eq(&self, lhs: &T, rhs: &T) -> (r: bool)
        ensures
            r == self.eq_spec(*lhs, *rhs),
    ;
}

/// The hasher type of the `zwohash` crate, declared so that it can stand
/// in signatures; its behaviour enters only through [`zwo_hash`].
#[verifier::external_type_specification]
#[verifier::external_body]
pub struct ExZwoHasher(zwohash::ZwoHasher);

/// The std hasher factory, declared so that it can stand in signatures.
#[verifier::external_type_specification]
#[verifier::external_body]
#[verifier::reject_recursive_types(H)]
pub struct ExBuildHasherDefault<H>(std::hash::BuildHasherDefault<H>);

/// What `zwohash::ZwoHasher` computes for a 64-bit word: a fixed function
/// of the word alone, since the hasher starts from a constant state and
/// takes no seed.
pub uninterp spec fn zwo_hash_of(value: u64) -> u64;

/// Relies on `zwohash::ZwoHasher` through `BuildHasherDefault`: the hasher
/// is built in its fixed default state, so the digest of one written word
/// depends on that word alone.
#[verifier::external_body]
fn zwo_hash(build_hasher: &std::hash::BuildHasherDefault<zwohash::ZwoHasher>, value: &u64) -> (r:
    u64)
    ensures
        r == zwo_hash_of(*value),
{
    std::hash::BuildHasher::hash_one(build_hasher, *value)
}

/// The deduplication discipline over a hasher: values compare by their own
/// equality and hash by the hasher.
pub struct BuildHasherDedup<H> {
    build_hasher: H,
}

/// The default discipline: 64-bit words hashed by `zwohash`.
pub type DefaultDedup = BuildHasherDedup<std::hash::BuildHasherDefault<zwohash::ZwoHasher>>;

impl Dedup<u64> for DefaultDedup {
    open spec fn eq_spec(&self, lhs: u64, rhs: u64) -> bool {
        lhs == rhs
    }

    closed spec fn hash_spec(&self, value: u64) -> u64 {
        zwo_hash_of(value)
    }

    proof fn lemma_eq_reflexive(&self, value: u64) {
    }

    proof fn lemma_eq_symmetric(&self, lhs: u64, rhs: u64) {
    }

    proof fn lemma_eq_transitive(&self, a: u64, b: u64, c: u64) {
    }

    proof fn lemma_eq_same_hash(&self, lhs: u64, rhs: u64) {
    }

    fn dedup_hash(&self, value: &u64) -> (r: u64) {
        zwo_hash(&self.build_hasher, value)
    }

    fn dedup_eq(&self, lhs: &u64, rhs: &u64) -> (r: bool) {
        *lhs == *rhs
    }
}

impl Default for DefaultDedup {
    /// The default discipline carries the hasher in its fixed default
    /// state.
    fn default() -> (this: Self) {
        BuildHasherDedup { build_hasher: make_default_build_hasher() }
    }
}

/// Relies on `std::hash::BuildHasherDefault::default`: a fresh,
/// deterministic hasher factory with no state of its own.
#[verifier::external_body]
fn make_default_build_hasher() -> std::hash::BuildHasherDefault<zwohash::ZwoHasher> {
    std::hash::BuildHasherDefault::default()
}

/// The table's store: `(hash, address)` records in a hash table of the
/// `hashbrown` crate, held in an opaque wrapper — the table type cannot
/// be declared here, as its allocator bound names a trait of a crate
/// behind `hashbrown`. Records enter only through [`entry_table_insert`],
/// which keys each record by its own first field.
#[verifier::external_body]
pub struct EntryTable {
    table: hashbrown::HashTable<(u64, usize)>,
}

/// The records an [`EntryTable`] holds.
pub uninterp spec fn entry_records(table: EntryTable) -> Multiset<(u64, usize)>;

/// Relies on `hashbrown::HashTable::new`: a fresh table holds nothing.
#[verifier::external_body]
fn entry_table_new() -> (table: EntryTable)
    ensures
        entry_records(table) == Multiset::<(u64, usize)>::empty(),
{
    EntryTable { table: hashbrown::HashTable::new() }
}

/// Relies on `hashbrown::HashTable::insert_unique`: the record is added
/// under the given hash and the rest stay; on rehashing every record keeps
/// the hash its first field holds, which is the hash it was inserted
/// under.
#[verifier::external_body]
fn entry_table_insert(table: &mut EntryTable, record: (u64, usize))
    ensures
        entry_records(*final(table)) == entry_records(*old(table)).insert(record),
{
    table.table.insert_unique(record.0, record, |r: &(u64, usize)| r.0);
}

/// Whether a stored record's payload is equal, under the discipline, to
/// the probed value; this is the test the find wrapper's closure runs.
fn entry_matches<T, D: Dedup<T>>(
    heap: &CellHeap<T>,
    dedup: &D,
    record: &(u64, usize),
    probe: &T,
) -> (r: bool)
    requires
        heap.wf(),
        heap.live(record.1 as int),
    ensures
        r == dedup.eq_spec(heap.cell_payload(record.1 as int).unwrap(), *probe),
{
    dedup.dedup_eq(heap.payload(record.1), probe)
}

/// Relies on `hashbrown::HashTable::find`: the search calls the equality
/// closure — here the verified [`entry_matches`] — on every record stored
/// under the given hash, stops at the first that answers true, and
/// answers `None` only after all of them answered false.
#[verifier::external_body]
fn entry_table_find<T, D: Dedup<T>>(
    table: &EntryTable,
    hash: u64,
    heap: &CellHeap<T>,
    dedup: &D,
    probe: &T,
) -> (r: Option<(u64, usize)>)
    requires
        heap.wf(),
        forall|rec: (u64, usize)|
            #[trigger] entry_records(*table).count(rec) > 0 ==> heap.live(rec.1 as int),
    ensures
        match r {
            Some(rec) => entry_records(*table).count(rec) > 0 && dedup.eq_spec(
                heap.cell_payload(rec.1 as int).unwrap(),
                *probe,
            ),
            None => forall|rec: (u64, usize)|
                entry_records(*table).count(rec) > 0 && rec.0 == hash ==> !dedup.eq_spec(
                    heap.cell_payload(rec.1 as int).unwrap(),
                    *probe,
                ),
        },
{
    table.table.find(hash, |rec: &(u64, usize)| entry_matches(heap, dedup, rec, probe)).copied()
}

/// Whether a record is exactly the `(hash, address)` pair being erased;
/// this is the test the removal wrapper's closure runs.
fn record_matches(record: &(u64, usize), hash: u64, addr: usize) -> (r: bool)
    ensures
        r == (record.0 == hash && record.1 == addr),
{
    record.0 == hash && record.1 == addr
}

/// Relies on `hashbrown::HashTable::find_entry` and
/// `OccupiedEntry::remove`: the search calls the closure — the verified
/// [`record_matches`] — on every record stored under the given hash, the
/// found record alone is removed, and a miss means no record under that
/// hash was the pair.
#[verifier::external_body]
fn entry_table_remove(table: &mut EntryTable, hash: u64, addr: usize) -> (r: bool)
    ensures
        r ==> entry_records(*old(table)).count((hash, addr)) > 0 && entry_records(*final(table))
            == entry_records(*old(table)).remove((hash, addr)),
        !r ==> entry_records(*final(table)) == entry_records(*old(table)) && entry_records(
            *old(table),
        ).count((hash, addr)) == 0,
{
    match table.table.find_entry(hash, |rec: &(u64, usize)| record_matches(rec, hash, addr)) {
        Ok(entry) => {
            entry.remove();
            true
        },
        Err(_) => false,
    }
}

/// The table invariant survives a heap step that touches at most one
/// cell, when the touched cell either stays live with its payload — a
/// count change — or is not recorded at all.
proof fn lemma_wf_preserved<T, D: Dedup<T>>(
    table: DedupTable<T, D>,
    pre: CellHeap<T>,
    post: CellHeap<T>,
    touched: int,
)
    requires
        table.wf(pre),
        pre.same_except(post, touched),
        table.contains_addr(touched) ==> post.live(touched) && post.cell_payload(touched)
            == pre.cell_payload(touched),
    ensures
        table.wf(post),
{
    assert forall|rec: (u64, usize)| #[trigger]
        table.records().count(rec) > 0 implies post.live(rec.1 as int) && rec.0
        == table.dedup().hash_spec(post.cell_payload(rec.1 as int).unwrap())
        && table.records().count(rec) == 1 by {
        if rec.1 as int == touched {
            assert(table.contains_addr(touched));
        } else {
            assert(pre.same_cell(post, rec.1 as int));
        }
    }
    assert forall|q1: (u64, usize), q2: (u64, usize)|
        #[trigger] table.records().count(q1) > 0 && #[trigger] table.records().count(q2) > 0
            && q1 != q2 implies q1.1 != q2.1 && !table.dedup().eq_spec(
        post.cell_payload(q1.1 as int).unwrap(),
        post.cell_payload(q2.1 as int).unwrap(),
    ) by {
        if q1.1 as int == touched {
            assert(table.contains_addr(touched));
        } else {
            assert(pre.same_cell(post, q1.1 as int));
        }
        if q2.1 as int == touched {
            assert(table.contains_addr(touched));
        } else {
            assert(pre.same_cell(post, q2.1 as int));
        }
    }
}

/// The table invariant survives growing the heap: every cell the table
/// records is below the old length and untouched.
proof fn lemma_wf_extended<T, D: Dedup<T>>(
    table: DedupTable<T, D>,
    pre: CellHeap<T>,
    post: CellHeap<T>,
)
    requires
        table.wf(pre),
        forall|j: int| 0 <= j < pre.len() ==> pre.same_cell(post, j),
        pre.len() <= post.len(),
    ensures
        table.wf(post),
{
    assert forall|rec: (u64, usize)| #[trigger]
        table.records().count(rec) > 0 implies post.live(rec.1 as int) && rec.0
        == table.dedup().hash_spec(post.cell_payload(rec.1 as int).unwrap())
        && table.records().count(rec) == 1 by {
        assert(pre.same_cell(post, rec.1 as int));
    }
    assert forall|q1: (u64, usize), q2: (u64, usize)|
        #[trigger] table.records().count(q1) > 0 && #[trigger] table.records().count(q2) > 0
            && q1 != q2 implies q1.1 != q2.1 && !table.dedup().eq_spec(
        post.cell_payload(q1.1 as int).unwrap(),
        post.cell_payload(q2.1 as int).unwrap(),
    ) by {
        assert(pre.same_cell(post, q1.1 as int));
        assert(pre.same_cell(post, q2.1 as int));
    }
}

/// The process-wide deduplication table for one payload type and one
/// discipline.
pub struct DedupTable<T, D: Dedup<T>> {
    dedup: D,
    table: EntryTable,
    _marker: PhantomData<T>,
}

impl<T, D: Dedup<T>> DedupTable<T, D> {
    /// The `(hash, address)` records of the interned cells.
    pub closed spec fn records(self) -> Multiset<(u64, usize)> {
        entry_records(self.table)
    }

    /// The discipline the table interns under.
    pub closed spec fn dedup(self) -> D {
        self.dedup
    }

    /// Whether some record names the cell at `addr`.
    pub open spec fn contains_addr(self, addr: int) -> bool {
        exists|rec: (u64, usize)| #[trigger] self.records().count(rec) > 0 && rec.1 == addr
    }

    /// The table's invariant over the heap: every record names a live
    /// cell, under the hash of that cell's payload; no two records name
    /// the same cell or hold equal payloads. The last clause is the
    /// deduplication guarantee itself.
    pub open spec fn wf(self, heap: CellHeap<T>) -> bool {
        &&& forall|rec: (u64, usize)| #[trigger]
            self.records().count(rec) > 0 ==> heap.live(rec.1 as int) && rec.0 == self.dedup(
            ).hash_spec(heap.cell_payload(rec.1 as int).unwrap()) && self.records().count(rec) == 1
        &&& forall|r1: (u64, usize), r2: (u64, usize)|
            #[trigger] self.records().count(r1) > 0 && #[trigger] self.records().count(r2) > 0
                && r1 != r2 ==> r1.1 != r2.1 && !self.dedup().eq_spec(
                heap.cell_payload(r1.1 as int).unwrap(),
                heap.cell_payload(r2.1 as int).unwrap(),
            )
    }

    /// An empty table interning under `dedup`.
    pub fn new(dedup: D) -> (this: Self)
        ensures
            this.records() == Multiset::<(u64, usize)>::empty(),
            forall|heap: CellHeap<T>| this.wf(heap),
            this.dedup() == dedup,
    {
        let this = DedupTable { dedup, table: entry_table_new(), _marker: PhantomData };
        proof {
            assert forall|heap: CellHeap<T>| this.wf(heap) by {
                assert(forall|rec: (u64, usize)| this.records().count(rec) == 0);
            }
        }
        this
    }

    /// Intern the value a unique handle owns.
    ///
    /// Either an equal value is interned already — the existing cell gains
    /// a reference, the new handle names it, and the untouched unique
    /// handle comes back for the caller to dispose of — or the unique
    /// handle's own cell is adopted as the canonical cell for its value,
    /// its single reference passing to the returned handle.
    ///
    /// The premises beyond well-formedness: the unique handle's cell is
    /// not recorded — a recorded cell is an interned cell, which a unique
    /// handle never names — and every recorded count has room to grow by
    /// one, as a count about to pass the bound would abort instead.
    pub fn find_or_remember(&mut self, heap: &mut CellHeap<T>, unique: UniqueArc<T>) -> (r: (
        DedupArc<T, D>,
        Option<UniqueArc<T>>,
    ))
        requires
            old(heap).wf(),
            old(self).wf(*old(heap)),
            unique.valid(*old(heap)),
            !old(self).contains_addr(unique.addr()),
            forall|rec: (u64, usize)| #[trigger]
                old(self).records().count(rec) > 0 ==> old(heap).cell_count(rec.1 as int)
                    < MAX_COUNT,
        ensures
            final(heap).wf(),
            final(self).wf(*final(heap)),
            final(self).dedup() == old(self).dedup(),
            r.0.valid(*final(heap)),
            r.0.interned(*final(self), *final(heap)),
            old(self).dedup().eq_spec(r.0.value(*final(heap)), unique.value(*old(heap))),
            final(heap).len() == old(heap).len(),
            match r.1 {
                Some(returned) => {
                    &&& returned == unique
                    &&& returned.valid(*final(heap))
                    &&& final(self).records() == old(self).records()
                    &&& r.0.addr() != unique.addr()
                    &&& old(self).contains_addr(r.0.addr())
                    &&& old(heap).same_except(*final(heap), r.0.addr())
                    &&& final(heap).cell_count(r.0.addr()) == old(heap).cell_count(r.0.addr())
                        + 1
                    &&& final(heap).cell_payload(r.0.addr()) == old(heap).cell_payload(r.0.addr())
                },
                None => {
                    &&& r.0.addr() == unique.addr()
                    &&& *final(heap) == *old(heap)
                    &&& final(self).records() == old(self).records().insert(
                        (old(self).dedup().hash_spec(unique.value(*old(heap))), unique.addr() as usize),
                    )
                },
            },
    {
        let value_ref = unique.get(heap);
        let hash = self.dedup.dedup_hash(value_ref);
        proof {
            assert forall|rec: (u64, usize)| #[trigger]
                entry_records(self.table).count(rec) > 0 implies heap.live(rec.1 as int) by {
                assert(self.records().count(rec) > 0);
            }
        }
        let found = entry_table_find(&self.table, hash, heap, &self.dedup, value_ref);
        match found {
            Some(rec) => {
                let ptr: ArcPtr<T> = ArcPtr::from_data_ptr(rec.1);
                proof {
                    assert(old(self).records().count(rec) > 0);
                    if rec.1 as int == unique.addr() {
                        assert(old(self).contains_addr(unique.addr()));
                    }
                }
                ptr.inc_count(heap);
                let handle = DedupArc { ptr, _marker: PhantomData };
                proof {
                    assert(self.records() == old(self).records());
                    assert(self.records().count(rec) > 0);
                    let fv = old(heap).cell_payload(rec.1 as int).unwrap();
                    assert(rec.0 == old(self).dedup().hash_spec(fv));
                    assert(heap.cell_payload(rec.1 as int) == old(heap).cell_payload(rec.1 as int));
                    assert(self.contains_addr(rec.1 as int));
                    lemma_wf_preserved(*self, *old(heap), *heap, rec.1 as int);
                    assert(old(heap).same_cell(*heap, unique.addr()));
                }
                (handle, Some(unique))
            },
            None => {
                let addr = UniqueArc::as_arc_ptr(&unique).data_ptr();
                let ghost uv = unique.value(*old(heap));
                entry_table_insert(&mut self.table, (hash, addr));
                let ptr = UniqueArc::into_arc_ptr(unique);
                let handle = DedupArc { ptr, _marker: PhantomData };
                proof {
                    let newrec = (hash, addr);
                    let prior = old(self).records();
                    self.dedup.lemma_eq_reflexive(uv);
                    assert(self.records() == prior.insert(newrec));
                    assert(self.records().count(newrec) == prior.count(newrec) + 1);
                    assert(prior.count(newrec) == 0) by {
                        if prior.count(newrec) > 0 {
                            assert(old(self).contains_addr(newrec.1 as int));
                        }
                    }
                    assert forall|rec: (u64, usize)| #[trigger]
                        self.records().count(rec) > 0 implies heap.live(rec.1 as int) && rec.0
                        == self.dedup().hash_spec(heap.cell_payload(rec.1 as int).unwrap())
                        && self.records().count(rec) == 1 by {
                        if rec != newrec {
                            assert(prior.count(rec) > 0);
                        }
                    }
                    assert forall|q1: (u64, usize), q2: (u64, usize)|
                        #[trigger] self.records().count(q1) > 0 && #[trigger] self.records().count(
                            q2,
                        ) > 0 && q1 != q2 implies q1.1 != q2.1 && !self.dedup().eq_spec(
                        heap.cell_payload(q1.1 as int).unwrap(),
                        heap.cell_payload(q2.1 as int).unwrap(),
                    ) by {
                        let dedup = self.dedup();
                        if q1 == newrec {
                            assert(prior.count(q2) > 0);
                            let ov = heap.cell_payload(q2.1 as int).unwrap();
                            if q2.1 != newrec.1 {
                                if dedup.eq_spec(uv, ov) {
                                    dedup.lemma_eq_same_hash(uv, ov);
                                    dedup.lemma_eq_symmetric(uv, ov);
                                }
                            } else {
                                assert(old(self).contains_addr(newrec.1 as int));
                            }
                        } else if q2 == newrec {
                            assert(prior.count(q1) > 0);
                            let ov = heap.cell_payload(q1.1 as int).unwrap();
                            if q1.1 != newrec.1 {
                                if dedup.eq_spec(ov, uv) {
                                    dedup.lemma_eq_same_hash(ov, uv);
                                    dedup.lemma_eq_symmetric(ov, uv);
                                }
                            } else {
                                assert(old(self).contains_addr(newrec.1 as int));
                            }
                        } else {
                            assert(prior.count(q1) > 0);
                            assert(prior.count(q2) > 0);
                        }
                    }
                }
                (handle, None)
            },
        }
    }

    /// Erase the record of the cell at `addr`, stored under `hash` —
    /// called while the last handle for that cell is being dropped, before
    /// the cell is freed. The record is there, by the drop's premises, so
    /// the erasure cannot miss.
    pub fn forget(&mut self, hash: u64, addr: usize)
        requires
            old(self).records().count((hash, addr)) > 0,
        ensures
            final(self).records() == old(self).records().remove((hash, addr)),
            final(self).dedup() == old(self).dedup(),
    {
        let found = entry_table_remove(&mut self.table, hash, addr);
        proof {
            assert(found);
        }
    }
}

/// A handle to an interned cell: a shared handle whose cell the
/// deduplication table canonicalised, so that handles over equal values
/// are pointer-equal. Like its equality, its hash is the cell address.
#[derive(Hash)]
pub struct DedupArc<T, D: Dedup<T>> {
    ptr: ArcPtr<T>,
    _marker: PhantomData<D>,
}

impl<T, D: Dedup<T>> DedupArc<T, D> {
    /// The cell this handle owns a reference to.
    pub closed spec fn addr(self) -> int {
        self.ptr.addr()
    }

    /// The handle points at a live cell of `heap`.
    pub open spec fn valid(self, heap: CellHeap<T>) -> bool {
        heap.live(self.addr())
    }

    /// The interned value this handle gives access to.
    pub open spec fn value(self, heap: CellHeap<T>) -> T {
        heap.cell_payload(self.addr()).unwrap()
    }

    /// The handle's cell is recorded in the table, under the hash of its
    /// payload.
    pub open spec fn interned(self, table: DedupTable<T, D>, heap: CellHeap<T>) -> bool {
        table.records().count(
            (table.dedup().hash_spec(self.value(heap)), self.addr() as usize),
        ) > 0
    }

    /// Intern the value a unique handle owns; the table method
    /// [`DedupTable::find_or_remember`] does the work.
    pub fn find_or_remember(
        table: &mut DedupTable<T, D>,
        heap: &mut CellHeap<T>,
        unique: UniqueArc<T>,
    ) -> (r: (DedupArc<T, D>, Option<UniqueArc<T>>))
        requires
            old(heap).wf(),
            old(table).wf(*old(heap)),
            unique.valid(*old(heap)),
            !old(table).contains_addr(unique.addr()),
            forall|rec: (u64, usize)| #[trigger]
                old(table).records().count(rec) > 0 ==> old(heap).cell_count(rec.1 as int)
                    < MAX_COUNT,
        ensures
            final(heap).wf(),
            final(table).wf(*final(heap)),
            final(table).dedup() == old(table).dedup(),
            final(heap).len() == old(heap).len(),
            r.0.valid(*final(heap)),
            r.0.interned(*final(table), *final(heap)),
            old(table).dedup().eq_spec(r.0.value(*final(heap)), unique.value(*old(heap))),
            match r.1 {
                Some(returned) => {
                    &&& returned == unique
                    &&& returned.valid(*final(heap))
                    &&& final(table).records() == old(table).records()
                    &&& r.0.addr() != unique.addr()
                    &&& old(table).contains_addr(r.0.addr())
                    &&& old(heap).same_except(*final(heap), r.0.addr())
                    &&& final(heap).cell_count(r.0.addr()) == old(heap).cell_count(r.0.addr())
                        + 1
                    &&& final(heap).cell_payload(r.0.addr()) == old(heap).cell_payload(r.0.addr())
                },
                None => {
                    &&& r.0.addr() == unique.addr()
                    &&& *final(heap) == *old(heap)
                    &&& final(table).records() == old(table).records().insert(
                        (
                            old(table).dedup().hash_spec(unique.value(*old(heap))),
                            unique.addr() as usize,
                        ),
                    )
                },
            },
    {
        table.find_or_remember(heap, unique)
    }

    /// Intern a fresh value: allocate a cell for it and hand it to the
    /// table; when an equal value is interned already, the fresh cell is
    /// disposed of again and the existing cell's handle comes back.
    pub fn new(table: &mut DedupTable<T, D>, heap: &mut CellHeap<T>, value: T) -> (r: DedupArc<
        T,
        D,
    >)
        requires
            old(heap).wf(),
            old(table).wf(*old(heap)),
            forall|rec: (u64, usize)| #[trigger]
                old(table).records().count(rec) > 0 ==> old(heap).cell_count(rec.1 as int)
                    < MAX_COUNT,
        ensures
            final(heap).wf(),
            final(table).wf(*final(heap)),
            final(table).dedup() == old(table).dedup(),
            r.valid(*final(heap)),
            r.interned(*final(table), *final(heap)),
            old(table).dedup().eq_spec(r.value(*final(heap)), value),
            final(heap).len() == old(heap).len() + 1,
            0 <= r.addr() <= old(heap).len(),
            forall|j: int|
                0 <= j < old(heap).len() && j != r.addr() ==> old(heap).same_cell(
                    *final(heap),
                    j,
                ),
            r.addr() == old(heap).len() ==> final(heap).cell_count(r.addr()) == 1 && final(heap).cell_payload(r.addr()) == Some(value) && final(table).records() == old(table).records().insert((old(table).dedup().hash_spec(value), r.addr() as usize)),
            r.addr() < old(heap).len() ==> final(heap).cell_count(r.addr()) == old(heap).cell_count(r.addr()) + 1 && final(heap).cell_payload(r.addr()) == old(heap).cell_payload(r.addr()) && final(table).records() == old(table).records() && final(heap).freed(old(heap).len() as int),
    {
        let unique = UniqueArc::new(heap, value);
        proof {
            if old(table).contains_addr(unique.addr()) {
                let rec = choose|rec: (u64, usize)|
                    #[trigger] old(table).records().count(rec) > 0 && rec.1 == unique.addr();
                assert(old(heap).live(rec.1 as int));
            }
            lemma_wf_extended(*table, *old(heap), *heap);
            assert forall|rec: (u64, usize)| #[trigger]
                table.records().count(rec) > 0 implies heap.cell_count(rec.1 as int)
                < MAX_COUNT by {
                assert(old(heap).live(rec.1 as int));
                assert(old(heap).same_cell(*heap, rec.1 as int));
            }
        }
        let ghost mid = *heap;
        let (handle, leftover) = table.find_or_remember(heap, unique);
        match leftover {
            Some(unique) => {
                proof {
                    if table.contains_addr(unique.addr()) {
                        let rec = choose|rec: (u64, usize)|
                            #[trigger] table.records().count(rec) > 0 && rec.1 == unique.addr();
                        assert(old(table).records().count(rec) > 0);
                        assert(old(heap).live(rec.1 as int));
                    }
                }
                let ghost before_drop = *heap;
                unique.drop(heap);
                proof {
                    lemma_wf_preserved(*table, before_drop, *heap, unique.addr());
                    assert(before_drop.same_cell(*heap, handle.addr()));
                    assert forall|j: int|
                        0 <= j < old(heap).len() && j != handle.addr() implies old(
                        heap,
                    ).same_cell(*heap, j) by {
                        assert(old(heap).same_cell(mid, j));
                        assert(mid.same_cell(before_drop, j));
                        assert(before_drop.same_cell(*heap, j));
                    }
                    assert(handle.addr() < old(heap).len());
                    assert(mid.same_cell(before_drop, handle.addr()) || handle.addr()
                        == handle.addr());
                    assert(old(heap).same_cell(mid, handle.addr()));
                }
                handle
            },
            None => handle,
        }
    }

    /// Take one more reference to the interned cell.
    pub fn clone(&self, heap: &mut CellHeap<T>) -> (r: Self)
        requires
            old(heap).wf(),
            self.valid(*old(heap)),
            old(heap).cell_count(self.addr()) < MAX_COUNT,
        ensures
            final(heap).wf(),
            r.addr() == self.addr(),
            old(heap).same_except(*final(heap), self.addr()),
            final(heap).cell_count(self.addr()) == old(heap).cell_count(self.addr()) + 1,
            final(heap).cell_payload(self.addr()) == old(heap).cell_payload(self.addr()),
    {
        self.ptr.inc_count(heap);
        DedupArc { ptr: self.ptr, _marker: PhantomData }
    }

    /// Give up this reference. The drop of the last reference erases the
    /// cell's record from the table — so later interning of an equal value
    /// makes a fresh cell — and then, exactly then, frees the cell.
    pub fn drop(self, table: &mut DedupTable<T, D>, heap: &mut CellHeap<T>)
        requires
            old(heap).wf(),
            old(table).wf(*old(heap)),
            self.valid(*old(heap)),
            self.interned(*old(table), *old(heap)),
        ensures
            final(heap).wf(),
            final(table).wf(*final(heap)),
            final(table).dedup() == old(table).dedup(),
            old(heap).same_except(*final(heap), self.addr()),
            final(heap).cell_count(self.addr()) == old(heap).cell_count(self.addr()) - 1,
            old(heap).cell_count(self.addr()) > 1 ==> final(heap).cell_payload(self.addr())
                == old(heap).cell_payload(self.addr()) && final(table).records() == old(table).records(),
            old(heap).cell_count(self.addr()) == 1 ==> final(heap).cell_payload(
                self.addr(),
            ) is None && final(table).records() == old(table).records().remove(
                (old(table).dedup().hash_spec(self.value(*old(heap))), self.addr() as usize),
            ) && !final(table).contains_addr(self.addr()),
    {
        let count = self.ptr.as_untyped_ptr().load_count(heap);
        if count == 1 {
            let value_ref = heap.payload(self.ptr.data_ptr());
            let hash = table.dedup.dedup_hash(value_ref);
            let ghost erased = (hash, self.addr() as usize);
            table.forget(hash, self.ptr.data_ptr());
            self.ptr.dec_count_drop_on_zero(heap);
            proof {
                let prior = old(table).records();
                assert forall|rec: (u64, usize)| #[trigger]
                    table.records().count(rec) > 0 implies heap.live(rec.1 as int) && rec.0
                    == table.dedup().hash_spec(heap.cell_payload(rec.1 as int).unwrap())
                    && table.records().count(rec) == 1 by {
                    assert(prior.count(rec) > 0);
                    assert(prior.count(erased) > 0);
                    assert(rec != erased);
                    assert(rec.1 != erased.1);
                    assert(old(heap).same_cell(*heap, rec.1 as int));
                }
                assert forall|q1: (u64, usize), q2: (u64, usize)|
                    #[trigger] table.records().count(q1) > 0 && #[trigger] table.records().count(
                        q2,
                    ) > 0 && q1 != q2 implies q1.1 != q2.1 && !table.dedup().eq_spec(
                    heap.cell_payload(q1.1 as int).unwrap(),
                    heap.cell_payload(q2.1 as int).unwrap(),
                ) by {
                    assert(prior.count(q1) > 0);
                    assert(prior.count(q2) > 0);
                    assert(prior.count(erased) > 0);
                    assert(q1 != erased && q2 != erased);
                    assert(q1.1 != erased.1 && q2.1 != erased.1);
                    assert(old(heap).same_cell(*heap, q1.1 as int));
                    assert(old(heap).same_cell(*heap, q2.1 as int));
                }
                if table.contains_addr(self.addr()) {
                    let rec = choose|rec: (u64, usize)|
                        #[trigger] table.records().count(rec) > 0 && rec.1 == self.addr();
                    assert(prior.count(rec) > 0);
                    assert(prior.count(erased) > 0);
                    assert(rec.1 != erased.1);
                }
            }
        } else {
            self.ptr.dec_count_drop_on_zero(heap);
            proof {
                self.ptr.lemma_addr_bounds();
                let myrec = (old(table).dedup().hash_spec(self.value(*old(heap))),
                    self.addr() as usize);
                assert(table.records().count(myrec) > 0);
                assert(table.contains_addr(self.addr()));
                lemma_wf_preserved(*table, *old(heap), *heap, self.addr());
            }
        }
    }

    /// Convert into a plain unique handle — possible exactly when this is
    /// the only outstanding reference. The cell leaves the table as it
    /// leaves the interning discipline: its value is the caller's alone
    /// again, and the unique handle's drop runs the destructor. With more
    /// references outstanding the interned handle comes back unchanged.
    pub fn try_into_unique(this: Self, table: &mut DedupTable<T, D>, heap: &CellHeap<T>) -> (r:
        Result<UniqueArc<T>, DedupArc<T, D>>)
        requires
            heap.wf(),
            old(table).wf(*heap),
            this.valid(*heap),
            this.interned(*old(table), *heap),
        ensures
            final(table).wf(*heap),
            final(table).dedup() == old(table).dedup(),
            match r {
                Ok(unique) => {
                    &&& heap.cell_count(this.addr()) == 1
                    &&& unique.addr() == this.addr()
                    &&& unique.valid(*heap)
                    &&& final(table).records() == old(table).records().remove(
                        (old(table).dedup().hash_spec(this.value(*heap)), this.addr() as usize),
                    )
                    &&& !final(table).contains_addr(this.addr())
                },
                Err(shared) => {
                    &&& heap.cell_count(this.addr()) > 1
                    &&& shared.addr() == this.addr()
                    &&& *final(table) == *old(table)
                },
            },
    {
        let count = this.ptr.as_untyped_ptr().load_count(heap);
        if count == 1 {
            let value_ref = heap.payload(this.ptr.data_ptr());
            let hash = table.dedup.dedup_hash(value_ref);
            let ghost erased = (hash, this.addr() as usize);
            table.forget(hash, this.ptr.data_ptr());
            proof {
                let prior = old(table).records();
                assert forall|rec: (u64, usize)| #[trigger]
                    table.records().count(rec) > 0 implies heap.live(rec.1 as int) && rec.0
                    == table.dedup().hash_spec(heap.cell_payload(rec.1 as int).unwrap())
                    && table.records().count(rec) == 1 by {
                    assert(prior.count(rec) > 0);
                }
                assert forall|q1: (u64, usize), q2: (u64, usize)|
                    #[trigger] table.records().count(q1) > 0 && #[trigger] table.records().count(
                        q2,
                    ) > 0 && q1 != q2 implies q1.1 != q2.1 && !table.dedup().eq_spec(
                    heap.cell_payload(q1.1 as int).unwrap(),
                    heap.cell_payload(q2.1 as int).unwrap(),
                ) by {
                    assert(prior.count(q1) > 0);
                    assert(prior.count(q2) > 0);
                }
                if table.contains_addr(this.addr()) {
                    let rec = choose|rec: (u64, usize)|
                        #[trigger] table.records().count(rec) > 0 && rec.1 == this.addr();
                    assert(prior.count(rec) > 0);
                    assert(prior.count(erased) > 0);
                    assert(rec.1 != erased.1);
                }
            }
            Ok(UniqueArc::from_arc_ptr(this.ptr))
        } else {
            Err(this)
        }
    }

    /// Borrow the interned value.
    pub fn get<'a>(&self, heap: &'a CellHeap<T>) -> (value: &'a T)
        requires
            heap.wf(),
            self.valid(*heap),
        ensures
            *value == self.value(*heap),
    {
        heap.payload(self.ptr.data_ptr())
    }

    /// Whether two interned handles name the same cell — which, by
    /// [`lemma_dedup_identity`], is how interned handles compare equal.
    pub fn ptr_eq(lhs: &Self, rhs: &Self) -> (r: bool)
        ensures
            r == (lhs.addr() == rhs.addr()),
    {
        lhs.ptr.data_ptr() == rhs.ptr.data_ptr()
    }

    /// The bare cell pointer of the interned cell.
    pub fn as_arc_ptr(this: &Self) -> (r: ArcPtr<T>)
        ensures
            r.addr() == this.addr(),
    {
        this.ptr
    }

    /// Dress the interned handle as a plain shared handle; the reference
    /// it owned moves along.
    pub fn into_shared_arc(this: Self) -> (r: Arc<T>)
        ensures
            r.addr() == this.addr(),
    {
        Arc::from_arc_ptr(this.ptr)
    }
}

impl<T, D: Dedup<T>> PartialEq for DedupArc<T, D> {
    /// Handles compare by pointer identity — which, for interned handles
    /// of one table, coincides with equality of their values
    /// ([`lemma_dedup_identity`]).
    fn eq(&self, other: &Self) -> (r: bool) {
        self.ptr.data_ptr() == other.ptr.data_ptr()
    }
}

impl<T, D: Dedup<T>> vstd::std_specs::cmp::PartialEqSpecImpl for DedupArc<T, D> {
    open spec fn obeys_eq_spec() -> bool {
        true
    }

    open spec fn eq_spec(&self, other: &DedupArc<T, D>) -> bool {
        self.addr() == other.addr()
    }
}

impl<T, D: Dedup<T>> Eq for DedupArc<T, D> {

}

/// Interned handles over equal values are pointer-equal.
///
/// Both handles are interned in the same table, and their values are equal
/// under the table's discipline; then they name the same cell. This is the
/// deduplication guarantee: structural equality of interned values
/// collapses to pointer identity.
pub proof fn lemma_dedup_identity<T, D: Dedup<T>>(
    table: DedupTable<T, D>,
    heap: CellHeap<T>,
    a: DedupArc<T, D>,
    b: DedupArc<T, D>,
)
    requires
        heap.wf(),
        table.wf(heap),
        a.valid(heap),
        b.valid(heap),
        a.interned(table, heap),
        b.interned(table, heap),
        table.dedup().eq_spec(a.value(heap), b.value(heap)),
    ensures
        a.addr() == b.addr(),
{
    a.ptr.lemma_addr_bounds();
    b.ptr.lemma_addr_bounds();
    let ra = (table.dedup().hash_spec(a.value(heap)), a.addr() as usize);
    let rb = (table.dedup().hash_spec(b.value(heap)), b.addr() as usize);
    assert(table.records().count(ra) > 0);
    assert(table.records().count(rb) > 0);
    if ra != rb {
        assert(!table.dedup().eq_spec(
            heap.cell_payload(ra.1 as int).unwrap(),
            heap.cell_payload(rb.1 as int).unwrap(),
        ));
    }
}

} // verus!
