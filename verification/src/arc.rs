//! Owning handles: the shared, reference-counted [`Arc`] and the statically
//! single-owner [`UniqueArc`].
//!
//! A shared handle owns one unit of its cell's reference count: cloning
//! raises the count by one, dropping lowers it, and the drop that takes the
//! count to zero runs the payload's destructor — exactly once, after the
//! last handle is gone ([`lemma_payload_dropped_once_at_last_drop`] states
//! that for every interleaving of clones and drops). A unique handle holds
//! the only reference, so its drop reclaims the cell with no counting.

use vstd::prelude::*;
use crate::cell::{CellHeap, MAX_COUNT};
use crate::ptr::ArcPtr;

verus! {

/// A shared owning handle: one unit of the reference count of its cell.
pub struct Arc<T> {
    ptr: ArcPtr<T>,
}

impl<T> Arc<T> {
    /// The cell this handle owns a reference to.
    pub closed spec fn addr(self) -> int {
        self.ptr.addr()
    }

    /// The handle points at a live cell of `heap`.
    pub open spec fn valid(self, heap: CellHeap<T>) -> bool {
        heap.live(self.addr())
    }

    /// The value this handle gives access to.
    pub open spec fn value(self, heap: CellHeap<T>) -> T {
        heap.cell_payload(self.addr()).unwrap()
    }

    /// Allocate a fresh cell holding `value`; the new handle is its single
    /// reference.
    pub fn new(heap: &mut CellHeap<T>, value: T) -> (this: Self)
        requires
            old(heap).wf(),
        ensures
            final(heap).wf(),
            this.valid(*final(heap)),
            this.addr() == old(heap).len(),
            final(heap).len() == old(heap).len() + 1,
            final(heap).cell_count(this.addr()) == 1,
            this.value(*final(heap)) == value,
            forall|j: int| 0 <= j < old(heap).len() ==> old(heap).same_cell(*final(heap), j),
    {
        let i = heap.alloc_cell(value);
        Arc { ptr: ArcPtr::from_data_ptr(i) }
    }

    /// Take one more reference to the same cell.
    pub fn clone(&self, heap: &mut CellHeap<T>) -> (r: Self)
        requires
            old(heap).wf(),
            self.valid(*old(heap)),
            old(heap).cell_count(self.addr()) < MAX_COUNT,
        ensures
            final(heap).wf(),
            r.addr() == self.addr(),
            old(heap).same_except(*final(heap), self.addr()),
            final(heap).cell_count(self.addr()) == old(heap).cell_count(self.addr()) + 1,
            final(heap).cell_payload(self.addr()) == old(heap).cell_payload(self.addr()),
    {
        self.ptr.inc_count(heap);
        Arc { ptr: self.ptr }
    }

    /// Give up this reference. When it was the last one, the payload's
    /// destructor runs here and the cell becomes freed.
    pub fn drop(self, heap: &mut CellHeap<T>)
        requires
            old(heap).wf(),
            self.valid(*old(heap)),
        ensures
            final(heap).wf(),
            old(heap).same_except(*final(heap), self.addr()),
            final(heap).cell_count(self.addr()) == old(heap).cell_count(self.addr()) - 1,
            old(heap).cell_count(self.addr()) > 1 ==> final(heap).cell_payload(self.addr()) == old(
                heap,
            ).cell_payload(self.addr()),
            old(heap).cell_count(self.addr()) == 1 ==> final(heap).cell_payload(
                self.addr(),
            ) is None,
    {
        self.ptr.dec_count_drop_on_zero(heap);
    }

    /// Borrow the value behind this handle.
    pub fn get<'a>(&self, heap: &'a CellHeap<T>) -> (value: &'a T)
        requires
            heap.wf(),
            self.valid(*heap),
        ensures
            *value == self.value(*heap),
    {
        heap.payload(self.ptr.data_ptr())
    }

    /// Whether two handles point at the same cell.
    pub fn ptr_eq<U>(lhs: &Self, rhs: &Arc<U>) -> (r: bool)
        ensures
            r == (lhs.addr() == rhs.addr()),
    {
        lhs.ptr.data_ptr() == rhs.ptr.data_ptr()
    }

    /// Dissolve the handle into its bare cell pointer; the reference it
    /// owned is left outstanding for the caller to account for.
    pub fn into_arc_ptr(this: Self) -> (r: ArcPtr<T>)
        ensures
            r.addr() == this.addr(),
    {
        this.ptr
    }

    /// The bare cell pointer of this handle.
    pub fn as_arc_ptr(this: &Self) -> (r: ArcPtr<T>)
        ensures
            r.addr() == this.addr(),
    {
        this.ptr
    }

    /// Adopt a bare cell pointer as an owning handle; the caller answers
    /// for the reference it stands for.
    pub fn from_arc_ptr(ptr: ArcPtr<T>) -> (this: Self)
        ensures
            this.addr() == ptr.addr(),
    {
        Arc { ptr }
    }

    /// Convert into a unique handle — possible exactly when this is the
    /// only outstanding reference. Otherwise the shared handle comes back
    /// unchanged.
    pub fn try_into_unique(this: Self, heap: &CellHeap<T>) -> (r: Result<UniqueArc<T>, Arc<T>>)
        requires
            heap.wf(),
            this.valid(*heap),
        ensures
            match r {
                Ok(unique) => heap.cell_count(this.addr()) == 1 && unique.addr() == this.addr()
                    && unique.valid(*heap),
                Err(shared) => heap.cell_count(this.addr()) > 1 && shared.addr() == this.addr(),
            },
    {
        if this.ptr.as_untyped_ptr().load_count(heap) == 1 {
            Ok(UniqueArc { ptr: this.ptr })
        } else {
            Err(this)
        }
    }
}

/// The single owning handle of a cell: its count is one by construction,
/// and stays one until the handle is dissolved or dropped.
pub struct UniqueArc<T> {
    ptr: ArcPtr<T>,
}

impl<T> UniqueArc<T> {
    /// The cell this handle owns.
    pub closed spec fn addr(self) -> int {
        self.ptr.addr()
    }

    /// The handle owns a live cell of `heap` and holds its only reference.
    pub open spec fn valid(self, heap: CellHeap<T>) -> bool {
        heap.live(self.addr()) && heap.cell_count(self.addr()) == 1
    }

    /// The value this handle owns.
    pub open spec fn value(self, heap: CellHeap<T>) -> T {
        heap.cell_payload(self.addr()).unwrap()
    }

    /// Allocate a fresh cell holding `value`, solely owned by the new
    /// handle.
    pub fn new(heap: &mut CellHeap<T>, value: T) -> (this: Self)
        requires
            old(heap).wf(),
        ensures
            final(heap).wf(),
            this.valid(*final(heap)),
            this.addr() == old(heap).len(),
            final(heap).len() == old(heap).len() + 1,
            this.value(*final(heap)) == value,
            forall|j: int| 0 <= j < old(heap).len() ==> old(heap).same_cell(*final(heap), j),
    {
        let i = heap.alloc_cell(value);
        UniqueArc { ptr: ArcPtr::from_data_ptr(i) }
    }

    /// Drop the handle: the payload's destructor runs — exactly once, for
    /// this was the only reference — and the cell becomes freed.
    pub fn drop(self, heap: &mut CellHeap<T>)
        requires
            old(heap).wf(),
            self.valid(*old(heap)),
        ensures
            final(heap).wf(),
            old(heap).same_except(*final(heap), self.addr()),
            final(heap).freed(self.addr()),
            final(heap).cell_payload(self.addr()) is None,
    {
        self.ptr.dec_count_drop_on_zero(heap);
    }

    /// Borrow the value this handle owns.
    pub fn get<'a>(&self, heap: &'a CellHeap<T>) -> (value: &'a T)
        requires
            heap.wf(),
            self.valid(*heap),
        ensures
            *value == self.value(*heap),
    {
        heap.payload(self.ptr.data_ptr())
    }

    /// Replace the value this handle owns, handing the old one back — the
    /// unique owner may mutate freely.
    pub fn replace(&self, heap: &mut CellHeap<T>, value: T) -> (previous: T)
        requires
            old(heap).wf(),
            self.valid(*old(heap)),
        ensures
            final(heap).wf(),
            self.valid(*final(heap)),
            old(heap).same_except(*final(heap), self.addr()),
            final(heap).cell_count(self.addr()) == old(heap).cell_count(self.addr()),
            self.value(*final(heap)) == value,
            previous == self.value(*old(heap)),
    {
        heap.replace_payload(self.ptr.data_ptr(), value)
    }

    /// Dissolve the handle into its bare cell pointer; the single reference
    /// is left outstanding for the caller to account for.
    pub fn into_arc_ptr(this: Self) -> (r: ArcPtr<T>)
        ensures
            r.addr() == this.addr(),
    {
        this.ptr
    }

    /// The bare cell pointer of this handle.
    pub fn as_arc_ptr(this: &Self) -> (r: ArcPtr<T>)
        ensures
            r.addr() == this.addr(),
    {
        this.ptr
    }

    /// Adopt a bare cell pointer as a unique handle; the caller answers for
    /// the cell having exactly one outstanding reference.
    pub fn from_arc_ptr(ptr: ArcPtr<T>) -> (this: Self)
        ensures
            this.addr() == ptr.addr(),
    {
        UniqueArc { ptr }
    }

    /// Release the uniqueness: the same cell, now held by a shared handle.
    /// The count is one already, so nothing moves.
    pub fn into_shared(this: Self) -> (r: Arc<T>)
        ensures
            r.addr() == this.addr(),
    {
        Arc { ptr: this.ptr }
    }
}

/// One step of a handle's history: another handle cloned from it, or one of
/// its handles dropped.
#[derive(Clone, Copy, PartialEq, Eq, Structural)]
pub enum HandleEvent {
    Clone,
    Drop,
}

/// How many of the events are clones.
pub open spec fn count_clones(events: Seq<HandleEvent>) -> nat
    decreases events.len(),
{
    if events.len() == 0 {
        0
    } else {
        count_clones(events.drop_last()) + if events.last() is Clone {
            1nat
        } else {
            0nat
        }
    }
}

/// How many of the events are drops.
pub open spec fn count_drops(events: Seq<HandleEvent>) -> nat
    decreases events.len(),
{
    if events.len() == 0 {
        0
    } else {
        count_drops(events.drop_last()) + if events.last() is Drop {
            1nat
        } else {
            0nat
        }
    }
}

/// A history of clones and drops is consistent when every event finds a
/// handle to operate on: before each event, the one reference `new` made
/// plus the clones so far still outnumber the drops.
pub open spec fn consistent_history(events: Seq<HandleEvent>) -> bool {
    forall|n: int| 0 <= n < events.len() ==> count_after(#[trigger] events.take(n)) > 0
}

/// The reference count a cell reaches after a history of clones and drops
/// of its handles, starting from the single reference its allocation made.
pub open spec fn count_after(events: Seq<HandleEvent>) -> int {
    1 + count_clones(events) - count_drops(events)
}

/// The payload's destructor runs exactly once, at the last drop.
///
/// Each clone raises the count by one and each drop lowers it by one, as
/// the contracts of [`Arc::clone`] and [`Arc::drop`] say, and the drop that
/// takes the count to zero is the one that runs the payload's destructor.
/// Over every consistent history the count stays positive before every
/// event — so no event ever finds the payload gone — and reaches zero at
/// the end exactly when every handle made has been dropped: the destructor
/// runs exactly once, at that last drop, and never before.
pub proof fn lemma_payload_dropped_once_at_last_drop(events: Seq<HandleEvent>)
    requires
        consistent_history(events),
    ensures
        count_after(events) >= 0,
        count_after(events) == 0 <==> count_drops(events) == 1 + count_clones(events),
        forall|n: int| 0 <= n < events.len() ==> count_after(#[trigger] events.take(n)) > 0,
    decreases events.len(),
{
    if events.len() == 0 {
    } else {
        let shorter = events.drop_last();
        assert(count_after(events.take(events.len() - 1)) > 0);
        assert(events.take(events.len() - 1) =~= shorter);
        assert(events.take(events.len() as int) =~= events);
    }
}

/// A consistent history with a handle still outstanding stays consistent
/// when that handle is cloned or dropped: this is what lets a program
/// extend a cell's history one operation at a time.
pub proof fn lemma_history_step(events: Seq<HandleEvent>, event: HandleEvent)
    requires
        consistent_history(events),
        count_after(events) > 0,
    ensures
        consistent_history(events.push(event)),
        count_after(events.push(event)) == count_after(events) + (
        if event is Clone {
            1int
        } else {
            -1int
        }),
{
    let extended = events.push(event);
    assert(extended.drop_last() =~= events);
    assert forall|n: int| 0 <= n < extended.len() implies count_after(
        #[trigger] extended.take(n),
    ) > 0 by {
        if n < events.len() {
            assert(extended.take(n) =~= events.take(n));
            assert(count_after(events.take(n)) > 0);
        } else {
            assert(extended.take(n) =~= events);
        }
    }
}

} // verus!
