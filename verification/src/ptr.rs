//! Typed cell pointers: the plain, non-owning address of a cell.
//!
//! An [`ArcPtr`] carries no ownership of the count. The owning handles wrap
//! one and take it apart again; the deduplication table stores them.

use vstd::prelude::*;
use crate::cell::CellHeap;
use crate::untyped::UntypedArcPtr;
use core::marker::PhantomData;

verus! {

/// The address of a cell in a [`CellHeap<T>`], typed by the payload.
///
/// A bare address: copying it does not touch the reference count, and
/// nothing ties it to a live cell — the operations that dereference it
/// require liveness of the cell it names. It hashes as the address it is.
#[derive(Hash)]
pub struct ArcPtr<T> {
    index: usize,
    _marker: PhantomData<T>,
}

impl<T> Clone for ArcPtr<T> {
    fn clone(&self) -> (r: Self)
        ensures
            r.addr() == self.addr(),
    {
        ArcPtr { index: self.index, _marker: PhantomData }
    }
}

impl<T> Copy for ArcPtr<T> {

}

impl<T> ArcPtr<T> {
    /// The cell number this pointer names.
    pub closed spec fn addr(self) -> int {
        self.index as int
    }

    /// A cell address is a machine address: it fits a `usize`.
    pub proof fn lemma_addr_bounds(self)
        ensures
            0 <= self.addr() <= usize::MAX,
    {
    }

    /// The cell number, as the data address of the cell.
    pub fn data_ptr(self) -> (r: usize)
        ensures
            r as int == self.addr(),
    {
        self.index
    }

    /// Retype a data address as a cell pointer.
    pub fn from_data_ptr(ptr: usize) -> (r: Self)
        ensures
            r.addr() == ptr as int,
    {
        ArcPtr { index: ptr, _marker: PhantomData }
    }

    /// Forget the payload type.
    pub fn as_untyped_ptr(self) -> (r: UntypedArcPtr)
        ensures
            r.addr() == self.addr(),
    {
        UntypedArcPtr::from_data_ptr(self.index)
    }

    /// Retype an untyped cell pointer.
    pub fn from_untyped_ptr(ptr: UntypedArcPtr) -> (r: Self)
        ensures
            r.addr() == ptr.addr(),
    {
        ArcPtr { index: ptr.data_ptr(), _marker: PhantomData }
    }

    /// Take one more reference to the cell this pointer names.
    pub fn inc_count(self, heap: &mut CellHeap<T>)
        requires
            old(heap).wf(),
            old(heap).live(self.addr()),
            old(heap).cell_count(self.addr()) < crate::cell::MAX_COUNT,
        ensures
            final(heap).wf(),
            old(heap).same_except(*final(heap), self.addr()),
            final(heap).cell_count(self.addr()) == old(heap).cell_count(self.addr()) + 1,
            final(heap).cell_payload(self.addr()) == old(heap).cell_payload(self.addr()),
    {
        heap.inc_count(self.index);
    }

    /// Give up one reference; when it was the last, the payload's destructor
    /// runs and the cell becomes freed.
    pub fn dec_count_drop_on_zero(self, heap: &mut CellHeap<T>)
        requires
            old(heap).wf(),
            old(heap).live(self.addr()),
        ensures
            final(heap).wf(),
            old(heap).same_except(*final(heap), self.addr()),
            final(heap).cell_count(self.addr()) == old(heap).cell_count(self.addr()) - 1,
            old(heap).cell_count(self.addr()) > 1 ==> final(heap).cell_payload(self.addr()) == old(
                heap,
            ).cell_payload(self.addr()),
            old(heap).cell_count(self.addr()) == 1 ==> final(heap).cell_payload(
                self.addr(),
            ) is None,
    {
        heap.dec_count_drop_on_zero(self.index);
    }
}

} // verus!
