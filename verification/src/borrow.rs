//! The non-owning borrow of a shared handle.
//!
//! An [`ArcBorrow`] is a copy of a shared handle's pointer without its unit
//! of the reference count: copying it is free and dropping it does nothing.
//! While the handle it came from is live, it can be turned back into an
//! owning handle by taking a fresh reference.

use vstd::prelude::*;
use crate::arc::Arc;
use crate::cell::{CellHeap, MAX_COUNT};
use crate::ptr::ArcPtr;
use core::marker::PhantomData;

verus! {

/// A non-owning view of a shared handle, bounded by the borrow's lifetime.
pub struct ArcBorrow<'a, T> {
    ptr: ArcPtr<T>,
    _phantom: PhantomData<&'a T>,
}

impl<'a, T> Clone for ArcBorrow<'a, T> {
    fn clone(&self) -> (r: Self)
        ensures
            r.addr() == self.addr(),
    {
        ArcBorrow { ptr: self.ptr, _phantom: PhantomData }
    }
}

impl<'a, T> Copy for ArcBorrow<'a, T> {

}

impl<'a, T> ArcBorrow<'a, T> {
    /// The cell this borrow views.
    pub closed spec fn addr(self) -> int {
        self.ptr.addr()
    }

    /// The borrow views a live cell of `heap`.
    pub open spec fn valid(self, heap: CellHeap<T>) -> bool {
        heap.live(self.addr())
    }

    /// View a shared handle without taking a reference.
    pub fn from(arc: &'a Arc<T>) -> (this: Self)
        ensures
            this.addr() == arc.addr(),
    {
        ArcBorrow { ptr: Arc::as_arc_ptr(arc), _phantom: PhantomData }
    }

    /// Turn the borrow back into an owning handle by taking a fresh
    /// reference to the cell it views.
    pub fn clone_arc(this: Self, heap: &mut CellHeap<T>) -> (r: Arc<T>)
        requires
            old(heap).wf(),
            this.valid(*old(heap)),
            old(heap).cell_count(this.addr()) < MAX_COUNT,
        ensures
            final(heap).wf(),
            r.addr() == this.addr(),
            old(heap).same_except(*final(heap), this.addr()),
            final(heap).cell_count(this.addr()) == old(heap).cell_count(this.addr()) + 1,
            final(heap).cell_payload(this.addr()) == old(heap).cell_payload(this.addr()),
    {
        this.ptr.inc_count(heap);
        Arc::from_arc_ptr(this.ptr)
    }

    /// Borrow the value behind the viewed cell.
    pub fn get<'h>(&self, heap: &'h CellHeap<T>) -> (value: &'h T)
        requires
            heap.wf(),
            self.valid(*heap),
        ensures
            Some(*value) == heap.cell_payload(self.addr()),
    {
        heap.payload(self.ptr.data_ptr())
    }

    /// The bare cell pointer of the viewed cell.
    pub fn from_arc_ptr(ptr: ArcPtr<T>) -> (this: Self)
        ensures
            this.addr() == ptr.addr(),
    {
        ArcBorrow { ptr, _phantom: PhantomData }
    }
}

} // verus!
