//! The cell heap: the allocation model that every handle operates on.
//!
//! A cell is a reference count together with a payload slot. While the count
//! is positive the payload is present; when the count reaches zero the
//! payload is dropped (the destructor runs) and the cell stays behind as a
//! freed slot, so that cell numbers of live cells are stable and distinct.

use vstd::prelude::*;

verus! {

/// Reference counts never exceed this bound; a count about to pass it would
/// abort in a lower-level runtime, so operations that could reach it are
/// excluded by `requires` instead.
pub const MAX_COUNT: usize = isize::MAX as usize;

/// One heap cell: a reference count and, while the count is positive, the
/// payload.
struct HeapCell<T> {
    count: usize,
    payload: Option<T>,
}

/// The heap of reference-counted cells.
///
/// Handles name cells by their cell number. A freed cell keeps its number,
/// so numbers of distinct cells never collide.
pub struct CellHeap<T> {
    cells: Vec<HeapCell<T>>,
}

impl<T> CellHeap<T> {
    /// How many cells have ever been allocated, freed ones included.
    pub closed spec fn len(self) -> nat {
        self.cells@.len()
    }

    /// The reference count of cell `i`.
    pub closed spec fn cell_count(self, i: int) -> nat {
        self.cells@[i].count as nat
    }

    /// The payload of cell `i`: `Some` while the cell is live, `None` once
    /// its destructor has run.
    pub closed spec fn cell_payload(self, i: int) -> Option<T> {
        self.cells@[i].payload
    }

    /// Cell `i` exists and still owns its payload.
    pub open spec fn live(self, i: int) -> bool {
        0 <= i < self.len() && self.cell_count(i) > 0
    }

    /// Cell `i` exists and its payload has been dropped.
    pub open spec fn freed(self, i: int) -> bool {
        0 <= i < self.len() && self.cell_count(i) == 0
    }

    /// Every cell owns a payload exactly while its count is positive.
    pub open spec fn wf(self) -> bool {
        forall|i: int|
            0 <= i < self.len() ==> ((#[trigger] self.cell_count(i)) > 0 <==> self.cell_payload(
                i,
            ) is Some)
    }

    /// Cell `i` has the same count and payload in `self` and in `other`.
    pub open spec fn same_cell(self, other: Self, i: int) -> bool {
        self.cell_count(i) == other.cell_count(i) && self.cell_payload(i) == other.cell_payload(i)
    }

    /// `other` has the same cells as `self`, except possibly cell `i`.
    pub open spec fn same_except(self, other: Self, i: int) -> bool {
        self.len() == other.len() && forall|j: int|
            0 <= j < self.len() && j != i ==> #[trigger] self.same_cell(other, j)
    }

    /// An empty heap: no cells yet.
    pub fn new() -> (heap: Self)
        ensures
            heap.wf(),
            heap.len() == 0,
    {
        CellHeap { cells: Vec::new() }
    }

    /// Allocate a fresh cell holding `value` with a count of one.
    pub fn alloc_cell(&mut self, value: T) -> (i: usize)
        requires
            old(self).wf(),
        ensures
            final(self).wf(),
            i as int == old(self).len(),
            final(self).len() == old(self).len() + 1,
            final(self).cell_count(i as int) == 1,
            final(self).cell_payload(i as int) == Some(value),
            forall|j: int| 0 <= j < old(self).len() ==> old(self).same_cell(*final(self), j),
    {
        let i = self.cells.len();
        self.cells.push(HeapCell { count: 1, payload: Some(value) });
        proof {
            assert forall|j: int| 0 <= j < old(self).len() implies old(self).same_cell(
                *self,
                j,
            ) by {}
            assert forall|j: int|
                0 <= j < self.len() implies (self.cell_count(j) > 0 <==> self.cell_payload(
                j,
            ) is Some) by {
                if j < old(self).len() {
                    assert(old(self).cell_count(j) > 0 <==> old(self).cell_payload(j) is Some);
                }
            }
        }
        i
    }

    /// Read the reference count of cell `i`.
    pub fn load_count(&self, i: usize) -> (count: usize)
        requires
            (i as int) < self.len(),
        ensures
            count as nat == self.cell_count(i as int),
    {
        self.cells[i].count
    }

    /// Take one more reference to live cell `i`.
    pub fn inc_count(&mut self, i: usize)
        requires
            old(self).wf(),
            old(self).live(i as int),
            old(self).cell_count(i as int) < MAX_COUNT,
        ensures
            final(self).wf(),
            old(self).same_except(*final(self), i as int),
            final(self).cell_count(i as int) == old(self).cell_count(i as int) + 1,
            final(self).cell_payload(i as int) == old(self).cell_payload(i as int),
    {
        let cell = &mut self.cells[i];
        cell.count = cell.count + 1;
        proof {
            assert forall|j: int|
                0 <= j < self.len() && j != i implies old(self).same_cell(*self, j) by {}
            assert forall|j: int|
                0 <= j < self.len() implies (self.cell_count(j) > 0 <==> self.cell_payload(
                j,
            ) is Some) by {
                if j != i {
                    assert(old(self).same_cell(*self, j));
                    assert(old(self).cell_count(j) > 0 <==> old(self).cell_payload(j) is Some);
                }
            }
        }
    }

    /// Give up one reference to live cell `i`. When the reference given up
    /// was the last one, the payload is dropped — its destructor runs here,
    /// exactly once — and the cell becomes freed.
    pub fn dec_count_drop_on_zero(&mut self, i: usize)
        requires
            old(self).wf(),
            old(self).live(i as int),
        ensures
            final(self).wf(),
            old(self).same_except(*final(self), i as int),
            final(self).cell_count(i as int) == old(self).cell_count(i as int) - 1,
            old(self).cell_count(i as int) > 1 ==> final(self).cell_payload(i as int) == old(
                self,
            ).cell_payload(i as int),
            old(self).cell_count(i as int) == 1 ==> final(self).cell_payload(i as int) is None,
    {
        let cell = &mut self.cells[i];
        cell.count = cell.count - 1;
        if cell.count == 0 {
            cell.payload = None;
        }
        proof {
            assert forall|j: int|
                0 <= j < self.len() && j != i implies old(self).same_cell(*self, j) by {}
            assert forall|j: int|
                0 <= j < self.len() implies (self.cell_count(j) > 0 <==> self.cell_payload(
                j,
            ) is Some) by {
                if j != i {
                    assert(old(self).same_cell(*self, j));
                    assert(old(self).cell_count(j) > 0 <==> old(self).cell_payload(j) is Some);
                }
            }
        }
    }

    /// Borrow the payload of live cell `i`.
    pub fn payload<'a>(&'a self, i: usize) -> (payload: &'a T)
        requires
            self.wf(),
            self.live(i as int),
        ensures
            self.cell_payload(i as int) == Some(*payload),
    {
        match &self.cells[i].payload {
            Some(payload) => payload,
            None => {
                proof {
                    assert(false);
                }
                unreached()
            },
        }
    }

    /// Replace the payload of live cell `i`, handing the old payload back.
    pub fn replace_payload(&mut self, i: usize, value: T) -> (previous: T)
        requires
            old(self).wf(),
            old(self).live(i as int),
        ensures
            final(self).wf(),
            old(self).same_except(*final(self), i as int),
            final(self).cell_count(i as int) == old(self).cell_count(i as int),
            final(self).cell_payload(i as int) == Some(value),
            old(self).cell_payload(i as int) == Some(previous),
    {
        let cell = &mut self.cells[i];
        let previous = cell.payload.take();
        cell.payload = Some(value);
        proof {
            assert forall|j: int|
                0 <= j < self.len() && j != i implies old(self).same_cell(*self, j) by {}
            assert forall|j: int|
                0 <= j < self.len() implies (self.cell_count(j) > 0 <==> self.cell_payload(
                j,
            ) is Some) by {
                if j != i {
                    assert(old(self).same_cell(*self, j));
                    assert(old(self).cell_count(j) > 0 <==> old(self).cell_payload(j) is Some);
                }
            }
        }
        match previous {
            Some(previous) => previous,
            None => {
                proof {
                    assert(false);
                }
                unreached()
            },
        }
    }
}

} // verus!
