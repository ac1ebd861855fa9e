//! Untyped cell pointers and cell layout arithmetic.
//!
//! [`ArcLayout`] computes where the payload of a cell sits behind its
//! reference-count header: the header is one machine word, the payload
//! follows at the next address aligned for it, and the whole cell is padded
//! to the larger of the two alignments. [`UntypedArcPtr`] is a cell address
//! with the payload type forgotten.

use vstd::prelude::*;
use vstd::arithmetic::div_mod::{lemma_fundamental_div_mod, lemma_mod_multiples_basic};
use crate::cell::CellHeap;

verus! {

/// The size of the reference-count header: one machine word.
pub const HEADER_WORD_SIZE: usize = 8;

/// The alignment of the reference-count header.
pub const HEADER_WORD_ALIGN: usize = 8;

/// A size/alignment pair describing a payload, the counterpart of an
/// allocation layout.
#[derive(Clone, Copy, PartialEq, Eq, Structural, Debug)]
pub struct DataLayout {
    pub size: usize,
    pub align: usize,
}

/// The error for a layout whose total size would not fit the address space.
#[derive(Clone, Copy, PartialEq, Eq, Structural, Debug)]
pub struct LayoutOverflow;

/// `align` is a power of two, as every alignment is.
pub open spec fn valid_align(align: nat) -> bool
    decreases align,
{
    if align == 1 {
        true
    } else if align % 2 == 0 && align > 0 {
        valid_align(align / 2)
    } else {
        false
    }
}

/// `size` rounded up to the next multiple of `align`.
pub open spec fn spec_round_up(size: nat, align: nat) -> nat
    recommends
        align > 0,
{
    if size % align == 0 {
        size
    } else {
        (size + (align - size % align)) as nat
    }
}

/// Rounding up hits the next multiple: the result is divisible, no smaller,
/// and less than one whole alignment further.
pub proof fn lemma_round_up(size: nat, align: nat)
    requires
        align > 0,
    ensures
        spec_round_up(size, align) % align == 0,
        size <= spec_round_up(size, align) < size + align,
{
    if size % align == 0 {
    } else {
        let q = size as int / align as int;
        lemma_fundamental_div_mod(size as int, align as int);
        assert(size + (align - size % align) == align * (q + 1)) by (nonlinear_arith)
            requires
                align > 0,
                size == align * q + size % align,
        ;
        lemma_mod_multiples_basic(q + 1, align as int);
    }
}

/// Round `size` up to the next multiple of `align`.
pub fn round_up(size: usize, align: usize) -> (r: usize)
    requires
        align > 0,
        spec_round_up(size as nat, align as nat) <= usize::MAX,
    ensures
        r as nat == spec_round_up(size as nat, align as nat),
{
    proof {
        lemma_round_up(size as nat, align as nat);
    }
    let rem = size % align;
    if rem == 0 {
        size
    } else {
        size + (align - rem)
    }
}

/// The layout of a whole cell: the padded total and the offset at which the
/// payload sits behind the reference-count header.
#[derive(Clone, Copy, PartialEq, Eq, Structural, Debug)]
pub struct ArcLayout {
    full_size: usize,
    full_align: usize,
    header_size: usize,
}

/// The offset of the payload behind the header for a payload alignment of
/// `align`: one header word, rounded up to that alignment.
pub open spec fn spec_header_size_for(align: nat) -> nat {
    spec_round_up(HEADER_WORD_SIZE as nat, align)
}

/// The alignment of a whole cell holding a payload aligned to `align`: the
/// larger of the header's and the payload's alignment.
pub open spec fn spec_full_align_for(align: nat) -> nat {
    if align >= HEADER_WORD_ALIGN as nat {
        align
    } else {
        HEADER_WORD_ALIGN as nat
    }
}

/// The padded total size of a cell holding a payload described by `data`.
pub open spec fn spec_full_size_for(data: DataLayout) -> nat {
    spec_round_up(
        (spec_header_size_for(data.align as nat) + data.size) as nat,
        spec_full_align_for(data.align as nat),
    )
}

impl ArcLayout {
    /// The alignment of the whole cell.
    pub closed spec fn spec_align(self) -> nat {
        self.full_align as nat
    }

    /// The size of the whole cell, padding included.
    pub closed spec fn spec_size(self) -> nat {
        self.full_size as nat
    }

    /// The offset of the payload behind the header.
    pub closed spec fn spec_header_size(self) -> nat {
        self.header_size as nat
    }

    /// What the constructors establish for a payload described by `data`:
    /// header offset, cell alignment and padded total as the layout rules
    /// say, everything within the address space.
    pub open spec fn wf_for(self, data: DataLayout) -> bool {
        &&& self.spec_header_size() == spec_header_size_for(data.align as nat)
        &&& self.spec_align() == spec_full_align_for(data.align as nat)
        &&& self.spec_size() == spec_full_size_for(data)
        &&& self.spec_size() <= isize::MAX as nat
        &&& self.spec_size() % self.spec_align() == 0
        &&& HEADER_WORD_SIZE <= self.spec_header_size()
    }

    /// Compute the cell layout for a payload described by `data`.
    ///
    /// Fails exactly when the padded total would pass `isize::MAX`, the
    /// bound every allocation request must meet.
    pub fn from_data_layout(data: DataLayout) -> (r: Result<ArcLayout, LayoutOverflow>)
        requires
            valid_align(data.align as nat),
        ensures
            match r {
                Ok(layout) => layout.wf_for(data),
                Err(_) => spec_full_size_for(data) > isize::MAX as nat,
            },
    {
        proof {
            lemma_valid_align_pos(data.align as nat);
        }
        let header_size = if data.align <= HEADER_WORD_SIZE {
            proof {
                lemma_small_align_divides_word(data.align as nat);
            }
            HEADER_WORD_SIZE
        } else {
            proof {
                vstd::arithmetic::div_mod::lemma_small_mod(8nat, data.align as nat);
            }
            // a header word rounded up to an alignment past the word is one
            // whole alignment unit
            data.align
        };
        proof {
            assert(header_size as nat == spec_header_size_for(data.align as nat));
        }
        let full_align = if data.align >= HEADER_WORD_ALIGN {
            data.align
        } else {
            HEADER_WORD_ALIGN
        };
        proof {
            lemma_round_up(
                (spec_header_size_for(data.align as nat) + data.size as nat) as nat,
                full_align as nat,
            );
        }
        if header_size > isize::MAX as usize || data.size > isize::MAX as usize - header_size {
            return Err(LayoutOverflow);
        }
        let unpadded = header_size + data.size;
        let rem = unpadded % full_align;
        let full_size = if rem == 0 {
            unpadded
        } else {
            let pad = full_align - rem;
            if pad > isize::MAX as usize - unpadded {
                return Err(LayoutOverflow);
            }
            unpadded + pad
        };
        Ok(ArcLayout { full_size, full_align, header_size })
    }

    /// The cell layout for a payload the caller knows to fit.
    pub fn new(data: DataLayout) -> (r: ArcLayout)
        requires
            valid_align(data.align as nat),
            spec_full_size_for(data) <= isize::MAX as nat,
        ensures
            r.wf_for(data),
    {
        match Self::from_data_layout(data) {
            Ok(layout) => layout,
            Err(_) => {
                proof {
                    assert(false);
                }
                unreached()
            },
        }
    }

    /// The cell layout for an array of `len` payload elements.
    ///
    /// An element's stride is its size, which arrays require to be a
    /// multiple of the alignment; fails exactly when the array itself or
    /// the padded cell would pass `isize::MAX`.
    pub fn array(elem: DataLayout, len: usize) -> (r: Result<ArcLayout, LayoutOverflow>)
        requires
            valid_align(elem.align as nat),
            elem.size as nat % elem.align as nat == 0,
        ensures
            match r {
                Ok(layout) => {
                    &&& elem.size * len <= isize::MAX as nat
                    &&& layout.wf_for(
                        DataLayout { size: (elem.size * len) as usize, align: elem.align },
                    )
                },
                Err(_) => elem.size * len > isize::MAX as int || spec_full_size_for(
                    DataLayout { size: (elem.size * len) as usize, align: elem.align },
                ) > isize::MAX as nat,
            },
    {
        if elem.size == 0 {
            proof {
                assert(elem.size * len == 0) by (nonlinear_arith)
                    requires
                        elem.size == 0,
                ;
            }
            return Self::from_data_layout(DataLayout { size: 0, align: elem.align });
        }
        if len > isize::MAX as usize / elem.size {
            proof {
                lemma_mul_gt_bound(elem.size as nat, len as nat, isize::MAX as nat);
            }
            return Err(LayoutOverflow);
        }
        proof {
            lemma_mul_le_bound(elem.size as nat, len as nat, isize::MAX as nat);
        }
        let total = elem.size * len;
        Self::from_data_layout(DataLayout { size: total, align: elem.align })
    }

    /// The layout of the payload alone, recovered from the cell layout.
    pub fn data_layout(&self) -> (r: DataLayout)
        requires
            self.spec_header_size() <= self.spec_size(),
        ensures
            r.size as nat == self.spec_size() - self.spec_header_size(),
            r.align as nat == self.spec_align(),
    {
        DataLayout { size: self.full_size - self.header_size, align: self.full_align }
    }

    /// The size and alignment of the whole cell.
    pub fn full_layout(&self) -> (r: DataLayout)
        ensures
            r.size as nat == self.spec_size(),
            r.align as nat == self.spec_align(),
    {
        DataLayout { size: self.full_size, align: self.full_align }
    }

    /// The offset of the payload behind the reference-count header.
    pub fn header_size(&self) -> (r: usize)
        ensures
            r as nat == self.spec_header_size(),
    {
        self.header_size
    }
}

/// A valid alignment is positive.
pub proof fn lemma_valid_align_pos(align: nat)
    requires
        valid_align(align),
    ensures
        align > 0,
{
}

/// A power-of-two alignment no larger than the header word divides it.
pub proof fn lemma_small_align_divides_word(align: nat)
    requires
        valid_align(align),
        align <= 8,
    ensures
        8nat % align == 0,
{
    if align == 1 || align == 2 || align == 4 || align == 8 {
    } else {
        assert(!valid_align(align)) by {
            reveal_with_fuel(valid_align, 4);
        }
    }
}

/// `a * b > bound` follows from `b > bound / a` for positive `a`.
proof fn lemma_mul_gt_bound(a: nat, b: nat, bound: nat)
    requires
        a > 0,
        b > bound / a,
    ensures
        a * b > bound,
{
    lemma_fundamental_div_mod(bound as int, a as int);
    assert(a * b >= a * (bound / a) + a) by (nonlinear_arith)
        requires
            a > 0,
            b >= bound / a + 1,
    ;
    assert(a * (bound / a) + a > bound) by (nonlinear_arith)
        requires
            a > 0,
            bound == a * (bound / a) + bound % a,
            bound % a < a,
    ;
}

/// `a * b <= bound` follows from `b <= bound / a` for positive `a`.
proof fn lemma_mul_le_bound(a: nat, b: nat, bound: nat)
    requires
        a > 0,
        b <= bound / a,
    ensures
        a * b <= bound,
{
    assert(a * b <= a * (bound / a)) by (nonlinear_arith)
        requires
            a > 0,
            b <= bound / a,
    ;
    assert(a * (bound / a) <= bound) by (nonlinear_arith)
        requires
            a > 0,
    ;
}

/// The address of a cell with the payload type forgotten.
#[derive(Clone, Copy)]
pub struct UntypedArcPtr {
    index: usize,
}

impl UntypedArcPtr {
    /// The cell number this pointer names.
    pub closed spec fn addr(self) -> int {
        self.index as int
    }

    /// The cell number, as the data address of the cell.
    pub fn data_ptr(self) -> (r: usize)
        ensures
            r as int == self.addr(),
    {
        self.index
    }

    /// Retype a data address as an untyped cell pointer.
    pub fn from_data_ptr(ptr: usize) -> (r: Self)
        ensures
            r.addr() == ptr as int,
    {
        UntypedArcPtr { index: ptr }
    }

    /// Read the reference count of the cell this pointer names.
    pub fn load_count<T>(self, heap: &CellHeap<T>) -> (count: usize)
        requires
            self.addr() < heap.len(),
        ensures
            count as nat == heap.cell_count(self.addr()),
    {
        heap.load_count(self.index)
    }

    /// Take one more reference to the cell this pointer names.
    pub fn inc_count<T>(self, heap: &mut CellHeap<T>)
        requires
            old(heap).wf(),
            old(heap).live(self.addr()),
            old(heap).cell_count(self.addr()) < crate::cell::MAX_COUNT,
        ensures
            final(heap).wf(),
            old(heap).same_except(*final(heap), self.addr()),
            final(heap).cell_count(self.addr()) == old(heap).cell_count(self.addr()) + 1,
            final(heap).cell_payload(self.addr()) == old(heap).cell_payload(self.addr()),
    {
        heap.inc_count(self.index);
    }

    /// Give up one reference to the cell this pointer names, handing back
    /// the count that remains; at zero the payload's destructor has run.
    pub fn dec_count<T>(self, heap: &mut CellHeap<T>) -> (count: usize)
        requires
            old(heap).wf(),
            old(heap).live(self.addr()),
        ensures
            final(heap).wf(),
            old(heap).same_except(*final(heap), self.addr()),
            count as nat == old(heap).cell_count(self.addr()) - 1,
            final(heap).cell_count(self.addr()) == count as nat,
            count > 0 ==> final(heap).cell_payload(self.addr()) == old(heap).cell_payload(
                self.addr(),
            ),
            count == 0 ==> final(heap).cell_payload(self.addr()) is None,
    {
        let count = heap.load_count(self.index) - 1;
        heap.dec_count_drop_on_zero(self.index);
        count
    }
}

} // verus!
