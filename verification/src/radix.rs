//! Index arithmetic for the radix tree that consumes the handles: the bit
//! ranges each tree level owns, and the lazily published length of a node.

use vstd::prelude::*;

verus! {

/// How many index bits a leaf consumes.
pub const LEAF_BITS: u32 = 6;

/// How many index bits one inner level consumes.
pub const INNER_BITS: u32 = 6;

/// How far an index is shifted before an inner node at `level` picks its
/// slot: nothing at the leaves, then the leaf bits plus one inner stride
/// per level above the first.
pub open spec fn spec_level_shift(level: nat) -> nat {
    if level == 0 {
        0
    } else {
        ((level - 1) * INNER_BITS + LEAF_BITS) as nat
    }
}

/// The shift for `level`; fits comfortably, as the deepest shift of a
/// 255-level tree is still small.
pub fn level_shift(level: u8) -> (r: u32)
    ensures
        r == spec_level_shift(level as nat),
{
    if level == 0 {
        0
    } else {
        (level - 1) as u32 * INNER_BITS + LEAF_BITS
    }
}

/// The mask of the 64-bit index bits that levels up to `level` decide:
/// the low `shift + 6` bits. A tree deeper than the index word masks
/// nothing out, so the shift must stay within the word.
pub fn level_mask(level: u8) -> (r: u64)
    requires
        spec_level_shift(level as nat) < 64,
    ensures
        spec_level_shift(level as nat) + 6 < 64 ==> r == (1u64 << ((spec_level_shift(
            level as nat,
        ) + 6) as u32)) - 1,
        spec_level_shift(level as nat) + 6 >= 64 ==> r == u64::MAX,
{
    let shift = level_shift(level);
    let inner_mask: u64 = !0u64 << 6u32;
    let r = !(inner_mask << shift);
    proof {
        let s = shift;
        assert((s + 6 < 64 ==> !((!0u64 << 6u32) << s) == (1u64 << ((s + 6) as u32)) - 1) && (s
            + 6 >= 64 ==> !((!0u64 << 6u32) << s) == 0xffff_ffff_ffff_ffffu64)) by (bit_vector)
            requires
                s < 64,
        ;
    }
    r
}

/// A node length that is published after the fact: the all-ones word
/// stands for "not yet known", every other word is the length itself.
pub struct LazyLen {
    value: usize,
}

impl LazyLen {
    /// The stored word.
    pub closed spec fn spec_value(self) -> usize {
        self.value
    }

    /// The length, when one has been published.
    pub open spec fn spec_len(self) -> Option<usize> {
        if self.spec_value() == usize::MAX {
            None
        } else {
            Some(self.spec_value())
        }
    }

    /// A length not yet known.
    pub fn unknown() -> (this: Self)
        ensures
            this.spec_len() is None,
    {
        LazyLen { value: usize::MAX }
    }

    /// Publish the length. The all-ones word cannot be a length, as it
    /// stands for absence.
    pub fn set(&mut self, value: usize)
        requires
            value != usize::MAX,
        ensures
            final(self).spec_len() == Some(value),
    {
        self.value = value;
    }

    /// The length, when one has been published.
    pub fn get(&self) -> (r: Option<usize>)
        ensures
            r == self.spec_len(),
    {
        if self.value != usize::MAX {
            Some(self.value)
        } else {
            None
        }
    }
}

} // verus!
