//! The pieces behind the per-key slot machinery: the identity hasher used
//! for type keys, and the growable, clamped cache buffer.
//!
//! An [`IdentityHasher`] folds written words into a 64-bit state without
//! mixing — type identities are hashes already. A [`CacheBuf`] is the flat
//! buffer indexed by a key number: reads clamp to the last slot, and
//! growing at least doubles while keeping every old entry.

use vstd::prelude::*;
use crate::untyped::{spec_round_up, valid_align, DataLayout, HEADER_WORD_SIZE};

verus! {

/// A little-endian reading of bytes as a number: the first byte is the
/// least significant.
pub open spec fn le_bytes(s: Seq<u8>) -> nat
    decreases s.len(),
{
    if s.len() == 0 {
        0
    } else {
        (s[0] + 256 * le_bytes(s.drop_first())) as nat
    }
}

/// Powers of 256: the range of a little-endian reading.
pub open spec fn pow256(n: nat) -> nat
    decreases n,
{
    if n == 0 {
        1
    } else {
        256 * pow256((n - 1) as nat)
    }
}

/// Powers of 256 grow with the exponent.
proof fn lemma_pow256_increases(a: nat, b: nat)
    requires
        a <= b,
    ensures
        pow256(a) <= pow256(b),
    decreases b,
{
    if a < b {
        lemma_pow256_increases(a, (b - 1) as nat);
        assert(pow256(b) == 256 * pow256((b - 1) as nat));
        assert(pow256((b - 1) as nat) <= 256 * pow256((b - 1) as nat)) by (nonlinear_arith)
            requires
                pow256((b - 1) as nat) >= 0,
        ;
    }
}

/// A hasher that takes its input for the hash: written words replace the
/// state, written bytes shift in from the top. Type identity keys are
/// well-distributed hashes already, so no mixing is wanted.
pub struct IdentityHasher {
    state: u64,
}

impl IdentityHasher {
    /// The hasher's state: the hash so far.
    pub closed spec fn spec_state(self) -> u64 {
        self.state
    }

    /// A fresh hasher with an empty state.
    pub fn new() -> (this: Self)
        ensures
            this.spec_state() == 0,
    {
        IdentityHasher { state: 0 }
    }

    /// The hash: the state as it stands.
    pub fn finish(&self) -> (r: u64)
        ensures
            r == self.spec_state(),
    {
        self.state
    }

    /// A 64-bit word replaces the state outright.
    pub fn write_u64(&mut self, i: u64)
        ensures
            final(self).spec_state() == i,
    {
        self.state = i;
    }

    /// A byte shifts in at the top of the state.
    pub fn write_u8(&mut self, i: u8)
        ensures
            final(self).spec_state() == (old(self).spec_state() >> 8) | ((i as u64) << 56),
    {
        self.state = (self.state >> 8) | ((i as u64) << 56);
    }

    /// Two bytes shift in at the top of the state.
    pub fn write_u16(&mut self, i: u16)
        ensures
            final(self).spec_state() == (old(self).spec_state() >> 16) | ((i as u64) << 48),
    {
        self.state = (self.state >> 16) | ((i as u64) << 48);
    }

    /// Four bytes shift in at the top of the state.
    pub fn write_u32(&mut self, i: u32)
        ensures
            final(self).spec_state() == (old(self).spec_state() >> 32) | ((i as u64) << 32),
    {
        self.state = (self.state >> 32) | ((i as u64) << 32);
    }

    /// A byte slice: when it brings at least eight bytes, its last eight,
    /// read little-endian, replace the state; a shorter slice shifts in
    /// byte by byte.
    pub fn write(&mut self, bytes: &[u8])
        ensures
            bytes@.len() >= 8 ==> final(self).spec_state() == le_bytes(
                bytes@.subrange(bytes@.len() - 8, bytes@.len() as int),
            ),
            bytes@.len() < 8 ==> final(self).spec_state() == spec_fold_bytes(
                old(self).spec_state(),
                bytes@,
            ),
    {
        let len = bytes.len();
        if len >= 8 {
            let window = len - 8;
            let mut acc: u64 = 0;
            let mut i: usize = len;
            proof {
                assert(bytes@.subrange(len as int, len as int) =~= Seq::<u8>::empty());
            }
            while i > window
                invariant
                    window <= i <= len,
                    len == bytes@.len(),
                    len >= 8,
                    window == len - 8,
                    acc as nat == le_bytes(bytes@.subrange(i as int, len as int)),
                    (acc as nat) < pow256((len - i) as nat),
                decreases i,
            {
                i = i - 1;
                let b = bytes[i];
                proof {
                    let tail = bytes@.subrange(i as int + 1, len as int);
                    let whole = bytes@.subrange(i as int, len as int);
                    assert(whole.drop_first() =~= tail);
                    assert(pow256((len - i) as nat) == 256 * pow256((len - i - 1) as nat));
                    assert(pow256(8) == 0x1_0000_0000_0000_0000) by {
                        reveal_with_fuel(pow256, 9);
                    }
                    lemma_pow256_increases((len - i) as nat, 8);
                    assert(256 * acc + b < 256 * pow256((len - i - 1) as nat))
                        by (nonlinear_arith)
                        requires
                            (acc as nat) < pow256((len - i - 1) as nat),
                            b < 256,
                    ;
                }
                acc = acc * 256 + (b as u64);
            }
            self.state = acc;
            proof {
                assert(bytes@.subrange(window as int, len as int) =~= bytes@.subrange(
                    bytes@.len() - 8,
                    bytes@.len() as int,
                ));
            }
        } else {
            let mut i: usize = 0;
            while i < len
                invariant
                    0 <= i <= len,
                    len == bytes@.len(),
                    self.spec_state() == spec_fold_bytes(old(self).spec_state(), bytes@.take(i as int)),
                decreases len - i,
            {
                proof {
                    assert(bytes@.take(i as int + 1).drop_last() =~= bytes@.take(i as int));
                    assert(bytes@.take(i as int + 1).last() == bytes@[i as int]);
                }
                let b = bytes[i];
                self.write_u8(b);
                i = i + 1;
            }
            proof {
                assert(bytes@.take(len as int) =~= bytes@);
            }
        }
    }
}

/// The state after shifting the bytes of `s` in at the top, one by one.
pub open spec fn spec_fold_bytes(state: u64, s: Seq<u8>) -> u64
    decreases s.len(),
{
    if s.len() == 0 {
        state
    } else {
        (spec_fold_bytes(state, s.drop_last()) >> 8) | ((s.last() as u64) << 56)
    }
}

impl Default for IdentityHasher {
    /// A fresh hasher with an empty state.
    fn default() -> (this: Self)
        ensures
            this.spec_state() == 0,
    {
        IdentityHasher::new()
    }
}

/// The offset at which a buffer's entries sit behind its length word: one
/// machine word, rounded up to the entry alignment.
pub fn data_offset(elem: DataLayout) -> (r: usize)
    requires
        valid_align(elem.align as nat),
    ensures
        r as nat == spec_round_up(HEADER_WORD_SIZE as nat, elem.align as nat),
{
    proof {
        crate::untyped::lemma_valid_align_pos(elem.align as nat);
    }
    if elem.align <= HEADER_WORD_SIZE {
        proof {
            crate::untyped::lemma_small_align_divides_word(elem.align as nat);
        }
        HEADER_WORD_SIZE
    } else {
        proof {
            vstd::arithmetic::div_mod::lemma_small_mod(
                HEADER_WORD_SIZE as nat,
                elem.align as nat,
            );
        }
        elem.align
    }
}

/// The initial storage of a [`CacheBuf`]: one entry, and the index of the
/// last slot — zero — in front of it.
pub struct CacheBufInit<T> {
    last: usize,
    data: T,
}

impl<T> CacheBufInit<T> {
    /// The index of the last slot: zero, there is one slot.
    pub closed spec fn spec_last(self) -> usize {
        self.last
    }

    /// The one initial entry.
    pub closed spec fn spec_data(self) -> T {
        self.data
    }

    /// Initial storage holding `initial` in its single slot.
    pub fn new(initial: T) -> (this: Self)
        ensures
            this.spec_last() == 0,
            this.spec_data() == initial,
    {
        CacheBufInit { last: 0, data: initial }
    }
}

/// A growable buffer of slots indexed by key number. Reads clamp the
/// index to the last slot, so a key past the end answers with the
/// overflow slot rather than failing; growing at least doubles and keeps
/// every entry.
pub struct CacheBuf<T> {
    entries: Vec<T>,
}

impl<T: Copy> CacheBuf<T> {
    /// The slots.
    pub closed spec fn view(self) -> Seq<T> {
        self.entries@
    }

    /// The index of the last slot.
    pub open spec fn spec_last(self) -> int {
        self@.len() - 1
    }

    /// There is always at least one slot, and the last index stays within
    /// the address space, as the growth checks enforce.
    pub open spec fn wf(self) -> bool {
        1 <= self@.len() <= isize::MAX as nat + 1
    }

    /// A buffer over its initial storage.
    pub fn new(init: CacheBufInit<T>) -> (this: Self)
        ensures
            this.wf(),
            this@ =~= seq![init.spec_data()],
    {
        let mut entries = Vec::new();
        entries.push(init.data);
        CacheBuf { entries }
    }

    /// The slot for `index`, clamped to the last slot.
    pub fn get(&self, index: usize) -> (r: &T)
        requires
            self.wf(),
        ensures
            *r == self@[if index <= self.spec_last() {
                index as int
            } else {
                self.spec_last()
            }],
    {
        let last = self.entries.len() - 1;
        if index <= last {
            &self.entries[index]
        } else {
            &self.entries[last]
        }
    }

    /// The index of the last slot — what a key must stay within to get a
    /// slot of its own.
    pub fn len(&self) -> (r: usize)
        requires
            self.wf(),
        ensures
            r == self.spec_last(),
    {
        self.entries.len() - 1
    }

    /// Write the slot for `index`.
    pub fn set(&mut self, index: usize, value: T)
        requires
            old(self).wf(),
            index <= old(self).spec_last(),
        ensures
            final(self).wf(),
            final(self)@ =~= old(self)@.update(index as int, value),
    {
        self.entries.set(index, value);
    }

    /// Grow the buffer so that `target` has a slot of its own: the new
    /// last index at least doubles and passes `target`, old entries stay
    /// where they were, new slots start as `fill`.
    pub fn grow(&mut self, target: usize, fill: T)
        requires
            old(self).wf(),
            target < isize::MAX as usize,
            vstd::math::max(2 * old(self).spec_last() + 1, target as int + 1) <= isize::MAX as int,
        ensures
            final(self).wf(),
            final(self).spec_last() == vstd::math::max(
                2 * old(self).spec_last() + 1,
                target as int + 1,
            ),
            target < final(self)@.len(),
            forall|j: int| 0 <= j < old(self)@.len() ==> final(self)@[j] == old(self)@[j],
            forall|j: int|
                old(self)@.len() <= j < final(self)@.len() ==> final(self)@[j] == fill,
    {
        let old_last = self.entries.len() - 1;
        let doubled = old_last * 2 + 1;
        let new_last = if doubled >= target + 1 {
            doubled
        } else {
            target + 1
        };
        let new_len = new_last + 1;
        while self.entries.len() < new_len
            invariant
                old(self)@.len() <= self.entries@.len() <= new_len,
                new_len == new_last + 1,
                forall|j: int| 0 <= j < old(self)@.len() ==> self.entries@[j] == old(self)@[j],
                forall|j: int|
                    old(self)@.len() <= j < self.entries@.len() ==> self.entries@[j] == fill,
            decreases new_len - self.entries.len(),
        {
            self.entries.push(fill);
        }
    }
}

} // verus!
