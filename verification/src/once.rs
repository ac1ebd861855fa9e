//! The single-write once cell for handles.
//!
//! An [`ArcOnce`] starts empty, accepts exactly one write, and hands every
//! later write back to its caller unchanged; reads see the first write and
//! nothing else. [`lemma_set_succeeds_exactly_once`] states that over every
//! sequence of writes.

use vstd::prelude::*;

verus! {

/// A cell that is empty until its first write and holds that write forever
/// after.
pub struct ArcOnce<A> {
    inner: Option<A>,
}

impl<A> ArcOnce<A> {
    /// What the cell holds: `None` while empty, `Some` the first write.
    pub closed spec fn spec_inner(self) -> Option<A> {
        self.inner
    }

    /// An empty cell.
    pub fn empty() -> (this: Self)
        ensures
            this.spec_inner() is None,
    {
        ArcOnce { inner: None }
    }

    /// Whether the stored handle spends a second word on metadata beside
    /// its pointer. The handles of this library are one cell address, so
    /// none does.
    pub fn has_metadata() -> (r: bool)
        ensures
            !r,
    {
        false
    }

    /// Read the cell: `None` while no write has landed, the first write
    /// afterwards.
    pub fn get(&self) -> (r: Option<&A>)
        ensures
            match r {
                Some(value) => self.spec_inner() == Some(*value),
                None => self.spec_inner() is None,
            },
    {
        self.inner.as_ref()
    }

    /// Write the cell. The first write lands and is answered with `None`;
    /// every later write leaves the cell untouched and comes straight back
    /// to the caller.
    pub fn set(&mut self, value: A) -> (r: Option<A>)
        ensures
            old(self).spec_inner() is None ==> final(self).spec_inner() == Some(value) && r is None,
            old(self).spec_inner() is Some ==> final(self).spec_inner() == old(self).spec_inner()
                && r == Some(value),
    {
        if self.inner.is_none() {
            self.inner = Some(value);
            None
        } else {
            Some(value)
        }
    }

    /// Empty the cell, handing out what it held. Exclusive access makes
    /// this a plain read-and-clear.
    pub fn take(&mut self) -> (r: Option<A>)
        ensures
            final(self).spec_inner() is None,
            r == old(self).spec_inner(),
    {
        self.inner.take()
    }
}

impl<A> Default for ArcOnce<A> {
    /// The default cell is empty.
    fn default() -> (this: Self)
        ensures
            this.spec_inner() is None,
    {
        ArcOnce::empty()
    }
}

/// What a cell holds after a sequence of writes: nothing while no write has
/// come, the first write from then on.
pub open spec fn slot_after<A>(writes: Seq<A>) -> Option<A> {
    if writes.len() == 0 {
        None
    } else {
        Some(writes[0])
    }
}

/// A write lands exactly when it is the first; every later write is handed
/// back.
///
/// Starting from an empty cell and applying [`ArcOnce::set`] once per
/// element of `writes`, in order: the cell ends up holding the first write;
/// the first write is answered with `None`; and every later write is
/// answered with itself, the cell untouched. The claim is stated over the
/// transition that `set`'s contract pins down for each single call.
pub proof fn lemma_set_succeeds_exactly_once<A>(writes: Seq<A>)
    ensures
        writes.len() == 0 ==> slot_after(writes) is None,
        writes.len() > 0 ==> slot_after(writes) == Some(writes[0]),
        forall|n: int|
            0 < n < writes.len() ==> #[trigger] slot_after(writes.take(n)) == slot_after(
                writes.take(n + 1),
            ),
{
    assert forall|n: int| 0 < n < writes.len() implies #[trigger] slot_after(writes.take(n))
        == slot_after(writes.take(n + 1)) by {
        assert(writes.take(n)[0] == writes[0]);
        assert(writes.take(n + 1)[0] == writes[0]);
    }
}

} // verus!
