//! A memory substrate for persistent, structurally shared data structures.
//!
//! The substrate is built from four services:
//!
//! * reference-counted heap cells with shared ([`arc::Arc`]) and unique
//!   ([`arc::UniqueArc`]) owning handles, plus a non-owning borrow
//!   ([`borrow::ArcBorrow`]);
//! * a deduplication table ([`dedup::DedupTable`]) that interns values by
//!   structural equality, so that equal values share one cell and equality of
//!   handles reduces to pointer identity;
//! * a single-write once cell for handles ([`once::ArcOnce`]);
//! * per-key storage slots and a lazy singleton registry
//!   ([`singleton::StaticTypeMap`], [`singleton::CacheSlot`]).
//!
//! Cells live in an explicit, verified cell heap ([`cell::CellHeap`]): every
//! allocation, count change and reclamation is an operation on that heap with
//! a contract, and the central guarantees — the payload is dropped exactly
//! once, at the last drop; interned handles are pointer-equal exactly when
//! their values are equal; a once cell accepts exactly one write; a singleton
//! is constructed at most once per key — are stated and proved over it.

pub mod arc;
pub mod borrow;
pub mod cache;
pub mod cell;
pub mod dedup;
pub mod once;
pub mod ptr;
pub mod radix;
pub mod singleton;
pub mod untyped;
