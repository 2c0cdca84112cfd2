//! A lock-free free list of bounded length for many producers and many consumers.
//!
//! It is meant for workloads in which consumers keep up with producers, so that a
//! small cache of reusable storage saves most trips to the allocator. The cache has
//! one slot per bit of a machine word: 64 where `usize` has eight bytes, 32 where
//! it has four.
//!
//! - [`FreeList`] is the pool, and [`Reuse`] the guard around a live object of it.
//! - [`SmartPointer`] and [`Reusable`] say what a handle and its contents must be
//!   able to do to be pooled.
//! - [`Dump`] is the store of raw addresses underneath: two atomic bitmap words and
//!   one cell per bit.
//! - [`bits`] holds the word operations, [`protocol`] the steps that the dump's
//!   operations are made of and the invariant that they keep under every
//!   interleaving, and [`sequential`] what the operations do when they run
//!   undisturbed.
//!
//! The state of a dump that is shared between threads is not a value that a caller
//! holds, so the contracts of [`Dump`] and [`FreeList`] say what holds of every
//! outcome. What the outcomes are is stated, and proved, of the protocol.

pub mod bits;
pub mod dump;
pub mod free_list;
pub mod protocol;
pub mod reusable;
pub mod reuse;
pub mod sequential;
pub mod smart_pointer;

pub use dump::Dump;
pub use free_list::FreeList;
pub use reusable::Reusable;
pub use reuse::Reuse;
pub use smart_pointer::SmartPointer;
