//! Handles that a free list can keep: single owners of heap storage that can be
//! turned into a raw address and back.

use crate::reusable::Reusable;
use vstd::prelude::*;

verus! {

/// A handle that owns one object on the heap and nothing else does.
///
/// The address that `into_raw` gives up is the only trace of the object until
/// `from_raw` takes it back. An implementer promises that no other handle to the
/// object exists meanwhile, and a caller of `from_raw` that the address came from
/// `into_raw` of the same type and is handed in once. A shared handle, such as a
/// reference-counted one, cannot keep that promise and must not implement this
/// trait.
///
/// `address` and `contents` are what the contracts speak of. To code that is not
/// verified they are ordinary methods: `address` returns what `into_raw` would, and
/// `contents` what `target` does.
pub trait SmartPointer: Sized {
    /// The type of the owned object.
    type Target: Reusable;

    /// The address of the owned object.
    spec fn address(&self) -> usize;

    /// The owned object.
    spec fn contents(&self) -> &Self::Target;

    /// Takes back the ownership that `into_raw` gave up at `raw`.
    fn from_raw(raw: usize) -> (pointer: Self)
        ensures
            pointer.address() == raw,
    ;

    /// Gives up the handle for the address of its object, which stays alive.
    fn into_raw(smart_pointer: Self) -> (raw: usize)
        ensures
            raw == smart_pointer.address(),
    ;

    /// Puts `contents` into fresh storage.
    fn new(contents: Self::Target) -> (pointer: Self)
        ensures
            *pointer.contents() == contents,
    ;

    /// The owned object.
    fn target(&self) -> (target: &Self::Target)
        ensures
            target == self.contents(),
    ;

    /// The owned object, to change it where it is.
    fn target_mut(&mut self) -> (target: &mut Self::Target)
        ensures
            *target == *old(self).contents(),
            *final(self).contents() == *final(target),
            final(self).address() == old(self).address(),
    ;
}

} // verus!
