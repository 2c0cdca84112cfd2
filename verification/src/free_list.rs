//! The free list: a pool of storage for one handle type, backed by one dump.

use crate::bits::width;
use crate::dump::Dump;
use crate::reusable::Reusable;
use crate::reuse::Reuse;
use crate::smart_pointer::SmartPointer;
use std::marker::PhantomData;
use vstd::prelude::*;

verus! {

/// A pool that keeps the storage of released objects and hands it out again. It
/// keeps at most as many as a machine word has bits.
///
/// The free list knows what it keeps by address alone: `clear` it before it goes
/// out of scope, or the objects that it still keeps are never destroyed.
pub struct FreeList<T: SmartPointer> {
    pub(crate) dump: Dump,
    pub(crate) marker: PhantomData<T>,
}

impl<T: SmartPointer> FreeList<T> {
    /// The number of objects whose storage the free list can keep.
    pub closed spec fn capacity(&self) -> nat {
        self.dump.slot_count()
    }

    /// An empty free list, with room for as many objects as a word has bits.
    pub fn new() -> (free_list: Self)
        ensures
            free_list.capacity() == width(),
    {
        FreeList { dump: Dump::new(), marker: PhantomData }
    }

    /// Puts `contents` into storage that the free list had kept, if it finds any;
    /// otherwise it hands `contents` back and allocates nothing.
    pub fn reuse<'a>(&'a self, contents: T::Target) -> (outcome: Result<Reuse<'a, T>, T::Target>)
        ensures
            match outcome {
                Ok(guard) => *guard.handle().contents() == contents && guard.pool() == self,
                Err(back) => back == contents,
            },
    {
        let recycled = self.dump.recycle();
        self.revive(recycled, contents)
    }

    /// What a reuse does with what the dump gave it. An address that came out of
    /// the dump is turned into its handle again, the object there is given
    /// `contents`, and the handle comes back in a guard of this free list. If
    /// nothing came out, `contents` come back as they are.
    ///
    /// `recycled` must be what `Dump::recycle` returned on the dump of this free
    /// list: the free list takes the storage at an address over.
    pub fn revive<'a>(
        &'a self,
        recycled: Result<usize, ()>,
        contents: T::Target,
    ) -> (outcome: Result<Reuse<'a, T>, T::Target>)
        ensures
            match recycled {
                Ok(raw) => {
                    &&& outcome is Ok
                    &&& outcome->Ok_0.handle().address() == raw
                    &&& *outcome->Ok_0.handle().contents() == contents
                    &&& outcome->Ok_0.pool() == self
                },
                Err(_) => outcome is Err && outcome->Err_0 == contents,
            },
    {
        match recycled {
            Ok(raw) => {
                let mut reused = T::from_raw(raw);
                reused.target_mut().set_new_val(contents);
                Ok(Reuse::new(reused, self))
            },
            Err(_) => Err(contents),
        }
    }

    /// Puts `contents` into storage that the free list had kept, if it finds any,
    /// and into fresh storage otherwise.
    pub fn reuse_or_alloc<'a>(&'a self, contents: T::Target) -> (guard: Reuse<'a, T>)
        ensures
            *guard.handle().contents() == contents,
            guard.pool() == self,
    {
        let recycled = self.dump.recycle();
        self.revive_or_allocate(recycled, contents)
    }

    /// What a reuse that may allocate does with what the dump gave it: it revives
    /// the storage at an address that came out of the dump, and allocates only if
    /// nothing came out.
    ///
    /// `recycled` must be what `Dump::recycle` returned on the dump of this free
    /// list.
    pub fn revive_or_allocate<'a>(
        &'a self,
        recycled: Result<usize, ()>,
        contents: T::Target,
    ) -> (guard: Reuse<'a, T>)
        ensures
            *guard.handle().contents() == contents,
            guard.pool() == self,
            recycled matches Ok(raw) ==> guard.handle().address() == raw,
    {
        match self.revive(recycled, contents) {
            Ok(guard) => guard,
            Err(back) => self.allocate(back),
        }
    }

    /// Puts `contents` into fresh storage.
    pub fn allocate<'a>(&'a self, contents: T::Target) -> (guard: Reuse<'a, T>)
        ensures
            *guard.handle().contents() == contents,
            guard.pool() == self,
    {
        let allocated = T::new(contents);
        Reuse::new(allocated, self)
    }

    /// Destroys every object whose storage the free list had kept.
    pub fn clear(&mut self)
        ensures
            final(self).capacity() == old(self).capacity(),
    {
        let destroy = |raw: usize|
            {
                let _dropped = T::from_raw(raw);
            };
        self.dump.for_each(destroy);
    }
}

} // verus!
