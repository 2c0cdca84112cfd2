//! The guard around a live handle of a free list.

use crate::free_list::FreeList;
use crate::smart_pointer::SmartPointer;
use std::ops::Deref;
use std::ops::DerefMut;
use vstd::prelude::*;

verus! {

/// A handle that belongs to a free list. It dereferences to the handle; `release`
/// gives the storage back to the free list.
///
/// A guard that is dropped goes the way of any owner: its object is destroyed and
/// the free list keeps nothing of it.
pub struct Reuse<'a, T: SmartPointer> {
    smart_pointer: T,
    free_list: &'a FreeList<T>,
}

impl<'a, T: SmartPointer> Reuse<'a, T> {
    /// The handle inside the guard.
    pub closed spec fn handle(&self) -> T {
        self.smart_pointer
    }

    /// The free list that the guard belongs to.
    pub closed spec fn pool(&self) -> &FreeList<T> {
        self.free_list
    }

    /// Binds `smart_pointer` to `free_list`.
    pub fn new<'b>(smart_pointer: T, free_list: &'b FreeList<T>) -> (guard: Reuse<'b, T>)
        ensures
            guard.handle() == smart_pointer,
            guard.pool() == free_list,
    {
        Reuse { smart_pointer, free_list }
    }

    /// Ends the guard: the free list keeps the storage if it has a free slot, and
    /// the object is destroyed if it has none.
    pub fn release(self) {
        let Reuse { smart_pointer, free_list } = self;
        let garbage = T::into_raw(smart_pointer);
        match free_list.dump.throw(garbage) {
            Ok(_) => {},
            Err(raw) => {
                let _dropped = T::from_raw(raw);
            },
        }
    }
}

impl<'a, T: SmartPointer> Deref for Reuse<'a, T> {
    type Target = T;

    fn deref(&self) -> (handle: &T)
        ensures
            *handle == self.handle(),
    {
        &self.smart_pointer
    }
}

impl<'a, T: SmartPointer> DerefMut for Reuse<'a, T> {
    fn deref_mut(&mut self) -> (handle: &mut T)
        ensures
            *handle == old(self).handle(),
            final(self).handle() == *final(handle),
            final(self).pool() == old(self).pool(),
    {
        &mut self.smart_pointer
    }
}

} // verus!
