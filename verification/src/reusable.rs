//! Contents that can be replaced in place.

use vstd::prelude::*;

verus! {

/// A value whose storage can be given new contents.
///
/// When a free list hands out storage again, the previous contents are still in
/// it. `set_new_val` discards them and installs `other`; how is up to the
/// implementer, as long as the value is `other` afterwards.
pub trait Reusable: Sized {
    /// Replaces the contents of `self` by `other`.
    fn set_new_val(&mut self, other: Self)
        ensures
            *final(self) == other,
    ;
}

impl Reusable for u8 {
    fn set_new_val(&mut self, other: Self) {
        *self = other;
    }
}

impl Reusable for i8 {
    fn set_new_val(&mut self, other: Self) {
        *self = other;
    }
}

impl Reusable for u16 {
    fn set_new_val(&mut self, other: Self) {
        *self = other;
    }
}

impl Reusable for i16 {
    fn set_new_val(&mut self, other: Self) {
        *self = other;
    }
}

impl Reusable for i32 {
    fn set_new_val(&mut self, other: Self) {
        *self = other;
    }
}

impl Reusable for u32 {
    fn set_new_val(&mut self, other: Self) {
        *self = other;
    }
}

impl Reusable for i64 {
    fn set_new_val(&mut self, other: Self) {
        *self = other;
    }
}

impl Reusable for u64 {
    fn set_new_val(&mut self, other: Self) {
        *self = other;
    }
}

impl Reusable for i128 {
    fn set_new_val(&mut self, other: Self) {
        *self = other;
    }
}

impl Reusable for u128 {
    fn set_new_val(&mut self, other: Self) {
        *self = other;
    }
}

impl Reusable for String {
    fn set_new_val(&mut self, other: Self) {
        *self = other;
    }
}

impl<T> Reusable for Option<T> {
    fn set_new_val(&mut self, other: Self) {
        *self = other;
    }
}

impl<T, E> Reusable for Result<T, E> {
    fn set_new_val(&mut self, other: Self) {
        *self = other;
    }
}

} // verus!
