//! The common interface of the values of the statically typed runtime.
use vstd::prelude::*;
use crate::runtime::truth::Bool;

verus! {

/// A value of the statically typed runtime.
pub trait TypedValue: Sized {
    /// A copy of the value that shares its contents.
    fn __shallow_copy(&self) -> (r: Self)
        ensures
            r == *self,
    ;

    /// Replaces the value by `value`.
    fn assign(&mut self, value: Self)
        ensures
            *final(self) == value,
    {
        *self = value;
    }
}

impl TypedValue for Bool {
    fn __shallow_copy(&self) -> (r: Self) {
        *self
    }
}

} // verus!
