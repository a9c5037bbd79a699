//! Python truth values and the boolean runtime types.
use vstd::prelude::*;

verus! {

/// A value that Python can test for truth.
pub trait Truthy {
    spec fn truth(&self) -> bool;

    fn test(&self) -> (r: bool)
        ensures
            r == self.truth(),
    ;
}

/// The boolean of the dynamically typed runtime.
#[derive(Debug, Clone, Copy, PartialEq, Eq, Structural)]
pub struct Boolean(pub bool);

impl Boolean {
    /// The truth of the boolean.
    pub fn __test(&self) -> (r: bool)
        ensures
            r == self.0,
    {
        self.0
    }

    /// Python's `and` of two booleans.
    pub fn __bit_and(&self, rhs: &Self) -> (r: Self)
        ensures
            r.0 == (self.0 && rhs.0),
    {
        Boolean(self.0 && rhs.0)
    }
}

impl From<bool> for Boolean {
    fn from(b: bool) -> (r: Self)
        ensures
            r.0 == b,
    {
        Boolean(b)
    }
}

impl vstd::std_specs::convert::FromSpecImpl<bool> for Boolean {
    open spec fn obeys_from_spec() -> bool {
        true
    }

    open spec fn from_spec(v: bool) -> Self {
        Boolean(v)
    }
}

impl Truthy for Boolean {
    open spec fn truth(&self) -> bool {
        self.0
    }

    fn test(&self) -> (r: bool) {
        self.0
    }
}

/// The boolean of the statically typed runtime.
#[derive(Debug, Clone, Copy, PartialEq, Eq, Structural)]
pub struct Bool(pub bool);

impl Truthy for Bool {
    open spec fn truth(&self) -> bool {
        self.0
    }

    fn test(&self) -> (r: bool) {
        self.0
    }
}

impl Default for Bool {
    fn default() -> (r: Self)
        ensures
            r.0 == false,
    {
        Bool(false)
    }
}

impl From<bool> for Bool {
    fn from(v: bool) -> (r: Self)
        ensures
            r.0 == v,
    {
        Bool(v)
    }
}

impl vstd::std_specs::convert::FromSpecImpl<bool> for Bool {
    open spec fn obeys_from_spec() -> bool {
        true
    }

    open spec fn from_spec(v: bool) -> Self {
        Bool(v)
    }
}

} // verus!
