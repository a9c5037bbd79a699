//! Built-in functions of the statically typed runtime on integers: `len`, `range`, `min` of
//! two, `abs`.
use vstd::prelude::*;
use crate::runtime::list::TypedList;
use crate::runtime::typed::TypedValue;

verus! {

impl TypedValue for i64 {
    fn __shallow_copy(&self) -> (r: Self) {
        *self
    }
}

/// The integers from `from` up to `to`, `to` left out.
pub open spec fn range_seq(from: int, to: int) -> Seq<i64> {
    Seq::new(if to > from { (to - from) as nat } else { 0 }, |i: int| (from + i) as i64)
}

/// `len(x)`: the length of the list.
pub fn len<T>(x: TypedList<T>) -> (r: i64)
    requires
        x@.len() <= i64::MAX,
    ensures
        r == x@.len(),
{
    x.__len()
}

/// `range(from, to)`: the integers from `from` up to `to`, `to` left out.
pub fn __range2(from: i64, to: i64) -> (r: TypedList<i64>)
    ensures
        r@ == range_seq(from as int, to as int),
{
    let mut v: Vec<i64> = Vec::new();
    let mut i = from;
    while i < to
        invariant
            from <= i,
            from < to ==> i <= to,
            from >= to ==> i == from,
            v@ == range_seq(from as int, i as int),
        decreases to - i,
    {
        let ghost before = v@;
        v.push(i);
        proof {
            assert(v@ =~= range_seq(from as int, i + 1));
        }
        i += 1;
    }
    proof {
        if from >= to {
            assert(v@ =~= range_seq(from as int, to as int));
        }
    }
    TypedList(v)
}

/// `range(x)`: the integers from 0 up to `x`, `x` left out.
pub fn __range1(x: i64) -> (r: TypedList<i64>)
    ensures
        r@ == range_seq(0, x as int),
{
    __range2(0, x)
}

/// `min(a, b)`: `a` where it is smaller, else `b`.
pub fn __min2(a: i64, b: i64) -> (r: i64)
    ensures
        r == if a < b { a } else { b },
{
    if a < b {
        a
    } else {
        b
    }
}

/// `abs(x)`.
pub fn abs(x: i64) -> (r: i64)
    requires
        x != i64::MIN,
    ensures
        r == if x < 0 { -x } else { x as int },
{
    if x < 0 {
        -x
    } else {
        x
    }
}

} // verus!
