//! Lists of the statically typed runtime.
use vstd::prelude::*;
use crate::runtime::typed::TypedValue;

verus! {

/// A list of the statically typed runtime.
#[derive(Debug, PartialEq, Eq)]
pub struct TypedList<T>(pub Vec<T>);

impl<T> View for TypedList<T> {
    type V = Seq<T>;

    open spec fn view(&self) -> Seq<T> {
        self.0@
    }
}

impl<T> TypedList<T> {
    /// Removes and returns the last element (Python's `list.pop()`).
    pub fn pop(&mut self) -> (r: T)
        requires
            old(self)@.len() > 0,
        ensures
            r == old(self)@.last(),
            final(self)@ == old(self)@.drop_last(),
    {
        self.0.pop().unwrap()
    }

    /// Reverses the list in place.
    pub fn reverse(&mut self)
        ensures
            final(self)@ == old(self)@.reverse(),
    {
        let mut reversed: Vec<T> = Vec::new();
        let ghost original = self@;
        while self.0.len() > 0
            invariant
                original == old(self)@,
                self.0@ + reversed@.reverse() == original,
            decreases self.0.len(),
        {
            let x = self.0.pop().unwrap();
            proof {
                assert(self.0@.push(x) + reversed@.reverse() == original) by {
                    assert(self.0@.push(x) + reversed@.reverse() =~= self.0@ + (reversed@.push(x)).reverse());
                }
            }
            let ghost before = reversed@;
            reversed.push(x);
            proof {
                assert(reversed@.reverse() =~= seq![x] + before.reverse());
                assert(self.0@ + reversed@.reverse() =~= self.0@.push(x) + before.reverse());
            }
        }
        proof {
            assert(reversed@ =~= original.reverse()) by {
                assert(reversed@.reverse() =~= original);
                assert(reversed@.reverse().reverse() =~= reversed@);
            }
        }
        self.0 = reversed;
    }

    /// Appends `x` (Python's `list.append`).
    pub fn append(&mut self, x: T)
        ensures
            final(self)@ == old(self)@.push(x),
    {
        self.0.push(x);
    }
}

/// The position that the index `i` names in a list of length `len`: from the end where it
/// is negative.
pub open spec fn index_position(i: int, len: int) -> int {
    if i < 0 {
        len + i
    } else {
        i
    }
}

/// `s` repeated `n` times; empty for `n` below 1.
pub open spec fn repeat<T>(s: Seq<T>, n: int) -> Seq<T>
    decreases n,
{
    if n <= 0 {
        Seq::empty()
    } else {
        repeat(s, n - 1) + s
    }
}

/// The position that `index` names in a list of length `len`.
fn position(index: i64, len: usize) -> (k: usize)
    requires
        -len <= index < len,
    ensures
        k == index_position(index as int, len as int),
{
    if index < 0 {
        let back = (-(index + 1)) as usize + 1;
        len - back
    } else {
        index as usize
    }
}

impl<T> TypedList<T> {
    /// The length of the list (`len(xs)`).
    pub fn __len(&self) -> (r: i64)
        requires
            self@.len() <= i64::MAX,
        ensures
            r == self@.len(),
    {
        self.0.len() as i64
    }

    /// The element at index `index`, counted from the end where it is negative (`xs[i]`),
    /// to be changed in place.
    pub fn __index_ref(&mut self, index: i64) -> (r: &mut T)
        requires
            -old(self)@.len() <= index < old(self)@.len(),
        ensures
            *r == old(self)@[index_position(index as int, old(self)@.len() as int)],
            final(self)@ == old(self)@.update(index_position(index as int, old(self)@.len() as int), *final(r)),
    {
        let k: usize = position(index, self.0.len());
        &mut self.0[k]
    }
}

impl<T: TypedValue> TypedList<T> {
    /// A copy of the element at index `index`, counted from the end where it is negative
    /// (`xs[i]`).
    pub fn __index_value(&self, index: i64) -> (r: T)
        requires
            -self@.len() <= index < self@.len(),
        ensures
            r == self@[index_position(index as int, self@.len() as int)],
    {
        let k: usize = position(index, self.0.len());
        self.0[k].__shallow_copy()
    }

    /// The list repeated `x` times (`xs * x`), holding copies of the elements.
    pub fn __mul(&self, x: i64) -> (r: TypedList<T>)
        ensures
            r@ == repeat(self@, x as int),
    {
        let mut v: Vec<T> = Vec::new();
        let mut n: i64 = 0;
        while n < x
            invariant
                0 <= n,
                x > 0 ==> n <= x,
                x <= 0 ==> n == 0,
                v@ == repeat(self@, n as int),
            decreases x - n,
        {
            let mut i: usize = 0;
            let ghost before = v@;
            while i < self.0.len()
                invariant
                    i <= self.0.len(),
                    v@ == before + self.0@.take(i as int),
                decreases self.0.len() - i,
            {
                v.push(self.0[i].__shallow_copy());
                proof {
                    assert(v@ =~= before + self.0@.take(i + 1));
                }
                i += 1;
            }
            proof {
                assert(self.0@.take(i as int) =~= self.0@);
                assert(repeat(self@, n + 1) == repeat(self@, n as int) + self@);
            }
            n += 1;
        }
        proof {
            if x <= 0 {
                assert(repeat(self@, x as int) =~= Seq::<T>::empty());
                assert(v@ =~= Seq::<T>::empty());
            }
        }
        TypedList(v)
    }

    /// A new list holding copies of the elements (Python's `list(xs)`).
    pub fn __list(&self) -> (r: TypedList<T>)
        ensures
            r@ == self@,
    {
        let mut v: Vec<T> = Vec::new();
        let mut i: usize = 0;
        while i < self.0.len()
            invariant
                i <= self.0.len(),
                v@ == self.0@.take(i as int),
            decreases self.0.len() - i,
        {
            v.push(self.0[i].__shallow_copy());
            proof {
                assert(v@ =~= self.0@.take(i + 1));
            }
            i += 1;
        }
        proof {
            assert(self.0@.take(i as int) =~= self.0@);
        }
        TypedList(v)
    }
}

impl<T> From<Vec<T>> for TypedList<T> {
    fn from(v: Vec<T>) -> (r: Self)
        ensures
            r@ == v@,
    {
        TypedList(v)
    }
}

impl<T> vstd::std_specs::convert::FromSpecImpl<Vec<T>> for TypedList<T> {
    open spec fn obeys_from_spec() -> bool {
        true
    }

    open spec fn from_spec(v: Vec<T>) -> Self {
        TypedList(v)
    }
}

impl<T> Default for TypedList<T> {
    fn default() -> (r: Self)
        ensures
            r@ == Seq::<T>::empty(),
    {
        TypedList(Vec::new())
    }
}

/// Python's `list(xs)`: a new list holding copies of the elements of `x`.
pub fn list<T: TypedValue>(x: TypedList<T>) -> (r: TypedList<T>)
    ensures
        r@ == x@,
{
    x.__list()
}


/// An index in range names a position of the list; a non-negative index names itself, and
/// `i - len` names the same position as `i` (so `-1` names the last element).
pub proof fn law_index_positions(i: int, len: int)
    requires
        -len <= i < len,
    ensures
        0 <= index_position(i, len) < len,
        i >= 0 ==> index_position(i, len) == i,
        i >= 0 ==> index_position(i - len, len) == i,
        index_position(-1, len) == len - 1,
{
}

/// A list repeated `n` times is `n` copies of it one after another: its length is `n` times
/// the list's, and its element at `k` is that of the list at `k` modulo the list's length.
pub proof fn law_repeat_copies<T>(s: Seq<T>, n: int)
    requires
        n >= 0,
    ensures
        repeat(s, n).len() == n * s.len(),
        forall|q: int, k: int| 0 <= q < n && 0 <= k < s.len() ==> #[trigger] repeat(s, n)[q * s.len() + k] == s[k],
    decreases n,
{
    if n > 0 {
        law_repeat_copies(s, n - 1);
        let r = repeat(s, n - 1);
        assert(r.len() == (n - 1) * s.len());
        assert(n * s.len() == (n - 1) * s.len() + s.len()) by (nonlinear_arith);
        assert forall|q: int, k: int| 0 <= q < n && 0 <= k < s.len() implies #[trigger] repeat(s, n)[q * s.len() + k] == s[k] by {
            if q < n - 1 {
                assert(q * s.len() + k < (n - 1) * s.len()) by (nonlinear_arith)
                    requires q < n - 1, 0 <= k < s.len(), q >= 0;
                assert(repeat(s, n)[q * s.len() + k] == r[q * s.len() + k]);
            } else {
                assert(q * s.len() == (n - 1) * s.len());
            }
        }
    }
}

} // verus!
