//! Iterators of the runtime: a sequence of values that is consumed from the front.
use vstd::prelude::*;
use crate::runtime::truth::Truthy;

verus! {

/// An iterator over the values it still has to produce.
pub struct Iter<T> {
    /// The values still to come, the next one last.
    rest: Vec<T>,
}

impl<T> View for Iter<T> {
    type V = Seq<T>;

    /// The values still to come, in order.
    closed spec fn view(&self) -> Seq<T> {
        self.rest@.reverse()
    }
}

impl<T> Iter<T> {
    /// An iterator over `items`, in order.
    pub fn new(items: Vec<T>) -> (r: Self)
        ensures
            r@ == items@,
    {
        let mut items = items;
        let mut rest: Vec<T> = Vec::new();
        let ghost original = items@;
        while items.len() > 0
            invariant
                items@ + rest@.reverse() == original,
            decreases items.len(),
        {
            let x = items.pop().unwrap();
            let ghost before = rest@;
            rest.push(x);
            proof {
                assert(rest@.reverse() =~= seq![x] + before.reverse());
                assert(items@ + rest@.reverse() =~= items@.push(x) + before.reverse());
            }
        }
        proof {
            assert(rest@.reverse() =~= original);
            assert(rest@.reverse().reverse() =~= rest@);
        }
        let r = Iter { rest };
        proof {
            assert(r@ =~= original);
        }
        r
    }

    /// An iterator is always true.
    pub fn test(&self) -> (r: bool)
        ensures
            r,
    {
        true
    }

    /// The next value, if there is one.
    pub fn __next(&mut self) -> (r: Option<T>)
        ensures
            old(self)@.len() == 0 ==> r is None && final(self)@ == old(self)@,
            old(self)@.len() > 0 ==> r == Some(old(self)@[0]) && final(self)@ == old(self)@.drop_first(),
    {
        let r = self.rest.pop();
        proof {
            if old(self)@.len() > 0 {
                assert(self@ =~= old(self)@.drop_first());
            }
        }
        r
    }

    /// Whether a value is still to come.
    pub fn __has_next(&self) -> (r: bool)
        ensures
            r == (self@.len() > 0),
    {
        self.rest.len() > 0
    }

    /// All the values still to come, in order; the iterator is then exhausted.
    pub fn __list(&mut self) -> (r: Vec<T>)
        ensures
            r@ == old(self)@,
            final(self)@.len() == 0,
    {
        let mut out: Vec<T> = Vec::new();
        while self.rest.len() > 0
            invariant
                out@ + self@ == old(self)@,
            decreases self.rest.len(),
        {
            let x = self.rest.pop().unwrap();
            proof {
                assert(self.rest@.reverse() =~= (self.rest@.push(x)).reverse().drop_first());
            }
            out.push(x);
            proof {
                assert(out@ + self@ =~= old(self)@);
            }
        }
        proof {
            assert(out@ =~= old(self)@);
        }
        out
    }
}

impl<T: Truthy> Iter<T> {
    /// Python's `any`: consumes values up to and including the first true one.
    pub fn any(&mut self) -> (r: bool)
        ensures
            r == exists|i: int| 0 <= i < old(self)@.len() && (#[trigger] old(self)@[i]).truth(),
            r ==> exists|k: int| 0 <= k < old(self)@.len() && (#[trigger] old(self)@[k]).truth()
                && (forall|j: int| 0 <= j < k ==> !(#[trigger] old(self)@[j]).truth())
                && final(self)@ == old(self)@.skip(k + 1),
            !r ==> final(self)@.len() == 0,
    {
        let ghost start = self@;
        let ghost mut k: int = 0;
        while self.rest.len() > 0
            invariant
                0 <= k <= start.len(),
                start == old(self)@,
                self@ == start.skip(k),
                forall|j: int| 0 <= j < k ==> !(#[trigger] start[j]).truth(),
            decreases self.rest.len(),
        {
            let ghost before = self.rest@;
            proof {
                assert(before.reverse().len() == before.len());
                assert(start.skip(k)[0] == before.reverse()[0]);
                assert(before.reverse()[0] == before[before.len() - 1]);
            }
            let x = self.rest.pop().unwrap();
            proof {
                assert(x == start[k]);
                assert(self@ =~= start.skip(k + 1)) by {
                    assert(self.rest@ == before.drop_last());
                    assert forall|j: int| 0 <= j < self@.len() implies self@[j] == start.skip(k + 1)[j] by {
                        assert(self@[j] == before.reverse()[j + 1]);
                    }
                }
                k = k + 1;
            }
            if x.test() {
                return true;
            }
        }
        false
    }

    /// Python's `all`: consumes values up to and including the first false one.
    pub fn all(&mut self) -> (r: bool)
        ensures
            r == forall|i: int| 0 <= i < old(self)@.len() ==> (#[trigger] old(self)@[i]).truth(),
            !r ==> exists|k: int| 0 <= k < old(self)@.len() && !(#[trigger] old(self)@[k]).truth()
                && (forall|j: int| 0 <= j < k ==> (#[trigger] old(self)@[j]).truth())
                && final(self)@ == old(self)@.skip(k + 1),
            r ==> final(self)@.len() == 0,
    {
        let ghost start = self@;
        let ghost mut k: int = 0;
        while self.rest.len() > 0
            invariant
                0 <= k <= start.len(),
                start == old(self)@,
                self@ == start.skip(k),
                forall|j: int| 0 <= j < k ==> (#[trigger] start[j]).truth(),
            decreases self.rest.len(),
        {
            let ghost before = self.rest@;
            proof {
                assert(before.reverse().len() == before.len());
                assert(start.skip(k)[0] == before.reverse()[0]);
                assert(before.reverse()[0] == before[before.len() - 1]);
            }
            let x = self.rest.pop().unwrap();
            proof {
                assert(x == start[k]);
                assert(self@ =~= start.skip(k + 1)) by {
                    assert(self.rest@ == before.drop_last());
                    assert forall|j: int| 0 <= j < self@.len() implies self@[j] == start.skip(k + 1)[j] by {
                        assert(self@[j] == before.reverse()[j + 1]);
                    }
                }
                k = k + 1;
            }
            if !x.test() {
                return false;
            }
        }
        true
    }
}

} // verus!
