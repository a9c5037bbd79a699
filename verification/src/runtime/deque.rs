//! `collections.deque` of the runtime: a double-ended queue.
use vstd::prelude::*;
use std::collections::VecDeque;
use crate::runtime::list::TypedList;
use crate::runtime::typed::TypedValue;

verus! {

/// A double-ended queue, its front first.
pub struct Deque<T>(pub VecDeque<T>);

impl<T> View for Deque<T> {
    type V = Seq<T>;

    open spec fn view(&self) -> Seq<T> {
        self.0@
    }
}

impl<T> Deque<T> {
    /// An empty queue (`deque()`).
    pub fn new() -> (r: Self)
        ensures
            r@ == Seq::<T>::empty(),
    {
        Deque(VecDeque::new())
    }

    /// Removes and returns the front element (`popleft`).
    pub fn popleft(&mut self) -> (r: T)
        requires
            old(self)@.len() > 0,
        ensures
            r == old(self)@[0],
            final(self)@ == old(self)@.drop_first(),
    {
        self.0.pop_front().unwrap()
    }

    /// Adds `x` at the back (`append`).
    pub fn append(&mut self, x: T)
        ensures
            final(self)@ == old(self)@.push(x),
    {
        self.0.push_back(x);
    }

    /// Adds `x` at the front (`appendleft`).
    pub fn appendleft(&mut self, x: T)
        ensures
            final(self)@ == seq![x] + old(self)@,
    {
        self.0.push_front(x);
    }

    /// The queue is not empty.
    pub fn test(&self) -> (r: bool)
        ensures
            r == (self@.len() > 0),
    {
        self.0.len() > 0
    }
}

impl<T: TypedValue> Deque<T> {
    /// A queue holding copies of the elements of `list`, in order (`deque(xs)`).
    pub fn from_list(list: &TypedList<T>) -> (r: Self)
        ensures
            r@ == list@,
    {
        let mut q: VecDeque<T> = VecDeque::new();
        let mut i: usize = 0;
        while i < list.0.len()
            invariant
                i <= list.0.len(),
                q@ == list.0@.take(i as int),
            decreases list.0.len() - i,
        {
            q.push_back(list.0[i].__shallow_copy());
            proof {
                assert(q@ =~= list.0@.take(i + 1));
            }
            i += 1;
        }
        proof {
            assert(list.0@.take(i as int) =~= list.0@);
        }
        Deque(q)
    }
}

} // verus!
