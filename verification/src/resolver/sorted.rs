//! Sets of strings kept in increasing order, and maps from strings to such sets.
//!
//! Strings are ordered as `String`'s own `Ord` orders them: lexicographically by code
//! point (which is the order of their UTF-8 bytes).
use vstd::prelude::*;
use crate::ast::{copy_string, strings_view};
use crate::text::{chars_of, string_eq};

verus! {

/// `a` comes strictly before `b`.
pub open spec fn str_lt(a: Seq<char>, b: Seq<char>) -> bool
    decreases a.len(),
{
    if a.len() == 0 {
        b.len() > 0
    } else if b.len() == 0 {
        false
    } else if a[0] == b[0] {
        str_lt(a.drop_first(), b.drop_first())
    } else {
        (a[0] as int) < (b[0] as int)
    }
}

pub proof fn lemma_str_lt_irreflexive(a: Seq<char>)
    ensures
        !str_lt(a, a),
    decreases a.len(),
{
    if a.len() > 0 {
        lemma_str_lt_irreflexive(a.drop_first());
    }
}

pub proof fn lemma_str_lt_transitive(a: Seq<char>, b: Seq<char>, c: Seq<char>)
    requires
        str_lt(a, b),
        str_lt(b, c),
    ensures
        str_lt(a, c),
    decreases a.len(),
{
    if a.len() > 0 && b.len() > 0 && c.len() > 0 {
        if a[0] == b[0] && b[0] == c[0] {
            lemma_str_lt_transitive(a.drop_first(), b.drop_first(), c.drop_first());
        }
    }
}

pub proof fn lemma_str_lt_total(a: Seq<char>, b: Seq<char>)
    requires
        a != b,
    ensures
        str_lt(a, b) || str_lt(b, a),
    decreases a.len(),
{
    if a.len() > 0 && b.len() > 0 && a[0] == b[0] {
        if a.drop_first() == b.drop_first() {
            assert(a =~= seq![a[0]] + a.drop_first());
            assert(b =~= seq![b[0]] + b.drop_first());
        }
        lemma_str_lt_total(a.drop_first(), b.drop_first());
    } else if a.len() == 0 && b.len() == 0 {
        assert(a =~= b);
    } else if a.len() > 0 && b.len() > 0 {
        let x = a[0] as int;
        let y = b[0] as int;
        assert(x != y);
    }
}

pub proof fn lemma_str_lt_asymmetric(a: Seq<char>, b: Seq<char>)
    requires
        str_lt(a, b),
    ensures
        !str_lt(b, a),
{
    if str_lt(b, a) {
        lemma_str_lt_transitive(a, b, a);
        lemma_str_lt_irreflexive(a);
    }
}

/// Whether `a` comes strictly before `b`.
pub fn string_lt(a: &String, b: &String) -> (r: bool)
    ensures
        r == str_lt(a@, b@),
{
    let x = chars_of(a.as_str());
    let y = chars_of(b.as_str());
    let mut i: usize = 0;
    proof {
        assert(x@.skip(0) =~= x@);
        assert(y@.skip(0) =~= y@);
    }
    while i < x.len() && i < y.len() && x[i] == y[i]
        invariant
            i <= x.len(),
            i <= y.len(),
            x@ == a@,
            y@ == b@,
            str_lt(a@, b@) == str_lt(x@.skip(i as int), y@.skip(i as int)),
        decreases x.len() - i,
    {
        proof {
            assert(x@.skip(i as int).drop_first() =~= x@.skip(i + 1));
            assert(y@.skip(i as int).drop_first() =~= y@.skip(i + 1));
        }
        i += 1;
    }
    if i == x.len() {
        proof {
            assert(x@.skip(i as int).len() == 0);
            assert(str_lt(a@, b@) == (i < y.len()));
        }
        i < y.len()
    } else if i == y.len() {
        proof {
            assert(y@.skip(i as int).len() == 0);
            assert(!str_lt(a@, b@));
        }
        false
    } else {
        let c = x[i];
        let d = y[i];
        proof {
            assert(x@.skip(i as int)[0] == c);
            assert(y@.skip(i as int)[0] == d);
            assert(c != d);
            assert(str_lt(a@, b@) == ((c as int) < (d as int)));
        }
        c < d
    }
}

/// Every element comes strictly before the next ones.
pub open spec fn increasing(s: Seq<Seq<char>>) -> bool {
    forall|i: int, j: int| 0 <= i < j < s.len() ==> str_lt(#[trigger] s[i], #[trigger] s[j])
}

/// Two increasing sequences with the same elements are equal.
pub proof fn lemma_increasing_unique(a: Seq<Seq<char>>, b: Seq<Seq<char>>)
    requires
        increasing(a),
        increasing(b),
        a.to_set() == b.to_set(),
    ensures
        a == b,
    decreases a.len(),
{
    if a.len() == 0 {
        if b.len() > 0 {
            assert(b.to_set().contains(b[0]));
            assert(!a.to_set().contains(b[0]));
        }
        assert(a =~= b);
    } else if b.len() == 0 {
        assert(a.to_set().contains(a[0]));
        assert(!b.to_set().contains(a[0]));
    } else {
        // the least elements agree
        assert(a.to_set().contains(a[0]));
        assert(b.to_set().contains(b[0]));
        let ia = choose|k: int| 0 <= k < a.len() && a[k] == b[0];
        let ib = choose|k: int| 0 <= k < b.len() && b[k] == a[0];
        assert(a.contains(b[0]));
        assert(b.contains(a[0]));
        if a[0] != b[0] {
            lemma_str_lt_total(a[0], b[0]);
            if str_lt(a[0], b[0]) {
                // a[0] sits in b after b[0]
                let k = choose|k: int| 0 <= k < b.len() && b[k] == a[0];
                if k > 0 {
                    assert(str_lt(b[0], b[k]));
                    lemma_str_lt_asymmetric(a[0], b[0]);
                } else {
                    lemma_str_lt_irreflexive(a[0]);
                }
            } else {
                let k = choose|k: int| 0 <= k < a.len() && a[k] == b[0];
                if k > 0 {
                    assert(str_lt(a[0], a[k]));
                    lemma_str_lt_asymmetric(b[0], a[0]);
                } else {
                    lemma_str_lt_irreflexive(b[0]);
                }
            }
        }
        let ta = a.drop_first();
        let tb = b.drop_first();
        assert forall|x: Seq<char>| ta.to_set().contains(x) implies tb.to_set().contains(x) by {
            let k = choose|k: int| 0 <= k < ta.len() && ta[k] == x;
            assert(a[k + 1] == x);
            assert(a.to_set().contains(x));
            assert(b.contains(x));
            let m = choose|m: int| 0 <= m < b.len() && b[m] == x;
            assert(str_lt(a[0], a[k + 1]));
            if m == 0 {
                lemma_str_lt_irreflexive(a[0]);
            }
            assert(tb[m - 1] == x);
        }
        assert forall|x: Seq<char>| tb.to_set().contains(x) implies ta.to_set().contains(x) by {
            let k = choose|k: int| 0 <= k < tb.len() && tb[k] == x;
            assert(b[k + 1] == x);
            assert(b.to_set().contains(x));
            assert(a.contains(x));
            let m = choose|m: int| 0 <= m < a.len() && a[m] == x;
            assert(str_lt(b[0], b[k + 1]));
            if m == 0 {
                lemma_str_lt_irreflexive(b[0]);
            }
            assert(ta[m - 1] == x);
        }
        assert(ta.to_set() =~= tb.to_set());
        lemma_increasing_unique(ta, tb);
        assert(a =~= seq![a[0]] + ta);
        assert(b =~= seq![b[0]] + tb);
    }
}

/// The elements of the finite set `s` in increasing order.
pub open spec fn sorted_of(s: Set<Seq<char>>) -> Seq<Seq<char>> {
    choose|q: Seq<Seq<char>>| increasing(q) && q.to_set() == s
}

/// An increasing sequence is the ordering of its set.
pub proof fn lemma_sorted_of(q: Seq<Seq<char>>)
    requires
        increasing(q),
    ensures
        sorted_of(q.to_set()) == q,
{
    let s = q.to_set();
    assert(increasing(q) && q.to_set() == s);
    let r = sorted_of(s);
    assert(increasing(r) && r.to_set() == s);
    lemma_increasing_unique(r, q);
}

/// A set of strings, held in increasing order.
pub struct SortedStrings {
    pub items: Vec<String>,
}

impl View for SortedStrings {
    type V = Seq<Seq<char>>;

    open spec fn view(&self) -> Seq<Seq<char>> {
        strings_view(self.items@)
    }
}

impl SortedStrings {
    pub open spec fn wf(&self) -> bool {
        increasing(self@)
    }

    pub fn new() -> (r: Self)
        ensures
            r.wf(),
            r@ == Seq::<Seq<char>>::empty(),
    {
        let r = SortedStrings { items: Vec::new() };
        proof { assert(r@ =~= Seq::<Seq<char>>::empty()); }
        r
    }

    pub fn len(&self) -> (r: usize)
        ensures
            r == self@.len(),
    {
        self.items.len()
    }

    pub fn contains(&self, x: &String) -> (r: bool)
        ensures
            r == self@.contains(x@),
    {
        let mut i: usize = 0;
        while i < self.items.len()
            invariant
                i <= self.items.len(),
                forall|j: int| 0 <= j < i ==> self@[j] != x@,
            decreases self.items.len() - i,
        {
            if string_eq(&self.items[i], x) {
                proof { assert(self@[i as int] == x@); }
                return true;
            }
            i += 1;
        }
        false
    }

    /// The position at which `x` stands or would stand.
    fn position(&self, x: &String) -> (r: usize)
        requires
            self.wf(),
        ensures
            r <= self@.len(),
            forall|j: int| 0 <= j < r ==> str_lt(#[trigger] self@[j], x@),
            forall|j: int| r <= j < self@.len() ==> !str_lt(#[trigger] self@[j], x@),
    {
        let mut i: usize = 0;
        while i < self.items.len() && string_lt(&self.items[i], x)
            invariant
                i <= self.items.len(),
                self.wf(),
                forall|j: int| 0 <= j < i ==> str_lt(#[trigger] self@[j], x@),
            decreases self.items.len() - i,
        {
            i += 1;
        }
        proof {
            assert forall|j: int| i <= j < self@.len() implies !str_lt(#[trigger] self@[j], x@) by {
                if j > i && str_lt(self@[j], x@) {
                    assert(str_lt(self@[i as int], self@[j]));
                    lemma_str_lt_transitive(self@[i as int], self@[j], x@);
                }
            }
        }
        i
    }

    /// Adds `x`; true where it was not there yet.
    pub fn insert(&mut self, x: String) -> (r: bool)
        requires
            old(self).wf(),
        ensures
            final(self).wf(),
            final(self)@.to_set() == old(self)@.to_set().insert(x@),
            r == !old(self)@.contains(x@),
    {
        let ghost before = self@;
        let k = self.position(&x);
        if k < self.items.len() && string_eq(&self.items[k], &x) {
            proof {
                assert(before[k as int] == x@);
                assert(before.to_set().insert(x@) =~= before.to_set());
            }
            false
        } else {
            proof {
                if k < before.len() {
                    lemma_str_lt_total(before[k as int], x@);
                }
                assert forall|j: int| k <= j < before.len() implies str_lt(x@, #[trigger] before[j]) by {
                    if j == k {
                        lemma_str_lt_total(before[k as int], x@);
                    } else {
                        assert(str_lt(before[k as int], before[j]));
                        lemma_str_lt_transitive(x@, before[k as int], before[j]);
                    }
                }
                assert forall|j: int| 0 <= j < before.len() implies before[j] != x@ by {
                    if j < k {
                        lemma_str_lt_irreflexive(x@);
                    } else {
                        lemma_str_lt_irreflexive(x@);
                    }
                }
            }
            self.items.insert(k, x);
            proof {
                let now = self@;
                assert(now =~= before.insert(k as int, x@));
                assert forall|i: int, j: int| 0 <= i < j < now.len() implies str_lt(#[trigger] now[i], #[trigger] now[j]) by {
                    if i < k && j == k {
                    } else if i < k && j > k {
                        assert(now[j] == before[j - 1]);
                        lemma_str_lt_transitive(before[i], x@, before[j - 1]);
                    } else if i == k {
                        assert(now[j] == before[j - 1]);
                    } else if i < k {
                        assert(now[j] == before[j]);
                    } else {
                        assert(now[i] == before[i - 1] && now[j] == before[j - 1]);
                    }
                }
                assert(now.to_set() =~= before.to_set().insert(x@)) by {
                    assert forall|y: Seq<char>| now.to_set().contains(y) implies before.to_set().insert(x@).contains(y) by {
                        let m = choose|m: int| 0 <= m < now.len() && now[m] == y;
                        if m < k {
                            assert(before[m] == y);
                        } else if m > k {
                            assert(before[m - 1] == y);
                        }
                    }
                    assert forall|y: Seq<char>| before.to_set().insert(x@).contains(y) implies now.to_set().contains(y) by {
                        if y == x@ {
                            assert(now[k as int] == y);
                        } else {
                            let m = choose|m: int| 0 <= m < before.len() && before[m] == y;
                            if m < k {
                                assert(now[m] == y);
                            } else {
                                assert(now[m + 1] == y);
                            }
                        }
                    }
                }
            }
            true
        }
    }

    /// Removes `x`; true where it was there.
    pub fn remove(&mut self, x: &String) -> (r: bool)
        requires
            old(self).wf(),
        ensures
            final(self).wf(),
            final(self)@.to_set() == old(self)@.to_set().remove(x@),
            r == old(self)@.contains(x@),
    {
        let ghost before = self@;
        let k = self.position(x);
        if k < self.items.len() && string_eq(&self.items[k], x) {
            proof {
                assert(before[k as int] == x@);
                assert(before.contains(x@));
            }
            let _ = self.items.remove(k);
            proof {
                let now = self@;
                assert(now =~= before.remove(k as int));
                assert forall|i: int, j: int| 0 <= i < j < now.len() implies str_lt(#[trigger] now[i], #[trigger] now[j]) by {
                    if j < k {
                    } else if i < k {
                        assert(now[j] == before[j + 1]);
                    } else {
                        assert(now[i] == before[i + 1] && now[j] == before[j + 1]);
                    }
                }
                assert(now.to_set() =~= before.to_set().remove(x@)) by {
                    assert forall|y: Seq<char>| now.to_set().contains(y) implies before.to_set().remove(x@).contains(y) by {
                        let m = choose|m: int| 0 <= m < now.len() && now[m] == y;
                        if m < k {
                            assert(before[m] == y);
                            assert(str_lt(before[m], before[k as int]));
                            lemma_str_lt_irreflexive(y);
                        } else {
                            assert(before[m + 1] == y);
                            assert(str_lt(before[k as int], before[m + 1]));
                            lemma_str_lt_irreflexive(y);
                        }
                    }
                    assert forall|y: Seq<char>| before.to_set().remove(x@).contains(y) implies now.to_set().contains(y) by {
                        let m = choose|m: int| 0 <= m < before.len() && before[m] == y;
                        if m < k {
                            assert(now[m] == y);
                        } else {
                            assert(m != k);
                            assert(now[m - 1] == y);
                        }
                    }
                }
            }
            true
        } else {
            proof {
                assert forall|j: int| 0 <= j < before.len() implies before[j] != x@ by {
                    if j < k {
                        lemma_str_lt_irreflexive(x@);
                    } else if j == k {
                    } else {
                        if before[j] == x@ {
                            assert(str_lt(before[k as int], before[j]));
                        }
                    }
                }
                assert(!before.contains(x@));
                assert(before.to_set().remove(x@) =~= before.to_set());
            }
            false
        }
    }

    pub fn copy(&self) -> (r: Self)
        ensures
            r@ == self@,
    {
        let mut items: Vec<String> = Vec::new();
        let mut i: usize = 0;
        while i < self.items.len()
            invariant
                i <= self.items.len(),
                items.len() == i,
                forall|j: int| 0 <= j < i ==> (#[trigger] items@[j])@ == self.items@[j]@,
            decreases self.items.len() - i,
        {
            items.push(copy_string(&self.items[i]));
            i += 1;
        }
        let r = SortedStrings { items };
        proof { assert(r@ =~= self@); }
        r
    }
}

/// The keys of a list of entries.
pub open spec fn keys_of(m: Seq<(Seq<char>, Seq<Seq<char>>)>) -> Seq<Seq<char>> {
    Seq::new(m.len(), |i: int| m[i].0)
}

/// A position of the key `k` in a list of entries.
pub open spec fn entry_index(m: Seq<(Seq<char>, Seq<Seq<char>>)>, k: Seq<char>) -> int {
    choose|i: int| 0 <= i < m.len() && m[i].0 == k
}

/// The map that a list of entries with distinct keys stands for.
pub open spec fn map_of(m: Seq<(Seq<char>, Seq<Seq<char>>)>) -> Map<Seq<char>, Set<Seq<char>>> {
    Map::new(
        |k: Seq<char>| exists|i: int| 0 <= i < m.len() && m[i].0 == k,
        |k: Seq<char>| m[entry_index(m, k)].1.to_set(),
    )
}

/// In a list with increasing keys, the entry of a key gives its value in the map.
pub proof fn lemma_map_of_entry(m: Seq<(Seq<char>, Seq<Seq<char>>)>, n: int)
    requires
        increasing(keys_of(m)),
        0 <= n < m.len(),
    ensures
        map_of(m).contains_key(m[n].0),
        map_of(m)[m[n].0] == m[n].1.to_set(),
{
    let k = m[n].0;
    assert(keys_of(m)[n] == k);
    assert(0 <= n < m.len() && m[n].0 == k);
    assert(map_of(m).contains_key(k));
    let j = entry_index(m, k);
    assert(0 <= j < m.len() && m[j].0 == k);
    if j != n {
        assert(keys_of(m)[j] == k);
        if j < n {
            assert(str_lt(keys_of(m)[j], keys_of(m)[n]));
        } else {
            assert(str_lt(keys_of(m)[n], keys_of(m)[j]));
        }
        lemma_str_lt_irreflexive(k);
    }
    assert(map_of(m)[k] == m[j].1.to_set());
}

/// A map from strings to sets of strings, with its keys in increasing order.
pub struct SortedMap {
    pub entries: Vec<(String, SortedStrings)>,
}

impl View for SortedMap {
    type V = Seq<(Seq<char>, Seq<Seq<char>>)>;

    open spec fn view(&self) -> Seq<(Seq<char>, Seq<Seq<char>>)> {
        Seq::new(self.entries@.len(), |i: int| (self.entries@[i].0@, self.entries@[i].1@))
    }
}

impl SortedMap {
    pub open spec fn wf(&self) -> bool {
        &&& increasing(keys_of(self@))
        &&& forall|i: int| 0 <= i < self.entries@.len() ==> (#[trigger] self.entries@[i]).1.wf()
    }

    pub fn new() -> (r: Self)
        ensures
            r.wf(),
            r@ == Seq::<(Seq<char>, Seq<Seq<char>>)>::empty(),
    {
        let r = SortedMap { entries: Vec::new() };
        proof {
            assert(r@ =~= Seq::<(Seq<char>, Seq<Seq<char>>)>::empty());
            assert(keys_of(r@) =~= Seq::<Seq<char>>::empty());
        }
        r
    }

    fn position(&self, k: &String) -> (r: usize)
        requires
            self.wf(),
        ensures
            r <= self@.len(),
            forall|j: int| 0 <= j < r ==> str_lt(#[trigger] keys_of(self@)[j], k@),
            forall|j: int| r <= j < self@.len() ==> !str_lt(#[trigger] keys_of(self@)[j], k@),
    {
        let mut i: usize = 0;
        while i < self.entries.len() && string_lt(&self.entries[i].0, k)
            invariant
                i <= self.entries.len(),
                self.wf(),
                forall|j: int| 0 <= j < i ==> str_lt(#[trigger] keys_of(self@)[j], k@),
            decreases self.entries.len() - i,
        {
            i += 1;
        }
        proof {
            let ks = keys_of(self@);
            assert forall|j: int| i <= j < self@.len() implies !str_lt(#[trigger] ks[j], k@) by {
                if j > i && str_lt(ks[j], k@) {
                    assert(str_lt(ks[i as int], ks[j]));
                    lemma_str_lt_transitive(ks[i as int], ks[j], k@);
                }
            }
        }
        i
    }

    /// The set held under `k`, if there is one.
    pub fn get(&self, k: &String) -> (r: Option<SortedStrings>)
        requires
            self.wf(),
        ensures
            match r {
                Some(v) => map_of(self@).contains_key(k@) && v@.to_set() == map_of(self@)[k@] && v.wf(),
                None => !map_of(self@).contains_key(k@),
            },
    {
        let p = self.position(k);
        if p < self.entries.len() && string_eq(&self.entries[p].0, k) {
            let v = self.entries[p].1.copy();
            proof {
                assert(self@[p as int].0 == k@);
                lemma_map_of_entry(self@, p as int);
            }
            Some(v)
        } else {
            proof {
                let ks = keys_of(self@);
                if map_of(self@).contains_key(k@) {
                    let j = choose|j: int| 0 <= j < self@.len() && self@[j].0 == k@;
                    assert(ks[j] == k@);
                    if j < p {
                        lemma_str_lt_irreflexive(k@);
                    } else if j > p {
                        assert(str_lt(ks[p as int], ks[j]));
                    }
                }
            }
            None
        }
    }

    /// Puts `v` under `k`, in place of what was there.
    pub fn put(&mut self, k: String, v: SortedStrings)
        requires
            old(self).wf(),
            v.wf(),
        ensures
            final(self).wf(),
            map_of(final(self)@) == map_of(old(self)@).insert(k@, v@.to_set()),
    {
        let ghost before = self@;
        let ghost kv = k@;
        let ghost vv = v@;
        let p = self.position(&k);
        let ghost ks = keys_of(before);
        if p < self.entries.len() && string_eq(&self.entries[p].0, &k) {
            let _ = self.entries.remove(p);
            self.entries.insert(p, (k, v));
            proof {
                let now = self@;
                assert(now =~= before.update(p as int, (kv, vv)));
                assert(keys_of(now) =~= ks);
                assert(before[p as int].0 == kv);
                assert forall|x: Seq<char>| #[trigger] map_of(now).contains_key(x) == map_of(before).insert(kv, vv.to_set()).contains_key(x) by {
                    if x == kv {
                        assert(now[p as int].0 == x);
                    }
                    if map_of(before).contains_key(x) {
                        let j = choose|j: int| 0 <= j < before.len() && before[j].0 == x;
                        assert(now[j].0 == x);
                    }
                    if map_of(now).contains_key(x) {
                        let j = choose|j: int| 0 <= j < now.len() && now[j].0 == x;
                        if j != p {
                            assert(before[j].0 == x);
                        }
                    }
                }
                assert forall|x: Seq<char>| #[trigger] map_of(now).contains_key(x) implies map_of(now)[x] == map_of(before).insert(kv, vv.to_set())[x] by {
                    let j = choose|j: int| 0 <= j < now.len() && now[j].0 == x;
                    lemma_map_of_entry(now, j);
                    if j != p {
                        assert(before[j] == now[j]);
                        lemma_map_of_entry(before, j);
                        if j < p {
                            assert(str_lt(ks[j], ks[p as int]));
                        } else {
                            assert(str_lt(ks[p as int], ks[j]));
                        }
                        lemma_str_lt_irreflexive(x);
                    }
                }
                assert(map_of(now) =~= map_of(before).insert(kv, vv.to_set()));
            }
        } else {
            proof {
                assert forall|j: int| p <= j < before.len() implies str_lt(kv, #[trigger] ks[j]) by {
                    if j == p {
                        lemma_str_lt_total(ks[p as int], kv);
                    } else {
                        assert(str_lt(ks[p as int], ks[j]));
                        lemma_str_lt_total(ks[p as int], kv);
                        lemma_str_lt_transitive(kv, ks[p as int], ks[j]);
                    }
                }
            }
            self.entries.insert(p, (k, v));
            proof {
                let now = self@;
                assert(now =~= before.insert(p as int, (kv, vv)));
                let nks = keys_of(now);
                assert(nks =~= ks.insert(p as int, kv));
                assert forall|i: int, j: int| 0 <= i < j < nks.len() implies str_lt(#[trigger] nks[i], #[trigger] nks[j]) by {
                    if i < p && j == p {
                    } else if i < p && j > p {
                        lemma_str_lt_transitive(ks[i], kv, ks[j - 1]);
                    } else if i == p {
                    } else if j < p {
                    } else {
                        assert(nks[i] == ks[i - 1] && nks[j] == ks[j - 1]);
                    }
                }
                assert forall|x: Seq<char>| #[trigger] map_of(now).contains_key(x) == map_of(before).insert(kv, vv.to_set()).contains_key(x) by {
                    if map_of(before).contains_key(x) {
                        let j = choose|j: int| 0 <= j < before.len() && before[j].0 == x;
                        if j < p {
                            assert(now[j].0 == x);
                        } else {
                            assert(now[j + 1].0 == x);
                        }
                    }
                    if x == kv {
                        assert(now[p as int].0 == x);
                    }
                    if map_of(now).contains_key(x) {
                        let j = choose|j: int| 0 <= j < now.len() && now[j].0 == x;
                        if j < p {
                            assert(before[j].0 == x);
                        } else if j > p {
                            assert(before[j - 1].0 == x);
                        }
                    }
                }
                assert forall|x: Seq<char>| #[trigger] map_of(now).contains_key(x) implies map_of(now)[x] == map_of(before).insert(kv, vv.to_set())[x] by {
                    let j = choose|j: int| 0 <= j < now.len() && now[j].0 == x;
                    lemma_map_of_entry(now, j);
                    if j < p {
                        assert(before[j] == now[j]);
                        lemma_map_of_entry(before, j);
                        assert(str_lt(ks[j], kv));
                        lemma_str_lt_irreflexive(kv);
                        assert(ks[j] != kv);
                    } else if j > p {
                        assert(before[j - 1] == now[j]);
                        lemma_map_of_entry(before, j - 1);
                        assert(str_lt(kv, ks[j - 1]));
                        lemma_str_lt_irreflexive(kv);
                    }
                }
                assert(map_of(now) =~= map_of(before).insert(kv, vv.to_set()));
            }
        }
    }
}

} // verus!
