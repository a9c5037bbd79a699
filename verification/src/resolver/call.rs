//! Passes the variables that a function shares with the functions around it as extra
//! arguments.
//!
//! Each variable is first recorded in every function that names it; a variable that a
//! function and one of its ancestors both name is then recorded in every function on the
//! way between them.  Walking the functions innermost first, a variable recorded in one
//! function only is that function's own (its *definition*); one recorded in several more is
//! *external* to it, appended to its parameters and to the arguments of each call of it.
use vstd::prelude::*;
use crate::ast::{
    copy_expr, copy_from_import, copy_import, copy_opt_expr, copy_string, copy_strings, no_expr,
    no_stmt, strings_view, views, Assign, BinaryOperation, BoolOperation, CallFunction,
    CallMethod, Compare, Dict, Expr, ExprV, Func, If, Index, Statement, StmtV, UnaryOperation,
    While,
};
use crate::resolver::sorted::{
    increasing, lemma_increasing_unique, lemma_sorted_of, lemma_str_lt_irreflexive, map_of, sorted_of, str_lt,
    SortedMap, SortedStrings,
};
use crate::text::{str_eq, string_eq, string_of};

verus! {

/// The context of the statements outside every function.
pub open spec fn root() -> Seq<char> {
    "$"@
}

/// The variable `v` occurs in `e`.
pub open spec fn mentions(e: ExprV, v: Seq<char>) -> bool
    decreases e,
{
    match e {
        ExprV::CallFunction(_, args) => mentions_any(args, v),
        ExprV::CallMethod(x, _, args) => mentions(*x, v) || mentions_any(args, v),
        ExprV::Tuple(t) => mentions_any(t, v),
        ExprV::VariableName(n) => n == v,
        ExprV::BoolOperation(_, c) => mentions_any(c, v),
        ExprV::Compare(l, r, _) => mentions(*l, v) || mentions(*r, v),
        ExprV::UnaryOperation(x, _) => mentions(*x, v),
        ExprV::BinaryOperation(l, r, _) => mentions(*l, v) || mentions(*r, v),
        ExprV::Index(x, i) => mentions(*x, v) || mentions(*i, v),
        ExprV::List(l) => mentions_any(l, v),
        ExprV::Dict(p) => mentions_pairs(p, v),
        _ => false,
    }
}

pub open spec fn mentions_any(es: Seq<ExprV>, v: Seq<char>) -> bool
    decreases es,
{
    if es.len() == 0 {
        false
    } else {
        mentions_any(es.drop_last(), v) || mentions(es.last(), v)
    }
}

pub open spec fn mentions_pairs(ps: Seq<(ExprV, ExprV)>, v: Seq<char>) -> bool
    decreases ps,
{
    if ps.len() == 0 {
        false
    } else {
        mentions_pairs(ps.drop_last(), v) || mentions(ps.last().0, v) || mentions(ps.last().1, v)
    }
}

/// The traversal of `s` in the function `f` records the variable `v` in the function `g`:
/// `v` occurs in an expression of `g`'s own body, or is a parameter of `g`.
pub open spec fn stmt_records(s: StmtV, f: Seq<char>, v: Seq<char>, g: Seq<char>) -> bool
    decreases s,
{
    match s {
        StmtV::Assign(t, x) => g == f && (mentions(t, v) || mentions(x, v)),
        StmtV::Expression(e) => g == f && mentions(e, v),
        StmtV::Return(r) => match r {
            Some(e) => g == f && mentions(e, v),
            None => false,
        },
        StmtV::If(t, b, o) => (g == f && mentions(t, v)) || records(b, f, v, g) || records(o, f, v, g),
        StmtV::Func(n, a, b) => (g == n && a.contains(v)) || records(b, n, v, g),
        StmtV::While(t, b) => (g == f && mentions(t, v)) || records(b, f, v, g),
        _ => false,
    }
}

pub open spec fn records(s: Seq<StmtV>, f: Seq<char>, v: Seq<char>, g: Seq<char>) -> bool
    decreases s,
{
    if s.len() == 0 {
        false
    } else {
        records(s.drop_last(), f, v, g) || stmt_records(s.last(), f, v, g)
    }
}

/// The (child, parent) edges between functions met in `s`, outer ones first.
pub open spec fn tree_stmt(s: StmtV, f: Seq<char>) -> Seq<(Seq<char>, Seq<char>)>
    decreases s,
{
    match s {
        StmtV::Func(n, _, b) => seq![(n, f)] + tree_stmts(b, n),
        StmtV::If(_, b, o) => tree_stmts(b, f) + tree_stmts(o, f),
        StmtV::While(_, b) => tree_stmts(b, f),
        _ => seq![],
    }
}

pub open spec fn tree_stmts(s: Seq<StmtV>, f: Seq<char>) -> Seq<(Seq<char>, Seq<char>)>
    decreases s,
{
    if s.len() == 0 {
        seq![]
    } else {
        tree_stmts(s.drop_last(), f) + tree_stmt(s.last(), f)
    }
}

/// The parent of `c`: the last edge recorded for it.
pub open spec fn parent_of(t: Seq<(Seq<char>, Seq<char>)>, c: Seq<char>) -> Option<Seq<char>>
    decreases t.len(),
{
    if t.len() == 0 {
        None
    } else if t.last().0 == c {
        Some(t.last().1)
    } else {
        parent_of(t.drop_last(), c)
    }
}

/// The `k`-th ancestor of `g` (`g` itself for `k == 0`).
pub open spec fn ancestor(t: Seq<(Seq<char>, Seq<char>)>, g: Seq<char>, k: nat) -> Option<Seq<char>>
    decreases k,
{
    if k == 0 {
        Some(g)
    } else {
        match ancestor(t, g, (k - 1) as nat) {
            Some(x) => parent_of(t, x),
            None => None,
        }
    }
}

/// The chain of ancestors of `g` ends.
pub open spec fn chain_ends(t: Seq<(Seq<char>, Seq<char>)>, g: Seq<char>) -> bool {
    exists|k: nat| #[trigger] ancestor(t, g, k) is None
}

pub proof fn lemma_ancestor_none_after(t: Seq<(Seq<char>, Seq<char>)>, g: Seq<char>, k: nat, m: nat)
    requires
        ancestor(t, g, k) is None,
        k <= m,
    ensures
        ancestor(t, g, m) is None,
    decreases m - k,
{
    if k < m {
        lemma_ancestor_none_after(t, g, k, (m - 1) as nat);
    }
}

/// The function tree: the (child, parent) edges in the order they were added.
pub struct FunctionTree {
    pub edges: Vec<(String, String)>,
}

impl View for FunctionTree {
    type V = Seq<(Seq<char>, Seq<char>)>;

    open spec fn view(&self) -> Seq<(Seq<char>, Seq<char>)> {
        Seq::new(self.edges@.len(), |i: int| (self.edges@[i].0@, self.edges@[i].1@))
    }
}

impl FunctionTree {
    pub fn new() -> (r: Self)
        ensures
            r@ == Seq::<(Seq<char>, Seq<char>)>::empty(),
    {
        let r = FunctionTree { edges: Vec::new() };
        proof { assert(r@ =~= Seq::<(Seq<char>, Seq<char>)>::empty()); }
        r
    }

    /// Makes `parent` the parent of `child`.
    pub fn add_edge(&mut self, parent: &String, child: &String)
        ensures
            final(self)@ == old(self)@.push((child@, parent@)),
    {
        let ghost before = self@;
        self.edges.push((copy_string(child), copy_string(parent)));
        proof { assert(self@ =~= before.push((child@, parent@))); }
    }

    fn parent(&self, c: &String) -> (r: Option<String>)
        ensures
            match r {
                Some(p) => parent_of(self@, c@) == Some(p@),
                None => parent_of(self@, c@) is None,
            },
    {
        let mut i: usize = self.edges.len();
        proof {
            assert(self@.take(i as int) =~= self@);
        }
        while i > 0
            invariant
                i <= self.edges.len(),
                parent_of(self@, c@) == parent_of(self@.take(i as int), c@),
            decreases i,
        {
            let ghost t = self@.take(i as int);
            assert(t.drop_last() =~= self@.take(i - 1));
            if string_eq(&self.edges[i - 1].0, c) {
                return Some(copy_string(&self.edges[i - 1].1));
            }
            i -= 1;
        }
        None
    }

    /// `node` and its ancestors, innermost first.
    pub fn path(&self, node: &String) -> (r: Vec<String>)
        requires
            chain_ends(self@, node@),
        ensures
            ancestor(self@, node@, r.len() as nat) is None,
            forall|i: int| 0 <= i < r.len() ==> ancestor(self@, node@, i as nat) == Some((#[trigger] r@[i])@),
    {
        let ghost bound = choose|k: nat| #[trigger] ancestor(self@, node@, k) is None;
        let mut cur = copy_string(node);
        let mut path = vec![copy_string(node)];
        loop
            invariant
                path.len() >= 1,
                ancestor(self@, node@, bound) is None,
                ancestor(self@, node@, (path.len() - 1) as nat) == Some(cur@),
                forall|i: int| 0 <= i < path.len() ==> ancestor(self@, node@, i as nat) == Some((#[trigger] path@[i])@),
                path.len() <= bound,
            ensures
                ancestor(self@, node@, path.len() as nat) is None,
                forall|i: int| 0 <= i < path.len() ==> ancestor(self@, node@, i as nat) == Some((#[trigger] path@[i])@),
            decreases bound - path.len(),
        {
            match self.parent(&cur) {
                Some(p) => {
                    proof {
                        assert(ancestor(self@, node@, path.len() as nat) == Some(p@));
                        if bound <= path.len() {
                            lemma_ancestor_none_after(self@, node@, bound, path.len() as nat);
                        }
                    }
                    path.push(copy_string(&p));
                    cur = p;
                },
                None => {
                    proof {
                        assert(ancestor(self@, node@, path.len() as nat) is None);
                    }
                    break;
                },
            }
        }
        path
    }
}

/// The recorded (variable, function) pairs of a list.
pub open spec fn pair_set(v: Seq<(String, String)>) -> Set<(Seq<char>, Seq<char>)> {
    Set::new(|p: (Seq<char>, Seq<char>)| exists|i: int| 0 <= i < v.len() && v[i].0@ == p.0 && v[i].1@ == p.1)
}

/// Which variables each function names, and which functions name each variable.
pub struct ReferenceStore {
    pub pairs: Vec<(String, String)>,
    pub variables: SortedStrings,
}

impl ReferenceStore {
    /// The recorded (variable, function) pairs.
    pub open spec fn refs(&self) -> Set<(Seq<char>, Seq<char>)> {
        pair_set(self.pairs@)
    }

    pub open spec fn wf(&self) -> bool {
        self.variables.wf()
    }

    pub fn new() -> (r: Self)
        ensures
            r.wf(),
            r.refs() == Set::<(Seq<char>, Seq<char>)>::empty(),
            r.variables@ == Seq::<Seq<char>>::empty(),
    {
        let r = ReferenceStore { pairs: Vec::new(), variables: SortedStrings::new() };
        proof { assert(r.refs() =~= Set::<(Seq<char>, Seq<char>)>::empty()); }
        r
    }

    fn has(&self, variable: &String, function: &String) -> (r: bool)
        ensures
            r == self.refs().contains((variable@, function@)),
    {
        let mut i: usize = 0;
        while i < self.pairs.len()
            invariant
                i <= self.pairs.len(),
                forall|j: int| 0 <= j < i ==> !(self.pairs@[j].0@ == variable@ && self.pairs@[j].1@ == function@),
            decreases self.pairs.len() - i,
        {
            if string_eq(&self.pairs[i].0, variable) && string_eq(&self.pairs[i].1, function) {
                return true;
            }
            i += 1;
        }
        false
    }

    /// Records that `function` names `variable`.
    pub fn record(&mut self, variable: &String, function: &String)
        requires
            old(self).wf(),
        ensures
            final(self).wf(),
            final(self).refs() == old(self).refs().insert((variable@, function@)),
            final(self).variables@.to_set() == old(self).variables@.to_set().insert(variable@),
    {
        let ghost before = self.refs();
        if !self.has(variable, function) {
            let ghost old_pairs = self.pairs@;
            self.pairs.push((copy_string(variable), copy_string(function)));
            proof {
                assert forall|p: (Seq<char>, Seq<char>)| #[trigger] self.refs().contains(p) == before.insert((variable@, function@)).contains(p) by {
                    if before.contains(p) {
                        let j = choose|j: int| 0 <= j < old_pairs.len() && old_pairs[j].0@ == p.0 && old_pairs[j].1@ == p.1;
                        assert(self.pairs@[j] == old_pairs[j]);
                    }
                    if p == (variable@, function@) {
                        assert(self.pairs@[old_pairs.len() as int].0@ == p.0);
                    }
                    if self.refs().contains(p) {
                        let j = choose|j: int| 0 <= j < self.pairs@.len() && self.pairs@[j].0@ == p.0 && self.pairs@[j].1@ == p.1;
                        if j < old_pairs.len() {
                            assert(self.pairs@[j] == old_pairs[j]);
                        }
                    }
                }
                assert(self.refs() =~= before.insert((variable@, function@)));
            }
        } else {
            proof { assert(before.insert((variable@, function@)) =~= before); }
        }
        self.variables.insert(copy_string(variable));
    }

    /// The recorded variables, in increasing order.
    pub fn list_variables(&self) -> (r: Vec<String>)
        ensures
            strings_view(r@) == self.variables@,
    {
        self.variables.copy().items
    }

    /// The variables that `function` names.
    pub fn list_by_function(&self, function: &String) -> (r: SortedStrings)
        ensures
            r.wf(),
            r@.to_set() == Set::new(|v: Seq<char>| self.refs().contains((v, function@))),
    {
        let mut r = SortedStrings::new();
        let mut i: usize = 0;
        while i < self.pairs.len()
            invariant
                i <= self.pairs.len(),
                r.wf(),
                r@.to_set() == Set::new(|v: Seq<char>| exists|j: int| 0 <= j < i && self.pairs@[j].0@ == v && self.pairs@[j].1@ == function@),
            decreases self.pairs.len() - i,
        {
            let ghost before = r@.to_set();
            if string_eq(&self.pairs[i].1, function) {
                r.insert(copy_string(&self.pairs[i].0));
            }
            proof {
                assert(r@.to_set() =~= Set::new(|v: Seq<char>| exists|j: int| 0 <= j < i + 1 && self.pairs@[j].0@ == v && self.pairs@[j].1@ == function@));
            }
            i += 1;
        }
        proof {
            assert(r@.to_set() =~= Set::new(|v: Seq<char>| self.refs().contains((v, function@))));
        }
        r
    }

    /// The functions that name `variable`.
    pub fn list_by_variable(&self, variable: &String) -> (r: SortedStrings)
        ensures
            r.wf(),
            r@.to_set() == Set::new(|g: Seq<char>| self.refs().contains((variable@, g))),
    {
        let mut r = SortedStrings::new();
        let mut i: usize = 0;
        while i < self.pairs.len()
            invariant
                i <= self.pairs.len(),
                r.wf(),
                r@.to_set() == Set::new(|g: Seq<char>| exists|j: int| 0 <= j < i && self.pairs@[j].0@ == variable@ && self.pairs@[j].1@ == g),
            decreases self.pairs.len() - i,
        {
            if string_eq(&self.pairs[i].0, variable) {
                r.insert(copy_string(&self.pairs[i].1));
            }
            proof {
                assert(r@.to_set() =~= Set::new(|g: Seq<char>| exists|j: int| 0 <= j < i + 1 && self.pairs@[j].0@ == variable@ && self.pairs@[j].1@ == g));
            }
            i += 1;
        }
        proof {
            assert(r@.to_set() =~= Set::new(|g: Seq<char>| self.refs().contains((variable@, g))));
        }
        r
    }

    /// Forgets every variable of `function`.
    pub fn remove_function(&mut self, function: &String)
        requires
            old(self).wf(),
        ensures
            final(self).wf(),
            final(self).refs() == old(self).refs().filter(|p: (Seq<char>, Seq<char>)| p.1 != function@),
            final(self).variables@ == old(self).variables@,
    {
        let ghost before = self.refs();
        let mut kept: Vec<(String, String)> = Vec::new();
        let mut i: usize = 0;
        while i < self.pairs.len()
            invariant
                i <= self.pairs.len(),
                pair_set(kept@) == pair_set(self.pairs@.take(i as int)).filter(|p: (Seq<char>, Seq<char>)| p.1 != function@),
            decreases self.pairs.len() - i,
        {
            let ghost old_kept = kept@;
            if !string_eq(&self.pairs[i].1, function) {
                kept.push((copy_string(&self.pairs[i].0), copy_string(&self.pairs[i].1)));
            }
            proof {
                let t0 = self.pairs@.take(i as int);
                let t1 = self.pairs@.take(i + 1);
                assert forall|p: (Seq<char>, Seq<char>)| #[trigger] pair_set(kept@).contains(p)
                    == pair_set(t1).filter(|p: (Seq<char>, Seq<char>)| p.1 != function@).contains(p) by {
                    if pair_set(kept@).contains(p) {
                        let j = choose|j: int| 0 <= j < kept@.len() && kept@[j].0@ == p.0 && kept@[j].1@ == p.1;
                        if j < old_kept.len() {
                            assert(kept@[j] == old_kept[j]);
                            assert(pair_set(old_kept).contains(p));
                            let m = choose|m: int| 0 <= m < t0.len() && t0[m].0@ == p.0 && t0[m].1@ == p.1;
                            assert(t1[m] == t0[m]);
                        } else {
                            assert(t1[i as int] == self.pairs@[i as int]);
                        }
                    }
                    if pair_set(t1).filter(|p: (Seq<char>, Seq<char>)| p.1 != function@).contains(p) {
                        let m = choose|m: int| 0 <= m < t1.len() && t1[m].0@ == p.0 && t1[m].1@ == p.1;
                        if m < i {
                            assert(t0[m] == t1[m]);
                            assert(pair_set(t0).contains(p));
                            assert(pair_set(old_kept).contains(p));
                            let j = choose|j: int| 0 <= j < old_kept.len() && old_kept[j].0@ == p.0 && old_kept[j].1@ == p.1;
                            assert(kept@[j] == old_kept[j]);
                        } else {
                            assert(kept@[old_kept.len() as int].0@ == p.0);
                        }
                    }
                }
                assert(pair_set(kept@) =~= pair_set(t1).filter(|p: (Seq<char>, Seq<char>)| p.1 != function@));
            }
            i += 1;
        }
        proof {
            assert(self.pairs@.take(i as int) =~= self.pairs@);
        }
        self.pairs = kept;
    }
}

/// A call on a `ReferenceStore`: `record(variable, function)` or `remove_function(function)`.
pub enum StoreCall {
    Record(Seq<char>, Seq<char>),
    RemoveFunction(Seq<char>),
}

/// `after` is what `call` leaves of `before`, as `record` and `remove_function` state it.
pub open spec fn store_step(before: ReferenceStore, after: ReferenceStore, call: StoreCall) -> bool {
    &&& after.wf()
    &&& match call {
        StoreCall::Record(v, g) => {
            &&& after.refs() == before.refs().insert((v, g))
            &&& after.variables@.to_set() == before.variables@.to_set().insert(v)
        },
        StoreCall::RemoveFunction(g) => {
            &&& after.refs() == before.refs().filter(|p: (Seq<char>, Seq<char>)| p.1 != g)
            &&& after.variables@ == before.variables@
        },
    }
}

/// The call records the variable `v`.
pub open spec fn call_records(call: StoreCall, v: Seq<char>) -> bool {
    match call {
        StoreCall::Record(w, _) => w == v,
        StoreCall::RemoveFunction(_) => false,
    }
}

/// The variables that some call of `calls` records.
pub open spec fn recorded_variables(calls: Seq<StoreCall>) -> Set<Seq<char>> {
    Set::new(|v: Seq<char>| exists|i: int| 0 <= i < calls.len() && call_records(#[trigger] calls[i], v))
}

/// From an empty store (as `ReferenceStore::new` makes it), after any run of `record` and
/// `remove_function` calls (each step as their contracts state it), the variables that
/// `list_variables` gives are, in strictly increasing order and without repeats, exactly
/// those that some `record` call named: removing a function never drops a variable, even
/// one that no function names any more, and the list only grows from one call to the next.
pub proof fn law_variables_accumulate(states: Seq<ReferenceStore>, calls: Seq<StoreCall>)
    requires
        states.len() == calls.len() + 1,
        states[0].wf(),
        states[0].variables@ == Seq::<Seq<char>>::empty(),
        forall|i: int| 0 <= i < calls.len() ==> store_step(#[trigger] states[i], states[i + 1], calls[i]),
    ensures
        forall|k: int| 0 <= k < states.len() ==> increasing(#[trigger] states[k].variables@),
        forall|k: int| 0 <= k < states.len() ==> (#[trigger] states[k].variables@).to_set() == recorded_variables(calls.take(k)),
        forall|k: int| 0 <= k < states.len() ==> states[k].variables@ == sorted_of(recorded_variables(calls.take(k))),
        forall|i: int, j: int| 0 <= i <= j < states.len() ==>
            (#[trigger] states[i].variables@).to_set().subset_of((#[trigger] states[j].variables@).to_set()),
    decreases calls.len(),
{
    let n = calls.len() as int;
    if n == 0 {
        assert(recorded_variables(calls.take(0)) =~= Set::<Seq<char>>::empty());
        assert(states[0].variables@.to_set() =~= Set::<Seq<char>>::empty());
        lemma_sorted_of(states[0].variables@);
    } else {
        let s2 = states.take(n);
        let c2 = calls.take(n - 1);
        assert forall|i: int| 0 <= i < c2.len() implies store_step(#[trigger] s2[i], s2[i + 1], c2[i]) by {
            assert(s2[i] == states[i] && s2[i + 1] == states[i + 1] && c2[i] == calls[i]);
            assert(store_step(states[i], states[i + 1], calls[i]));
        }
        law_variables_accumulate(s2, c2);
        assert(store_step(states[n - 1], states[n], calls[n - 1]));
        assert forall|k: int| 0 <= k < states.len() implies
            increasing(#[trigger] states[k].variables@)
            && states[k].variables@.to_set() == recorded_variables(calls.take(k)) by {
            if k < n {
                assert(s2[k] == states[k]);
                assert(c2.take(k) =~= calls.take(k));
            } else {
                assert(s2[n - 1] == states[n - 1]);
                assert(c2.take(n - 1) =~= calls.take(n - 1));
                let prev = calls.take(n - 1);
                let all = calls.take(n);
                assert forall|v: Seq<char>| #[trigger] recorded_variables(all).contains(v)
                    == states[n].variables@.to_set().contains(v) by {
                    if recorded_variables(all).contains(v) {
                        let i = choose|i: int| 0 <= i < all.len() && call_records(#[trigger] all[i], v);
                        if i < n - 1 {
                            assert(prev[i] == all[i]);
                            assert(recorded_variables(prev).contains(v));
                        }
                    }
                    if recorded_variables(prev).contains(v) {
                        let i = choose|i: int| 0 <= i < prev.len() && call_records(#[trigger] prev[i], v);
                        assert(all[i] == prev[i]);
                    }
                    if call_records(calls[n - 1], v) {
                        assert(all[n - 1] == calls[n - 1]);
                    }
                }
                assert(recorded_variables(all) =~= states[n].variables@.to_set());
            }
        }
        assert forall|k: int| 0 <= k < states.len() implies
            states[k].variables@ == sorted_of(recorded_variables(calls.take(k))) by {
            assert(increasing(states[k].variables@));
            lemma_sorted_of(states[k].variables@);
        }
        assert forall|i: int, j: int| 0 <= i <= j < states.len() implies
            (#[trigger] states[i].variables@).to_set().subset_of((#[trigger] states[j].variables@).to_set()) by {
            assert(states[i].variables@.to_set() == recorded_variables(calls.take(i)));
            assert(states[j].variables@.to_set() == recorded_variables(calls.take(j)));
            assert forall|v: Seq<char>| recorded_variables(calls.take(i)).contains(v)
                implies recorded_variables(calls.take(j)).contains(v) by {
                let m = choose|m: int| 0 <= m < calls.take(i).len() && call_records(#[trigger] calls.take(i)[m], v);
                assert(calls.take(j)[m] == calls.take(i)[m]);
            }
        }
    }
}

/// The pairs recorded for the variables of `e` in the function `f`.
pub open spec fn mention_pairs(e: ExprV, f: Seq<char>) -> Set<(Seq<char>, Seq<char>)> {
    Set::new(|p: (Seq<char>, Seq<char>)| p.1 == f && mentions(e, p.0))
}

pub open spec fn mention_vars(e: ExprV) -> Set<Seq<char>> {
    Set::new(|v: Seq<char>| mentions(e, v))
}

/// The pairs that the traversal of `s` in the function `f` records.
pub open spec fn stmt_pairs(s: StmtV, f: Seq<char>) -> Set<(Seq<char>, Seq<char>)> {
    Set::new(|p: (Seq<char>, Seq<char>)| stmt_records(s, f, p.0, p.1))
}

pub open spec fn stmts_pairs(s: Seq<StmtV>, f: Seq<char>) -> Set<(Seq<char>, Seq<char>)> {
    Set::new(|p: (Seq<char>, Seq<char>)| records(s, f, p.0, p.1))
}

/// The variables of a set of pairs.
pub open spec fn first_of(s: Set<(Seq<char>, Seq<char>)>) -> Set<Seq<char>> {
    Set::new(|v: Seq<char>| exists|g: Seq<char>| s.contains((v, g)))
}

fn list_from_exprs(exprs: &Vec<Expr>, function: &String, store: &mut ReferenceStore)
    requires
        old(store).wf(),
    ensures
        final(store).wf(),
        final(store).refs() == old(store).refs().union(
            Set::new(|p: (Seq<char>, Seq<char>)| p.1 == function@ && mentions_any(views(exprs@), p.0))),
        final(store).variables@.to_set() == old(store).variables@.to_set().union(
            Set::new(|v: Seq<char>| mentions_any(views(exprs@), v))),
    decreases exprs,
{
    let ghost r0 = store.refs();
    let ghost v0 = store.variables@.to_set();
    let ghost es = views(exprs@);
    let mut i: usize = 0;
    proof {
        assert(es.take(0) =~= Seq::<ExprV>::empty());
        assert(store.refs() =~= r0.union(Set::new(|p: (Seq<char>, Seq<char>)| p.1 == function@ && mentions_any(es.take(0), p.0))));
        assert(store.variables@.to_set() =~= v0.union(Set::new(|v: Seq<char>| mentions_any(es.take(0), v))));
    }
    while i < exprs.len()
        invariant
            i <= exprs.len(),
            store.wf(),
            es == views(exprs@),
            store.refs() == r0.union(Set::new(|p: (Seq<char>, Seq<char>)| p.1 == function@ && mentions_any(es.take(i as int), p.0))),
            store.variables@.to_set() == v0.union(Set::new(|v: Seq<char>| mentions_any(es.take(i as int), v))),
        decreases exprs.len() - i,
    {
        list_from_expr(&exprs[i], function, store);
        proof {
            assert(es.take(i + 1).drop_last() =~= es.take(i as int));
            assert(es.take(i + 1).last() == exprs@[i as int]@);
            assert(store.refs() =~= r0.union(Set::new(|p: (Seq<char>, Seq<char>)| p.1 == function@ && mentions_any(es.take(i + 1), p.0))));
            assert(store.variables@.to_set() =~= v0.union(Set::new(|v: Seq<char>| mentions_any(es.take(i + 1), v))));
        }
        i += 1;
    }
    proof {
        assert(es.take(i as int) =~= es);
    }
}

/// The views of key-value pairs of expressions.
pub open spec fn pair_views(p: Seq<(Expr, Expr)>) -> Seq<(ExprV, ExprV)> {
    Seq::new(p.len(), |i: int| (p[i].0@, p[i].1@))
}

fn list_from_pairs(pairs: &Vec<(Expr, Expr)>, function: &String, store: &mut ReferenceStore)
    requires
        old(store).wf(),
    ensures
        final(store).wf(),
        final(store).refs() == old(store).refs().union(
            Set::new(|p: (Seq<char>, Seq<char>)| p.1 == function@ && mentions_pairs(pair_views(pairs@), p.0))),
        final(store).variables@.to_set() == old(store).variables@.to_set().union(
            Set::new(|v: Seq<char>| mentions_pairs(pair_views(pairs@), v))),
    decreases pairs,
{
    let ghost r0 = store.refs();
    let ghost v0 = store.variables@.to_set();
    let ghost ps = pair_views(pairs@);
    let mut i: usize = 0;
    proof {
        assert(ps.take(0) =~= Seq::<(ExprV, ExprV)>::empty());
        assert(store.refs() =~= r0.union(Set::new(|p: (Seq<char>, Seq<char>)| p.1 == function@ && mentions_pairs(ps.take(0), p.0))));
        assert(store.variables@.to_set() =~= v0.union(Set::new(|v: Seq<char>| mentions_pairs(ps.take(0), v))));
    }
    while i < pairs.len()
        invariant
            i <= pairs.len(),
            store.wf(),
            ps == pair_views(pairs@),
            store.refs() == r0.union(Set::new(|p: (Seq<char>, Seq<char>)| p.1 == function@ && mentions_pairs(ps.take(i as int), p.0))),
            store.variables@.to_set() == v0.union(Set::new(|v: Seq<char>| mentions_pairs(ps.take(i as int), v))),
        decreases pairs.len() - i,
    {
        list_from_expr(&pairs[i].0, function, store);
        list_from_expr(&pairs[i].1, function, store);
        proof {
            assert(ps.take(i + 1).drop_last() =~= ps.take(i as int));
            assert(ps.take(i + 1).last() == (pairs@[i as int].0@, pairs@[i as int].1@));
            assert(store.refs() =~= r0.union(Set::new(|p: (Seq<char>, Seq<char>)| p.1 == function@ && mentions_pairs(ps.take(i + 1), p.0))));
            assert(store.variables@.to_set() =~= v0.union(Set::new(|v: Seq<char>| mentions_pairs(ps.take(i + 1), v))));
        }
        i += 1;
    }
    proof {
        assert(ps.take(i as int) =~= ps);
    }
}

/// Records every variable of `expr` in `function`.
fn list_from_expr(expr: &Expr, function: &String, store: &mut ReferenceStore)
    requires
        old(store).wf(),
    ensures
        final(store).wf(),
        final(store).refs() == old(store).refs().union(mention_pairs(expr@, function@)),
        final(store).variables@.to_set() == old(store).variables@.to_set().union(mention_vars(expr@)),
    decreases expr,
{
    let ghost ev = expr@;
    let ghost r0 = store.refs();
    let ghost v0 = store.variables@.to_set();
    match expr {
        Expr::CallFunction(c) => {
            proof { assert(ev->CallFunction_1 =~= views(c.args@)); }
            list_from_exprs(&c.args, function, store);
        },
        Expr::CallMethod(c) => {
            proof { assert(ev->CallMethod_2 =~= views(c.args@)); }
            list_from_expr(&c.value, function, store);
            list_from_exprs(&c.args, function, store);
        },
        Expr::Tuple(t) => {
            proof { assert(ev->Tuple_0 =~= views(t@)); }
            list_from_exprs(t, function, store);
        },
        Expr::VariableName(n) => {
            store.record(n, function);
        },
        Expr::BoolOperation(b) => {
            proof { assert(ev->BoolOperation_1 =~= views(b.conditions@)); }
            list_from_exprs(&b.conditions, function, store);
        },
        Expr::Compare(c) => {
            list_from_expr(&c.left, function, store);
            list_from_expr(&c.right, function, store);
        },
        Expr::BinaryOperation(c) => {
            list_from_expr(&c.left, function, store);
            list_from_expr(&c.right, function, store);
        },
        Expr::Index(c) => {
            list_from_expr(&c.value, function, store);
            list_from_expr(&c.index, function, store);
        },
        Expr::List(t) => {
            proof { assert(ev->List_0 =~= views(t@)); }
            list_from_exprs(t, function, store);
        },
        Expr::Dict(d) => {
            proof { assert(ev->Dict_0 =~= pair_views(d.pairs@)); }
            list_from_pairs(&d.pairs, function, store);
        },
        Expr::UnaryOperation(u) => {
            list_from_expr(&u.value, function, store);
        },
        _ => {},
    }
    proof {
        assert(store.refs() =~= r0.union(mention_pairs(ev, function@)));
        assert(store.variables@.to_set() =~= v0.union(mention_vars(ev)));
    }
}

proof fn lemma_first_of_union(a: Set<(Seq<char>, Seq<char>)>, b: Set<(Seq<char>, Seq<char>)>)
    ensures
        first_of(a.union(b)) == first_of(a).union(first_of(b)),
{
    assert forall|v: Seq<char>| #[trigger] first_of(a.union(b)).contains(v) == first_of(a).union(first_of(b)).contains(v) by {
        if first_of(a.union(b)).contains(v) {
            let g = choose|g: Seq<char>| a.union(b).contains((v, g));
            if a.contains((v, g)) {
                assert(first_of(a).contains(v));
            } else {
                assert(first_of(b).contains(v));
            }
        }
        if first_of(a).contains(v) {
            let g = choose|g: Seq<char>| a.contains((v, g));
            assert(a.union(b).contains((v, g)));
        }
        if first_of(b).contains(v) {
            let g = choose|g: Seq<char>| b.contains((v, g));
            assert(a.union(b).contains((v, g)));
        }
    }
    assert(first_of(a.union(b)) =~= first_of(a).union(first_of(b)));
}

proof fn lemma_first_of_mentions(e: ExprV, f: Seq<char>)
    ensures
        first_of(mention_pairs(e, f)) == mention_vars(e),
{
    assert forall|v: Seq<char>| #[trigger] first_of(mention_pairs(e, f)).contains(v) == mention_vars(e).contains(v) by {
        if mentions(e, v) {
            assert(mention_pairs(e, f).contains((v, f)));
        }
    }
    assert(first_of(mention_pairs(e, f)) =~= mention_vars(e));
}

/// Records the variables of `e` in `function`, keeping the variables those of the pairs.
fn list_expr(e: &Expr, function: &String, store: &mut ReferenceStore)
    requires
        old(store).wf(),
        old(store).variables@.to_set() == first_of(old(store).refs()),
    ensures
        final(store).wf(),
        final(store).refs() == old(store).refs().union(mention_pairs(e@, function@)),
        final(store).variables@.to_set() == first_of(final(store).refs()),
{
    let ghost r0 = store.refs();
    list_from_expr(e, function, store);
    proof {
        lemma_first_of_union(r0, mention_pairs(e@, function@));
        lemma_first_of_mentions(e@, function@);
    }
}

/// Records the variables that the statement `s` of `function` names, and the functions it
/// defines.
fn list_stmt(s: &Statement, function: &String, store: &mut ReferenceStore, tree: &mut FunctionTree)
    requires
        old(store).wf(),
        old(store).variables@.to_set() == first_of(old(store).refs()),
    ensures
        final(store).wf(),
        final(store).variables@.to_set() == first_of(final(store).refs()),
        final(store).refs() == old(store).refs().union(stmt_pairs(s@, function@)),
        final(tree)@ == old(tree)@ + tree_stmt(s@, function@),
    decreases s,
{
    let ghost sv = s@;
    let ghost r0 = store.refs();
    let ghost t0 = tree@;
    match s {
        Statement::Assign(a) => {
            list_expr(&a.target, function, store);
            list_expr(&a.value, function, store);
            proof {
                assert(store.refs() =~= r0.union(stmt_pairs(sv, function@)));
                assert(tree@ =~= t0 + tree_stmt(sv, function@));
            }
        },
        Statement::Expression(e) => {
            list_expr(e, function, store);
            proof {
                assert(store.refs() =~= r0.union(stmt_pairs(sv, function@)));
                assert(tree@ =~= t0 + tree_stmt(sv, function@));
            }
        },
        Statement::Return(r) => {
            match r {
                Some(e) => { list_expr(e, function, store); },
                None => {},
            }
            proof {
                assert(store.refs() =~= r0.union(stmt_pairs(sv, function@)));
                assert(tree@ =~= t0 + tree_stmt(sv, function@));
            }
        },
        Statement::If(x) => {
            proof {
                assert(views(x.body@) =~= sv->If_1);
                assert(views(x.orelse@) =~= sv->If_2);
            }
            list_expr(&x.test, function, store);
            let ghost t1 = tree@;
            list_variable_contexts(&x.body, function, store, tree);
            let ghost t2 = tree@;
            list_variable_contexts(&x.orelse, function, store, tree);
            proof {
                assert(store.refs() =~= r0.union(stmt_pairs(sv, function@)));
                assert(tree@ =~= t0 + tree_stmt(sv, function@));
            }
        },
        Statement::Func(f) => {
            proof {
                assert(views(f.body@) =~= sv->Func_2);
            }
            tree.add_edge(function, &f.name);
            let ghost r1 = store.refs();
            list_variable_contexts(&f.body, &f.name, store, tree);
            let ghost r2 = store.refs();
            let mut i: usize = 0;
            while i < f.args.len()
                invariant
                    i <= f.args.len(),
                    store.wf(),
                    store.variables@.to_set() == first_of(store.refs()),
                    store.refs() == r2.union(Set::new(|p: (Seq<char>, Seq<char>)| p.1 == f.name@ && strings_view(f.args@).take(i as int).contains(p.0))),
                decreases f.args.len() - i,
            {
                let ghost before = store.refs();
                store.record(&f.args[i], &f.name);
                proof {
                    let a = strings_view(f.args@);
                    let a0 = a.take(i as int);
                    let a1 = a.take(i + 1);
                    assert(a1 =~= a0.push(f.args@[i as int]@));
                    assert forall|p: (Seq<char>, Seq<char>)| #[trigger] store.refs().contains(p)
                        == r2.union(Set::new(|p: (Seq<char>, Seq<char>)| p.1 == f.name@ && a1.contains(p.0))).contains(p) by {
                        if a0.contains(p.0) {
                            let k = choose|k: int| 0 <= k < a0.len() && a0[k] == p.0;
                            assert(a1[k] == p.0);
                        }
                        if a1.contains(p.0) {
                            let k = choose|k: int| 0 <= k < a1.len() && a1[k] == p.0;
                            if k < i {
                                assert(a0[k] == p.0);
                            }
                        }
                        assert(a1[i as int] == f.args@[i as int]@);
                    }
                    assert(store.refs() =~= r2.union(Set::new(|p: (Seq<char>, Seq<char>)| p.1 == f.name@ && a1.contains(p.0))));
                    assert forall|v: Seq<char>| #[trigger] first_of(store.refs()).contains(v) == first_of(before).insert(f.args@[i as int]@).contains(v) by {
                        if first_of(store.refs()).contains(v) {
                            let g = choose|g: Seq<char>| store.refs().contains((v, g));
                            if before.contains((v, g)) {
                                assert(first_of(before).contains(v));
                            }
                        }
                        if first_of(before).contains(v) {
                            let g = choose|g: Seq<char>| before.contains((v, g));
                            assert(store.refs().contains((v, g)));
                        }
                        if v == f.args@[i as int]@ {
                            assert(store.refs().contains((v, f.name@)));
                        }
                    }
                    assert(first_of(store.refs()) =~= first_of(before).insert(f.args@[i as int]@));
                }
                i += 1;
            }
            proof {
                assert(strings_view(f.args@).take(i as int) =~= strings_view(f.args@));
                assert(store.refs() =~= r0.union(stmt_pairs(sv, function@)));
                assert(tree@ =~= t0 + tree_stmt(sv, function@));
            }
        },
        Statement::While(w) => {
            proof {
                assert(views(w.body@) =~= sv->While_1);
            }
            list_expr(&w.test, function, store);
            list_variable_contexts(&w.body, function, store, tree);
            proof {
                assert(store.refs() =~= r0.union(stmt_pairs(sv, function@)));
                assert(tree@ =~= t0 + tree_stmt(sv, function@));
            }
        },
        _ => {
            proof {
                assert(store.refs() =~= r0.union(stmt_pairs(sv, function@)));
                assert(tree@ =~= t0 + tree_stmt(sv, function@));
            }
        },
    }
}

/// Records the variables that the statements of `function` name, and the functions they
/// define.
fn list_variable_contexts(stmts: &Vec<Statement>, function: &String, store: &mut ReferenceStore, tree: &mut FunctionTree)
    requires
        old(store).wf(),
        old(store).variables@.to_set() == first_of(old(store).refs()),
    ensures
        final(store).wf(),
        final(store).variables@.to_set() == first_of(final(store).refs()),
        final(store).refs() == old(store).refs().union(stmts_pairs(views(stmts@), function@)),
        final(tree)@ == old(tree)@ + tree_stmts(views(stmts@), function@),
    decreases stmts,
{
    let ghost ss = views(stmts@);
    let ghost r0 = store.refs();
    let ghost t0 = tree@;
    let mut i: usize = 0;
    proof {
        assert(ss.take(0) =~= Seq::<StmtV>::empty());
        assert(store.refs() =~= r0.union(stmts_pairs(ss.take(0), function@)));
        assert(tree@ =~= t0 + tree_stmts(ss.take(0), function@));
    }
    while i < stmts.len()
        invariant
            i <= stmts.len(),
            ss == views(stmts@),
            store.wf(),
            store.variables@.to_set() == first_of(store.refs()),
            store.refs() == r0.union(stmts_pairs(ss.take(i as int), function@)),
            tree@ == t0 + tree_stmts(ss.take(i as int), function@),
        decreases stmts.len() - i,
    {
        let ghost t1 = tree@;
        list_stmt(&stmts[i], function, store, tree);
        proof {
            assert(ss.take(i + 1).drop_last() =~= ss.take(i as int));
            assert(ss.take(i + 1).last() == stmts@[i as int]@);
            assert(store.refs() =~= r0.union(stmts_pairs(ss.take(i + 1), function@)));
            assert(tree@ =~= t0 + tree_stmts(ss.take(i + 1), function@));
        }
        i += 1;
    }
    proof {
        assert(ss.take(i as int) =~= ss);
    }
}

/// The functions that name `v`.
pub open spec fn named_by(refs: Set<(Seq<char>, Seq<char>)>, v: Seq<char>) -> Set<Seq<char>> {
    Set::new(|g: Seq<char>| refs.contains((v, g)))
}

/// `h` lies on the way from `g` up to an ancestor of `g` (or `g` itself) that is in `fs`.
pub open spec fn on_way(t: Seq<(Seq<char>, Seq<char>)>, g: Seq<char>, fs: Set<Seq<char>>, h: Seq<char>) -> bool {
    exists|i: nat, j: nat| #![trigger ancestor(t, g, i), ancestor(t, g, j)]
        i <= j && ancestor(t, g, i) == Some(h) && (ancestor(t, g, j) matches Some(x) && fs.contains(x))
}

/// The pairs after sharing: a variable is recorded in every function on the way from a
/// function that names it up to an ancestor that names it too.
pub open spec fn propagated(refs: Set<(Seq<char>, Seq<char>)>, t: Seq<(Seq<char>, Seq<char>)>) -> Set<(Seq<char>, Seq<char>)> {
    refs.union(Set::new(|p: (Seq<char>, Seq<char>)|
        exists|g: Seq<char>| refs.contains((p.0, g)) && on_way(t, g, named_by(refs, p.0), p.1)))
}

/// Records `v` in every function on the way from `g` up to the outermost ancestor of `g`
/// in `functions`.
fn share_from(store: &mut ReferenceStore, tree: &FunctionTree, v: &String, g: &String, functions: &SortedStrings)
    requires
        old(store).wf(),
        functions.wf(),
        functions@.contains(g@),
        chain_ends(tree@, g@),
        old(store).variables@.to_set().contains(v@),
    ensures
        final(store).wf(),
        final(store).variables@.to_set() == old(store).variables@.to_set(),
        final(store).refs() == old(store).refs().union(Set::new(|p: (Seq<char>, Seq<char>)|
            p.0 == v@ && on_way(tree@, g@, functions@.to_set(), p.1))),
{
    let ghost t = tree@;
    let ghost fs = functions@.to_set();
    let full = tree.path(g);
    let ghost fv = strings_view(full@);
    let ghost len = full.len();
    let mut path = copy_strings(&full);
    proof {
        assert(ancestor(t, g@, 0) == Some(g@));
        if len == 0 {
            assert(ancestor(t, g@, 0) is None);
        }
        assert(fv[0] == g@);
        assert(fv.take(len as int) =~= fv);
    }
    loop
        invariant
            1 <= path.len() <= len,
            fv == strings_view(full@),
            len == fv.len(),
            forall|q: int| 0 <= q < len ==> ancestor(t, g@, q as nat) == Some(#[trigger] fv[q]),
            ancestor(t, g@, len as nat) is None,
            strings_view(path@) == fv.take(path.len() as int),
            forall|q: int| path.len() <= q < len ==> !fs.contains(#[trigger] fv[q]),
            fv[0] == g@,
            fs.contains(g@),
            fs == functions@.to_set(),
        ensures
            1 <= path.len() <= len,
            strings_view(path@) == fv.take(path.len() as int),
            forall|q: int| path.len() <= q < len ==> !fs.contains(#[trigger] fv[q]),
            fs.contains(fv[path.len() - 1]),
        decreases path.len(),
    {
        let ghost k = path.len();
        let ghost old_path = path@;
        match path.pop() {
            Some(top) => {
                proof {
                    assert(top == old_path[k - 1]);
                    assert(strings_view(old_path)[k - 1] == old_path[k - 1]@);
                    assert(fv.take(k as int)[k - 1] == fv[k - 1]);
                    assert(top@ == fv[k - 1]);
                }
                if functions.contains(&top) {
                    path.push(top);
                    proof {
                        assert(strings_view(path@) =~= fv.take(k as int));
                    }
                    break;
                }
                proof {
                    assert(strings_view(path@) =~= fv.take(k - 1));
                    assert(k - 1 >= 1);
                }
            },
            None => {
                break;
            },
        }
    }
    let ghost m = path.len();
    let ghost r0 = store.refs();
    let ghost vars0 = store.variables@.to_set();
    let mut q: usize = 0;
    while q < path.len()
        invariant
            q <= path.len(),
            m == path.len(),
            m <= len,
            len == fv.len(),
            strings_view(path@) == fv.take(m as int),
            store.wf(),
            store.variables@.to_set() == vars0,
            vars0.contains(v@),
            store.refs() == r0.union(Set::new(|p: (Seq<char>, Seq<char>)| p.0 == v@ && fv.take(q as int).contains(p.1))),
        decreases path.len() - q,
    {
        let ghost before = store.refs();
        store.record(v, &path[q]);
        proof {
            let a0 = fv.take(q as int);
            let a1 = fv.take(q + 1);
            assert(a1 =~= a0.push(fv[q as int]));
            assert(strings_view(path@)[q as int] == path@[q as int]@);
            assert(fv.take(m as int)[q as int] == fv[q as int]);
            assert(path@[q as int]@ == fv[q as int]);
            assert(store.variables@.to_set() =~= vars0);
            assert forall|p: (Seq<char>, Seq<char>)| #[trigger] store.refs().contains(p)
                == r0.union(Set::new(|p: (Seq<char>, Seq<char>)| p.0 == v@ && a1.contains(p.1))).contains(p) by {
                if a0.contains(p.1) {
                    let k = choose|k: int| 0 <= k < a0.len() && a0[k] == p.1;
                    assert(a1[k] == p.1);
                }
                if a1.contains(p.1) {
                    let k = choose|k: int| 0 <= k < a1.len() && a1[k] == p.1;
                    if k < q {
                        assert(a0[k] == p.1);
                    }
                }
                assert(a1[q as int] == fv[q as int]);
            }
            assert(store.refs() =~= r0.union(Set::new(|p: (Seq<char>, Seq<char>)| p.0 == v@ && a1.contains(p.1))));
        }
        q += 1;
    }
    proof {
        let cut = fv.take(m as int);
        assert forall|h: Seq<char>| #[trigger] cut.contains(h) == on_way(t, g@, fs, h) by {
            if cut.contains(h) {
                let k = choose|k: int| 0 <= k < cut.len() && cut[k] == h;
                assert(ancestor(t, g@, k as nat) == Some(fv[k]));
                assert(ancestor(t, g@, (m - 1) as nat) == Some(fv[m - 1]));
                assert(on_way(t, g@, fs, h));
            }
            if on_way(t, g@, fs, h) {
                let (i, j) = choose|i: nat, j: nat| #![trigger ancestor(t, g@, i), ancestor(t, g@, j)]
                    i <= j && ancestor(t, g@, i) == Some(h) && (ancestor(t, g@, j) matches Some(x) && fs.contains(x));
                if j >= len {
                    lemma_ancestor_none_after(t, g@, len as nat, j);
                }
                assert(j < len);
                assert(ancestor(t, g@, j) == Some(fv[j as int]));
                assert(j < m);
                assert(cut[i as int] == h);
            }
        }
        assert(fv.take(q as int) =~= cut);
        assert(store.refs() =~= r0.union(Set::new(|p: (Seq<char>, Seq<char>)| p.0 == v@ && on_way(t, g@, fs, p.1))));
    }
}

/// The pairs added for the variables in `vs`.
pub open spec fn shared_for(r0: Set<(Seq<char>, Seq<char>)>, t: Seq<(Seq<char>, Seq<char>)>, vs: Seq<Seq<char>>) -> Set<(Seq<char>, Seq<char>)> {
    Set::new(|p: (Seq<char>, Seq<char>)| vs.contains(p.0)
        && exists|g: Seq<char>| r0.contains((p.0, g)) && on_way(t, g, named_by(r0, p.0), p.1))
}

/// Records each variable in every function on the way from a function that names it up to
/// the outermost ancestor that names it too.
fn share_variables(store: &mut ReferenceStore, tree: &FunctionTree)
    requires
        old(store).wf(),
        old(store).variables@.to_set() == first_of(old(store).refs()),
        forall|v: Seq<char>, g: Seq<char>| old(store).refs().contains((v, g)) ==> chain_ends(tree@, g),
    ensures
        final(store).wf(),
        final(store).refs() == propagated(old(store).refs(), tree@),
        final(store).variables@.to_set() == first_of(final(store).refs()),
{
    let ghost r0 = store.refs();
    let ghost t = tree@;
    let ghost vars0 = store.variables@;
    let variables = store.list_variables();
    let ghost vs = strings_view(variables@);
    let mut vi: usize = 0;
    proof {
        assert(vs.take(0) =~= Seq::<Seq<char>>::empty());
        assert(store.refs() =~= r0.union(shared_for(r0, t, vs.take(0))));
    }
    while vi < variables.len()
        invariant
            vi <= variables.len(),
            vs == strings_view(variables@),
            vs == vars0,
            increasing(vs),
            vars0.to_set() == first_of(r0),
            store.wf(),
            store.variables@.to_set() == vars0.to_set(),
            store.refs() == r0.union(shared_for(r0, t, vs.take(vi as int))),
            forall|v: Seq<char>, g: Seq<char>| r0.contains((v, g)) ==> chain_ends(t, g),
            t == tree@,
        decreases variables.len() - vi,
    {
        let v = &variables[vi];
        let ghost r_vi = store.refs();
        let functions = store.list_by_variable(v);
        let ghost fs = functions@.to_set();
        proof {
            assert(vs[vi as int] == v@);
            assert forall|g: Seq<char>| #[trigger] fs.contains(g) == named_by(r0, v@).contains(g) by {
                if shared_for(r0, t, vs.take(vi as int)).contains((v@, g)) {
                    let k = choose|k: int| 0 <= k < vs.take(vi as int).len() && vs.take(vi as int)[k] == v@;
                    assert(vs[k] == v@);
                    assert(str_lt(vs[k], vs[vi as int]));
                    lemma_str_lt_irreflexive(v@);
                }
            }
            assert(fs =~= named_by(r0, v@));
            assert(vars0.to_set().contains(v@));
        }
        let mut fi: usize = 0;
        while fi < functions.len()
            invariant
                fi <= functions@.len(),
                functions.wf(),
                fs == functions@.to_set(),
                fs == named_by(r0, v@),
                store.wf(),
                store.variables@.to_set() == vars0.to_set(),
                vars0.to_set().contains(v@),
                store.refs() == r_vi.union(Set::new(|p: (Seq<char>, Seq<char>)| p.0 == v@
                    && exists|k: int| 0 <= k < fi && on_way(t, functions@[k], fs, p.1))),
                forall|v: Seq<char>, g: Seq<char>| r0.contains((v, g)) ==> chain_ends(t, g),
                t == tree@,
            decreases functions@.len() - fi,
        {
            let ghost before = store.refs();
            proof {
                assert(strings_view(functions.items@)[fi as int] == functions.items@[fi as int]@);
                assert(functions@.contains(functions@[fi as int]));
                assert(fs.contains(functions@[fi as int]));
                assert(r0.contains((v@, functions@[fi as int])));
            }
            share_from(store, tree, v, &functions.items[fi], &functions);
            proof {
                let g = functions@[fi as int];
                assert forall|p: (Seq<char>, Seq<char>)| #[trigger] store.refs().contains(p)
                    == r_vi.union(Set::new(|p: (Seq<char>, Seq<char>)| p.0 == v@
                        && exists|k: int| 0 <= k < fi + 1 && on_way(t, functions@[k], fs, p.1))).contains(p) by {
                    if p.0 == v@ && on_way(t, g, fs, p.1) {
                        assert(0 <= fi < fi + 1 && on_way(t, functions@[fi as int], fs, p.1));
                    }
                    if p.0 == v@ && exists|k: int| 0 <= k < fi && on_way(t, functions@[k], fs, p.1) {
                        let k = choose|k: int| 0 <= k < fi && on_way(t, functions@[k], fs, p.1);
                        assert(0 <= k < fi + 1 && on_way(t, functions@[k], fs, p.1));
                    }
                    if p.0 == v@ && exists|k: int| 0 <= k < fi + 1 && on_way(t, functions@[k], fs, p.1) {
                        let k = choose|k: int| 0 <= k < fi + 1 && on_way(t, functions@[k], fs, p.1);
                        if k < fi {
                            assert(0 <= k < fi && on_way(t, functions@[k], fs, p.1));
                        }
                    }
                }
                assert(store.refs() =~= r_vi.union(Set::new(|p: (Seq<char>, Seq<char>)| p.0 == v@
                    && exists|k: int| 0 <= k < fi + 1 && on_way(t, functions@[k], fs, p.1))));
            }
            fi += 1;
        }
        proof {
            let vt0 = vs.take(vi as int);
            let vt1 = vs.take(vi + 1);
            assert(vt1 =~= vt0.push(v@));
            assert forall|p: (Seq<char>, Seq<char>)| #[trigger] store.refs().contains(p)
                == r0.union(shared_for(r0, t, vt1)).contains(p) by {
                if vt0.contains(p.0) {
                    let k = choose|k: int| 0 <= k < vt0.len() && vt0[k] == p.0;
                    assert(vt1[k] == p.0);
                }
                if vt1.contains(p.0) && p.0 != v@ {
                    let k = choose|k: int| 0 <= k < vt1.len() && vt1[k] == p.0;
                    assert(k < vi);
                    assert(vt0[k] == p.0);
                }
                if p.0 == v@ && exists|k: int| 0 <= k < functions@.len() && on_way(t, functions@[k], fs, p.1) {
                    let k = choose|k: int| 0 <= k < functions@.len() && on_way(t, functions@[k], fs, p.1);
                    assert(functions@.contains(functions@[k]));
                    assert(fs.contains(functions@[k]));
                    assert(named_by(r0, v@).contains(functions@[k]));
                    assert(r0.contains((p.0, functions@[k])));
                    assert(vt1[vi as int] == p.0);
                }
                if p.0 == v@ && exists|g: Seq<char>| r0.contains((p.0, g)) && on_way(t, g, named_by(r0, p.0), p.1) {
                    let g = choose|g: Seq<char>| r0.contains((p.0, g)) && on_way(t, g, named_by(r0, p.0), p.1);
                    assert(fs.contains(g));
                    let k = choose|k: int| 0 <= k < functions@.len() && functions@[k] == g;
                    assert(on_way(t, functions@[k], fs, p.1));
                }
            }
            assert(store.refs() =~= r0.union(shared_for(r0, t, vt1)));
        }
        vi += 1;
    }
    proof {
        assert(vs.take(vi as int) =~= vs);
        assert forall|p: (Seq<char>, Seq<char>)| #[trigger] shared_for(r0, t, vs).contains(p)
            == Set::new(|p: (Seq<char>, Seq<char>)| exists|g: Seq<char>| r0.contains((p.0, g))
                && on_way(t, g, named_by(r0, p.0), p.1)).contains(p) by {
            if exists|g: Seq<char>| r0.contains((p.0, g)) && on_way(t, g, named_by(r0, p.0), p.1) {
                let g = choose|g: Seq<char>| r0.contains((p.0, g)) && on_way(t, g, named_by(r0, p.0), p.1);
                assert(first_of(r0).contains(p.0));
                assert(vs.to_set().contains(p.0));
            }
        }
        assert(store.refs() =~= propagated(r0, t));
        assert forall|v: Seq<char>| #[trigger] first_of(store.refs()).contains(v) == first_of(r0).contains(v) by {
            if first_of(store.refs()).contains(v) {
                let g = choose|g: Seq<char>| store.refs().contains((v, g));
                if !r0.contains((v, g)) {
                    assert(vs.contains(v));
                    assert(vs.to_set().contains(v));
                }
            }
            if first_of(r0).contains(v) {
                let g = choose|g: Seq<char>| r0.contains((v, g));
                assert(store.refs().contains((v, g)));
            }
        }
        assert(first_of(store.refs()) =~= first_of(r0));
    }
}

/// What the walk over the functions has found so far: the pairs left, the variables each
/// function defines, those passed to it from outside, and whether every parameter was
/// found among the variables of its own function.
pub struct Collected {
    pub refs: Set<(Seq<char>, Seq<char>)>,
    pub defs: Map<Seq<char>, Set<Seq<char>>>,
    pub exts: Map<Seq<char>, Set<Seq<char>>>,
    pub ok: bool,
}

/// The variables that `n` names and no other function does.
pub open spec fn own_vars(refs: Set<(Seq<char>, Seq<char>)>, n: Seq<char>) -> Set<Seq<char>> {
    Set::new(|v: Seq<char>| refs.contains((v, n)) && forall|g: Seq<char>| #[trigger] refs.contains((v, g)) ==> g == n)
}

/// The variables that `n` names and some other function names too.
pub open spec fn shared_vars(refs: Set<(Seq<char>, Seq<char>)>, n: Seq<char>) -> Set<Seq<char>> {
    Set::new(|v: Seq<char>| refs.contains((v, n)) && exists|g: Seq<char>| #[trigger] refs.contains((v, g)) && g != n)
}

/// The walk over the functions of `s`, innermost first.
pub open spec fn collect_stmt(s: StmtV, c: Collected) -> Collected
    decreases s,
{
    match s {
        StmtV::Func(n, a, b) => {
            let c1 = collect_stmts(b, c);
            let own = own_vars(c1.refs, n);
            Collected {
                refs: c1.refs.filter(|p: (Seq<char>, Seq<char>)| p.1 != n),
                defs: c1.defs.insert(n, own.difference(a.to_set())),
                exts: c1.exts.insert(n, shared_vars(c1.refs, n)),
                ok: c1.ok && a.no_duplicates() && (forall|i: int| 0 <= i < a.len() ==> own.contains(#[trigger] a[i])),
            }
        },
        StmtV::If(_, b, o) => collect_stmts(o, collect_stmts(b, c)),
        StmtV::While(_, b) => collect_stmts(b, c),
        _ => c,
    }
}

pub open spec fn collect_stmts(s: Seq<StmtV>, c: Collected) -> Collected
    decreases s,
{
    if s.len() == 0 {
        c
    } else {
        collect_stmts(s.drop_first(), collect_stmt(s[0], c))
    }
}

proof fn lemma_collect_ok(s: StmtV, c: Collected)
    requires
        collect_stmt(s, c).ok,
    ensures
        c.ok,
    decreases s,
{
    match s {
        StmtV::Func(n, a, b) => {
            lemma_collect_ok_all(b, c);
        },
        StmtV::If(_, b, o) => {
            lemma_collect_ok_all(o, collect_stmts(b, c));
            lemma_collect_ok_all(b, c);
        },
        StmtV::While(_, b) => {
            lemma_collect_ok_all(b, c);
        },
        _ => {},
    }
}

proof fn lemma_collect_ok_all(s: Seq<StmtV>, c: Collected)
    requires
        collect_stmts(s, c).ok,
    ensures
        c.ok,
    decreases s,
{
    if s.len() > 0 {
        lemma_collect_ok_all(s.drop_first(), collect_stmt(s[0], c));
        lemma_collect_ok(s[0], c);
    }
}

/// The state held by a store and two maps.
pub open spec fn state_of(refs: Set<(Seq<char>, Seq<char>)>, defs: Seq<(Seq<char>, Seq<Seq<char>>)>, exts: Seq<(Seq<char>, Seq<Seq<char>>)>) -> Collected {
    Collected { refs, defs: map_of(defs), exts: map_of(exts), ok: true }
}

/// An increasing sequence that holds `n` has one element exactly when `n` is its only one.
proof fn lemma_single(s: Seq<Seq<char>>, n: Seq<char>)
    requires
        increasing(s),
        s.contains(n),
    ensures
        (s.len() == 1) == (forall|g: Seq<char>| s.contains(g) ==> g == n),
{
    if s.len() == 1 {
        assert forall|g: Seq<char>| s.contains(g) implies g == n by {
            let k = choose|k: int| 0 <= k < s.len() && s[k] == g;
            let m = choose|m: int| 0 <= m < s.len() && s[m] == n;
        }
    } else {
        assert(s.len() >= 2);
        assert(str_lt(s[0], s[1]));
        lemma_str_lt_irreflexive(s[0]);
        assert(s.contains(s[0]));
        assert(s.contains(s[1]));
    }
}

/// The variables that `name` names, split into its own and those shared with others.
fn split_variables(store: &ReferenceStore, name: &String) -> (r: (SortedStrings, SortedStrings))
    ensures
        r.0.wf(),
        r.1.wf(),
        r.0@.to_set() == own_vars(store.refs(), name@),
        r.1@.to_set() == shared_vars(store.refs(), name@),
{
    let ghost refs = store.refs();
    let variables = store.list_by_function(name);
    let mut internal = SortedStrings::new();
    let mut external = SortedStrings::new();
    let mut i: usize = 0;
    while i < variables.len()
        invariant
            i <= variables@.len(),
            variables.wf(),
            refs == store.refs(),
            variables@.to_set() == Set::new(|v: Seq<char>| refs.contains((v, name@))),
            internal.wf(),
            external.wf(),
            internal@.to_set() == own_vars(refs, name@).intersect(variables@.take(i as int).to_set()),
            external@.to_set() == shared_vars(refs, name@).intersect(variables@.take(i as int).to_set()),
        decreases variables@.len() - i,
    {
        let v = &variables.items[i];
        let ghost vv = v@;
        proof {
            assert(strings_view(variables.items@)[i as int] == v@);
            assert(variables@.contains(vv));
            assert(variables@.to_set().contains(vv));
            assert(refs.contains((vv, name@)));
        }
        let functions = store.list_by_variable(v);
        proof {
            assert(functions@.to_set().contains(name@));
            lemma_single(functions@, name@);
            assert((functions@.len() == 1) == (forall|g: Seq<char>| #[trigger] refs.contains((vv, g)) ==> g == name@)) by {
                if functions@.len() == 1 {
                    assert forall|g: Seq<char>| #[trigger] refs.contains((vv, g)) implies g == name@ by {
                        assert(functions@.to_set().contains(g));
                    }
                } else {
                    let g = choose|g: Seq<char>| functions@.contains(g) && g != name@;
                    assert(functions@.to_set().contains(g));
                }
            }
            let t0 = variables@.take(i as int);
            let t1 = variables@.take(i + 1);
            assert(t1 =~= t0.push(vv));
            t0.lemma_push_to_set_commute(vv);
            assert(t1.to_set() =~= t0.to_set().insert(vv));
        }
        if functions.len() == 1 {
            internal.insert(copy_string(v));
            proof {
                let t1 = variables@.take(i + 1);
                assert(internal@.to_set() =~= own_vars(refs, name@).intersect(t1.to_set()));
                assert(external@.to_set() =~= shared_vars(refs, name@).intersect(t1.to_set()));
            }
        } else {
            external.insert(copy_string(v));
            proof {
                let t1 = variables@.take(i + 1);
                assert(internal@.to_set() =~= own_vars(refs, name@).intersect(t1.to_set()));
                assert(external@.to_set() =~= shared_vars(refs, name@).intersect(t1.to_set()));
            }
        }
        i += 1;
    }
    proof {
        assert(variables@.take(i as int) =~= variables@);
        assert(internal@.to_set() =~= own_vars(refs, name@));
        assert(external@.to_set() =~= shared_vars(refs, name@));
    }
    (internal, external)
}

/// The walk over the functions of one statement.
fn collect_stmt_extension(s: &Statement, store: &mut ReferenceStore, definitions: &mut SortedMap, extensions: &mut SortedMap)
    requires
        old(store).wf(),
        old(definitions).wf(),
        old(extensions).wf(),
        collect_stmt(s@, state_of(old(store).refs(), old(definitions)@, old(extensions)@)).ok,
    ensures
        final(store).wf(),
        final(definitions).wf(),
        final(extensions).wf(),
        state_of(final(store).refs(), final(definitions)@, final(extensions)@)
            == collect_stmt(s@, state_of(old(store).refs(), old(definitions)@, old(extensions)@)),
    decreases s,
{
    let ghost sv = s@;
    let ghost c0 = state_of(store.refs(), definitions@, extensions@);
    match s {
        Statement::Func(f) => {
            proof {
                assert(views(f.body@) =~= sv->Func_2);
            }
            collect_extension(&f.body, store, definitions, extensions);
            let ghost c1 = state_of(store.refs(), definitions@, extensions@);
            let ghost args = strings_view(f.args@);
            let (mut internal, external) = split_variables(store, &f.name);
            let ghost own = own_vars(c1.refs, f.name@);
            store.remove_function(&f.name);
            let mut i: usize = 0;
            proof {
                assert(args.take(0).to_set() =~= Set::<Seq<char>>::empty());
                assert(internal@.to_set() =~= own.difference(args.take(0).to_set()));
            }
            while i < f.args.len()
                invariant
                    i <= f.args.len(),
                    args == strings_view(f.args@),
                    args.no_duplicates(),
                    forall|k: int| 0 <= k < args.len() ==> own.contains(#[trigger] args[k]),
                    internal.wf(),
                    internal@.to_set() == own.difference(args.take(i as int).to_set()),
                decreases f.args.len() - i,
            {
                let _ = internal.remove(&f.args[i]);
                proof {
                    let t0 = args.take(i as int);
                    let t1 = args.take(i + 1);
                    assert(args[i as int] == f.args@[i as int]@);
                    assert(t1 =~= t0.push(args[i as int]));
                    t0.lemma_push_to_set_commute(args[i as int]);
                    assert(internal@.to_set() =~= own.difference(t1.to_set()));
                }
                i += 1;
            }
            proof {
                assert(args.take(i as int) =~= args);
            }
            definitions.put(copy_string(&f.name), internal);
            extensions.put(copy_string(&f.name), external);
            proof {
                let c2 = collect_stmt(sv, c0);
                assert(store.refs() =~= c2.refs);
            }
        },
        Statement::If(x) => {
            proof {
                assert(views(x.body@) =~= sv->If_1);
                assert(views(x.orelse@) =~= sv->If_2);
                lemma_collect_ok_all(sv->If_2, collect_stmts(sv->If_1, c0));
            }
            collect_extension(&x.body, store, definitions, extensions);
            collect_extension(&x.orelse, store, definitions, extensions);
        },
        Statement::While(w) => {
            proof {
                assert(views(w.body@) =~= sv->While_1);
            }
            collect_extension(&w.body, store, definitions, extensions);
        },
        _ => {},
    }
}

/// The walk over the functions of `stmts`, innermost first: records for each function its
/// own variables and those passed to it from outside, and forgets it.
fn collect_extension(stmts: &Vec<Statement>, store: &mut ReferenceStore, definitions: &mut SortedMap, extensions: &mut SortedMap)
    requires
        old(store).wf(),
        old(definitions).wf(),
        old(extensions).wf(),
        collect_stmts(views(stmts@), state_of(old(store).refs(), old(definitions)@, old(extensions)@)).ok,
    ensures
        final(store).wf(),
        final(definitions).wf(),
        final(extensions).wf(),
        state_of(final(store).refs(), final(definitions)@, final(extensions)@)
            == collect_stmts(views(stmts@), state_of(old(store).refs(), old(definitions)@, old(extensions)@)),
    decreases stmts,
{
    let ghost ss = views(stmts@);
    let ghost target = collect_stmts(ss, state_of(store.refs(), definitions@, extensions@));
    let mut i: usize = 0;
    proof {
        assert(ss.skip(0) =~= ss);
    }
    while i < stmts.len()
        invariant
            i <= stmts.len(),
            ss == views(stmts@),
            store.wf(),
            definitions.wf(),
            extensions.wf(),
            target.ok,
            collect_stmts(ss.skip(i as int), state_of(store.refs(), definitions@, extensions@)) == target,
        decreases stmts.len() - i,
    {
        let ghost cur = state_of(store.refs(), definitions@, extensions@);
        proof {
            assert(ss.skip(i as int).drop_first() =~= ss.skip(i + 1));
            assert(ss.skip(i as int)[0] == stmts@[i as int]@);
            lemma_collect_ok_all(ss.skip(i + 1), collect_stmt(stmts@[i as int]@, cur));
        }
        collect_stmt_extension(&stmts[i], store, definitions, extensions);
        i += 1;
    }
    proof {
        assert(ss.skip(i as int) =~= Seq::<StmtV>::empty());
    }
}

/// Variables as expressions.
pub open spec fn var_exprs(vs: Seq<Seq<char>>) -> Seq<ExprV> {
    Seq::new(vs.len(), |i: int| ExprV::VariableName(vs[i]))
}

/// `e` with the external variables of each called function appended to its arguments.
pub open spec fn call_expr(e: ExprV, exts: Map<Seq<char>, Set<Seq<char>>>) -> ExprV
    decreases e,
{
    match e {
        ExprV::CallFunction(name, args) => {
            let a = Seq::new(args.len(), |i: int| if 0 <= i < args.len() { call_expr(args[i], exts) } else { no_expr() });
            ExprV::CallFunction(name, if exts.contains_key(name) { a + var_exprs(sorted_of(exts[name])) } else { a })
        },
        ExprV::CallMethod(v, name, args) => ExprV::CallMethod(
            Box::new(call_expr(*v, exts)),
            name,
            Seq::new(args.len(), |i: int| if 0 <= i < args.len() { call_expr(args[i], exts) } else { no_expr() }),
        ),
        ExprV::Tuple(t) => ExprV::Tuple(Seq::new(t.len(), |i: int| if 0 <= i < t.len() { call_expr(t[i], exts) } else { no_expr() })),
        ExprV::BoolOperation(op, c) => ExprV::BoolOperation(op, Seq::new(c.len(), |i: int| if 0 <= i < c.len() { call_expr(c[i], exts) } else { no_expr() })),
        ExprV::Compare(l, r, op) => ExprV::Compare(Box::new(call_expr(*l, exts)), Box::new(call_expr(*r, exts)), op),
        ExprV::UnaryOperation(v, op) => ExprV::UnaryOperation(Box::new(call_expr(*v, exts)), op),
        ExprV::BinaryOperation(l, r, op) => ExprV::BinaryOperation(Box::new(call_expr(*l, exts)), Box::new(call_expr(*r, exts)), op),
        ExprV::Index(v, i) => ExprV::Index(Box::new(call_expr(*v, exts)), Box::new(call_expr(*i, exts))),
        ExprV::List(l) => ExprV::List(Seq::new(l.len(), |i: int| if 0 <= i < l.len() { call_expr(l[i], exts) } else { no_expr() })),
        ExprV::Dict(p) => ExprV::Dict(Seq::new(p.len(), |i: int|
            if 0 <= i < p.len() { (call_expr(p[i].0, exts), call_expr(p[i].1, exts)) } else { (no_expr(), no_expr()) })),
        _ => e,
    }
}

/// `s` with the external variables of each function appended to its parameters, and to
/// the arguments of each call of it.
pub open spec fn call_stmt(s: StmtV, exts: Map<Seq<char>, Set<Seq<char>>>) -> StmtV
    decreases s,
{
    match s {
        StmtV::Assign(t, v) => StmtV::Assign(call_expr(t, exts), call_expr(v, exts)),
        StmtV::Expression(e) => StmtV::Expression(call_expr(e, exts)),
        StmtV::If(t, b, o) => StmtV::If(
            call_expr(t, exts),
            Seq::new(b.len(), |i: int| if 0 <= i < b.len() { call_stmt(b[i], exts) } else { no_stmt() }),
            Seq::new(o.len(), |i: int| if 0 <= i < o.len() { call_stmt(o[i], exts) } else { no_stmt() }),
        ),
        StmtV::Func(n, a, b) => StmtV::Func(
            n,
            a + sorted_of(exts[n]),
            Seq::new(b.len(), |i: int| if 0 <= i < b.len() { call_stmt(b[i], exts) } else { no_stmt() }),
        ),
        StmtV::Return(r) => StmtV::Return(match r {
            Some(e) => Some(call_expr(e, exts)),
            None => None,
        }),
        StmtV::While(t, b) => StmtV::While(
            call_expr(t, exts),
            Seq::new(b.len(), |i: int| if 0 <= i < b.len() { call_stmt(b[i], exts) } else { no_stmt() }),
        ),
        _ => s,
    }
}

/// Every function defined in `s` has an entry in `exts`.
pub open spec fn funcs_known(s: StmtV, exts: Map<Seq<char>, Set<Seq<char>>>) -> bool
    decreases s,
{
    match s {
        StmtV::Func(n, _, b) => exts.contains_key(n) && forall|i: int| 0 <= i < b.len() ==> funcs_known(#[trigger] b[i], exts),
        StmtV::If(_, b, o) => (forall|i: int| 0 <= i < b.len() ==> funcs_known(#[trigger] b[i], exts))
            && (forall|i: int| 0 <= i < o.len() ==> funcs_known(#[trigger] o[i], exts)),
        StmtV::While(_, b) => forall|i: int| 0 <= i < b.len() ==> funcs_known(#[trigger] b[i], exts),
        _ => true,
    }
}

fn var_list(vars: &SortedStrings) -> (r: Vec<Expr>)
    ensures
        views(r@) == var_exprs(vars@),
{
    let mut r: Vec<Expr> = Vec::new();
    let mut i: usize = 0;
    while i < vars.items.len()
        invariant
            i <= vars.items.len(),
            views(r@) == var_exprs(vars@.take(i as int)),
        decreases vars.items.len() - i,
    {
        let ghost before = views(r@);
        let x = Expr::VariableName(copy_string(&vars.items[i]));
        let ghost xv = x@;
        r.push(x);
        proof {
            assert(views(r@) =~= before.push(xv));
            assert(vars@[i as int] == vars.items@[i as int]@);
            assert(views(r@) =~= var_exprs(vars@.take(i + 1)));
        }
        i += 1;
    }
    proof {
        assert(vars@.take(i as int) =~= vars@);
    }
    r
}

fn call_exprs(v: &Vec<Expr>, exts: &SortedMap) -> (r: Vec<Expr>)
    requires
        exts.wf(),
    ensures
        r.len() == v.len(),
        forall|i: int| 0 <= i < r.len() ==> (#[trigger] r@[i])@ == call_expr(v@[i]@, map_of(exts@)),
    decreases v,
{
    let mut r: Vec<Expr> = Vec::new();
    let mut i: usize = 0;
    while i < v.len()
        invariant
            i <= v.len(),
            exts.wf(),
            r.len() == i,
            forall|k: int| 0 <= k < r.len() ==> (#[trigger] r@[k])@ == call_expr(v@[k]@, map_of(exts@)),
        decreases v.len() - i,
    {
        let x = call_resolve_expr(&v[i], exts);
        r.push(x);
        i += 1;
    }
    r
}

fn call_pairs(v: &Vec<(Expr, Expr)>, exts: &SortedMap) -> (r: Vec<(Expr, Expr)>)
    requires
        exts.wf(),
    ensures
        r.len() == v.len(),
        forall|i: int| 0 <= i < r.len() ==> (#[trigger] r@[i]).0@ == call_expr(v@[i].0@, map_of(exts@))
            && r@[i].1@ == call_expr(v@[i].1@, map_of(exts@)),
    decreases v,
{
    let mut r: Vec<(Expr, Expr)> = Vec::new();
    let mut i: usize = 0;
    while i < v.len()
        invariant
            i <= v.len(),
            exts.wf(),
            r.len() == i,
            forall|k: int| 0 <= k < r.len() ==> (#[trigger] r@[k]).0@ == call_expr(v@[k].0@, map_of(exts@))
                && r@[k].1@ == call_expr(v@[k].1@, map_of(exts@)),
        decreases v.len() - i,
    {
        let k = call_resolve_expr(&v[i].0, exts);
        let x = call_resolve_expr(&v[i].1, exts);
        r.push((k, x));
        i += 1;
    }
    r
}

/// Appends the external variables of each called function to the arguments of the call.
fn call_resolve_expr(e: &Expr, exts: &SortedMap) -> (r: Expr)
    requires
        exts.wf(),
    ensures
        r@ == call_expr(e@, map_of(exts@)),
    decreases e,
{
    let ghost ev = e@;
    let ghost m = map_of(exts@);
    let ghost rv = call_expr(ev, m);
    match e {
        Expr::CallFunction(c) => {
            proof { assert(ev->CallFunction_1 =~= views(c.args@)); }
            let mut args = call_exprs(&c.args, exts);
            let ghost a = views(args@);
            proof {
                assert(a =~= Seq::new(ev->CallFunction_1.len(), |i: int|
                    if 0 <= i < ev->CallFunction_1.len() { call_expr(ev->CallFunction_1[i], m) } else { no_expr() }));
            }
            match exts.get(&c.name) {
                Some(vars) => {
                    let mut extra = var_list(&vars);
                    args.append(&mut extra);
                    proof {
                        lemma_sorted_of(vars@);
                        assert(views(args@) =~= a + var_exprs(sorted_of(m[c.name@])));
                    }
                },
                None => {},
            }
            let r = Expr::CallFunction(CallFunction { name: copy_string(&c.name), args });
            proof { assert(r@->CallFunction_1 =~= rv->CallFunction_1); }
            r
        },
        Expr::CallMethod(c) => {
            let value = call_resolve_expr(&c.value, exts);
            let args = call_exprs(&c.args, exts);
            proof { assert(ev->CallMethod_2 =~= views(c.args@)); }
            let r = Expr::CallMethod(CallMethod { value: Box::new(value), name: copy_string(&c.name), args });
            proof { assert(r@->CallMethod_2 =~= rv->CallMethod_2); }
            r
        },
        Expr::Tuple(t) => {
            proof { assert(ev->Tuple_0 =~= views(t@)); }
            let r = Expr::Tuple(call_exprs(t, exts));
            proof { assert(r@->Tuple_0 =~= rv->Tuple_0); }
            r
        },
        Expr::BoolOperation(b) => {
            proof { assert(ev->BoolOperation_1 =~= views(b.conditions@)); }
            let r = Expr::BoolOperation(BoolOperation { op: b.op, conditions: call_exprs(&b.conditions, exts) });
            proof { assert(r@->BoolOperation_1 =~= rv->BoolOperation_1); }
            r
        },
        Expr::Compare(c) => Expr::Compare(Compare {
            left: Box::new(call_resolve_expr(&c.left, exts)),
            right: Box::new(call_resolve_expr(&c.right, exts)),
            op: c.op,
        }),
        Expr::UnaryOperation(u) => Expr::UnaryOperation(UnaryOperation {
            value: Box::new(call_resolve_expr(&u.value, exts)),
            op: u.op,
        }),
        Expr::BinaryOperation(b) => Expr::BinaryOperation(BinaryOperation {
            left: Box::new(call_resolve_expr(&b.left, exts)),
            right: Box::new(call_resolve_expr(&b.right, exts)),
            op: b.op,
        }),
        Expr::Index(x) => Expr::Index(Index {
            value: Box::new(call_resolve_expr(&x.value, exts)),
            index: Box::new(call_resolve_expr(&x.index, exts)),
        }),
        Expr::List(l) => {
            proof { assert(ev->List_0 =~= views(l@)); }
            let r = Expr::List(call_exprs(l, exts));
            proof { assert(r@->List_0 =~= rv->List_0); }
            r
        },
        Expr::Dict(d) => {
            proof { assert(ev->Dict_0 =~= pair_views(d.pairs@)); }
            let r = Expr::Dict(Dict { pairs: call_pairs(&d.pairs, exts) });
            proof { assert(r@->Dict_0 =~= rv->Dict_0); }
            r
        },
        _ => copy_expr(e),
    }
}

fn call_resolve_stmts(v: &Vec<Statement>, exts: &SortedMap) -> (r: Vec<Statement>)
    requires
        exts.wf(),
        forall|i: int| 0 <= i < v@.len() ==> funcs_known(#[trigger] v@[i]@, map_of(exts@)),
    ensures
        r.len() == v.len(),
        forall|i: int| 0 <= i < r.len() ==> (#[trigger] r@[i])@ == call_stmt(v@[i]@, map_of(exts@)),
    decreases v,
{
    let mut r: Vec<Statement> = Vec::new();
    let mut i: usize = 0;
    while i < v.len()
        invariant
            i <= v.len(),
            exts.wf(),
            forall|k: int| 0 <= k < v@.len() ==> funcs_known(#[trigger] v@[k]@, map_of(exts@)),
            r.len() == i,
            forall|k: int| 0 <= k < r.len() ==> (#[trigger] r@[k])@ == call_stmt(v@[k]@, map_of(exts@)),
        decreases v.len() - i,
    {
        r.push(call_resolve_stmt(&v[i], exts));
        i += 1;
    }
    r
}

/// Appends the external variables of each function to its parameters, and to the arguments
/// of each call of a function.
fn call_resolve_stmt(s: &Statement, exts: &SortedMap) -> (r: Statement)
    requires
        exts.wf(),
        funcs_known(s@, map_of(exts@)),
    ensures
        r@ == call_stmt(s@, map_of(exts@)),
    decreases s,
{
    let ghost sv = s@;
    let ghost m = map_of(exts@);
    let ghost rv = call_stmt(sv, m);
    match s {
        Statement::Assign(a) => Statement::Assign(Assign {
            target: call_resolve_expr(&a.target, exts),
            value: call_resolve_expr(&a.value, exts),
        }),
        Statement::Expression(e) => Statement::Expression(call_resolve_expr(e, exts)),
        Statement::If(x) => {
            proof {
                assert(views(x.body@) =~= sv->If_1);
                assert(views(x.orelse@) =~= sv->If_2);
                assert forall|i: int| 0 <= i < x.body@.len() implies funcs_known(#[trigger] x.body@[i]@, m) by {
                    assert(sv->If_1[i] == x.body@[i]@);
                }
                assert forall|i: int| 0 <= i < x.orelse@.len() implies funcs_known(#[trigger] x.orelse@[i]@, m) by {
                    assert(sv->If_2[i] == x.orelse@[i]@);
                }
            }
            let r = Statement::If(If {
                test: call_resolve_expr(&x.test, exts),
                body: call_resolve_stmts(&x.body, exts),
                orelse: call_resolve_stmts(&x.orelse, exts),
            });
            proof {
                assert(r@->If_1 =~= rv->If_1);
                assert(r@->If_2 =~= rv->If_2);
            }
            r
        },
        Statement::Func(f) => {
            proof {
                assert(views(f.body@) =~= sv->Func_2);
                assert forall|i: int| 0 <= i < f.body@.len() implies funcs_known(#[trigger] f.body@[i]@, m) by {
                    assert(sv->Func_2[i] == f.body@[i]@);
                }
            }
            let mut args = copy_strings(&f.args);
            match exts.get(&f.name) {
                Some(vars) => {
                    let mut extra = vars.copy().items;
                    proof {
                        lemma_sorted_of(vars@);
                    }
                    let ghost a0 = strings_view(args@);
                    let ghost e0 = strings_view(extra@);
                    args.append(&mut extra);
                    proof {
                        assert(strings_view(args@) =~= a0 + e0);
                    }
                },
                None => {},
            }
            let r = Statement::Func(Func { name: copy_string(&f.name), args, body: call_resolve_stmts(&f.body, exts) });
            proof {
                assert(r@->Func_2 =~= rv->Func_2);
            }
            r
        },
        Statement::Return(e) => match e {
            Some(x) => Statement::Return(Some(call_resolve_expr(x, exts))),
            None => Statement::Return(None),
        },
        Statement::While(w) => {
            proof {
                assert(views(w.body@) =~= sv->While_1);
                assert forall|i: int| 0 <= i < w.body@.len() implies funcs_known(#[trigger] w.body@[i]@, m) by {
                    assert(sv->While_1[i] == w.body@[i]@);
                }
            }
            let r = Statement::While(While { test: call_resolve_expr(&w.test, exts), body: call_resolve_stmts(&w.body, exts) });
            proof {
                assert(r@->While_1 =~= rv->While_1);
            }
            r
        },
        Statement::Break => Statement::Break,
        Statement::Continue => Statement::Continue,
        Statement::Import(i) => Statement::Import(copy_import(i)),
        Statement::FromImport(i) => Statement::FromImport(copy_from_import(i)),
    }
}

/// Where the walk over the functions of a program ends, starting from the pairs after
/// sharing.
pub open spec fn calls_model(ss: Seq<StmtV>) -> Collected {
    collect_stmts(ss, Collected {
        refs: propagated(stmts_pairs(ss, root()), tree_stmts(ss, root())),
        defs: Map::empty(),
        exts: Map::empty(),
        ok: true,
    })
}

/// The variables of the statements outside every function.
pub open spec fn root_vars(refs: Set<(Seq<char>, Seq<char>)>) -> Set<Seq<char>> {
    Set::new(|v: Seq<char>| refs.contains((v, root())))
}

/// The programs on which `resolve_function_calls` returns: the chain of ancestors of each
/// function that names a variable ends; every parameter is a variable of its own function
/// and none is repeated; a variable of the outermost statements is named by no function in
/// the end; and every function has its entry.
pub open spec fn calls_ready(ss: Seq<StmtV>) -> bool {
    let c = calls_model(ss);
    &&& forall|v: Seq<char>, g: Seq<char>| #[trigger] stmts_pairs(ss, root()).contains((v, g)) ==> chain_ends(tree_stmts(ss, root()), g)
    &&& c.ok
    &&& forall|v: Seq<char>, g: Seq<char>| c.refs.contains((v, root())) && #[trigger] c.refs.contains((v, g)) ==> g == root()
    &&& forall|i: int| 0 <= i < ss.len() ==> funcs_known(#[trigger] ss[i], c.exts)
}

/// Passes to each function the variables it shares with the functions around it, as
/// parameters appended to its own, and to each call of it as arguments.  Also returns, for
/// each function and for the outermost statements (under the empty name), the variables it
/// defines.
pub fn resolve_function_calls(statements: &Vec<Statement>) -> (r: (Vec<Statement>, SortedMap))
    requires
        calls_ready(views(statements@)),
    ensures
        r.0.len() == statements.len(),
        forall|i: int| 0 <= i < r.0.len() ==> (#[trigger] r.0@[i])@ == call_stmt(statements@[i]@, calls_model(views(statements@)).exts),
        r.1.wf(),
        map_of(r.1@) == calls_model(views(statements@)).defs.insert(
            Seq::<char>::empty(),
            root_vars(calls_model(views(statements@)).refs),
        ),
{
    let ghost ss = views(statements@);
    let root_name = string_of("$");
    let mut store = ReferenceStore::new();
    let mut tree = FunctionTree::new();
    proof {
        assert(store.variables@.to_set() =~= first_of(store.refs()));
    }
    list_variable_contexts(statements, &root_name, &mut store, &mut tree);
    proof {
        assert(store.refs() =~= stmts_pairs(ss, root()));
        assert(tree@ =~= tree_stmts(ss, root()));
    }
    share_variables(&mut store, &tree);
    let mut definitions = SortedMap::new();
    let mut extensions = SortedMap::new();
    proof {
        assert(map_of(definitions@) =~= Map::<Seq<char>, Set<Seq<char>>>::empty());
        assert(map_of(extensions@) =~= Map::<Seq<char>, Set<Seq<char>>>::empty());
        assert(state_of(store.refs(), definitions@, extensions@) == Collected {
            refs: propagated(stmts_pairs(ss, root()), tree_stmts(ss, root())),
            defs: Map::empty(),
            exts: Map::empty(),
            ok: true,
        });
    }
    collect_extension(statements, &mut store, &mut definitions, &mut extensions);
    let ghost c = calls_model(ss);
    let root_variables = store.list_by_function(&root_name);
    proof {
        assert(root_variables@.to_set() =~= root_vars(c.refs));
    }
    let empty = String::new();
    proof {
        assert(empty@ =~= Seq::<char>::empty());
    }
    definitions.put(empty, root_variables);
    proof {
        assert(map_of(extensions@) == c.exts);
        assert forall|i: int| 0 <= i < statements@.len() implies funcs_known(#[trigger] statements@[i]@, map_of(extensions@)) by {
            assert(ss[i] == statements@[i]@);
        }
    }
    let resolved = call_resolve_stmts(statements, &extensions);
    (resolved, definitions)
}



proof fn lemma_call_expr_keeps(e: ExprV)
    ensures
        call_expr(e, Map::<Seq<char>, Set<Seq<char>>>::empty()) == e,
    decreases e,
{
    let none = Map::<Seq<char>, Set<Seq<char>>>::empty();
    match e {
        ExprV::CallFunction(n, args) => {
            assert forall|i: int| 0 <= i < args.len() implies call_expr(#[trigger] args[i], none) == args[i] by {
                lemma_call_expr_keeps(args[i]);
            }
            assert(call_expr(e, none)->CallFunction_1 =~= args);
        },
        ExprV::CallMethod(v, n, args) => {
            lemma_call_expr_keeps(*v);
            assert forall|i: int| 0 <= i < args.len() implies call_expr(#[trigger] args[i], none) == args[i] by {
                lemma_call_expr_keeps(args[i]);
            }
            assert(call_expr(e, none)->CallMethod_2 =~= args);
        },
        ExprV::Tuple(v) => {
            assert forall|i: int| 0 <= i < v.len() implies call_expr(#[trigger] v[i], none) == v[i] by {
                lemma_call_expr_keeps(v[i]);
            }
            assert(call_expr(e, none)->Tuple_0 =~= v);
        },
        ExprV::BoolOperation(op, v) => {
            assert forall|i: int| 0 <= i < v.len() implies call_expr(#[trigger] v[i], none) == v[i] by {
                lemma_call_expr_keeps(v[i]);
            }
            assert(call_expr(e, none)->BoolOperation_1 =~= v);
        },
        ExprV::Compare(l, r, _) => {
            lemma_call_expr_keeps(*l);
            lemma_call_expr_keeps(*r);
        },
        ExprV::BinaryOperation(l, r, _) => {
            lemma_call_expr_keeps(*l);
            lemma_call_expr_keeps(*r);
        },
        ExprV::Index(v, i) => {
            lemma_call_expr_keeps(*v);
            lemma_call_expr_keeps(*i);
        },
        ExprV::List(v) => {
            assert forall|i: int| 0 <= i < v.len() implies call_expr(#[trigger] v[i], none) == v[i] by {
                lemma_call_expr_keeps(v[i]);
            }
            assert(call_expr(e, none)->List_0 =~= v);
        },
        ExprV::UnaryOperation(v, _) => {
            lemma_call_expr_keeps(*v);
        },
        ExprV::Dict(v) => {
            assert forall|i: int| 0 <= i < v.len() implies call_expr(#[trigger] v[i].0, none) == v[i].0
                && call_expr(v[i].1, none) == v[i].1 by {
                lemma_call_expr_keeps(v[i].0);
                lemma_call_expr_keeps(v[i].1);
            }
            assert(call_expr(e, none)->Dict_0 =~= v);
        },
        _ => {},
    }
}

/// Where no function takes external variables, passing them changes no expression: every
/// operand and argument stays in its place.
pub proof fn law_calls_keep_the_rest(e: ExprV)
    ensures
        call_expr(e, Map::<Seq<char>, Set<Seq<char>>>::empty()) == e,
{
    lemma_call_expr_keeps(e);
}

/// A statement that defines no function.
pub open spec fn defines_no_function() -> spec_fn(StmtV) -> bool {
    |s: StmtV| !(s is Func)
}

proof fn lemma_call_stmt_keeps(s: StmtV)
    requires
        crate::ast::every_stmt(s, defines_no_function()),
    ensures
        call_stmt(s, Map::<Seq<char>, Set<Seq<char>>>::empty()) == s,
    decreases s,
{
    let none = Map::<Seq<char>, Set<Seq<char>>>::empty();
    match s {
        StmtV::Assign(t, v) => {
            lemma_call_expr_keeps(t);
            lemma_call_expr_keeps(v);
        },
        StmtV::Expression(e) => {
            lemma_call_expr_keeps(e);
        },
        StmtV::If(t, b, o) => {
            lemma_call_expr_keeps(t);
            assert forall|i: int| 0 <= i < b.len() implies call_stmt(#[trigger] b[i], none) == b[i] by {
                lemma_call_stmt_keeps(b[i]);
            }
            assert forall|i: int| 0 <= i < o.len() implies call_stmt(#[trigger] o[i], none) == o[i] by {
                lemma_call_stmt_keeps(o[i]);
            }
            assert(call_stmt(s, none)->If_1 =~= b);
            assert(call_stmt(s, none)->If_2 =~= o);
        },
        StmtV::Return(r) => {
            if let Some(e) = r {
                lemma_call_expr_keeps(e);
            }
        },
        StmtV::While(t, b) => {
            lemma_call_expr_keeps(t);
            assert forall|i: int| 0 <= i < b.len() implies call_stmt(#[trigger] b[i], none) == b[i] by {
                lemma_call_stmt_keeps(b[i]);
            }
            assert(call_stmt(s, none)->While_1 =~= b);
        },
        _ => {},
    }
}

/// Where no function takes external variables, passing them changes no statement of a
/// program without function definitions (an `if` keeps its test, body and `else` branch).
pub proof fn law_calls_keep_programs(s: Seq<StmtV>)
    requires
        forall|i: int| 0 <= i < s.len() ==> crate::ast::every_stmt(#[trigger] s[i], defines_no_function()),
    ensures
        forall|i: int| 0 <= i < s.len() ==> call_stmt(#[trigger] s[i], Map::<Seq<char>, Set<Seq<char>>>::empty()) == s[i],
{
    assert forall|i: int| 0 <= i < s.len() implies call_stmt(#[trigger] s[i], Map::<Seq<char>, Set<Seq<char>>>::empty()) == s[i] by {
        lemma_call_stmt_keeps(s[i]);
    }
}

/// A call of a function with external variables gets them, in increasing order, after its
/// own arguments, which stay in place.
pub proof fn law_call_gets_externals(n: Seq<char>, args: Seq<ExprV>, exts: Map<Seq<char>, Set<Seq<char>>>)
    requires
        exts.contains_key(n),
    ensures
        call_expr(ExprV::CallFunction(n, args), exts) matches ExprV::CallFunction(m, a)
            && m == n
            && a.len() == args.len() + sorted_of(exts[n]).len()
            && (forall|i: int| 0 <= i < args.len() ==> #[trigger] a[i] == call_expr(args[i], exts))
            && (forall|j: int| 0 <= j < sorted_of(exts[n]).len() ==> #[trigger] a[args.len() + j] == ExprV::VariableName(sorted_of(exts[n])[j])),
{
}

} // verus!
