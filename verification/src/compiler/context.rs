//! The names the code generator gives to the variables of each function: `__v0`, `__v1`,
//! ... in the order of their declarations, and the built-in functions it calls by their
//! own names.
use vstd::prelude::*;
use crate::ast::{copy_string, copy_strings, strings_view};
use crate::resolver::module::{lookup, Entries};
use crate::resolver::sorted::{lemma_sorted_of, sorted_of, SortedStrings};
use crate::compiler::expression::{copy_comparisons, copy_number, LoadError, OExprV, OptpyExpression, oviews};
use crate::compiler::statement::{OStmtV, OptpyStatement, sviews};
use crate::text::{decimal, lemma_decimal_injective, str_eq, string_eq, string_of, with_number};

verus! {

/// The name of the variable numbered `id`.
pub open spec fn variable_name(id: nat) -> Seq<char> {
    "__v"@ + decimal(id)
}

/// `__v` followed by `id`.
pub fn format_variable(id: usize) -> (r: String)
    ensures
        r@ == variable_name(id as nat),
{
    with_number("__v", id as u128)
}

/// The built-in functions and what they are called in the generated code.
pub open spec fn builtin_call(name: Seq<char>) -> Option<Seq<char>> {
    if name == "int"@ {
        Some("int"@)
    } else if name == "input"@ {
        Some("input"@)
    } else if name == "print"@ {
        Some("print"@)
    } else if name == "map"@ {
        Some("map"@)
    } else if name == "range"@ {
        Some("range!"@)
    } else {
        None
    }
}

fn builtin_function(name: &String) -> (r: Option<String>)
    ensures
        match r {
            Some(x) => builtin_call(name@) == Some(x@),
            None => builtin_call(name@) is None,
        },
{
    if str_eq(name, "int") {
        Some(string_of("int"))
    } else if str_eq(name, "input") {
        Some(string_of("input"))
    } else if str_eq(name, "print") {
        Some(string_of("print"))
    } else if str_eq(name, "map") {
        Some(string_of("map"))
    } else if str_eq(name, "range") {
        Some(string_of("range!"))
    } else {
        None
    }
}

/// Why a program could not be compiled: a node the loader does not know, or a name that is
/// neither declared in its function nor built in.
#[derive(Debug, PartialEq, Eq)]
pub enum CompileError {
    Load(LoadError),
    Undeclared { ctx: Vec<String>, name: String },
}

/// The entries of a function's scope: (name, variable), the later ones winning.
pub type Scopes = Seq<(Seq<Seq<char>>, Entries)>;

/// The entries of the scope of `ctx`.
pub open spec fn scope_of(s: Scopes, ctx: Seq<Seq<char>>) -> Entries
    decreases s.len(),
{
    if s.len() == 0 {
        seq![]
    } else if s.last().0 == ctx {
        s.last().1
    } else {
        scope_of(s.drop_last(), ctx)
    }
}

/// A name has an entry exactly when some entry holds it.
pub proof fn lemma_lookup_some(m: Entries, k: Seq<char>)
    ensures
        (lookup(m, k) is Some) == (exists|i: int| 0 <= i < m.len() && m[i].0 == k),
    decreases m.len(),
{
    if m.len() > 0 {
        lemma_lookup_some(m.drop_last(), k);
        if exists|i: int| 0 <= i < m.len() && m[i].0 == k {
            let i = choose|i: int| 0 <= i < m.len() && m[i].0 == k;
            if i < m.len() - 1 {
                assert(m.drop_last()[i].0 == k);
            }
        }
        if exists|i: int| 0 <= i < m.drop_last().len() && m.drop_last()[i].0 == k {
            let i = choose|i: int| 0 <= i < m.drop_last().len() && m.drop_last()[i].0 == k;
            assert(m[i].0 == k);
        }
    }
}

/// The variables of each function, by the path of the functions around it.
pub struct IdentifierStore {
    pub scopes: Vec<(Vec<String>, Vec<(String, String)>)>,
    pub count: usize,
}

pub open spec fn entries_of(v: Seq<(String, String)>) -> Entries {
    Seq::new(v.len(), |i: int| (v[i].0@, v[i].1@))
}

/// Different numbers name different variables.
pub proof fn lemma_variable_name_injective(a: nat, b: nat)
    requires
        variable_name(a) == variable_name(b),
    ensures
        a == b,
{
    reveal_strlit("__v");
    assert(variable_name(a).skip(3) =~= decimal(a));
    assert(variable_name(b).skip(3) =~= decimal(b));
    lemma_decimal_injective(a, b);
}

impl IdentifierStore {
    /// Every variable is `__v<k>` for a `k` below the count, and no two names of any
    /// functions share one.
    pub open spec fn wf(&self) -> bool {
        &&& forall|c: Seq<Seq<char>>, n: Seq<char>| #[trigger] self.variable_of(c, n) is Some
            ==> exists|k: nat| k < self.count && self.variable_of(c, n) == Some(variable_name(k))
        &&& forall|c1: Seq<Seq<char>>, n1: Seq<char>, c2: Seq<Seq<char>>, n2: Seq<char>|
            #[trigger] self.variable_of(c1, n1) is Some && self.variable_of(c1, n1) == #[trigger] self.variable_of(c2, n2)
            ==> c1 == c2 && n1 == n2
    }

    pub open spec fn scopes_view(&self) -> Scopes {
        Seq::new(self.scopes@.len(), |i: int| (strings_view(self.scopes@[i].0@), entries_of(self.scopes@[i].1@)))
    }

    /// The variable of `name` in the function at `ctx`.
    pub open spec fn variable_of(&self, ctx: Seq<Seq<char>>, name: Seq<char>) -> Option<Seq<char>> {
        lookup(scope_of(self.scopes_view(), ctx), name)
    }

    pub fn new() -> (r: Self)
        ensures
            r.wf(),
            r.count == 0,
            forall|ctx: Seq<Seq<char>>, name: Seq<char>| r.variable_of(ctx, name) is None,
    {
        let r = IdentifierStore { scopes: Vec::new(), count: 0 };
        proof {
            assert(r.scopes_view() =~= Seq::<(Seq<Seq<char>>, Entries)>::empty());
        }
        r
    }

    fn find_scope(&self, ctx: &Vec<String>) -> (r: Option<usize>)
        ensures
            match r {
                Some(i) => i < self.scopes@.len() && self.scopes_view()[i as int].0 == strings_view(ctx@)
                    && scope_of(self.scopes_view(), strings_view(ctx@)) == self.scopes_view()[i as int].1,
                None => scope_of(self.scopes_view(), strings_view(ctx@)) == Seq::<(Seq<char>, Seq<char>)>::empty(),
            },
    {
        let ghost sv = self.scopes_view();
        let ghost c = strings_view(ctx@);
        let mut i: usize = self.scopes.len();
        proof {
            assert(sv.take(i as int) =~= sv);
        }
        while i > 0
            invariant
                i <= self.scopes.len(),
                sv == self.scopes_view(),
                c == strings_view(ctx@),
                scope_of(sv, c) == scope_of(sv.take(i as int), c),
            decreases i,
        {
            assert(sv.take(i as int).drop_last() =~= sv.take(i - 1));
            if crate::ast::strings_eq(&self.scopes[i - 1].0, ctx) {
                return Some(i - 1);
            }
            i -= 1;
        }
        None
    }

    fn find_in_scope(entries: &Vec<(String, String)>, name: &String) -> (r: Option<String>)
        ensures
            match r {
                Some(x) => lookup(entries_of(entries@), name@) == Some(x@),
                None => lookup(entries_of(entries@), name@) is None,
            },
    {
        let ghost ev = entries_of(entries@);
        let mut j: usize = entries.len();
        proof {
            assert(ev.take(j as int) =~= ev);
        }
        while j > 0
            invariant
                j <= entries.len(),
                ev == entries_of(entries@),
                lookup(ev, name@) == lookup(ev.take(j as int), name@),
            decreases j,
        {
            assert(ev.take(j as int).drop_last() =~= ev.take(j - 1));
            if string_eq(&entries[j - 1].0, name) {
                return Some(copy_string(&entries[j - 1].1));
            }
            j -= 1;
        }
        None
    }

    /// The variable of `name` in the function at `ctx`, declared as the next one if it is
    /// new.
    pub fn declare(&mut self, ctx: &Vec<String>, name: &String) -> (r: String)
        requires
            old(self).wf(),
            old(self).count < usize::MAX,
        ensures
            final(self).wf(),
            r@ == match old(self).variable_of(strings_view(ctx@), name@) {
                Some(v) => v,
                None => variable_name(old(self).count as nat),
            },
            final(self).variable_of(strings_view(ctx@), name@) == Some(r@),
            forall|c: Seq<Seq<char>>, n: Seq<char>| !(c == strings_view(ctx@) && n == name@)
                ==> #[trigger] final(self).variable_of(c, n) == old(self).variable_of(c, n),
            final(self).count == old(self).count + (if old(self).variable_of(strings_view(ctx@), name@) is None { 1int } else { 0int }),
    {
        let ghost c = strings_view(ctx@);
        let ghost before = self.scopes_view();
        let found = self.find_scope(ctx);
        match found {
            Some(i) => {
                match Self::find_in_scope(&self.scopes[i].1, name) {
                    Some(v) => {
                        return v;
                    },
                    None => {},
                }
            },
            None => {},
        }
        let v = format_variable(self.count);
        let entry = (copy_string(name), copy_string(&v));
        match found {
            Some(i) => {
                let (key, mut entries) = self.scopes.remove(i);
                let ghost old_entries = entries_of(entries@);
                entries.push(entry);
                let ghost new_entries = entries_of(entries@);
                proof {
                    assert(new_entries =~= old_entries.push((name@, v@)));
                }
                self.scopes.push((key, entries));
                proof {
                    let now = self.scopes_view();
                    assert(now =~= before.remove(i as int).push((c, new_entries)));
                    assert(now.drop_last() =~= before.remove(i as int));
                    assert(new_entries.drop_last() =~= old_entries);
                    assert forall|c2: Seq<Seq<char>>| c2 != c implies #[trigger] scope_of(now, c2) == scope_of(before, c2) by {
                        lemma_scope_of_remove(before, i as int, c2);
                    }
                    assert(scope_of(now, c) == new_entries);
                }
            },
            None => {
                let scope = (copy_strings(ctx), vec![entry]);
                proof {
                    assert(entries_of(scope.1@) =~= seq![(name@, v@)]);
                }
                self.scopes.push(scope);
                proof {
                    let now = self.scopes_view();
                    assert(now =~= before.push((c, seq![(name@, v@)])));
                    assert(now.drop_last() =~= before);
                    let single: Entries = seq![(name@, v@)];
                    assert(single.drop_last() =~= Seq::<(Seq<char>, Seq<char>)>::empty());
                }
            },
        }
        self.count = self.count + 1;
        proof {
            let n0 = name@;
            assert forall|c2: Seq<Seq<char>>, n2: Seq<char>| #[trigger] self.variable_of(c2, n2) is Some
                implies exists|k: nat| k < self.count && self.variable_of(c2, n2) == Some(variable_name(k)) by {
                if c2 == c && n2 == n0 {
                    assert(self.variable_of(c2, n2) == Some(variable_name((self.count - 1) as nat)));
                } else {
                    assert(old(self).variable_of(c2, n2) is Some);
                    let k = choose|k: nat| k < old(self).count && old(self).variable_of(c2, n2) == Some(variable_name(k));
                    assert(k < self.count);
                }
            }
            assert forall|c1: Seq<Seq<char>>, n1: Seq<char>, c2: Seq<Seq<char>>, n2: Seq<char>|
                #[trigger] self.variable_of(c1, n1) is Some && self.variable_of(c1, n1) == #[trigger] self.variable_of(c2, n2)
                implies c1 == c2 && n1 == n2 by {
                let fresh = variable_name(old(self).count as nat);
                if c1 == c && n1 == n0 && !(c2 == c && n2 == n0) {
                    assert(old(self).variable_of(c2, n2) == Some(fresh));
                    let k = choose|k: nat| k < old(self).count && old(self).variable_of(c2, n2) == Some(variable_name(k));
                    lemma_variable_name_injective(k, old(self).count as nat);
                } else if c2 == c && n2 == n0 && !(c1 == c && n1 == n0) {
                    assert(old(self).variable_of(c1, n1) == Some(fresh));
                    let k = choose|k: nat| k < old(self).count && old(self).variable_of(c1, n1) == Some(variable_name(k));
                    lemma_variable_name_injective(k, old(self).count as nat);
                } else if !(c1 == c && n1 == n0) && !(c2 == c && n2 == n0) {
                    assert(old(self).variable_of(c1, n1) == old(self).variable_of(c2, n2));
                }
            }
        }
        v
    }

    /// The variable of `name` in the function at `ctx` (and `true`), else the call of a
    /// built-in of that name (and `false`).
    pub fn fetch(&self, ctx: &Vec<String>, name: &String) -> (r: Result<(String, bool), CompileError>)
        ensures
            match r {
                Ok((x, user_defined)) => if user_defined {
                    self.variable_of(strings_view(ctx@), name@) == Some(x@)
                } else {
                    self.variable_of(strings_view(ctx@), name@) is None && builtin_call(name@) == Some(x@)
                },
                Err(CompileError::Undeclared { ctx: c, name: n }) => {
                    &&& self.variable_of(strings_view(ctx@), name@) is None
                    &&& builtin_call(name@) is None
                    &&& strings_view(c@) == strings_view(ctx@)
                    &&& n@ == name@
                },
                Err(CompileError::Load(_)) => false,
            },
    {
        match self.find_scope(ctx) {
            Some(i) => {
                match Self::find_in_scope(&self.scopes[i].1, name) {
                    Some(v) => {
                        return Ok((v, true));
                    },
                    None => {},
                }
            },
            None => {},
        }
        match builtin_function(name) {
            Some(call) => Ok((call, false)),
            None => Err(CompileError::Undeclared { ctx: copy_strings(ctx), name: copy_string(name) }),
        }
    }

    /// The variables of the function at `ctx`, in the order of the names they stand for.
    pub fn list_declared_variables(&self, ctx: &Vec<String>) -> (r: Vec<String>)
        ensures
            ({
                let names = sorted_of(Set::new(|n: Seq<char>| self.variable_of(strings_view(ctx@), n) is Some));
                strings_view(r@) == Seq::new(names.len(), |i: int| self.variable_of(strings_view(ctx@), names[i])->Some_0)
            }),
            sorted_of(Set::new(|n: Seq<char>| self.variable_of(strings_view(ctx@), n) is Some)).to_set()
                == Set::new(|n: Seq<char>| self.variable_of(strings_view(ctx@), n) is Some),
    {
        let ghost c = strings_view(ctx@);
        let ghost dom = Set::new(|n: Seq<char>| self.variable_of(c, n) is Some);
        let mut r: Vec<String> = Vec::new();
        match self.find_scope(ctx) {
            Some(i) => {
                let entries = &self.scopes[i].1;
                let ghost ev = entries_of(entries@);
                let mut names = SortedStrings::new();
                let mut j: usize = 0;
                while j < entries.len()
                    invariant
                        j <= entries.len(),
                        ev == entries_of(entries@),
                        names.wf(),
                        names@.to_set() == Set::new(|n: Seq<char>| exists|k: int| 0 <= k < j && ev[k].0 == n),
                    decreases entries.len() - j,
                {
                    names.insert(copy_string(&entries[j].0));
                    proof {
                        assert(ev[j as int].0 == entries@[j as int].0@);
                        assert(names@.to_set() =~= Set::new(|n: Seq<char>| exists|k: int| 0 <= k < j + 1 && ev[k].0 == n));
                    }
                    j += 1;
                }
                proof {
                    assert forall|n: Seq<char>| #[trigger] names@.to_set().contains(n) == dom.contains(n) by {
                        lemma_lookup_some(ev, n);
                    }
                    assert(names@.to_set() =~= dom);
                    lemma_sorted_of(names@);
                }
                let mut k: usize = 0;
                while k < names.items.len()
                    invariant
                        k <= names@.len(),
                        ev == entries_of(entries@),
                        names@.to_set() == dom,
                        scope_of(self.scopes_view(), c) == ev,
                        dom == Set::new(|n: Seq<char>| self.variable_of(c, n) is Some),
                        strings_view(r@) == Seq::new(k as nat, |i: int| self.variable_of(c, names@[i])->Some_0),
                    decreases names@.len() - k,
                {
                    let ghost nk = names@[k as int];
                    proof {
                        assert(names@[k as int] == names.items@[k as int]@);
                        assert(names@.contains(nk));
                        assert(dom.contains(nk));
                    }
                    let v = Self::find_in_scope(entries, &names.items[k]);
                    match v {
                        Some(x) => {
                            let ghost before = strings_view(r@);
                            let ghost xv = x@;
                            r.push(x);
                            proof {
                                assert(strings_view(r@) =~= before.push(xv));
                                assert(strings_view(r@) =~= Seq::new((k + 1) as nat, |i: int| self.variable_of(c, names@[i])->Some_0));
                            }
                        },
                        None => {},
                    }
                    k += 1;
                }
                proof {
                    assert(sorted_of(dom) == names@);
                }
                r
            },
            None => {
                proof {
                    assert(dom =~= Set::<Seq<char>>::empty());
                    let e: Seq<Seq<char>> = seq![];
                    assert(e.to_set() =~= Set::<Seq<char>>::empty());
                    lemma_sorted_of(e);
                    assert(strings_view(r@) =~= Seq::<Seq<char>>::empty());
                }
                r
            },
        }
    }
}

/// Removing another scope's entry and appending one at the end keeps the lookup of other
/// paths.
proof fn lemma_scope_of_remove(s: Scopes, i: int, c: Seq<Seq<char>>)
    requires
        0 <= i < s.len(),
        s[i].0 != c,
    ensures
        scope_of(s.remove(i), c) == scope_of(s, c),
    decreases s.len(),
{
    if i < s.len() - 1 {
        assert(s.remove(i).drop_last() =~= s.drop_last().remove(i));
        assert(s.remove(i).last() == s.last());
        lemma_scope_of_remove(s.drop_last(), i, c);
    } else {
        assert(s.remove(i) =~= s.drop_last());
    }
}

/// Two names, of the same function or not, never share a variable.
pub proof fn law_variables_distinct(store: IdentifierStore, c1: Seq<Seq<char>>, n1: Seq<char>, c2: Seq<Seq<char>>, n2: Seq<char>)
    requires
        store.wf(),
        store.variable_of(c1, n1) is Some,
        store.variable_of(c1, n1) == store.variable_of(c2, n2),
    ensures
        c1 == c2,
        n1 == n2,
{
}

// ---------------------------------------------------------------------------
// Collecting the declarations
// ---------------------------------------------------------------------------

/// The store as a mathematical value: the variable of each (function path, name).
pub struct StoreV {
    pub vars: Map<(Seq<Seq<char>>, Seq<char>), Seq<char>>,
    pub count: nat,
}

pub open spec fn store_view(s: IdentifierStore) -> StoreV {
    StoreV {
        vars: Map::new(
            |k: (Seq<Seq<char>>, Seq<char>)| s.variable_of(k.0, k.1) is Some,
            |k: (Seq<Seq<char>>, Seq<char>)| s.variable_of(k.0, k.1)->Some_0,
        ),
        count: s.count as nat,
    }
}

/// The empty store.
pub open spec fn empty_store() -> StoreV {
    StoreV { vars: Map::empty(), count: 0 }
}

/// `declare` on the store: the variable of the name, the next one if it had none.
pub open spec fn declare_v(st: StoreV, c: Seq<Seq<char>>, n: Seq<char>) -> (StoreV, Seq<char>) {
    if st.vars.contains_key((c, n)) {
        (st, st.vars[(c, n)])
    } else {
        (StoreV { vars: st.vars.insert((c, n), variable_name(st.count)), count: st.count + 1 }, variable_name(st.count))
    }
}

/// `b` holds every variable of `a`, and its count is no smaller.
pub open spec fn grows(a: StoreV, b: StoreV) -> bool {
    &&& a.count <= b.count
    &&& forall|k: (Seq<Seq<char>>, Seq<char>)| #[trigger] a.vars.contains_key(k) ==> b.vars.contains_key(k) && b.vars[k] == a.vars[k]
}

/// The names that an assignment to `e` declares: a name, or the names of a tuple.
pub open spec fn collect_target(e: OExprV, c: Seq<Seq<char>>, st: StoreV) -> StoreV
    decreases e,
{
    match e {
        OExprV::Identifier(n) => declare_v(st, c, n).0,
        OExprV::Tuple(es) => collect_targets(es, c, st),
        _ => st,
    }
}

pub open spec fn collect_targets(es: Seq<OExprV>, c: Seq<Seq<char>>, st: StoreV) -> StoreV
    decreases es,
{
    if es.len() == 0 {
        st
    } else {
        collect_target(es.last(), c, collect_targets(es.drop_last(), c, st))
    }
}

/// The names declared one after the other.
pub open spec fn declare_all(ns: Seq<Seq<char>>, c: Seq<Seq<char>>, st: StoreV) -> StoreV
    decreases ns.len(),
{
    if ns.len() == 0 {
        st
    } else {
        declare_v(declare_all(ns.drop_last(), c, st), c, ns.last()).0
    }
}

/// The declarations of a statement: assigned names, loop variables, and each function with
/// its arguments, whose body is collected under the function's variable.
pub open spec fn collect_stmt(s: OStmtV, c: Seq<Seq<char>>, st: StoreV) -> StoreV
    decreases s,
{
    match s {
        OStmtV::Assign(t, _) => collect_target(t, c, st),
        OStmtV::If(_, b, o) => match o {
            Some(o) => collect_stmts(o, c, collect_stmts(b, c, st)),
            None => collect_stmts(b, c, st),
        },
        OStmtV::For(t, _, b) => collect_stmts(b, c, collect_target(t, c, st)),
        OStmtV::FunctionDef(n, b, a) => {
            let (st1, m) = declare_v(st, c, n);
            collect_stmts(b, c.push(m), declare_all(a, c.push(m), st1))
        },
        _ => st,
    }
}

pub open spec fn collect_stmts(ss: Seq<OStmtV>, c: Seq<Seq<char>>, st: StoreV) -> StoreV
    decreases ss,
{
    if ss.len() == 0 {
        st
    } else {
        collect_stmt(ss.last(), c, collect_stmts(ss.drop_last(), c, st))
    }
}

proof fn lemma_declare_grows(st: StoreV, c: Seq<Seq<char>>, n: Seq<char>)
    ensures
        grows(st, declare_v(st, c, n).0),
        declare_v(st, c, n).0.vars.contains_key((c, n)),
        declare_v(st, c, n).0.vars[(c, n)] == declare_v(st, c, n).1,
{
}

proof fn lemma_grows_trans(a: StoreV, b: StoreV, d: StoreV)
    requires
        grows(a, b),
        grows(b, d),
    ensures
        grows(a, d),
{
    assert forall|k: (Seq<Seq<char>>, Seq<char>)| #[trigger] a.vars.contains_key(k) implies d.vars.contains_key(k) && d.vars[k] == a.vars[k] by {
        assert(b.vars.contains_key(k));
    }
}

proof fn lemma_target_grows(e: OExprV, c: Seq<Seq<char>>, st: StoreV)
    ensures
        grows(st, collect_target(e, c, st)),
    decreases e,
{
    match e {
        OExprV::Identifier(n) => lemma_declare_grows(st, c, n),
        OExprV::Tuple(es) => lemma_targets_grows(es, c, st),
        _ => {},
    }
}

proof fn lemma_targets_grows(es: Seq<OExprV>, c: Seq<Seq<char>>, st: StoreV)
    ensures
        grows(st, collect_targets(es, c, st)),
    decreases es,
{
    if es.len() > 0 {
        lemma_targets_grows(es.drop_last(), c, st);
        let mid = collect_targets(es.drop_last(), c, st);
        lemma_target_grows(es.last(), c, mid);
        lemma_grows_trans(st, mid, collect_targets(es, c, st));
    }
}

proof fn lemma_declare_all_grows(ns: Seq<Seq<char>>, c: Seq<Seq<char>>, st: StoreV)
    ensures
        grows(st, declare_all(ns, c, st)),
        forall|i: int| 0 <= i < ns.len() ==> #[trigger] declare_all(ns, c, st).vars.contains_key((c, ns[i])),
    decreases ns.len(),
{
    if ns.len() > 0 {
        let mid = declare_all(ns.drop_last(), c, st);
        lemma_declare_all_grows(ns.drop_last(), c, st);
        lemma_declare_grows(mid, c, ns.last());
        lemma_grows_trans(st, mid, declare_all(ns, c, st));
        assert forall|i: int| 0 <= i < ns.len() implies #[trigger] declare_all(ns, c, st).vars.contains_key((c, ns[i])) by {
            if i < ns.len() - 1 {
                assert(ns.drop_last()[i] == ns[i]);
                assert(mid.vars.contains_key((c, ns[i])));
            }
        }
    }
}

proof fn lemma_stmt_grows(s: OStmtV, c: Seq<Seq<char>>, st: StoreV)
    ensures
        grows(st, collect_stmt(s, c, st)),
    decreases s,
{
    match s {
        OStmtV::Assign(t, _) => lemma_target_grows(t, c, st),
        OStmtV::If(_, b, o) => {
            lemma_stmts_grows(b, c, st);
            match o {
                Some(o) => {
                    let mid = collect_stmts(b, c, st);
                    lemma_stmts_grows(o, c, mid);
                    lemma_grows_trans(st, mid, collect_stmts(o, c, mid));
                },
                None => {},
            }
        },
        OStmtV::For(t, _, b) => {
            lemma_target_grows(t, c, st);
            let mid = collect_target(t, c, st);
            lemma_stmts_grows(b, c, mid);
            lemma_grows_trans(st, mid, collect_stmts(b, c, mid));
        },
        OStmtV::FunctionDef(n, b, a) => {
            let (st1, m) = declare_v(st, c, n);
            lemma_declare_grows(st, c, n);
            let st2 = declare_all(a, c.push(m), st1);
            lemma_declare_all_grows(a, c.push(m), st1);
            lemma_grows_trans(st, st1, st2);
            lemma_stmts_grows(b, c.push(m), st2);
            lemma_grows_trans(st, st2, collect_stmts(b, c.push(m), st2));
        },
        _ => {},
    }
}

proof fn lemma_stmts_grows(ss: Seq<OStmtV>, c: Seq<Seq<char>>, st: StoreV)
    ensures
        grows(st, collect_stmts(ss, c, st)),
    decreases ss,
{
    if ss.len() > 0 {
        lemma_stmts_grows(ss.drop_last(), c, st);
        let mid = collect_stmts(ss.drop_last(), c, st);
        lemma_stmt_grows(ss.last(), c, mid);
        lemma_grows_trans(st, mid, collect_stmts(ss, c, st));
    }
}

/// Collecting a prefix gives a store that the whole collection grows.
proof fn lemma_targets_prefix(es: Seq<OExprV>, c: Seq<Seq<char>>, st: StoreV, k: int)
    requires
        0 <= k <= es.len(),
    ensures
        grows(collect_targets(es.take(k), c, st), collect_targets(es, c, st)),
    decreases es.len() - k,
{
    if k < es.len() {
        lemma_targets_prefix(es, c, st, k + 1);
        assert(es.take(k + 1).drop_last() =~= es.take(k));
        lemma_target_grows(es[k], c, collect_targets(es.take(k), c, st));
        lemma_grows_trans(collect_targets(es.take(k), c, st), collect_targets(es.take(k + 1), c, st), collect_targets(es, c, st));
    } else {
        assert(es.take(k) =~= es);
    }
}

proof fn lemma_stmts_prefix(ss: Seq<OStmtV>, c: Seq<Seq<char>>, st: StoreV, k: int)
    requires
        0 <= k <= ss.len(),
    ensures
        grows(collect_stmts(ss.take(k), c, st), collect_stmts(ss, c, st)),
    decreases ss.len() - k,
{
    if k < ss.len() {
        lemma_stmts_prefix(ss, c, st, k + 1);
        assert(ss.take(k + 1).drop_last() =~= ss.take(k));
        lemma_stmt_grows(ss[k], c, collect_stmts(ss.take(k), c, st));
        lemma_grows_trans(collect_stmts(ss.take(k), c, st), collect_stmts(ss.take(k + 1), c, st), collect_stmts(ss, c, st));
    } else {
        assert(ss.take(k) =~= ss);
    }
}

proof fn lemma_declare_all_prefix(ns: Seq<Seq<char>>, c: Seq<Seq<char>>, st: StoreV, k: int)
    requires
        0 <= k <= ns.len(),
    ensures
        grows(declare_all(ns.take(k), c, st), declare_all(ns, c, st)),
    decreases ns.len() - k,
{
    if k < ns.len() {
        lemma_declare_all_prefix(ns, c, st, k + 1);
        assert(ns.take(k + 1).drop_last() =~= ns.take(k));
        lemma_declare_grows(declare_all(ns.take(k), c, st), c, ns[k]);
        lemma_grows_trans(declare_all(ns.take(k), c, st), declare_all(ns.take(k + 1), c, st), declare_all(ns, c, st));
    } else {
        assert(ns.take(k) =~= ns);
    }
}

/// `declare`, stated on the store as a value.
fn declare_name(store: &mut IdentifierStore, ctx: &Vec<String>, name: &String) -> (r: String)
    requires
        old(store).wf(),
        old(store).count < usize::MAX,
    ensures
        final(store).wf(),
        (store_view(*final(store)), r@) == declare_v(store_view(*old(store)), strings_view(ctx@), name@),
{
    let ghost before = store_view(*store);
    let r = store.declare(ctx, name);
    proof {
        let c = strings_view(ctx@);
        let d = declare_v(before, c, name@);
        assert(store_view(*store).vars =~= d.0.vars);
    }
    r
}

/// Declares the names that an assignment to `expr` binds.
pub fn collect_from_tuple(expr: &OptpyExpression, ctx: &Vec<String>, store: &mut IdentifierStore)
    requires
        old(store).wf(),
        collect_target(expr@, strings_view(ctx@), store_view(*old(store))).count < usize::MAX,
    ensures
        final(store).wf(),
        store_view(*final(store)) == collect_target(expr@, strings_view(ctx@), store_view(*old(store))),
    decreases expr,
{
    let ghost c = strings_view(ctx@);
    let ghost st0 = store_view(*store);
    match expr {
        OptpyExpression::Identifier { name } => {
            proof {
                lemma_declare_grows(st0, c, name@);
            }
            declare_name(store, ctx, name);
        },
        OptpyExpression::Tuple { elements } => {
            proof {
                assert(expr@->Tuple_0 =~= oviews(elements@));
            }
            collect_from_tuples(elements, ctx, store);
        },
        _ => {},
    }
}

fn collect_from_tuples(elements: &Vec<OptpyExpression>, ctx: &Vec<String>, store: &mut IdentifierStore)
    requires
        old(store).wf(),
        collect_targets(oviews(elements@), strings_view(ctx@), store_view(*old(store))).count < usize::MAX,
    ensures
        final(store).wf(),
        store_view(*final(store)) == collect_targets(oviews(elements@), strings_view(ctx@), store_view(*old(store))),
    decreases elements,
{
    let ghost c = strings_view(ctx@);
    let ghost st0 = store_view(*store);
    let ghost es = oviews(elements@);
    proof {
        assert(es.take(0) =~= Seq::<OExprV>::empty());
    }
    let mut i: usize = 0;
    while i < elements.len()
        invariant
            i <= elements.len(),
            es == oviews(elements@),
            c == strings_view(ctx@),
            store.wf(),
            collect_targets(es, c, st0).count < usize::MAX,
            store_view(*store) == collect_targets(es.take(i as int), c, st0),
        decreases elements.len() - i,
    {
        proof {
            assert(es.take(i + 1).drop_last() =~= es.take(i as int));
            assert(es.take(i + 1).last() == elements@[i as int]@);
            lemma_targets_prefix(es, c, st0, i + 1);
        }
        collect_from_tuple(&elements[i], ctx, store);
        i += 1;
    }
    proof {
        assert(es.take(i as int) =~= es);
    }
}

/// Declares the variables of the statements: assigned names, loop variables, and each
/// function with its arguments, whose body is collected under the function's variable.
pub fn collect_declared_variables(statements: &Vec<OptpyStatement>, ctx: &mut Vec<String>, store: &mut IdentifierStore)
    requires
        old(store).wf(),
        collect_stmts(sviews(statements@), strings_view(old(ctx)@), store_view(*old(store))).count < usize::MAX,
    ensures
        final(store).wf(),
        store_view(*final(store)) == collect_stmts(sviews(statements@), strings_view(old(ctx)@), store_view(*old(store))),
        final(ctx)@ == old(ctx)@,
    decreases statements,
{
    let ghost c = strings_view(ctx@);
    let ghost st0 = store_view(*store);
    let ghost ss = sviews(statements@);
    let ghost ctx0 = ctx@;
    let mut i: usize = 0;
    proof {
        assert(ss.take(0) =~= Seq::<OStmtV>::empty());
    }
    while i < statements.len()
        invariant
            i <= statements.len(),
            ss == sviews(statements@),
            ctx@ == ctx0,
            c == strings_view(ctx0),
            store.wf(),
            collect_stmts(ss, c, st0).count < usize::MAX,
            store_view(*store) == collect_stmts(ss.take(i as int), c, st0),
        decreases statements.len() - i,
    {
        proof {
            assert(ss.take(i + 1).drop_last() =~= ss.take(i as int));
            assert(ss.take(i + 1).last() == statements@[i as int]@);
            lemma_stmts_prefix(ss, c, st0, i + 1);
        }
        collect_statement(&statements[i], ctx, store);
        i += 1;
    }
    proof {
        assert(ss.take(i as int) =~= ss);
    }
}

fn collect_statement(statement: &OptpyStatement, ctx: &mut Vec<String>, store: &mut IdentifierStore)
    requires
        old(store).wf(),
        collect_stmt(statement@, strings_view(old(ctx)@), store_view(*old(store))).count < usize::MAX,
    ensures
        final(store).wf(),
        store_view(*final(store)) == collect_stmt(statement@, strings_view(old(ctx)@), store_view(*old(store))),
        final(ctx)@ == old(ctx)@,
    decreases statement,
{
    let ghost c = strings_view(ctx@);
    let ghost st0 = store_view(*store);
    let ghost sv = statement@;
    match statement {
        OptpyStatement::Assign { target, .. } => {
            collect_from_tuple(target, ctx, store);
        },
        OptpyStatement::If { body, orelse, .. } => {
            proof {
                assert(sv->If_1 =~= sviews(body@));
                lemma_stmts_grows(sviews(body@), c, st0);
                if orelse is Some {
                    assert(sv->If_2->Some_0 =~= sviews(orelse->Some_0@));
                    lemma_stmts_grows(sviews(orelse->Some_0@), c, collect_stmts(sviews(body@), c, st0));
                }
            }
            collect_declared_variables(body, ctx, store);
            match orelse {
                Some(o) => {
                    collect_declared_variables(o, ctx, store);
                },
                None => {},
            }
        },
        OptpyStatement::For { target, body, .. } => {
            proof {
                assert(sv->For_2 =~= sviews(body@));
                lemma_stmts_grows(sviews(body@), c, collect_target(target@, c, st0));
            }
            collect_from_tuple(target, ctx, store);
            collect_declared_variables(body, ctx, store);
        },
        OptpyStatement::FunctionDef { name, body, args } => {
            let ghost (st1, m) = declare_v(st0, c, name@);
            let ghost c2 = c.push(m);
            let ghost st2 = declare_all(strings_view(args@), c2, st1);
            proof {
                assert(sv->FunctionDef_1 =~= sviews(body@));
                lemma_stmts_grows(sviews(body@), c2, st2);
                lemma_declare_all_grows(strings_view(args@), c2, st1);
                lemma_declare_grows(st0, c, name@);
            }
            let name = declare_name(store, ctx, name);
            let ghost ctx0 = ctx@;
            ctx.push(name);
            proof {
                assert(strings_view(ctx@) =~= c2);
                assert(strings_view(args@).take(0) =~= Seq::<Seq<char>>::empty());
            }
            let mut i: usize = 0;
            while i < args.len()
                invariant
                    i <= args.len(),
                    strings_view(ctx@) == c2,
                    ctx@ == ctx0.push(ctx@.last()),
                    ctx@.len() == ctx0.len() + 1,
                    store.wf(),
                    st2 == declare_all(strings_view(args@), c2, st1),
                    st2.count < usize::MAX,
                    store_view(*store) == declare_all(strings_view(args@).take(i as int), c2, st1),
                decreases args.len() - i,
            {
                proof {
                    let ns = strings_view(args@);
                    assert(ns.take(i + 1).drop_last() =~= ns.take(i as int));
                    assert(ns.take(i + 1).last() == args@[i as int]@);
                    lemma_declare_all_prefix(ns, c2, st1, i + 1);
                    lemma_declare_grows(declare_all(ns.take(i as int), c2, st1), c2, args@[i as int]@);
                }
                declare_name(store, ctx, &args[i]);
                i += 1;
            }
            proof {
                assert(strings_view(args@).take(i as int) =~= strings_view(args@));
            }
            collect_declared_variables(body, ctx, store);
            ctx.pop();
            proof {
                assert(ctx@ =~= ctx0);
            }
        },
        _ => {},
    }
}

// ---------------------------------------------------------------------------
// Resolving the names
// ---------------------------------------------------------------------------

/// An undeclared name, with the path of its function.
pub open spec fn undeclared_view(e: CompileError) -> (Seq<Seq<char>>, Seq<char>) {
    match e {
        CompileError::Undeclared { ctx, name } => (strings_view(ctx@), name@),
        CompileError::Load(_) => (seq![], seq![]),
    }
}

/// `fetch` on the store: the variable of the name (and `true`), else the call of the
/// built-in (and `false`), else the name is undeclared.
pub open spec fn fetch_v(st: StoreV, c: Seq<Seq<char>>, n: Seq<char>) -> Result<(Seq<char>, bool), (Seq<Seq<char>>, Seq<char>)> {
    if st.vars.contains_key((c, n)) {
        Ok((st.vars[(c, n)], true))
    } else {
        match builtin_call(n) {
            Some(x) => Ok((x, false)),
            None => Err((c, n)),
        }
    }
}

/// An expression with its names resolved: a name becomes its variable, or the call of the
/// built-in of that name; the first undeclared name fails.
pub open spec fn resolve_expr_v(e: OExprV, c: Seq<Seq<char>>, st: StoreV) -> Result<OExprV, (Seq<Seq<char>>, Seq<char>)>
    decreases e,
{
    match e {
        OExprV::Identifier(n) => match fetch_v(st, c, n) {
            Err(x) => Err(x),
            Ok((m, _)) => Ok(OExprV::Identifier(m)),
        },
        OExprV::Call(f, args) => match resolve_expr_v(*f, c, st) {
            Err(x) => Err(x),
            Ok(f2) => match resolve_exprs_v(args, c, st) {
                Err(x) => Err(x),
                Ok(a) => Ok(OExprV::Call(Box::new(f2), a)),
            },
        },
        OExprV::Binop(a, b, op) => match resolve_expr_v(*a, c, st) {
            Err(x) => Err(x),
            Ok(a2) => match resolve_expr_v(*b, c, st) {
                Err(x) => Err(x),
                Ok(b2) => Ok(OExprV::Binop(Box::new(a2), Box::new(b2), op)),
            },
        },
        OExprV::Tuple(es) => match resolve_exprs_v(es, c, st) {
            Err(x) => Err(x),
            Ok(v) => Ok(OExprV::Tuple(v)),
        },
        OExprV::Attribute(v, n) => match resolve_expr_v(*v, c, st) {
            Err(x) => Err(x),
            Ok(v2) => Ok(OExprV::Attribute(Box::new(v2), n)),
        },
        OExprV::Compare(vs, ops) => match resolve_exprs_v(vs, c, st) {
            Err(x) => Err(x),
            Ok(v) => Ok(OExprV::Compare(v, ops)),
        },
        OExprV::Number(n) => Ok(OExprV::Number(n)),
        OExprV::Subscript(a, b) => match resolve_expr_v(*a, c, st) {
            Err(x) => Err(x),
            Ok(a2) => match resolve_expr_v(*b, c, st) {
                Err(x) => Err(x),
                Ok(b2) => Ok(OExprV::Subscript(Box::new(a2), Box::new(b2))),
            },
        },
    }
}

pub open spec fn resolve_exprs_v(es: Seq<OExprV>, c: Seq<Seq<char>>, st: StoreV) -> Result<Seq<OExprV>, (Seq<Seq<char>>, Seq<char>)>
    decreases es,
{
    if es.len() == 0 {
        Ok(seq![])
    } else {
        match resolve_exprs_v(es.drop_last(), c, st) {
            Err(x) => Err(x),
            Ok(v) => match resolve_expr_v(es.last(), c, st) {
                Err(x) => Err(x),
                Ok(e) => Ok(v.push(e)),
            },
        }
    }
}

/// The names fetched in order, or the first undeclared one.
pub open spec fn fetch_all_v(ns: Seq<Seq<char>>, c: Seq<Seq<char>>, st: StoreV) -> Result<Seq<(Seq<char>, bool)>, (Seq<Seq<char>>, Seq<char>)>
    decreases ns.len(),
{
    if ns.len() == 0 {
        Ok(seq![])
    } else {
        match fetch_all_v(ns.drop_last(), c, st) {
            Err(x) => Err(x),
            Ok(v) => match fetch_v(st, c, ns.last()) {
                Err(x) => Err(x),
                Ok(f) => Ok(v.push(f)),
            },
        }
    }
}

/// A statement with its names resolved: `None` where resolving panics (a declaration of
/// the variables met, or a function or argument that names a built-in).
pub open spec fn resolve_stmt_v(s: OStmtV, c: Seq<Seq<char>>, st: StoreV) -> Option<Result<OStmtV, (Seq<Seq<char>>, Seq<char>)>>
    decreases s,
{
    match s {
        OStmtV::Initialize(_) => None,
        OStmtV::Expression(e) => Some(
            match resolve_expr_v(e, c, st) {
                Err(x) => Err(x),
                Ok(e2) => Ok(OStmtV::Expression(e2)),
            },
        ),
        OStmtV::Assign(t, v) => Some(
            match resolve_expr_v(t, c, st) {
                Err(x) => Err(x),
                Ok(t2) => match resolve_expr_v(v, c, st) {
                    Err(x) => Err(x),
                    Ok(v2) => Ok(OStmtV::Assign(t2, v2)),
                },
            },
        ),
        OStmtV::If(t, b, o) => match resolve_expr_v(t, c, st) {
            Err(x) => Some(Err(x)),
            Ok(t2) => match resolve_stmts_v(b, c, st) {
                None => None,
                Some(Err(x)) => Some(Err(x)),
                Some(Ok(b2)) => match o {
                    None => Some(Ok(OStmtV::If(t2, b2, None))),
                    Some(o) => match resolve_stmts_v(o, c, st) {
                        None => None,
                        Some(Err(x)) => Some(Err(x)),
                        Some(Ok(o2)) => Some(Ok(OStmtV::If(t2, b2, Some(o2)))),
                    },
                },
            },
        },
        OStmtV::For(t, it, b) => match resolve_expr_v(t, c, st) {
            Err(x) => Some(Err(x)),
            Ok(t2) => match resolve_expr_v(it, c, st) {
                Err(x) => Some(Err(x)),
                Ok(it2) => match resolve_stmts_v(b, c, st) {
                    None => None,
                    Some(Err(x)) => Some(Err(x)),
                    Some(Ok(b2)) => Some(Ok(OStmtV::For(t2, it2, b2))),
                },
            },
        },
        OStmtV::FunctionDef(n, b, a) => match fetch_v(st, c, n) {
            Err(x) => Some(Err(x)),
            Ok((m, user_defined)) => if !user_defined {
                None
            } else {
                match fetch_all_v(a, c.push(m), st) {
                    Err(x) => Some(Err(x)),
                    Ok(fs) => if exists|i: int| 0 <= i < fs.len() && !(#[trigger] fs[i]).1 {
                        None
                    } else {
                        match resolve_stmts_v(b, c.push(m), st) {
                            None => None,
                            Some(Err(x)) => Some(Err(x)),
                            Some(Ok(b2)) => Some(Ok(OStmtV::FunctionDef(m, b2, fs.map_values(|f: (Seq<char>, bool)| f.0)))),
                        }
                    },
                }
            },
        },
        OStmtV::Return(v) => Some(
            match v {
                None => Ok(OStmtV::Return(None)),
                Some(e) => match resolve_expr_v(e, c, st) {
                    Err(x) => Err(x),
                    Ok(e2) => Ok(OStmtV::Return(Some(e2))),
                },
            },
        ),
    }
}

pub open spec fn resolve_stmts_v(ss: Seq<OStmtV>, c: Seq<Seq<char>>, st: StoreV) -> Option<Result<Seq<OStmtV>, (Seq<Seq<char>>, Seq<char>)>>
    decreases ss,
{
    if ss.len() == 0 {
        Some(Ok(seq![]))
    } else {
        match resolve_stmts_v(ss.drop_last(), c, st) {
            None => None,
            Some(Err(x)) => Some(Err(x)),
            Some(Ok(v)) => match resolve_stmt_v(ss.last(), c, st) {
                None => None,
                Some(Err(x)) => Some(Err(x)),
                Some(Ok(s)) => Some(Ok(v.push(s))),
            },
        }
    }
}

proof fn lemma_resolve_exprs_stops(v: Seq<OExprV>, c: Seq<Seq<char>>, st: StoreV, k: int)
    requires
        0 < k <= v.len(),
        resolve_exprs_v(v.take(k), c, st) is Err,
    ensures
        resolve_exprs_v(v, c, st) == resolve_exprs_v(v.take(k), c, st),
    decreases v.len() - k,
{
    if k < v.len() {
        assert(v.take(k + 1).drop_last() =~= v.take(k));
        lemma_resolve_exprs_stops(v, c, st, k + 1);
    } else {
        assert(v.take(k) =~= v);
    }
}

proof fn lemma_fetch_all_stops(v: Seq<Seq<char>>, c: Seq<Seq<char>>, st: StoreV, k: int)
    requires
        0 < k <= v.len(),
        fetch_all_v(v.take(k), c, st) is Err,
    ensures
        fetch_all_v(v, c, st) == fetch_all_v(v.take(k), c, st),
    decreases v.len() - k,
{
    if k < v.len() {
        assert(v.take(k + 1).drop_last() =~= v.take(k));
        lemma_fetch_all_stops(v, c, st, k + 1);
    } else {
        assert(v.take(k) =~= v);
    }
}

proof fn lemma_resolve_stmts_stops(v: Seq<OStmtV>, c: Seq<Seq<char>>, st: StoreV, k: int)
    requires
        0 < k <= v.len(),
        resolve_stmts_v(v.take(k), c, st) matches Some(Err(_)),
    ensures
        resolve_stmts_v(v, c, st) == resolve_stmts_v(v.take(k), c, st),
    decreases v.len() - k,
{
    if k < v.len() {
        assert(v.take(k + 1).drop_last() =~= v.take(k));
        lemma_resolve_stmts_stops(v, c, st, k + 1);
    } else {
        assert(v.take(k) =~= v);
    }
}

proof fn lemma_resolve_stmts_prefix(v: Seq<OStmtV>, c: Seq<Seq<char>>, st: StoreV, k: int)
    requires
        0 <= k <= v.len(),
        resolve_stmts_v(v, c, st) is Some,
    ensures
        resolve_stmts_v(v.take(k), c, st) is Some,
    decreases v.len() - k,
{
    if k < v.len() {
        lemma_resolve_stmts_prefix(v, c, st, k + 1);
        assert(v.take(k + 1).drop_last() =~= v.take(k));
    } else {
        assert(v.take(k) =~= v);
    }
}

/// `fetch`, stated on the store as a value.
fn fetch_name(store: &IdentifierStore, ctx: &Vec<String>, name: &String) -> (r: Result<(String, bool), CompileError>)
    ensures
        match r {
            Ok((x, u)) => fetch_v(store_view(*store), strings_view(ctx@), name@) == Ok::<(Seq<char>, bool), (Seq<Seq<char>>, Seq<char>)>((x@, u)),
            Err(e) => e is Undeclared && fetch_v(store_view(*store), strings_view(ctx@), name@)
                == Err::<(Seq<char>, bool), (Seq<Seq<char>>, Seq<char>)>(undeclared_view(e)),
        },
{
    store.fetch(ctx, name)
}

/// Resolves the names of an expression in the function at `ctx`.
pub fn resolve_expr(expr: &OptpyExpression, ctx: &Vec<String>, store: &IdentifierStore) -> (r: Result<OptpyExpression, CompileError>)
    ensures
        match r {
            Ok(e) => resolve_expr_v(expr@, strings_view(ctx@), store_view(*store)) == Ok::<OExprV, (Seq<Seq<char>>, Seq<char>)>(e@),
            Err(e) => e is Undeclared && resolve_expr_v(expr@, strings_view(ctx@), store_view(*store))
                == Err::<OExprV, (Seq<Seq<char>>, Seq<char>)>(undeclared_view(e)),
        },
    decreases expr,
{
    let ghost ev = expr@;
    match expr {
        OptpyExpression::Identifier { name } => match fetch_name(store, ctx, name) {
            Err(e) => Err(e),
            Ok((m, _)) => Ok(OptpyExpression::Identifier { name: m }),
        },
        OptpyExpression::Call { function, args } => {
            let f = match resolve_expr(function, ctx, store) {
                Ok(x) => x,
                Err(e) => return Err(e),
            };
            proof {
                assert(ev->Call_1 =~= oviews(args@));
            }
            let a = match resolve_expressions(args, ctx, store) {
                Ok(x) => x,
                Err(e) => return Err(e),
            };
            let r = OptpyExpression::Call { function: Box::new(f), args: a };
            proof {
                assert(r@->Call_1 =~= oviews(a@));
            }
            Ok(r)
        },
        OptpyExpression::Binop { a, b, op } => {
            let a2 = match resolve_expr(a, ctx, store) {
                Ok(x) => x,
                Err(e) => return Err(e),
            };
            let b2 = match resolve_expr(b, ctx, store) {
                Ok(x) => x,
                Err(e) => return Err(e),
            };
            Ok(OptpyExpression::Binop { a: Box::new(a2), b: Box::new(b2), op: *op })
        },
        OptpyExpression::Tuple { elements } => {
            proof {
                assert(ev->Tuple_0 =~= oviews(elements@));
            }
            let v = match resolve_expressions(elements, ctx, store) {
                Ok(x) => x,
                Err(e) => return Err(e),
            };
            let r = OptpyExpression::Tuple { elements: v };
            proof {
                assert(r@->Tuple_0 =~= oviews(v@));
            }
            Ok(r)
        },
        OptpyExpression::Attribute { value, name } => {
            let v = match resolve_expr(value, ctx, store) {
                Ok(x) => x,
                Err(e) => return Err(e),
            };
            Ok(OptpyExpression::Attribute { value: Box::new(v), name: copy_string(name) })
        },
        OptpyExpression::Compare { values, ops } => {
            proof {
                assert(ev->Compare_0 =~= oviews(values@));
            }
            let v = match resolve_expressions(values, ctx, store) {
                Ok(x) => x,
                Err(e) => return Err(e),
            };
            let r = OptpyExpression::Compare { values: v, ops: copy_comparisons(ops) };
            proof {
                assert(r@->Compare_0 =~= oviews(v@));
            }
            Ok(r)
        },
        OptpyExpression::Number { value } => {
            let r = OptpyExpression::Number { value: copy_number(value) };
            assert(r@ == ev);
            Ok(r)
        },
        OptpyExpression::Subscript { a, b } => {
            let a2 = match resolve_expr(a, ctx, store) {
                Ok(x) => x,
                Err(e) => return Err(e),
            };
            let b2 = match resolve_expr(b, ctx, store) {
                Ok(x) => x,
                Err(e) => return Err(e),
            };
            Ok(OptpyExpression::Subscript { a: Box::new(a2), b: Box::new(b2) })
        },
    }
}

/// Resolves the names of the expressions in order, stopping at the first undeclared one.
pub fn resolve_expressions(expressions: &Vec<OptpyExpression>, ctx: &Vec<String>, store: &IdentifierStore) -> (r: Result<Vec<OptpyExpression>, CompileError>)
    ensures
        match r {
            Ok(v) => resolve_exprs_v(oviews(expressions@), strings_view(ctx@), store_view(*store))
                == Ok::<Seq<OExprV>, (Seq<Seq<char>>, Seq<char>)>(oviews(v@)),
            Err(e) => e is Undeclared && resolve_exprs_v(oviews(expressions@), strings_view(ctx@), store_view(*store))
                == Err::<Seq<OExprV>, (Seq<Seq<char>>, Seq<char>)>(undeclared_view(e)),
        },
    decreases expressions,
{
    let ghost es = oviews(expressions@);
    let ghost c = strings_view(ctx@);
    let ghost st = store_view(*store);
    let mut r: Vec<OptpyExpression> = Vec::new();
    let mut i: usize = 0;
    proof {
        assert(es.take(0) =~= Seq::<OExprV>::empty());
        assert(oviews(r@) =~= Seq::<OExprV>::empty());
    }
    while i < expressions.len()
        invariant
            i <= expressions.len(),
            es == oviews(expressions@),
            c == strings_view(ctx@),
            st == store_view(*store),
            resolve_exprs_v(es.take(i as int), c, st) == Ok::<Seq<OExprV>, (Seq<Seq<char>>, Seq<char>)>(oviews(r@)),
        decreases expressions.len() - i,
    {
        proof {
            assert(es.take(i + 1).drop_last() =~= es.take(i as int));
            assert(es.take(i + 1).last() == expressions@[i as int]@);
        }
        let e = match resolve_expr(&expressions[i], ctx, store) {
            Ok(x) => x,
            Err(e) => {
                proof {
                    lemma_resolve_exprs_stops(es, c, st, i + 1);
                }
                return Err(e);
            },
        };
        let ghost before = oviews(r@);
        let ghost xv = e@;
        r.push(e);
        proof {
            assert(oviews(r@) =~= before.push(xv));
        }
        i += 1;
    }
    proof {
        assert(es.take(i as int) =~= es);
    }
    Ok(r)
}

/// Resolves the names of a statement in the function at `ctx`; a function's body is
/// resolved under the function's variable.
#[verifier::loop_isolation(false)]
pub fn resolve_statement(statement: &OptpyStatement, ctx: &mut Vec<String>, store: &IdentifierStore) -> (r: Result<OptpyStatement, CompileError>)
    requires
        resolve_stmt_v(statement@, strings_view(old(ctx)@), store_view(*store)) is Some,
    ensures
        final(ctx)@ == old(ctx)@,
        match r {
            Ok(s) => resolve_stmt_v(statement@, strings_view(old(ctx)@), store_view(*store))
                == Some(Ok::<OStmtV, (Seq<Seq<char>>, Seq<char>)>(s@)),
            Err(e) => e is Undeclared && resolve_stmt_v(statement@, strings_view(old(ctx)@), store_view(*store))
                == Some(Err::<OStmtV, (Seq<Seq<char>>, Seq<char>)>(undeclared_view(e))),
        },
    decreases statement,
{
    let ghost sv = statement@;
    let ghost c = strings_view(ctx@);
    let ghost st = store_view(*store);
    match statement {
        OptpyStatement::Initialize { .. } => {
            proof {
                assert(false);
            }
            Err(CompileError::Load(LoadError::Statement))
        },
        OptpyStatement::Expression { inner } => match resolve_expr(inner, ctx, store) {
            Ok(x) => Ok(OptpyStatement::Expression { inner: x }),
            Err(e) => Err(e),
        },
        OptpyStatement::Assign { target, value } => {
            let t = match resolve_expr(target, ctx, store) {
                Ok(x) => x,
                Err(e) => return Err(e),
            };
            let v = match resolve_expr(value, ctx, store) {
                Ok(x) => x,
                Err(e) => return Err(e),
            };
            Ok(OptpyStatement::Assign { target: t, value: v })
        },
        OptpyStatement::If { test, body, orelse } => {
            proof {
                assert(sv->If_1 =~= sviews(body@));
                if orelse is Some {
                    assert(sv->If_2->Some_0 =~= sviews(orelse->Some_0@));
                }
            }
            let t = match resolve_expr(test, ctx, store) {
                Ok(x) => x,
                Err(e) => return Err(e),
            };
            let b = match resolve_statements(body, ctx, store) {
                Ok(x) => x,
                Err(e) => return Err(e),
            };
            let o = match orelse {
                None => None,
                Some(o) => match resolve_statements(o, ctx, store) {
                    Ok(x) => Some(x),
                    Err(e) => return Err(e),
                },
            };
            let ghost ov = if o is Some { Some(sviews(o->Some_0@)) } else { None };
            let r = OptpyStatement::If { test: t, body: b, orelse: o };
            proof {
                assert(r@->If_1 =~= sviews(b@));
                if ov is Some {
                    assert(r@->If_2->Some_0 =~= ov->Some_0);
                }
            }
            Ok(r)
        },
        OptpyStatement::For { target, iter, body } => {
            proof {
                assert(sv->For_2 =~= sviews(body@));
            }
            let t = match resolve_expr(target, ctx, store) {
                Ok(x) => x,
                Err(e) => return Err(e),
            };
            let it = match resolve_expr(iter, ctx, store) {
                Ok(x) => x,
                Err(e) => return Err(e),
            };
            let b = match resolve_statements(body, ctx, store) {
                Ok(x) => x,
                Err(e) => return Err(e),
            };
            let r = OptpyStatement::For { target: t, iter: it, body: b };
            proof {
                assert(r@->For_2 =~= sviews(b@));
            }
            Ok(r)
        },
        OptpyStatement::FunctionDef { name, body, args } => {
            proof {
                assert(sv->FunctionDef_1 =~= sviews(body@));
            }
            let m = match fetch_name(store, ctx, name) {
                Ok((m, _)) => m,
                Err(e) => return Err(e),
            };
            let ghost ctx0 = ctx@;
            let ghost c2 = c.push(m@);
            let ghost ns = strings_view(args@);
            let fname = copy_string(&m);
            ctx.push(m);
            proof {
                assert(strings_view(ctx@) =~= c2);
                assert(ns.take(0) =~= Seq::<Seq<char>>::empty());
            }
            let mut names: Vec<String> = Vec::new();
            let ghost mut fs: Seq<(Seq<char>, bool)> = seq![];
            let mut i: usize = 0;
            while i < args.len()
                invariant
                    i <= args.len(),
                    ns == strings_view(args@),
                    strings_view(ctx@) == c2,
                    ctx@ == ctx0.push(ctx@.last()),
                    ctx@.len() == ctx0.len() + 1,
                    ctx0 == old(ctx)@,
                    st == store_view(*store),
                    fetch_all_v(ns.take(i as int), c2, st) == Ok::<Seq<(Seq<char>, bool)>, (Seq<Seq<char>>, Seq<char>)>(fs),
                    strings_view(names@) == fs.map_values(|f: (Seq<char>, bool)| f.0),
                decreases args.len() - i,
            {
                proof {
                    assert(ns.take(i + 1).drop_last() =~= ns.take(i as int));
                    assert(ns.take(i + 1).last() == args@[i as int]@);
                }
                match fetch_name(store, ctx, &args[i]) {
                    Ok((x, u)) => {
                        let ghost before = strings_view(names@);
                        let ghost fs_old = fs;
                        let ghost xv = x@;
                        proof {
                            fs = fs.push((x@, u));
                        }
                        names.push(x);
                        proof {
                            assert(strings_view(names@) =~= before.push(xv));
                            assert(fs.map_values(|f: (Seq<char>, bool)| f.0) =~= fs_old.map_values(|f: (Seq<char>, bool)| f.0).push(xv));
                        }
                    },
                    Err(e) => {
                        proof {
                            lemma_fetch_all_stops(ns, c2, st, i + 1);
                        }
                        ctx.pop();
                        proof {
                            assert(ctx@ =~= ctx0);
                        }
                        return Err(e);
                    },
                }
                i += 1;
            }
            proof {
                assert(ns.take(i as int) =~= ns);
            }
            let b = match resolve_statements(body, ctx, store) {
                Ok(x) => x,
                Err(e) => {
                    ctx.pop();
                    proof {
                        assert(ctx@ =~= ctx0);
                    }
                    return Err(e);
                },
            };
            ctx.pop();
            proof {
                assert(ctx@ =~= ctx0);
            }
            let ghost fv = fs;
            let r = OptpyStatement::FunctionDef { name: fname, body: b, args: names };
            proof {
                assert(r@->FunctionDef_1 =~= sviews(b@));
                assert(r@->FunctionDef_2 =~= fv.map_values(|f: (Seq<char>, bool)| f.0));
            }
            Ok(r)
        },
        OptpyStatement::Return { value } => match value {
            None => Ok(OptpyStatement::Return { value: None }),
            Some(v) => match resolve_expr(v, ctx, store) {
                Ok(x) => Ok(OptpyStatement::Return { value: Some(x) }),
                Err(e) => Err(e),
            },
        },
    }
}

/// Resolves the names of the statements in order, stopping at the first undeclared one.
pub fn resolve_statements(statements: &Vec<OptpyStatement>, ctx: &mut Vec<String>, store: &IdentifierStore) -> (r: Result<Vec<OptpyStatement>, CompileError>)
    requires
        resolve_stmts_v(sviews(statements@), strings_view(old(ctx)@), store_view(*store)) is Some,
    ensures
        final(ctx)@ == old(ctx)@,
        match r {
            Ok(v) => resolve_stmts_v(sviews(statements@), strings_view(old(ctx)@), store_view(*store))
                == Some(Ok::<Seq<OStmtV>, (Seq<Seq<char>>, Seq<char>)>(sviews(v@))),
            Err(e) => e is Undeclared && resolve_stmts_v(sviews(statements@), strings_view(old(ctx)@), store_view(*store))
                == Some(Err::<Seq<OStmtV>, (Seq<Seq<char>>, Seq<char>)>(undeclared_view(e))),
        },
    decreases statements,
{
    let ghost ss = sviews(statements@);
    let ghost c = strings_view(ctx@);
    let ghost st = store_view(*store);
    let ghost ctx0 = ctx@;
    let mut r: Vec<OptpyStatement> = Vec::new();
    let mut i: usize = 0;
    proof {
        assert(ss.take(0) =~= Seq::<OStmtV>::empty());
        assert(sviews(r@) =~= Seq::<OStmtV>::empty());
    }
    while i < statements.len()
        invariant
            i <= statements.len(),
            ss == sviews(statements@),
            ctx@ == ctx0,
            ctx0 == old(ctx)@,
            c == strings_view(ctx0),
            st == store_view(*store),
            resolve_stmts_v(ss, c, st) is Some,
            resolve_stmts_v(ss.take(i as int), c, st) == Some(Ok::<Seq<OStmtV>, (Seq<Seq<char>>, Seq<char>)>(sviews(r@))),
        decreases statements.len() - i,
    {
        proof {
            assert(ss.take(i + 1).drop_last() =~= ss.take(i as int));
            assert(ss.take(i + 1).last() == statements@[i as int]@);
            lemma_resolve_stmts_prefix(ss, c, st, i + 1);
        }
        let x = match resolve_statement(&statements[i], ctx, store) {
            Ok(x) => x,
            Err(e) => {
                proof {
                    lemma_resolve_stmts_stops(ss, c, st, i + 1);
                }
                return Err(e);
            },
        };
        let ghost before = sviews(r@);
        let ghost xv = x@;
        r.push(x);
        proof {
            assert(sviews(r@) =~= before.push(xv));
        }
        i += 1;
    }
    proof {
        assert(ss.take(i as int) =~= ss);
    }
    Ok(r)
}

/// The variables of the function at `c`, listed in the order of their names.
pub open spec fn listed_v(st: StoreV, c: Seq<Seq<char>>) -> Seq<Seq<char>> {
    let names = sorted_of(Set::new(|n: Seq<char>| st.vars.contains_key((c, n))));
    Seq::new(names.len(), |i: int| st.vars[(c, names[i])])
}

/// The statements of the function at `c` resolved, after the declaration of its variables
/// in increasing order.
pub open spec fn resolved_names_v(ss: Seq<OStmtV>, c: Seq<Seq<char>>, st: StoreV) -> Option<Result<Seq<OStmtV>, (Seq<Seq<char>>, Seq<char>)>> {
    match resolve_stmts_v(ss, c, st) {
        None => None,
        Some(Err(x)) => Some(Err(x)),
        Some(Ok(v)) => Some(Ok(seq![OStmtV::Initialize(sorted_of(listed_v(st, c).to_set()))] + v)),
    }
}

/// Resolves the names of the statements and declares the variables of the function at
/// `ctx` first, in increasing order.
pub fn resolve_variable_names(statements: &Vec<OptpyStatement>, ctx: &mut Vec<String>, store: &IdentifierStore) -> (r: Result<Vec<OptpyStatement>, CompileError>)
    requires
        resolve_stmts_v(sviews(statements@), strings_view(old(ctx)@), store_view(*store)) is Some,
    ensures
        final(ctx)@ == old(ctx)@,
        match r {
            Ok(v) => resolved_names_v(sviews(statements@), strings_view(old(ctx)@), store_view(*store))
                == Some(Ok::<Seq<OStmtV>, (Seq<Seq<char>>, Seq<char>)>(sviews(v@))),
            Err(e) => e is Undeclared && resolved_names_v(sviews(statements@), strings_view(old(ctx)@), store_view(*store))
                == Some(Err::<Seq<OStmtV>, (Seq<Seq<char>>, Seq<char>)>(undeclared_view(e))),
        },
{
    let ghost c = strings_view(ctx@);
    let ghost st = store_view(*store);
    let mut resolved = match resolve_statements(statements, ctx, store) {
        Ok(x) => x,
        Err(e) => return Err(e),
    };
    let list = store.list_declared_variables(ctx);
    let ghost lv = strings_view(list@);
    proof {
        let d1 = Set::new(|n: Seq<char>| store.variable_of(c, n) is Some);
        let d2 = Set::new(|n: Seq<char>| st.vars.contains_key((c, n)));
        assert(d1 =~= d2);
        let names = sorted_of(d1);
        assert forall|i: int| 0 <= i < names.len() implies #[trigger] lv[i] == listed_v(st, c)[i] by {
            assert(names.to_set().contains(names[i]));
            assert(d1.contains(names[i]));
        }
        assert(lv =~= listed_v(st, c));
    }
    let mut sorted = SortedStrings::new();
    let mut i: usize = 0;
    proof {
        assert(lv.take(0).to_set() =~= Set::<Seq<char>>::empty());
        assert(sorted@.to_set() =~= Set::<Seq<char>>::empty());
    }
    while i < list.len()
        invariant
            i <= list.len(),
            lv == strings_view(list@),
            sorted.wf(),
            sorted@.to_set() == lv.take(i as int).to_set(),
        decreases list.len() - i,
    {
        sorted.insert(copy_string(&list[i]));
        proof {
            assert(lv.take(i + 1) =~= lv.take(i as int).push(list@[i as int]@));
            lv.take(i as int).lemma_push_to_set_commute(list@[i as int]@);
        }
        i += 1;
    }
    proof {
        assert(lv.take(i as int) =~= lv);
        lemma_sorted_of(sorted@);
    }
    let ghost before = sviews(resolved@);
    let init = OptpyStatement::Initialize { variables: sorted.items };
    let ghost iv = init@;
    resolved.insert(0, init);
    proof {
        assert(sviews(resolved@) =~= seq![iv] + before);
    }
    Ok(resolved)
}

// ---------------------------------------------------------------------------
// Resolving after collecting never panics
// ---------------------------------------------------------------------------

/// No statement declares the variables: the loader never makes one.
pub open spec fn init_free_stmt(s: OStmtV) -> bool
    decreases s,
{
    match s {
        OStmtV::Initialize(_) => false,
        OStmtV::If(_, b, o) => init_free_stmts(b) && match o {
            Some(o) => init_free_stmts(o),
            None => true,
        },
        OStmtV::For(_, _, b) => init_free_stmts(b),
        OStmtV::FunctionDef(_, b, _) => init_free_stmts(b),
        _ => true,
    }
}

pub open spec fn init_free_stmts(ss: Seq<OStmtV>) -> bool
    decreases ss,
{
    forall|i: int| 0 <= i < ss.len() ==> init_free_stmt(#[trigger] ss[i])
}

/// Every function of the statements, and each of its arguments, has a variable in `fin`
/// under the path at which it stands, and no statement declares the variables.
pub open spec fn covers_stmt(s: OStmtV, c: Seq<Seq<char>>, fin: StoreV) -> bool
    decreases s,
{
    match s {
        OStmtV::Initialize(_) => false,
        OStmtV::If(_, b, o) => covers_stmts(b, c, fin) && match o {
            Some(o) => covers_stmts(o, c, fin),
            None => true,
        },
        OStmtV::For(_, _, b) => covers_stmts(b, c, fin),
        OStmtV::FunctionDef(n, b, a) => {
            &&& fin.vars.contains_key((c, n))
            &&& forall|i: int| 0 <= i < a.len() ==> fin.vars.contains_key((c.push(fin.vars[(c, n)]), #[trigger] a[i]))
            &&& covers_stmts(b, c.push(fin.vars[(c, n)]), fin)
        },
        _ => true,
    }
}

pub open spec fn covers_stmts(ss: Seq<OStmtV>, c: Seq<Seq<char>>, fin: StoreV) -> bool
    decreases ss,
{
    forall|i: int| 0 <= i < ss.len() ==> covers_stmt(#[trigger] ss[i], c, fin)
}

/// Names that all have variables are fetched as variables.
proof fn lemma_fetch_all_declared(ns: Seq<Seq<char>>, c: Seq<Seq<char>>, st: StoreV)
    requires
        forall|i: int| 0 <= i < ns.len() ==> st.vars.contains_key((c, #[trigger] ns[i])),
    ensures
        fetch_all_v(ns, c, st) is Ok,
        forall|i: int| 0 <= i < ns.len() ==> (#[trigger] fetch_all_v(ns, c, st)->Ok_0[i]).1,
        fetch_all_v(ns, c, st)->Ok_0.len() == ns.len(),
    decreases ns.len(),
{
    if ns.len() > 0 {
        assert forall|i: int| 0 <= i < ns.drop_last().len() implies st.vars.contains_key((c, #[trigger] ns.drop_last()[i])) by {
            assert(ns.drop_last()[i] == ns[i]);
        }
        lemma_fetch_all_declared(ns.drop_last(), c, st);
        assert(st.vars.contains_key((c, ns[ns.len() - 1])));
        let prev = fetch_all_v(ns.drop_last(), c, st)->Ok_0;
        assert forall|i: int| 0 <= i < ns.len() implies (#[trigger] fetch_all_v(ns, c, st)->Ok_0[i]).1 by {
            if i < ns.len() - 1 {
                assert(fetch_all_v(ns, c, st)->Ok_0[i] == prev[i]);
            }
        }
    }
}

proof fn lemma_covered_resolves(s: OStmtV, c: Seq<Seq<char>>, fin: StoreV)
    requires
        covers_stmt(s, c, fin),
    ensures
        resolve_stmt_v(s, c, fin) is Some,
    decreases s,
{
    match s {
        OStmtV::If(_, b, o) => {
            lemma_covered_resolves_all(b, c, fin);
            match o {
                Some(o) => lemma_covered_resolves_all(o, c, fin),
                None => {},
            }
        },
        OStmtV::For(_, _, b) => lemma_covered_resolves_all(b, c, fin),
        OStmtV::FunctionDef(n, b, a) => {
            let c2 = c.push(fin.vars[(c, n)]);
            lemma_fetch_all_declared(a, c2, fin);
            lemma_covered_resolves_all(b, c2, fin);
        },
        _ => {},
    }
}

proof fn lemma_covered_resolves_all(ss: Seq<OStmtV>, c: Seq<Seq<char>>, fin: StoreV)
    requires
        covers_stmts(ss, c, fin),
    ensures
        resolve_stmts_v(ss, c, fin) is Some,
    decreases ss,
{
    if ss.len() > 0 {
        assert forall|i: int| 0 <= i < ss.drop_last().len() implies covers_stmt(#[trigger] ss.drop_last()[i], c, fin) by {
            assert(ss.drop_last()[i] == ss[i]);
        }
        lemma_covered_resolves_all(ss.drop_last(), c, fin);
        assert(covers_stmt(ss[ss.len() - 1], c, fin));
        lemma_covered_resolves(ss.last(), c, fin);
    }
}

/// A store that holds the declarations of the statements covers them.
proof fn lemma_collected_covers(s: OStmtV, c: Seq<Seq<char>>, st: StoreV, fin: StoreV)
    requires
        init_free_stmt(s),
        grows(collect_stmt(s, c, st), fin),
    ensures
        covers_stmt(s, c, fin),
    decreases s,
{
    match s {
        OStmtV::If(_, b, o) => {
            let mid = collect_stmts(b, c, st);
            match o {
                Some(o) => {
                    lemma_stmts_grows(o, c, mid);
                    lemma_grows_trans(mid, collect_stmts(o, c, mid), fin);
                    lemma_collected_covers_all(o, c, mid, fin);
                },
                None => {},
            }
            lemma_collected_covers_all(b, c, st, fin);
        },
        OStmtV::For(t, _, b) => {
            lemma_collected_covers_all(b, c, collect_target(t, c, st), fin);
        },
        OStmtV::FunctionDef(n, b, a) => {
            let (st1, m) = declare_v(st, c, n);
            let c2 = c.push(m);
            let st2 = declare_all(a, c2, st1);
            lemma_declare_grows(st, c, n);
            lemma_declare_all_grows(a, c2, st1);
            lemma_stmts_grows(b, c2, st2);
            lemma_grows_trans(st2, collect_stmts(b, c2, st2), fin);
            lemma_grows_trans(st1, st2, fin);
            assert(st1.vars.contains_key((c, n)));
            assert(fin.vars[(c, n)] == m);
            assert forall|i: int| 0 <= i < a.len() implies fin.vars.contains_key((c.push(fin.vars[(c, n)]), #[trigger] a[i])) by {
                assert(st2.vars.contains_key((c2, a[i])));
            }
            lemma_collected_covers_all(b, c2, st2, fin);
        },
        _ => {},
    }
}

proof fn lemma_collected_covers_all(ss: Seq<OStmtV>, c: Seq<Seq<char>>, st: StoreV, fin: StoreV)
    requires
        init_free_stmts(ss),
        grows(collect_stmts(ss, c, st), fin),
    ensures
        covers_stmts(ss, c, fin),
    decreases ss,
{
    assert forall|i: int| 0 <= i < ss.len() implies covers_stmt(#[trigger] ss[i], c, fin) by {
        lemma_stmts_prefix(ss, c, st, i + 1);
        assert(ss.take(i + 1).drop_last() =~= ss.take(i));
        assert(ss.take(i + 1).last() == ss[i]);
        lemma_grows_trans(collect_stmts(ss.take(i + 1), c, st), collect_stmts(ss, c, st), fin);
        lemma_collected_covers(ss[i], c, collect_stmts(ss.take(i), c, st), fin);
    }
}

/// The store after collecting the statements from an empty one.
pub open spec fn collected(ss: Seq<OStmtV>) -> StoreV {
    collect_stmts(ss, seq![], empty_store())
}

/// Resolving the names of statements after collecting their declarations never panics:
/// each function and each argument has its variable under the path where the resolver
/// looks for it.
pub proof fn law_collected_resolves(ss: Seq<OStmtV>)
    requires
        init_free_stmts(ss),
    ensures
        resolve_stmts_v(ss, seq![], collected(ss)) is Some,
{
    lemma_collected_covers_all(ss, seq![], empty_store(), collected(ss));
    lemma_covered_resolves_all(ss, seq![], collected(ss));
}

/// Gives each variable of each function its name, then resolves the statements, which the
/// top-level declaration of the variables opens.
pub fn resolve_variables(statements: &Vec<OptpyStatement>) -> (r: Result<Vec<OptpyStatement>, CompileError>)
    requires
        init_free_stmts(sviews(statements@)),
        collected(sviews(statements@)).count < usize::MAX,
    ensures
        match r {
            Ok(v) => resolved_names_v(sviews(statements@), seq![], collected(sviews(statements@)))
                == Some(Ok::<Seq<OStmtV>, (Seq<Seq<char>>, Seq<char>)>(sviews(v@))),
            Err(e) => e is Undeclared && resolved_names_v(sviews(statements@), seq![], collected(sviews(statements@)))
                == Some(Err::<Seq<OStmtV>, (Seq<Seq<char>>, Seq<char>)>(undeclared_view(e))),
        },
{
    let mut store = IdentifierStore::new();
    let mut ctx: Vec<String> = Vec::new();
    proof {
        assert(store_view(store).vars =~= Map::<(Seq<Seq<char>>, Seq<char>), Seq<char>>::empty());
        assert(strings_view(ctx@) =~= Seq::<Seq<char>>::empty());
    }
    collect_declared_variables(statements, &mut ctx, &mut store);
    proof {
        assert(strings_view(ctx@) =~= Seq::<Seq<char>>::empty());
        law_collected_resolves(sviews(statements@));
    }
    resolve_variable_names(statements, &mut ctx, &store)
}


/// Every name in `e` is declared in the context `c` of `st` as a variable of that very name.
pub open spec fn names_declared_as_themselves(e: OExprV, c: Seq<Seq<char>>, st: StoreV) -> bool
    decreases e,
{
    match e {
        OExprV::Identifier(n) => st.vars.contains_key((c, n)) && st.vars[(c, n)] == n,
        OExprV::Call(f, args) => names_declared_as_themselves(*f, c, st)
            && forall|i: int| 0 <= i < args.len() ==> names_declared_as_themselves(#[trigger] args[i], c, st),
        OExprV::Binop(a, b, _) => names_declared_as_themselves(*a, c, st) && names_declared_as_themselves(*b, c, st),
        OExprV::Tuple(es) => forall|i: int| 0 <= i < es.len() ==> names_declared_as_themselves(#[trigger] es[i], c, st),
        OExprV::Attribute(v, _) => names_declared_as_themselves(*v, c, st),
        OExprV::Compare(vs, _) => forall|i: int| 0 <= i < vs.len() ==> names_declared_as_themselves(#[trigger] vs[i], c, st),
        OExprV::Number(_) => true,
        OExprV::Subscript(a, b) => names_declared_as_themselves(*a, c, st) && names_declared_as_themselves(*b, c, st),
    }
}

proof fn lemma_resolve_expr_keeps(e: OExprV, c: Seq<Seq<char>>, st: StoreV)
    requires
        names_declared_as_themselves(e, c, st),
    ensures
        resolve_expr_v(e, c, st) == Ok::<OExprV, (Seq<Seq<char>>, Seq<char>)>(e),
    decreases e,
{
    match e {
        OExprV::Call(f, args) => {
            lemma_resolve_expr_keeps(*f, c, st);
            lemma_resolve_exprs_keeps(args, c, st);
        },
        OExprV::Binop(a, b, _) => {
            lemma_resolve_expr_keeps(*a, c, st);
            lemma_resolve_expr_keeps(*b, c, st);
        },
        OExprV::Tuple(es) => {
            lemma_resolve_exprs_keeps(es, c, st);
        },
        OExprV::Attribute(v, _) => {
            lemma_resolve_expr_keeps(*v, c, st);
        },
        OExprV::Compare(vs, _) => {
            lemma_resolve_exprs_keeps(vs, c, st);
        },
        OExprV::Subscript(a, b) => {
            lemma_resolve_expr_keeps(*a, c, st);
            lemma_resolve_expr_keeps(*b, c, st);
        },
        _ => {},
    }
}

proof fn lemma_resolve_exprs_keeps(es: Seq<OExprV>, c: Seq<Seq<char>>, st: StoreV)
    requires
        forall|i: int| 0 <= i < es.len() ==> names_declared_as_themselves(#[trigger] es[i], c, st),
    ensures
        resolve_exprs_v(es, c, st) == Ok::<Seq<OExprV>, (Seq<Seq<char>>, Seq<char>)>(es),
    decreases es,
{
    if es.len() > 0 {
        let d = es.drop_last();
        assert forall|i: int| 0 <= i < d.len() implies names_declared_as_themselves(#[trigger] d[i], c, st) by {
            assert(d[i] == es[i]);
        }
        lemma_resolve_exprs_keeps(d, c, st);
        assert(names_declared_as_themselves(es[es.len() - 1], c, st));
        lemma_resolve_expr_keeps(es.last(), c, st);
        assert(d.push(es.last()) =~= es);
    } else {
        assert(es =~= Seq::<OExprV>::empty());
    }
}

/// Resolving names only renames: where every name is declared as a variable of that very
/// name, an expression resolves to itself, every operand and argument in its place.
pub proof fn law_resolving_only_renames(e: OExprV, c: Seq<Seq<char>>, st: StoreV)
    requires
        names_declared_as_themselves(e, c, st),
    ensures
        resolve_expr_v(e, c, st) == Ok::<OExprV, (Seq<Seq<char>>, Seq<char>)>(e),
{
    lemma_resolve_expr_keeps(e, c, st);
}

} // verus!
