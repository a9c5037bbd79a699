//! Gives every variable and every function a unique name.
//!
//! Variables become `__v0`, `__v1`, ... and functions `__f0`, `__f1`, ... in the order in
//! which their declarations appear.  A use of a name resolves to the declaration in the
//! innermost enclosing function that declares it; names that nothing declares (the
//! built-ins) are kept.
use vstd::prelude::*;
use crate::ast::{
    copy_expr, copy_from_import, copy_import, copy_string, every_stmt, no_expr, no_stmt,
    strings_view, views, Assign, BinaryOperation, BoolOperation, CallFunction, CallMethod,
    Compare, Dict, Expr, ExprV, Func, If, Index, Statement, StmtV, UnaryOperation, While,
};
use crate::text::{string_eq, string_of, str_eq, with_number};
use vstd::string::StringExecFns;

verus! {

/// A declaration: the path of enclosing functions and the declared name.
pub type Key = (Seq<Seq<char>>, Seq<char>);

/// The path of function names that encloses a statement.
#[derive(Debug, PartialEq, Eq)]
pub struct ContextPath(pub Vec<String>);

impl View for ContextPath {
    type V = Seq<Seq<char>>;

    open spec fn view(&self) -> Seq<Seq<char>> {
        strings_view(self.0@)
    }
}

impl ContextPath {
    /// The path extended by `name`.
    pub fn join(&self, name: &str) -> (r: Self)
        ensures
            r@ == self@.push(name@),
    {
        let mut path = crate::ast::copy_strings(&self.0);
        path.push(string_of(name));
        let r = ContextPath(path);
        proof {
            assert(r@ =~= self@.push(name@));
        }
        r
    }

    /// The path without its last name, if it has one.
    pub fn pop(&self) -> (r: Option<Self>)
        ensures
            self@.len() == 0 ==> r is None,
            self@.len() > 0 ==> (r matches Some(p) && p@ == self@.drop_last()),
    {
        let mut next = crate::ast::copy_strings(&self.0);
        match next.pop() {
            Some(_) => {
                let r = ContextPath(next);
                proof {
                    assert(r@ =~= self@.drop_last());
                }
                Some(r)
            },
            None => None,
        }
    }

    fn copy(&self) -> (r: Self)
        ensures
            r@ == self@,
    {
        ContextPath(crate::ast::copy_strings(&self.0))
    }
}

impl Default for ContextPath {
    fn default() -> (r: Self)
        ensures
            r@ == Seq::<Seq<char>>::empty(),
    {
        let r = ContextPath(Vec::new());
        proof {
            assert(r@ =~= Seq::<Seq<char>>::empty());
        }
        r
    }
}

/// `a` and `b` hold the same names.
fn path_eq(a: &ContextPath, b: &ContextPath) -> (r: bool)
    ensures
        r == (a@ == b@),
{
    if a.0.len() != b.0.len() {
        proof {
            assert(a@.len() != b@.len());
        }
        return false;
    }
    let mut i: usize = 0;
    while i < a.0.len()
        invariant
            i <= a.0.len() == b.0.len(),
            forall|j: int| 0 <= j < i ==> a.0@[j]@ == #[trigger] b.0@[j]@,
        decreases a.0.len() - i,
    {
        if !string_eq(&a.0[i], &b.0[i]) {
            proof {
                assert(a@[i as int] != b@[i as int]);
            }
            return false;
        }
        i += 1;
    }
    proof {
        assert(a@ =~= b@);
    }
    true
}

/// The keys after declaring `k`: a key that is already there keeps its place.
pub open spec fn declare_one(keys: Seq<Key>, k: Key) -> Seq<Key> {
    if keys.contains(k) {
        keys
    } else {
        keys.push(k)
    }
}

/// The keys after declaring each of `calls` in turn.
pub open spec fn declare_all(keys: Seq<Key>, calls: Seq<Key>) -> Seq<Key>
    decreases calls.len(),
{
    if calls.len() == 0 {
        keys
    } else {
        declare_one(declare_all(keys, calls.drop_last()), calls.last())
    }
}

/// The position of `k` in `keys`.
pub open spec fn key_index(keys: Seq<Key>, k: Key) -> int {
    choose|i: int| 0 <= i < keys.len() && keys[i] == k
}

/// The name that `name` used in the context `ctx` resolves to: the declaration in the
/// longest prefix of `ctx` that declares it.
pub open spec fn resolve_spec(keys: Seq<Key>, prefix: Seq<char>, name: Seq<char>, ctx: Seq<Seq<char>>) -> Option<Seq<char>>
    decreases ctx.len(),
{
    if keys.contains((ctx, name)) {
        Some(prefix + crate::text::decimal(key_index(keys, (ctx, name)) as nat))
    } else if ctx.len() == 0 {
        None
    } else {
        resolve_spec(keys, prefix, name, ctx.drop_last())
    }
}

/// Every element of `a` is in `b`.
pub open spec fn subset_of(a: Seq<Key>, b: Seq<Key>) -> bool {
    forall|i: int| 0 <= i < a.len() ==> b.contains(#[trigger] a[i])
}

proof fn lemma_declare_all_concat(k: Seq<Key>, a: Seq<Key>, b: Seq<Key>)
    ensures
        declare_all(k, a + b) == declare_all(declare_all(k, a), b),
    decreases b.len(),
{
    if b.len() == 0 {
        assert(a + b =~= a);
    } else {
        assert((a + b).drop_last() =~= a + b.drop_last());
        assert((a + b).last() == b.last());
        lemma_declare_all_concat(k, a, b.drop_last());
    }
}

proof fn lemma_declare_single(k: Seq<Key>, x: Key)
    ensures
        declare_all(k, seq![x]) == declare_one(k, x),
{
    assert(seq![x].drop_last() =~= Seq::<Key>::empty());
    assert(declare_all(k, Seq::<Key>::empty()) == k);
}

proof fn lemma_declare_all_contains(k: Seq<Key>, c: Seq<Key>)
    ensures
        subset_of(c, declare_all(k, c)),
        subset_of(k, declare_all(k, c)),
        k.no_duplicates() ==> declare_all(k, c).no_duplicates(),
        declare_all(k, c).len() >= k.len(),
        forall|i: int| 0 <= i < k.len() ==> declare_all(k, c)[i] == k[i],
    decreases c.len(),
{
    if c.len() > 0 {
        lemma_declare_all_contains(k, c.drop_last());
        let p = declare_all(k, c.drop_last());
        assert forall|i: int| 0 <= i < c.len() implies declare_all(k, c).contains(#[trigger] c[i]) by {
            if i < c.len() - 1 {
                assert(c.drop_last()[i] == c[i]);
                assert(p.contains(c[i]));
                if !p.contains(c.last()) {
                    let j = choose|j: int| 0 <= j < p.len() && p[j] == c[i];
                    assert(p.push(c.last())[j] == c[i]);
                }
            } else {
                if !p.contains(c.last()) {
                    assert(p.push(c.last())[p.len() as int] == c.last());
                }
            }
        }
        assert forall|i: int| 0 <= i < k.len() implies declare_all(k, c).contains(#[trigger] k[i]) by {
            assert(p.contains(k[i]));
            if !p.contains(c.last()) {
                let j = choose|j: int| 0 <= j < p.len() && p[j] == k[i];
                assert(p.push(c.last())[j] == k[i]);
            }
        }
    }
}

/// A table of unique names, one for each declaration.
pub struct NameStore {
    prefix: String,
    entries: Vec<(ContextPath, String, String)>,
    global_counter: usize,
}

impl NameStore {
    /// The declarations, in the order in which they were first made.
    pub closed spec fn keys(&self) -> Seq<Key> {
        Seq::new(self.entries@.len(), |i: int| (self.entries@[i].0@, self.entries@[i].1@))
    }

    /// The prefix of the generated names.
    pub closed spec fn prefix(&self) -> Seq<char> {
        self.prefix@
    }

    /// The declarations are distinct and the `i`-th is named by the prefix and `i`.
    pub closed spec fn wf(&self) -> bool {
        &&& self.keys().no_duplicates()
        &&& self.global_counter == self.entries@.len()
        &&& forall|i: int| 0 <= i < self.entries@.len() ==>
            (#[trigger] self.entries@[i]).2@ == self.prefix@ + crate::text::decimal(i as nat)
    }

    /// An empty table whose names start with `prefix`.
    pub fn new(prefix: &str) -> (r: Self)
        ensures
            r.wf(),
            r.keys() == Seq::<Key>::empty(),
            r.prefix() == prefix@,
    {
        let r = NameStore { prefix: String::from_str(prefix), entries: Vec::new(), global_counter: 0 };
        proof {
            assert(r.keys() =~= Seq::<Key>::empty());
        }
        r
    }

    fn find(&self, name: &str, ctx: &ContextPath) -> (r: Option<usize>)
        requires
            self.wf(),
        ensures
            r matches Some(j) ==> j < self.entries@.len() && self.keys()[j as int] == (ctx@, name@),
            r is None ==> !self.keys().contains((ctx@, name@)),
    {
        let mut j: usize = 0;
        while j < self.entries.len()
            invariant
                j <= self.entries.len(),
                forall|i: int| 0 <= i < j ==> #[trigger] self.keys()[i] != (ctx@, name@),
            decreases self.entries.len() - j,
        {
            if path_eq(&self.entries[j].0, ctx) && str_eq(&self.entries[j].1, name) {
                return Some(j);
            }
            j += 1;
        }
        None
    }

    /// Declares `name` in the context `ctx`; a declaration that exists already is kept.
    pub fn declare(&mut self, name: &str, ctx: &ContextPath)
        requires
            old(self).wf(),
        ensures
            final(self).wf(),
            final(self).prefix() == old(self).prefix(),
            final(self).keys() == declare_one(old(self).keys(), (ctx@, name@)),
    {
        match self.find(name, ctx) {
            Some(j) => {
                proof {
                    assert(self.keys()[j as int] == (ctx@, name@));
                }
            },
            None => {
                let resolved = with_number(self.prefix.as_str(), self.global_counter as u128);
                let ghost old_keys = self.keys();
                self.entries.push((ctx.copy(), String::from_str(name), resolved));
                self.global_counter = self.entries.len();
                proof {
                    assert(self.keys() =~= old_keys.push((ctx@, name@)));
                }
            },
        }
    }

    /// Distinct declarations get distinct names: where `(c1, n1)` and `(c2, n2)` are both
    /// declared and differ, they resolve to different names.
    pub proof fn law_names_distinct(&self, c1: Seq<Seq<char>>, n1: Seq<char>, c2: Seq<Seq<char>>, n2: Seq<char>)
        requires
            self.wf(),
            self.keys().contains((c1, n1)),
            self.keys().contains((c2, n2)),
            (c1, n1) != (c2, n2),
        ensures
            resolve_spec(self.keys(), self.prefix(), n1, c1) != resolve_spec(self.keys(), self.prefix(), n2, c2),
    {
        let keys = self.keys();
        let i1 = key_index(keys, (c1, n1));
        let i2 = key_index(keys, (c2, n2));
        assert(keys[i1] == (c1, n1));
        assert(keys[i2] == (c2, n2));
        assert(i1 != i2);
        let a = self.prefix() + crate::text::decimal(i1 as nat);
        let b = self.prefix() + crate::text::decimal(i2 as nat);
        if a == b {
            assert(a.skip(self.prefix().len() as int) =~= crate::text::decimal(i1 as nat));
            assert(b.skip(self.prefix().len() as int) =~= crate::text::decimal(i2 as nat));
            crate::text::lemma_decimal_injective(i1 as nat, i2 as nat);
        }
    }

    /// A declaration that is new is named by the prefix and the number of declarations made
    /// before it; one that exists keeps its name; and every earlier declaration keeps its
    /// number, so its name.
    pub proof fn law_declared_name(&self, c: Seq<Seq<char>>, n: Seq<char>)
        requires
            self.wf(),
        ensures
            !self.keys().contains((c, n)) ==> resolve_spec(declare_one(self.keys(), (c, n)), self.prefix(), n, c)
                == Some(self.prefix() + crate::text::decimal(self.keys().len())),
            self.keys().contains((c, n)) ==> declare_one(self.keys(), (c, n)) == self.keys(),
            forall|k: Key| #[trigger] self.keys().contains(k)
                ==> key_index(declare_one(self.keys(), (c, n)), k) == key_index(self.keys(), k),
    {
        let keys = self.keys();
        assert forall|k: Key| #[trigger] keys.contains(k)
            implies key_index(declare_one(keys, (c, n)), k) == key_index(keys, k) by {
            if !keys.contains((c, n)) {
                let after = keys.push((c, n));
                let j = key_index(keys, k);
                assert(keys[j] == k);
                assert(after[j] == k);
                let i = key_index(after, k);
                assert(0 <= i < after.len() && after[i] == k);
                if i == keys.len() {
                    assert(k == (c, n));
                } else {
                    assert(keys[i] == k);
                    assert(keys.no_duplicates());
                }
            }
        }
        if !keys.contains((c, n)) {
            let after = keys.push((c, n));
            assert(after[keys.len() as int] == (c, n));
            assert(after.contains((c, n)));
            let i = key_index(after, (c, n));
            if i < keys.len() {
                assert(keys[i] == (c, n));
                assert(keys.contains((c, n)));
            }
            assert(i == keys.len());
        }
    }

    /// The unique name that `name` used in the context `ctx` resolves to.
    pub fn resolve(&self, name: &str, ctx: &ContextPath) -> (r: Option<String>)
        requires
            self.wf(),
        ensures
            r is Some <==> resolve_spec(self.keys(), self.prefix(), name@, ctx@) is Some,
            r matches Some(s) ==> s@ == resolve_spec(self.keys(), self.prefix(), name@, ctx@)->0,
    {
        let mut cur = ctx.copy();
        loop
            invariant
                self.wf(),
                resolve_spec(self.keys(), self.prefix(), name@, cur@) == resolve_spec(self.keys(), self.prefix(), name@, ctx@),
            decreases cur@.len(),
        {
            match self.find(name, &cur) {
                Some(j) => {
                    proof {
                        assert(self.keys()[j as int] == (cur@, name@));
                        assert(self.keys().contains((cur@, name@)));
                        let k = key_index(self.keys(), (cur@, name@));
                        assert(self.keys()[k] == (cur@, name@));
                        assert(k == j);
                    }
                    return Some(copy_string(&self.entries[j].2));
                },
                None => {},
            }
            match cur.pop() {
                Some(next) => {
                    cur = next;
                },
                None => {
                    return None;
                },
            }
        }
    }
}

/// The name of the declaration `k` in the table `keys` whose names start with `prefix`.
pub open spec fn declared_name(keys: Seq<Key>, prefix: Seq<char>, k: Key) -> Seq<char> {
    prefix + crate::text::decimal(key_index(keys, k) as nat)
}

/// From an empty table (`NameStore::new`), after any run of `declare` calls, two distinct
/// (context, name) pairs that were declared have distinct names.
pub proof fn law_declarations_named_apart(prefix: Seq<char>, calls: Seq<Key>, k1: Key, k2: Key)
    requires
        declare_all(Seq::<Key>::empty(), calls).contains(k1),
        declare_all(Seq::<Key>::empty(), calls).contains(k2),
        k1 != k2,
    ensures
        declared_name(declare_all(Seq::<Key>::empty(), calls), prefix, k1)
            != declared_name(declare_all(Seq::<Key>::empty(), calls), prefix, k2),
{
    let keys = declare_all(Seq::<Key>::empty(), calls);
    lemma_declare_all_contains(Seq::<Key>::empty(), calls);
    let i1 = key_index(keys, k1);
    let i2 = key_index(keys, k2);
    assert(keys[i1] == k1);
    assert(keys[i2] == k2);
    assert(i1 != i2);
    let a = declared_name(keys, prefix, k1);
    let b = declared_name(keys, prefix, k2);
    if a == b {
        assert(a.skip(prefix.len() as int) =~= crate::text::decimal(i1 as nat));
        assert(b.skip(prefix.len() as int) =~= crate::text::decimal(i2 as nat));
        crate::text::lemma_decimal_injective(i1 as nat, i2 as nat);
    }
}

// ---------------------------------------------------------------------------
// Declarations
// ---------------------------------------------------------------------------

/// An assignment target is a variable or an indexed place.
pub open spec fn assign_target_ok(s: StmtV) -> bool {
    match s {
        StmtV::Assign(t, _) => t is VariableName || t is Index,
        _ => true,
    }
}

/// The condition under which resolution does not fail.
pub open spec fn names_ready() -> spec_fn(StmtV) -> bool {
    |s: StmtV| assign_target_ok(s)
}

/// The variable declarations that a statement makes, in order.
pub open spec fn var_calls_stmt(s: StmtV, ctx: Seq<Seq<char>>) -> Seq<Key>
    decreases s,
{
    match s {
        StmtV::Assign(t, _) => match t {
            ExprV::VariableName(n) => seq![(ctx, n)],
            _ => seq![],
        },
        StmtV::If(_, b, o) => var_calls_stmts(b, ctx) + var_calls_stmts(o, ctx),
        StmtV::Func(name, args, body) => Seq::new(args.len(), |i: int| (ctx.push(name), args[i]))
            + var_calls_stmts(body, ctx.push(name)),
        StmtV::While(_, b) => var_calls_stmts(b, ctx),
        _ => seq![],
    }
}

pub open spec fn var_calls_stmts(s: Seq<StmtV>, ctx: Seq<Seq<char>>) -> Seq<Key>
    decreases s,
{
    if s.len() == 0 {
        seq![]
    } else {
        var_calls_stmts(s.drop_last(), ctx) + var_calls_stmt(s.last(), ctx)
    }
}

/// The function declarations that a statement makes, in order.
pub open spec fn fn_calls_stmt(s: StmtV, ctx: Seq<Seq<char>>) -> Seq<Key>
    decreases s,
{
    match s {
        StmtV::If(_, b, o) => fn_calls_stmts(b, ctx) + fn_calls_stmts(o, ctx),
        StmtV::Func(name, _, body) => seq![(ctx, name)] + fn_calls_stmts(body, ctx.push(name)),
        StmtV::While(_, b) => fn_calls_stmts(b, ctx),
        _ => seq![],
    }
}

pub open spec fn fn_calls_stmts(s: Seq<StmtV>, ctx: Seq<Seq<char>>) -> Seq<Key>
    decreases s,
{
    if s.len() == 0 {
        seq![]
    } else {
        fn_calls_stmts(s.drop_last(), ctx) + fn_calls_stmt(s.last(), ctx)
    }
}

proof fn lemma_calls_contain(s: Seq<StmtV>, ctx: Seq<Seq<char>>, j: int)
    requires
        0 <= j < s.len(),
    ensures
        forall|i: int| 0 <= i < var_calls_stmt(s[j], ctx).len() ==>
            var_calls_stmts(s, ctx).contains(#[trigger] var_calls_stmt(s[j], ctx)[i]),
        forall|i: int| 0 <= i < fn_calls_stmt(s[j], ctx).len() ==>
            fn_calls_stmts(s, ctx).contains(#[trigger] fn_calls_stmt(s[j], ctx)[i]),
    decreases s.len(),
{
    let a = var_calls_stmts(s.drop_last(), ctx);
    let b = var_calls_stmt(s.last(), ctx);
    let fa = fn_calls_stmts(s.drop_last(), ctx);
    let fb = fn_calls_stmt(s.last(), ctx);
    if j == s.len() - 1 {
        assert forall|i: int| 0 <= i < b.len() implies (a + b).contains(#[trigger] b[i]) by {
            assert((a + b)[a.len() + i] == b[i]);
        }
        assert forall|i: int| 0 <= i < fb.len() implies (fa + fb).contains(#[trigger] fb[i]) by {
            assert((fa + fb)[fa.len() + i] == fb[i]);
        }
    } else {
        lemma_calls_contain(s.drop_last(), ctx, j);
        assert(s.drop_last()[j] == s[j]);
        assert forall|i: int| 0 <= i < var_calls_stmt(s[j], ctx).len() implies
            (a + b).contains(#[trigger] var_calls_stmt(s[j], ctx)[i]) by {
            let x = var_calls_stmt(s[j], ctx)[i];
            assert(a.contains(x));
            let k = choose|k: int| 0 <= k < a.len() && a[k] == x;
            assert((a + b)[k] == x);
        }
        assert forall|i: int| 0 <= i < fn_calls_stmt(s[j], ctx).len() implies
            (fa + fb).contains(#[trigger] fn_calls_stmt(s[j], ctx)[i]) by {
            let x = fn_calls_stmt(s[j], ctx)[i];
            assert(fa.contains(x));
            let k = choose|k: int| 0 <= k < fa.len() && fa[k] == x;
            assert((fa + fb)[k] == x);
        }
    }
}

proof fn lemma_subset_concat(a: Seq<Key>, b: Seq<Key>, c: Seq<Key>)
    requires
        subset_of(a + b, c),
    ensures
        subset_of(a, c),
        subset_of(b, c),
{
    assert forall|i: int| 0 <= i < a.len() implies c.contains(#[trigger] a[i]) by {
        assert((a + b)[i] == a[i]);
    }
    assert forall|i: int| 0 <= i < b.len() implies c.contains(#[trigger] b[i]) by {
        assert((a + b)[a.len() + i] == b[i]);
    }
}

fn collect_variable_names(expr: &Expr, variables: &mut NameStore, ctx: &ContextPath)
    requires
        old(variables).wf(),
        expr@ is VariableName || expr@ is Index,
    ensures
        final(variables).wf(),
        final(variables).prefix() == old(variables).prefix(),
        final(variables).keys() == declare_all(
            old(variables).keys(),
            match expr@ {
                ExprV::VariableName(n) => seq![(ctx@, n)],
                _ => seq![],
            },
        ),
{
    match expr {
        Expr::VariableName(name) => {
            let ghost k0 = variables.keys();
            variables.declare(name.as_str(), ctx);
            proof {
                lemma_declare_single(k0, (ctx@, name@));
            }
        },
        _ => {},
    }
}

fn collect_declarations(
    statements: &[Statement],
    variables: &mut NameStore,
    functions: &mut NameStore,
    ctx: &ContextPath,
)
    requires
        old(variables).wf(),
        old(functions).wf(),
        forall|i: int| 0 <= i < statements@.len() ==> every_stmt(#[trigger] statements@[i]@, names_ready()),
    ensures
        final(variables).wf(),
        final(functions).wf(),
        final(variables).prefix() == old(variables).prefix(),
        final(functions).prefix() == old(functions).prefix(),
        final(variables).keys() == declare_all(old(variables).keys(), var_calls_stmts(views(statements@), ctx@)),
        final(functions).keys() == declare_all(old(functions).keys(), fn_calls_stmts(views(statements@), ctx@)),
    decreases statements@,
{
    let ghost sv = views(statements@);
    let ghost vk0 = variables.keys();
    let ghost fk0 = functions.keys();
    let mut i: usize = 0;
    while i < statements.len()
        invariant
            i <= statements@.len(),
            sv == views(statements@),
            variables.wf(),
            functions.wf(),
            variables.prefix() == old(variables).prefix(),
            functions.prefix() == old(functions).prefix(),
            vk0 == old(variables).keys(),
            fk0 == old(functions).keys(),
            forall|j: int| 0 <= j < statements@.len() ==> every_stmt(#[trigger] statements@[j]@, names_ready()),
            variables.keys() == declare_all(vk0, var_calls_stmts(sv.take(i as int), ctx@)),
            functions.keys() == declare_all(fk0, fn_calls_stmts(sv.take(i as int), ctx@)),
        decreases statements@.len() - i,
    {
        let ghost s = statements@[i as int]@;
        let ghost vk1 = variables.keys();
        let ghost fk1 = functions.keys();
        proof {
            assert(sv.take(i + 1).drop_last() =~= sv.take(i as int));
            assert(sv.take(i + 1).last() == s);
        }
        match &statements[i] {
            Statement::Assign(a) => {
                collect_variable_names(&a.target, variables, ctx);
                proof {
                    assert(fn_calls_stmt(s, ctx@) == Seq::<Key>::empty());
                    assert(declare_all(fk1, Seq::<Key>::empty()) == fk1);
                }
            },
            Statement::If(x) => {
                assert(forall|j: int| 0 <= j < x.body.len() ==> #[trigger] s->If_1[j] == x.body@[j]@);
                assert(forall|j: int| 0 <= j < x.orelse.len() ==> #[trigger] s->If_2[j] == x.orelse@[j]@);
                assert(s->If_1 =~= views(x.body@));
                assert(s->If_2 =~= views(x.orelse@));
                assert forall|j: int| 0 <= j < x.body.len() implies every_stmt(#[trigger] x.body@[j]@, names_ready()) by {
                    assert(s->If_1[j] == x.body@[j]@);
                }
                assert forall|j: int| 0 <= j < x.orelse.len() implies every_stmt(#[trigger] x.orelse@[j]@, names_ready()) by {
                    assert(s->If_2[j] == x.orelse@[j]@);
                }
                collect_declarations(x.body.as_slice(), variables, functions, ctx);
                collect_declarations(x.orelse.as_slice(), variables, functions, ctx);
                proof {
                    lemma_declare_all_concat(vk1, var_calls_stmts(s->If_1, ctx@), var_calls_stmts(s->If_2, ctx@));
                    lemma_declare_all_concat(fk1, fn_calls_stmts(s->If_1, ctx@), fn_calls_stmts(s->If_2, ctx@));
                }
            },
            Statement::Func(f) => {
                assert(forall|j: int| 0 <= j < f.body.len() ==> #[trigger] s->Func_2[j] == f.body@[j]@);
                assert(s->Func_2 =~= views(f.body@));
                assert forall|j: int| 0 <= j < f.body.len() implies every_stmt(#[trigger] f.body@[j]@, names_ready()) by {
                    assert(s->Func_2[j] == f.body@[j]@);
                }
                functions.declare(f.name.as_str(), ctx);
                proof {
                    lemma_declare_single(fk1, (ctx@, f.name@));
                }
                let inner = ctx.join(f.name.as_str());
                let ghost argkeys = Seq::new(f.args@.len(), |j: int| (ctx@.push(f.name@), strings_view(f.args@)[j]));
                let mut k: usize = 0;
                while k < f.args.len()
                    invariant
                        k <= f.args.len(),
                        inner@ == ctx@.push(f.name@),
                        argkeys == Seq::new(f.args@.len(), |j: int| (ctx@.push(f.name@), strings_view(f.args@)[j])),
                        variables.wf(),
                        variables.prefix() == old(variables).prefix(),
                        variables.keys() == declare_all(vk1, argkeys.take(k as int)),
                    decreases f.args.len() - k,
                {
                    variables.declare(f.args[k].as_str(), &inner);
                    proof {
                        assert(argkeys.take(k + 1).drop_last() =~= argkeys.take(k as int));
                        assert(argkeys.take(k + 1).last() == (inner@, f.args@[k as int]@));
                    }
                    k += 1;
                }
                proof {
                    assert(argkeys.take(k as int) =~= argkeys);
                    assert(argkeys.take(0) =~= Seq::<Key>::empty());
                }
                let ghost vk2 = variables.keys();
                let ghost fk2 = functions.keys();
                collect_declarations(f.body.as_slice(), variables, functions, &inner);
                proof {
                    assert(s->Func_1 == strings_view(f.args@));
                    assert(argkeys =~= Seq::new(s->Func_1.len(), |j: int| (ctx@.push(s->Func_0), s->Func_1[j])));
                    lemma_declare_all_concat(vk1, argkeys, var_calls_stmts(s->Func_2, ctx@.push(f.name@)));
                    lemma_declare_all_concat(fk1, seq![(ctx@, f.name@)], fn_calls_stmts(s->Func_2, ctx@.push(f.name@)));
                }
            },
            Statement::While(w) => {
                assert(forall|j: int| 0 <= j < w.body.len() ==> #[trigger] s->While_1[j] == w.body@[j]@);
                assert(s->While_1 =~= views(w.body@));
                assert forall|j: int| 0 <= j < w.body.len() implies every_stmt(#[trigger] w.body@[j]@, names_ready()) by {
                    assert(s->While_1[j] == w.body@[j]@);
                }
                collect_declarations(w.body.as_slice(), variables, functions, ctx);
            },
            _ => {
                proof {
                    assert(var_calls_stmt(s, ctx@) == Seq::<Key>::empty());
                    assert(fn_calls_stmt(s, ctx@) == Seq::<Key>::empty());
                    assert(declare_all(vk1, Seq::<Key>::empty()) == vk1);
                    assert(declare_all(fk1, Seq::<Key>::empty()) == fk1);
                }
            },
        }
        proof {
            lemma_declare_all_concat(vk0, var_calls_stmts(sv.take(i as int), ctx@), var_calls_stmt(s, ctx@));
            lemma_declare_all_concat(fk0, fn_calls_stmts(sv.take(i as int), ctx@), fn_calls_stmt(s, ctx@));
        }
        i += 1;
    }
    proof {
        assert(sv.take(i as int) =~= sv);
    }
}

// ---------------------------------------------------------------------------
// Resolution
// ---------------------------------------------------------------------------

/// The resolved name, or `name` itself when nothing declares it.
pub open spec fn or_keep(r: Option<Seq<char>>, name: Seq<char>) -> Seq<char> {
    match r {
        Some(x) => x,
        None => name,
    }
}

pub open spec fn names_expr(
    e: ExprV,
    vk: Seq<Key>,
    vp: Seq<char>,
    fk: Seq<Key>,
    fp: Seq<char>,
    ctx: Seq<Seq<char>>,
) -> ExprV
    decreases e,
{
    match e {
        ExprV::CallFunction(name, args) => ExprV::CallFunction(
            or_keep(resolve_spec(fk, fp, name, ctx), name),
            Seq::new(args.len(), |i: int| if 0 <= i < args.len() { names_expr(args[i], vk, vp, fk, fp, ctx) } else { no_expr() }),
        ),
        ExprV::CallMethod(v, name, args) => ExprV::CallMethod(
            Box::new(names_expr(*v, vk, vp, fk, fp, ctx)),
            name,
            Seq::new(args.len(), |i: int| if 0 <= i < args.len() { names_expr(args[i], vk, vp, fk, fp, ctx) } else { no_expr() }),
        ),
        ExprV::Tuple(v) => ExprV::Tuple(
            Seq::new(v.len(), |i: int| if 0 <= i < v.len() { names_expr(v[i], vk, vp, fk, fp, ctx) } else { no_expr() }),
        ),
        ExprV::VariableName(name) => ExprV::VariableName(or_keep(resolve_spec(vk, vp, name, ctx), name)),
        ExprV::BoolOperation(op, v) => ExprV::BoolOperation(
            op,
            Seq::new(v.len(), |i: int| if 0 <= i < v.len() { names_expr(v[i], vk, vp, fk, fp, ctx) } else { no_expr() }),
        ),
        ExprV::Compare(l, r, op) => ExprV::Compare(
            Box::new(names_expr(*l, vk, vp, fk, fp, ctx)),
            Box::new(names_expr(*r, vk, vp, fk, fp, ctx)),
            op,
        ),
        ExprV::BinaryOperation(l, r, op) => ExprV::BinaryOperation(
            Box::new(names_expr(*l, vk, vp, fk, fp, ctx)),
            Box::new(names_expr(*r, vk, vp, fk, fp, ctx)),
            op,
        ),
        ExprV::Index(v, i) => ExprV::Index(
            Box::new(names_expr(*v, vk, vp, fk, fp, ctx)),
            Box::new(names_expr(*i, vk, vp, fk, fp, ctx)),
        ),
        ExprV::List(v) => ExprV::List(
            Seq::new(v.len(), |i: int| if 0 <= i < v.len() { names_expr(v[i], vk, vp, fk, fp, ctx) } else { no_expr() }),
        ),
        ExprV::UnaryOperation(v, op) => ExprV::UnaryOperation(Box::new(names_expr(*v, vk, vp, fk, fp, ctx)), op),
        ExprV::Dict(v) => ExprV::Dict(
            Seq::new(v.len(), |i: int|
                if 0 <= i < v.len() {
                    (names_expr(v[i].0, vk, vp, fk, fp, ctx), names_expr(v[i].1, vk, vp, fk, fp, ctx))
                } else {
                    (no_expr(), no_expr())
                }),
        ),
        _ => e,
    }
}

pub open spec fn names_stmt(
    s: StmtV,
    vk: Seq<Key>,
    vp: Seq<char>,
    fk: Seq<Key>,
    fp: Seq<char>,
    ctx: Seq<Seq<char>>,
) -> StmtV
    decreases s,
{
    match s {
        StmtV::Assign(t, v) => StmtV::Assign(names_expr(t, vk, vp, fk, fp, ctx), names_expr(v, vk, vp, fk, fp, ctx)),
        StmtV::Expression(e) => StmtV::Expression(names_expr(e, vk, vp, fk, fp, ctx)),
        StmtV::If(t, b, o) => StmtV::If(
            names_expr(t, vk, vp, fk, fp, ctx),
            Seq::new(b.len(), |i: int| if 0 <= i < b.len() { names_stmt(b[i], vk, vp, fk, fp, ctx) } else { no_stmt() }),
            Seq::new(o.len(), |i: int| if 0 <= i < o.len() { names_stmt(o[i], vk, vp, fk, fp, ctx) } else { no_stmt() }),
        ),
        StmtV::Func(name, args, body) => StmtV::Func(
            resolve_spec(fk, fp, name, ctx)->0,
            Seq::new(args.len(), |i: int| resolve_spec(vk, vp, args[i], ctx.push(name))->0),
            Seq::new(body.len(), |i: int|
                if 0 <= i < body.len() { names_stmt(body[i], vk, vp, fk, fp, ctx.push(name)) } else { no_stmt() }),
        ),
        StmtV::Return(r) => StmtV::Return(
            match r {
                Some(e) => Some(names_expr(e, vk, vp, fk, fp, ctx)),
                None => None,
            },
        ),
        StmtV::While(t, b) => StmtV::While(
            names_expr(t, vk, vp, fk, fp, ctx),
            Seq::new(b.len(), |i: int| if 0 <= i < b.len() { names_stmt(b[i], vk, vp, fk, fp, ctx) } else { no_stmt() }),
        ),
        _ => s,
    }
}

pub open spec fn names_stmts(
    s: Seq<StmtV>,
    vk: Seq<Key>,
    vp: Seq<char>,
    fk: Seq<Key>,
    fp: Seq<char>,
    ctx: Seq<Seq<char>>,
) -> Seq<StmtV> {
    Seq::new(s.len(), |i: int| names_stmt(s[i], vk, vp, fk, fp, ctx))
}

fn resolve_name_or_keep(store: &NameStore, name: &String, ctx: &ContextPath) -> (r: String)
    requires
        store.wf(),
    ensures
        r@ == or_keep(resolve_spec(store.keys(), store.prefix(), name@, ctx@), name@),
{
    match store.resolve(name.as_str(), ctx) {
        Some(n) => n,
        None => copy_string(name),
    }
}

fn resolve_exprs(exprs: &Vec<Expr>, variables: &NameStore, functions: &NameStore, ctx: &ContextPath) -> (r: Vec<Expr>)
    requires
        variables.wf(),
        functions.wf(),
    ensures
        r.len() == exprs.len(),
        forall|i: int| 0 <= i < r.len() ==> (#[trigger] r@[i])@
            == names_expr(exprs@[i]@, variables.keys(), variables.prefix(), functions.keys(), functions.prefix(), ctx@),
    decreases exprs,
{
    let mut r: Vec<Expr> = Vec::new();
    let mut i: usize = 0;
    while i < exprs.len()
        invariant
            i <= exprs.len(),
            r.len() == i,
            variables.wf(),
            functions.wf(),
            forall|j: int| 0 <= j < r.len() ==> (#[trigger] r@[j])@
                == names_expr(exprs@[j]@, variables.keys(), variables.prefix(), functions.keys(), functions.prefix(), ctx@),
        decreases exprs.len() - i,
    {
        r.push(resolve_expr(&exprs[i], variables, functions, ctx));
        i += 1;
    }
    r
}

fn resolve_pairs(v: &Vec<(Expr, Expr)>, variables: &NameStore, functions: &NameStore, ctx: &ContextPath) -> (r: Vec<(Expr, Expr)>)
    requires
        variables.wf(),
        functions.wf(),
    ensures
        r.len() == v.len(),
        forall|i: int| 0 <= i < r.len() ==> {
            &&& (#[trigger] r@[i]).0@ == names_expr(v@[i].0@, variables.keys(), variables.prefix(), functions.keys(), functions.prefix(), ctx@)
            &&& r@[i].1@ == names_expr(v@[i].1@, variables.keys(), variables.prefix(), functions.keys(), functions.prefix(), ctx@)
        },
    decreases v,
{
    let mut r: Vec<(Expr, Expr)> = Vec::new();
    let mut i: usize = 0;
    while i < v.len()
        invariant
            i <= v.len(),
            r.len() == i,
            variables.wf(),
            functions.wf(),
            forall|j: int| 0 <= j < r.len() ==> {
                &&& (#[trigger] r@[j]).0@ == names_expr(v@[j].0@, variables.keys(), variables.prefix(), functions.keys(), functions.prefix(), ctx@)
                &&& r@[j].1@ == names_expr(v@[j].1@, variables.keys(), variables.prefix(), functions.keys(), functions.prefix(), ctx@)
            },
        decreases v.len() - i,
    {
        let k = resolve_expr(&v[i].0, variables, functions, ctx);
        let x = resolve_expr(&v[i].1, variables, functions, ctx);
        r.push((k, x));
        i += 1;
    }
    r
}

fn resolve_expr(expr: &Expr, variables: &NameStore, functions: &NameStore, ctx: &ContextPath) -> (r: Expr)
    requires
        variables.wf(),
        functions.wf(),
    ensures
        r@ == names_expr(expr@, variables.keys(), variables.prefix(), functions.keys(), functions.prefix(), ctx@),
    decreases expr,
{
    let ghost ev = expr@;
    let ghost spec = names_expr(ev, variables.keys(), variables.prefix(), functions.keys(), functions.prefix(), ctx@);
    match expr {
        Expr::CallFunction(c) => {
            let name = resolve_name_or_keep(functions, &c.name, ctx);
            let args = resolve_exprs(&c.args, variables, functions, ctx);
            let r = Expr::CallFunction(CallFunction { name, args });
            proof { assert(r@->CallFunction_1 =~= spec->CallFunction_1); }
            r
        },
        Expr::CallMethod(c) => {
            let value = resolve_expr(&c.value, variables, functions, ctx);
            let args = resolve_exprs(&c.args, variables, functions, ctx);
            let r = Expr::CallMethod(CallMethod { value: Box::new(value), name: copy_string(&c.name), args });
            proof { assert(r@->CallMethod_2 =~= spec->CallMethod_2); }
            r
        },
        Expr::Tuple(v) => {
            let r = Expr::Tuple(resolve_exprs(v, variables, functions, ctx));
            proof { assert(r@->Tuple_0 =~= spec->Tuple_0); }
            r
        },
        Expr::VariableName(name) => Expr::VariableName(resolve_name_or_keep(variables, name, ctx)),
        Expr::BoolOperation(b) => {
            let r = Expr::BoolOperation(BoolOperation { op: b.op, conditions: resolve_exprs(&b.conditions, variables, functions, ctx) });
            proof { assert(r@->BoolOperation_1 =~= spec->BoolOperation_1); }
            r
        },
        Expr::Compare(c) => Expr::Compare(Compare {
            left: Box::new(resolve_expr(&c.left, variables, functions, ctx)),
            right: Box::new(resolve_expr(&c.right, variables, functions, ctx)),
            op: c.op,
        }),
        Expr::BinaryOperation(b) => Expr::BinaryOperation(BinaryOperation {
            left: Box::new(resolve_expr(&b.left, variables, functions, ctx)),
            right: Box::new(resolve_expr(&b.right, variables, functions, ctx)),
            op: b.op,
        }),
        Expr::Index(x) => Expr::Index(Index {
            value: Box::new(resolve_expr(&x.value, variables, functions, ctx)),
            index: Box::new(resolve_expr(&x.index, variables, functions, ctx)),
        }),
        Expr::List(v) => {
            let r = Expr::List(resolve_exprs(v, variables, functions, ctx));
            proof { assert(r@->List_0 =~= spec->List_0); }
            r
        },
        Expr::UnaryOperation(u) => Expr::UnaryOperation(UnaryOperation {
            value: Box::new(resolve_expr(&u.value, variables, functions, ctx)),
            op: u.op,
        }),
        Expr::Dict(d) => {
            let r = Expr::Dict(Dict { pairs: resolve_pairs(&d.pairs, variables, functions, ctx) });
            proof { assert(r@->Dict_0 =~= spec->Dict_0); }
            r
        },
        Expr::ConstantString(_) | Expr::ConstantNumber(_) | Expr::ConstantBoolean(_) | Expr::ConstantNone => copy_expr(expr),
    }
}

fn resolve_args(
    f: &Func<Statement>,
    variables: &NameStore,
    inner: &ContextPath,
) -> (r: Vec<String>)
    requires
        variables.wf(),
        forall|j: int| 0 <= j < f.args.len() ==> variables.keys().contains((inner@, #[trigger] f.args@[j]@)),
    ensures
        strings_view(r@) == Seq::new(f.args@.len(), |j: int| resolve_spec(variables.keys(), variables.prefix(), f.args@[j]@, inner@)->0),
{
    let ghost vk = variables.keys();
    let ghost vp = variables.prefix();
    let mut args: Vec<String> = Vec::new();
    let mut k: usize = 0;
    while k < f.args.len()
        invariant
            k <= f.args.len(),
            args.len() == k,
            variables.wf(),
            vk == variables.keys(),
            vp == variables.prefix(),
            forall|j: int| 0 <= j < f.args.len() ==> vk.contains((inner@, #[trigger] f.args@[j]@)),
            forall|j: int| 0 <= j < k ==> (#[trigger] args@[j])@ == resolve_spec(vk, vp, f.args@[j]@, inner@)->0,
        decreases f.args.len() - k,
    {
        proof {
            assert(vk.contains((inner@, f.args@[k as int]@)));
        }
        match variables.resolve(f.args[k].as_str(), inner) {
            Some(n) => {
                args.push(n);
            },
            None => {
                proof {
                    assert(false);
                }
            },
        }
        k += 1;
    }
    proof {
        assert(strings_view(args@) =~= Seq::new(f.args@.len(), |j: int| resolve_spec(vk, vp, f.args@[j]@, inner@)->0));
    }
    args
}

fn resolve_statement(
    statement: &Statement,
    variables: &NameStore,
    functions: &NameStore,
    ctx: &ContextPath,
) -> (r: Statement)
    requires
        variables.wf(),
        functions.wf(),
        subset_of(var_calls_stmt(statement@, ctx@), variables.keys()),
        subset_of(fn_calls_stmt(statement@, ctx@), functions.keys()),
    ensures
        r@ == names_stmt(statement@, variables.keys(), variables.prefix(), functions.keys(), functions.prefix(), ctx@),
    decreases statement,
{
    let ghost s = statement@;
    let ghost vk = variables.keys();
    let ghost vp = variables.prefix();
    let ghost fk = functions.keys();
    let ghost fp = functions.prefix();
    let ghost spec = names_stmt(s, vk, vp, fk, fp, ctx@);
    match statement {
        Statement::Assign(a) => Statement::Assign(Assign {
            target: resolve_expr(&a.target, variables, functions, ctx),
            value: resolve_expr(&a.value, variables, functions, ctx),
        }),
        Statement::Expression(e) => Statement::Expression(resolve_expr(e, variables, functions, ctx)),
        Statement::If(x) => {
            assert(forall|j: int| 0 <= j < x.body.len() ==> #[trigger] s->If_1[j] == x.body@[j]@);
            assert(forall|j: int| 0 <= j < x.orelse.len() ==> #[trigger] s->If_2[j] == x.orelse@[j]@);
            assert(s->If_1 =~= views(x.body@));
            assert(s->If_2 =~= views(x.orelse@));
            proof {
                lemma_subset_concat(var_calls_stmts(s->If_1, ctx@), var_calls_stmts(s->If_2, ctx@), vk);
                lemma_subset_concat(fn_calls_stmts(s->If_1, ctx@), fn_calls_stmts(s->If_2, ctx@), fk);
            }
            let test = resolve_expr(&x.test, variables, functions, ctx);
            let body = resolve_statements(&x.body, variables, functions, ctx);
            let orelse = resolve_statements(&x.orelse, variables, functions, ctx);
            let ghost bv = views(body@);
            let ghost ov = views(orelse@);
            let st = Statement::If(If { test, body, orelse });
            proof {
                assert(spec->If_1 =~= names_stmts(s->If_1, vk, vp, fk, fp, ctx@));
                assert(spec->If_2 =~= names_stmts(s->If_2, vk, vp, fk, fp, ctx@));
                assert(st@->If_1 =~= bv);
                assert(st@->If_2 =~= ov);
            }
            st
        },
        Statement::Func(f) => {
            assert(forall|j: int| 0 <= j < f.body.len() ==> #[trigger] s->Func_2[j] == f.body@[j]@);
            assert(s->Func_2 =~= views(f.body@));
            let inner = ctx.join(f.name.as_str());
            let ghost argkeys = Seq::new(s->Func_1.len(), |j: int| (ctx@.push(s->Func_0), s->Func_1[j]));
            proof {
                lemma_subset_concat(argkeys, var_calls_stmts(s->Func_2, ctx@.push(f.name@)), vk);
                lemma_subset_concat(seq![(ctx@, f.name@)], fn_calls_stmts(s->Func_2, ctx@.push(f.name@)), fk);
                assert(seq![(ctx@, f.name@)][0] == (ctx@, f.name@));
                assert(fk.contains((ctx@, f.name@)));
                assert forall|j: int| 0 <= j < f.args.len() implies vk.contains((inner@, #[trigger] f.args@[j]@)) by {
                    assert(argkeys[j] == (inner@, f.args@[j]@));
                }
            }
            let name = match functions.resolve(f.name.as_str(), ctx) {
                Some(n) => n,
                None => {
                    proof {
                        assert(false);
                    }
                    copy_string(&f.name)
                },
            };
            let args = resolve_args(f, variables, &inner);
            let body = resolve_statements(&f.body, variables, functions, &inner);
            let ghost bv = views(body@);
            let st = Statement::Func(Func { name, args, body });
            proof {
                assert(spec->Func_1 =~= strings_view(st->Func_0.args@));
                assert(spec->Func_2 =~= names_stmts(s->Func_2, vk, vp, fk, fp, inner@));
                assert(st@->Func_2 =~= bv);
            }
            st
        },
        Statement::Return(e) => match e {
            Some(x) => Statement::Return(Some(resolve_expr(x, variables, functions, ctx))),
            None => Statement::Return(None),
        },
        Statement::While(w) => {
            assert(forall|j: int| 0 <= j < w.body.len() ==> #[trigger] s->While_1[j] == w.body@[j]@);
            assert(s->While_1 =~= views(w.body@));
            let test = resolve_expr(&w.test, variables, functions, ctx);
            let body = resolve_statements(&w.body, variables, functions, ctx);
            let ghost bv = views(body@);
            let st = Statement::While(While { test, body });
            proof {
                assert(spec->While_1 =~= names_stmts(s->While_1, vk, vp, fk, fp, ctx@));
                assert(st@->While_1 =~= bv);
            }
            st
        },
        Statement::Break => Statement::Break,
        Statement::Continue => Statement::Continue,
        Statement::Import(x) => Statement::Import(copy_import(x)),
        Statement::FromImport(x) => Statement::FromImport(copy_from_import(x)),
    }
}

fn resolve_statements(
    statements: &Vec<Statement>,
    variables: &NameStore,
    functions: &NameStore,
    ctx: &ContextPath,
) -> (r: Vec<Statement>)
    requires
        variables.wf(),
        functions.wf(),
        subset_of(var_calls_stmts(views(statements@), ctx@), variables.keys()),
        subset_of(fn_calls_stmts(views(statements@), ctx@), functions.keys()),
    ensures
        views(r@) == names_stmts(views(statements@), variables.keys(), variables.prefix(), functions.keys(), functions.prefix(), ctx@),
    decreases statements,
{
    let ghost sv = views(statements@);
    let ghost vk = variables.keys();
    let ghost vp = variables.prefix();
    let ghost fk = functions.keys();
    let ghost fp = functions.prefix();
    let mut r: Vec<Statement> = Vec::new();
    let mut i: usize = 0;
    while i < statements.len()
        invariant
            i <= statements.len(),
            r.len() == i,
            sv == views(statements@),
            vk == variables.keys(),
            vp == variables.prefix(),
            fk == functions.keys(),
            fp == functions.prefix(),
            variables.wf(),
            functions.wf(),
            subset_of(var_calls_stmts(sv, ctx@), vk),
            subset_of(fn_calls_stmts(sv, ctx@), fk),
            forall|j: int| 0 <= j < r.len() ==> (#[trigger] r@[j])@ == names_stmt(sv[j], vk, vp, fk, fp, ctx@),
        decreases statements.len() - i,
    {
        proof {
            lemma_calls_contain(sv, ctx@, i as int);
            assert(sv[i as int] == statements@[i as int]@);
        }
        let next = resolve_statement(&statements[i], variables, functions, ctx);
        r.push(next);
        i += 1;
    }
    proof {
        assert(views(r@) =~= names_stmts(sv, vk, vp, fk, fp, ctx@));
    }
    r
}

/// The variable names of a program, in the order in which they are declared.
pub open spec fn program_variables(s: Seq<StmtV>) -> Seq<Key> {
    declare_all(Seq::empty(), var_calls_stmts(s, Seq::empty()))
}

/// The function names of a program, in the order in which they are declared.
pub open spec fn program_functions(s: Seq<StmtV>) -> Seq<Key> {
    declare_all(Seq::empty(), fn_calls_stmts(s, Seq::empty()))
}

/// Renames every variable to `__v<n>` and every function to `__f<n>`.
pub fn resolve_names(statements: &Vec<Statement>) -> (r: Vec<Statement>)
    requires
        forall|i: int| 0 <= i < statements@.len() ==> every_stmt(#[trigger] statements@[i]@, names_ready()),
    ensures
        views(r@) == names_stmts(
            views(statements@),
            program_variables(views(statements@)),
            "__v"@,
            program_functions(views(statements@)),
            "__f"@,
            Seq::empty(),
        ),
{
    let mut variables = NameStore::new("__v");
    let mut functions = NameStore::new("__f");
    let ctx = ContextPath::default();
    collect_declarations(statements.as_slice(), &mut variables, &mut functions, &ctx);
    proof {
        lemma_declare_all_contains(Seq::empty(), var_calls_stmts(views(statements@), ctx@));
        lemma_declare_all_contains(Seq::empty(), fn_calls_stmts(views(statements@), ctx@));
    }
    resolve_statements(statements, &variables, &functions, &ctx)
}


/// Nothing resolves in an empty table.
proof fn lemma_resolve_empty(p: Seq<char>, name: Seq<char>, ctx: Seq<Seq<char>>)
    ensures
        resolve_spec(Seq::<Key>::empty(), p, name, ctx) is None,
    decreases ctx.len(),
{
    if ctx.len() > 0 {
        lemma_resolve_empty(p, name, ctx.drop_last());
    }
}

proof fn lemma_names_expr_keeps(e: ExprV, vp: Seq<char>, fp: Seq<char>, ctx: Seq<Seq<char>>)
    ensures
        names_expr(e, Seq::<Key>::empty(), vp, Seq::<Key>::empty(), fp, ctx) == e,
    decreases e,
{
    let none = Seq::<Key>::empty();
    match e {
        ExprV::CallFunction(n, args) => {
            lemma_resolve_empty(fp, n, ctx);
            assert forall|i: int| 0 <= i < args.len() implies names_expr(#[trigger] args[i], none, vp, none, fp, ctx) == args[i] by {
                lemma_names_expr_keeps(args[i], vp, fp, ctx);
            }
            assert(names_expr(e, none, vp, none, fp, ctx)->CallFunction_1 =~= args);
        },
        ExprV::CallMethod(v, n, args) => {
            lemma_names_expr_keeps(*v, vp, fp, ctx);
            assert forall|i: int| 0 <= i < args.len() implies names_expr(#[trigger] args[i], none, vp, none, fp, ctx) == args[i] by {
                lemma_names_expr_keeps(args[i], vp, fp, ctx);
            }
            assert(names_expr(e, none, vp, none, fp, ctx)->CallMethod_2 =~= args);
        },
        ExprV::Tuple(v) => {
            assert forall|i: int| 0 <= i < v.len() implies names_expr(#[trigger] v[i], none, vp, none, fp, ctx) == v[i] by {
                lemma_names_expr_keeps(v[i], vp, fp, ctx);
            }
            assert(names_expr(e, none, vp, none, fp, ctx)->Tuple_0 =~= v);
        },
        ExprV::VariableName(n) => {
            lemma_resolve_empty(vp, n, ctx);
        },
        ExprV::BoolOperation(op, v) => {
            assert forall|i: int| 0 <= i < v.len() implies names_expr(#[trigger] v[i], none, vp, none, fp, ctx) == v[i] by {
                lemma_names_expr_keeps(v[i], vp, fp, ctx);
            }
            assert(names_expr(e, none, vp, none, fp, ctx)->BoolOperation_1 =~= v);
        },
        ExprV::Compare(l, r, _) => {
            lemma_names_expr_keeps(*l, vp, fp, ctx);
            lemma_names_expr_keeps(*r, vp, fp, ctx);
        },
        ExprV::BinaryOperation(l, r, _) => {
            lemma_names_expr_keeps(*l, vp, fp, ctx);
            lemma_names_expr_keeps(*r, vp, fp, ctx);
        },
        ExprV::Index(v, i) => {
            lemma_names_expr_keeps(*v, vp, fp, ctx);
            lemma_names_expr_keeps(*i, vp, fp, ctx);
        },
        ExprV::List(v) => {
            assert forall|i: int| 0 <= i < v.len() implies names_expr(#[trigger] v[i], none, vp, none, fp, ctx) == v[i] by {
                lemma_names_expr_keeps(v[i], vp, fp, ctx);
            }
            assert(names_expr(e, none, vp, none, fp, ctx)->List_0 =~= v);
        },
        ExprV::UnaryOperation(v, _) => {
            lemma_names_expr_keeps(*v, vp, fp, ctx);
        },
        ExprV::Dict(v) => {
            assert forall|i: int| 0 <= i < v.len() implies names_expr(#[trigger] v[i].0, none, vp, none, fp, ctx) == v[i].0
                && names_expr(v[i].1, none, vp, none, fp, ctx) == v[i].1 by {
                lemma_names_expr_keeps(v[i].0, vp, fp, ctx);
                lemma_names_expr_keeps(v[i].1, vp, fp, ctx);
            }
            assert(names_expr(e, none, vp, none, fp, ctx)->Dict_0 =~= v);
        },
        _ => {},
    }
}

/// Renaming with nothing declared leaves an expression as it is: only names are changed,
/// every operand stays in its place.
pub proof fn law_names_rename_only(e: ExprV, vp: Seq<char>, fp: Seq<char>, ctx: Seq<Seq<char>>)
    ensures
        names_expr(e, Seq::<Key>::empty(), vp, Seq::<Key>::empty(), fp, ctx) == e,
{
    lemma_names_expr_keeps(e, vp, fp, ctx);
}

/// A statement that defines no function.
pub open spec fn not_func() -> spec_fn(StmtV) -> bool {
    |s: StmtV| !(s is Func)
}

proof fn lemma_names_stmt_keeps(s: StmtV, vp: Seq<char>, fp: Seq<char>, ctx: Seq<Seq<char>>)
    requires
        every_stmt(s, not_func()),
    ensures
        names_stmt(s, Seq::<Key>::empty(), vp, Seq::<Key>::empty(), fp, ctx) == s,
    decreases s,
{
    let none = Seq::<Key>::empty();
    match s {
        StmtV::Assign(t, v) => {
            lemma_names_expr_keeps(t, vp, fp, ctx);
            lemma_names_expr_keeps(v, vp, fp, ctx);
        },
        StmtV::Expression(e) => {
            lemma_names_expr_keeps(e, vp, fp, ctx);
        },
        StmtV::If(t, b, o) => {
            lemma_names_expr_keeps(t, vp, fp, ctx);
            assert forall|i: int| 0 <= i < b.len() implies names_stmt(#[trigger] b[i], none, vp, none, fp, ctx) == b[i] by {
                lemma_names_stmt_keeps(b[i], vp, fp, ctx);
            }
            assert forall|i: int| 0 <= i < o.len() implies names_stmt(#[trigger] o[i], none, vp, none, fp, ctx) == o[i] by {
                lemma_names_stmt_keeps(o[i], vp, fp, ctx);
            }
            assert(names_stmt(s, none, vp, none, fp, ctx)->If_1 =~= b);
            assert(names_stmt(s, none, vp, none, fp, ctx)->If_2 =~= o);
        },
        StmtV::Return(r) => {
            if let Some(e) = r {
                lemma_names_expr_keeps(e, vp, fp, ctx);
            }
        },
        StmtV::While(t, b) => {
            lemma_names_expr_keeps(t, vp, fp, ctx);
            assert forall|i: int| 0 <= i < b.len() implies names_stmt(#[trigger] b[i], none, vp, none, fp, ctx) == b[i] by {
                lemma_names_stmt_keeps(b[i], vp, fp, ctx);
            }
            assert(names_stmt(s, none, vp, none, fp, ctx)->While_1 =~= b);
        },
        _ => {},
    }
}

/// Renaming with nothing declared leaves a program without function definitions as it is
/// (an `if` keeps its test, body and `else` branch in place).
pub proof fn law_names_rename_only_in_programs(s: Seq<StmtV>, vp: Seq<char>, fp: Seq<char>, ctx: Seq<Seq<char>>)
    requires
        forall|i: int| 0 <= i < s.len() ==> every_stmt(#[trigger] s[i], not_func()),
    ensures
        names_stmts(s, Seq::<Key>::empty(), vp, Seq::<Key>::empty(), fp, ctx) == s,
{
    assert forall|i: int| 0 <= i < s.len() implies names_stmt(#[trigger] s[i], Seq::<Key>::empty(), vp, Seq::<Key>::empty(), fp, ctx) == s[i] by {
        lemma_names_stmt_keeps(s[i], vp, fp, ctx);
    }
    assert(names_stmts(s, Seq::<Key>::empty(), vp, Seq::<Key>::empty(), fp, ctx) =~= s);
}

} // verus!
