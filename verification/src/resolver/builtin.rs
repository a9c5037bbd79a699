//! Rewrites calls of Python built-ins into the names the runtime provides:
//! `map(int, xs)` becomes `map_int(xs)`, and the variadic built-ins become macros.
use vstd::prelude::*;
use crate::ast::{
    copy_expr, copy_from_import, copy_import, copy_string, copy_strings, every_expr, every_stmt_expr,
    Assign, Func, If, Statement, While, no_expr, no_stmt, BinaryOperation, BoolOperation,
    CallFunction, CallMethod, Compare, Dict, Expr, ExprV, Index, StmtV, UnaryOperation,
};
use crate::text::{concat, str_eq, string_of};

verus! {

/// A call of `map` has at least one argument.
pub open spec fn map_call_has_args(e: ExprV) -> bool {
    match e {
        ExprV::CallFunction(name, args) => name == "map"@ ==> args.len() > 0,
        _ => true,
    }
}

/// The condition under which the rewriting does not fail: every call of `map` has an argument.
pub open spec fn builtin_ready() -> spec_fn(ExprV) -> bool {
    |x: ExprV| map_call_has_args(x)
}

/// The built-ins that are called through a macro of the runtime.
pub open spec fn is_macro_name(name: Seq<char>) -> bool {
    ||| name == "range"@
    ||| name == "print"@
    ||| name == "pow"@
    ||| name == "set"@
    ||| name == "exit"@
    ||| name == "max"@
    ||| name == "min"@
    ||| name == "sum"@
}

pub open spec fn builtin_expr(e: ExprV) -> ExprV
    decreases e,
{
    match e {
        ExprV::CallFunction(name, args) => {
            let ra = Seq::new(args.len(), |i: int| if 0 <= i < args.len() { builtin_expr(args[i]) } else { no_expr() });
            if name == "map"@ && args[0] == ExprV::VariableName("int"@) {
                ExprV::CallFunction("map_int"@, ra.skip(1))
            } else if is_macro_name(name) {
                ExprV::CallFunction(name + "__macro__"@, ra)
            } else {
                ExprV::CallFunction(name, ra)
            }
        },
        ExprV::CallMethod(v, name, args) => ExprV::CallMethod(
            Box::new(builtin_expr(*v)),
            name,
            Seq::new(args.len(), |i: int| if 0 <= i < args.len() { builtin_expr(args[i]) } else { no_expr() }),
        ),
        ExprV::Tuple(v) => ExprV::Tuple(
            Seq::new(v.len(), |i: int| if 0 <= i < v.len() { builtin_expr(v[i]) } else { no_expr() }),
        ),
        ExprV::BoolOperation(op, v) => ExprV::BoolOperation(
            op,
            Seq::new(v.len(), |i: int| if 0 <= i < v.len() { builtin_expr(v[i]) } else { no_expr() }),
        ),
        ExprV::Compare(l, r, op) => ExprV::Compare(Box::new(builtin_expr(*l)), Box::new(builtin_expr(*r)), op),
        ExprV::BinaryOperation(l, r, op) => ExprV::BinaryOperation(Box::new(builtin_expr(*l)), Box::new(builtin_expr(*r)), op),
        ExprV::Index(v, i) => ExprV::Index(Box::new(builtin_expr(*v)), Box::new(builtin_expr(*i))),
        ExprV::List(v) => ExprV::List(
            Seq::new(v.len(), |i: int| if 0 <= i < v.len() { builtin_expr(v[i]) } else { no_expr() }),
        ),
        ExprV::Dict(v) => ExprV::Dict(
            Seq::new(v.len(), |i: int| if 0 <= i < v.len() { (builtin_expr(v[i].0), builtin_expr(v[i].1)) } else { (no_expr(), no_expr()) }),
        ),
        ExprV::UnaryOperation(v, op) => ExprV::UnaryOperation(Box::new(builtin_expr(*v)), op),
        _ => e,
    }
}

pub open spec fn builtin_stmt(s: StmtV) -> StmtV
    decreases s,
{
    match s {
        StmtV::Assign(t, v) => StmtV::Assign(builtin_expr(t), builtin_expr(v)),
        StmtV::Expression(e) => StmtV::Expression(builtin_expr(e)),
        StmtV::If(t, b, o) => StmtV::If(
            builtin_expr(t),
            Seq::new(b.len(), |i: int| if 0 <= i < b.len() { builtin_stmt(b[i]) } else { no_stmt() }),
            Seq::new(o.len(), |i: int| if 0 <= i < o.len() { builtin_stmt(o[i]) } else { no_stmt() }),
        ),
        StmtV::Func(n, a, b) => StmtV::Func(
            n,
            a,
            Seq::new(b.len(), |i: int| if 0 <= i < b.len() { builtin_stmt(b[i]) } else { no_stmt() }),
        ),
        StmtV::Return(r) => StmtV::Return(
            match r {
                Some(e) => Some(builtin_expr(e)),
                None => None,
            },
        ),
        StmtV::While(t, b) => StmtV::While(
            builtin_expr(t),
            Seq::new(b.len(), |i: int| if 0 <= i < b.len() { builtin_stmt(b[i]) } else { no_stmt() }),
        ),
        _ => s,
    }
}

/// The rewriting of a whole program.
pub open spec fn builtin_stmts(s: Seq<StmtV>) -> Seq<StmtV> {
    Seq::new(s.len(), |i: int| builtin_stmt(s[i]))
}

fn resolve_exprs(v: &Vec<Expr>, from: usize) -> (r: Vec<Expr>)
    requires
        from <= v.len(),
        forall|i: int| 0 <= i < v.len() ==> every_expr(#[trigger] v@[i]@, builtin_ready()),
    ensures
        r.len() == v.len() - from,
        forall|i: int| 0 <= i < r.len() ==> (#[trigger] r@[i])@ == builtin_expr(v@[i + from]@),
    decreases v,
{
    let mut r: Vec<Expr> = Vec::new();
    let mut i: usize = from;
    while i < v.len()
        invariant
            from <= i <= v.len(),
            r.len() == i - from,
            forall|j: int| 0 <= j < v.len() ==> every_expr(#[trigger] v@[j]@, builtin_ready()),
            forall|j: int| 0 <= j < r.len() ==> (#[trigger] r@[j])@ == builtin_expr(v@[j + from]@),
        decreases v.len() - i,
    {
        r.push(v[i].resolve());
        i += 1;
    }
    r
}

impl Expr {
    /// Rewrites the built-in calls inside the expression.
    pub fn resolve(&self) -> (r: Expr)
        requires
            every_expr(self@, builtin_ready()),
        ensures
            r@ == builtin_expr(self@),
        decreases self,
    {
        let ghost ev = self@;
        match self {
            Expr::CallFunction(c) => {
                assert(forall|i: int| 0 <= i < c.args.len() ==> #[trigger] ev->CallFunction_1[i] == c.args@[i]@);
                assert forall|i: int| 0 <= i < c.args.len() implies every_expr(#[trigger] c.args@[i]@, builtin_ready()) by {
                    assert(ev->CallFunction_1[i] == c.args@[i]@);
                }
                let is_map_int = if str_eq(&c.name, "map") {
                    assert(ev->CallFunction_1[0] == c.args@[0]@);
                    match &c.args[0] {
                        Expr::VariableName(n) => str_eq(n, "int"),
                        _ => false,
                    }
                } else {
                    false
                };
                assert(is_map_int == (c.name@ == "map"@ && ev->CallFunction_1[0] == ExprV::VariableName("int"@)));
                if is_map_int {
                    let args = resolve_exprs(&c.args, 1);
                    let r = Expr::CallFunction(CallFunction { name: string_of("map_int"), args });
                    proof {
                        assert(r@->CallFunction_1 =~= builtin_expr(ev)->CallFunction_1);
                    }
                    r
                } else {
                    let args = resolve_exprs(&c.args, 0);
                    let is_macro = str_eq(&c.name, "range") || str_eq(&c.name, "print") || str_eq(&c.name, "pow")
                        || str_eq(&c.name, "set") || str_eq(&c.name, "exit") || str_eq(&c.name, "max")
                        || str_eq(&c.name, "min") || str_eq(&c.name, "sum");
                    let name = if is_macro {
                        concat(&c.name, "__macro__")
                    } else {
                        copy_string(&c.name)
                    };
                    let r = Expr::CallFunction(CallFunction { name, args });
                    proof {
                        assert(r@->CallFunction_1 =~= builtin_expr(ev)->CallFunction_1);
                        assert(is_macro == is_macro_name(c.name@));
                        assert(r@->CallFunction_0 == builtin_expr(ev)->CallFunction_0);
                        assert(r@ == builtin_expr(ev));
                    }
                    r
                }
            },
            Expr::CallMethod(c) => {
                assert(forall|i: int| 0 <= i < c.args.len() ==> #[trigger] ev->CallMethod_2[i] == c.args@[i]@);
                assert forall|i: int| 0 <= i < c.args.len() implies every_expr(#[trigger] c.args@[i]@, builtin_ready()) by {
                    assert(ev->CallMethod_2[i] == c.args@[i]@);
                }
                let value = c.value.resolve();
                let args = resolve_exprs(&c.args, 0);
                let r = Expr::CallMethod(CallMethod { value: Box::new(value), name: copy_string(&c.name), args });
                proof { assert(r@->CallMethod_2 =~= builtin_expr(ev)->CallMethod_2); }
                r
            },
            Expr::Tuple(v) => {
                assert(forall|i: int| 0 <= i < v.len() ==> #[trigger] ev->Tuple_0[i] == v@[i]@);
                assert forall|i: int| 0 <= i < v.len() implies every_expr(#[trigger] v@[i]@, builtin_ready()) by {
                    assert(ev->Tuple_0[i] == v@[i]@);
                }
                let r = Expr::Tuple(resolve_exprs(v, 0));
                proof { assert(r@->Tuple_0 =~= builtin_expr(ev)->Tuple_0); }
                r
            },
            Expr::BoolOperation(b) => {
                assert(forall|i: int| 0 <= i < b.conditions.len() ==> #[trigger] ev->BoolOperation_1[i] == b.conditions@[i]@);
                assert forall|i: int| 0 <= i < b.conditions.len() implies every_expr(#[trigger] b.conditions@[i]@, builtin_ready()) by {
                    assert(ev->BoolOperation_1[i] == b.conditions@[i]@);
                }
                let r = Expr::BoolOperation(BoolOperation { op: b.op, conditions: resolve_exprs(&b.conditions, 0) });
                proof { assert(r@->BoolOperation_1 =~= builtin_expr(ev)->BoolOperation_1); }
                r
            },
            Expr::Compare(c) => Expr::Compare(Compare {
                left: Box::new(c.left.resolve()),
                right: Box::new(c.right.resolve()),
                op: c.op,
            }),
            Expr::BinaryOperation(b) => Expr::BinaryOperation(BinaryOperation {
                left: Box::new(b.left.resolve()),
                right: Box::new(b.right.resolve()),
                op: b.op,
            }),
            Expr::Index(x) => Expr::Index(Index {
                value: Box::new(x.value.resolve()),
                index: Box::new(x.index.resolve()),
            }),
            Expr::List(v) => {
                assert(forall|i: int| 0 <= i < v.len() ==> #[trigger] ev->List_0[i] == v@[i]@);
                assert forall|i: int| 0 <= i < v.len() implies every_expr(#[trigger] v@[i]@, builtin_ready()) by {
                    assert(ev->List_0[i] == v@[i]@);
                }
                let r = Expr::List(resolve_exprs(v, 0));
                proof { assert(r@->List_0 =~= builtin_expr(ev)->List_0); }
                r
            },
            Expr::Dict(d) => {
                assert(forall|i: int| 0 <= i < d.pairs.len() ==> #[trigger] ev->Dict_0[i] == (d.pairs@[i].0@, d.pairs@[i].1@));
                assert forall|i: int| 0 <= i < d.pairs.len() implies every_expr(#[trigger] d.pairs@[i].0@, builtin_ready())
                    && every_expr(d.pairs@[i].1@, builtin_ready()) by {
                    assert(ev->Dict_0[i] == (d.pairs@[i].0@, d.pairs@[i].1@));
                    assert(every_expr(ev->Dict_0[i].0, builtin_ready()));
                }
                let pairs = resolve_pairs(&d.pairs);
                let r = Expr::Dict(Dict { pairs });
                proof { assert(r@->Dict_0 =~= builtin_expr(ev)->Dict_0); }
                r
            },
            Expr::UnaryOperation(u) => Expr::UnaryOperation(UnaryOperation {
                value: Box::new(u.value.resolve()),
                op: u.op,
            }),
            Expr::ConstantNumber(_) | Expr::ConstantString(_) | Expr::VariableName(_)
            | Expr::ConstantBoolean(_) | Expr::ConstantNone => copy_expr(self),
        }
    }
}

fn resolve_pairs(v: &Vec<(Expr, Expr)>) -> (r: Vec<(Expr, Expr)>)
    requires
        forall|i: int| 0 <= i < v.len() ==> every_expr(#[trigger] v@[i].0@, builtin_ready()) && every_expr(v@[i].1@, builtin_ready()),
    ensures
        r.len() == v.len(),
        forall|i: int| 0 <= i < r.len() ==> (#[trigger] r@[i]).0@ == builtin_expr(v@[i].0@) && r@[i].1@ == builtin_expr(v@[i].1@),
    decreases v,
{
    let mut r: Vec<(Expr, Expr)> = Vec::new();
    let mut i: usize = 0;
    while i < v.len()
        invariant
            i <= v.len(),
            r.len() == i,
            forall|j: int| 0 <= j < v.len() ==> every_expr(#[trigger] v@[j].0@, builtin_ready()) && every_expr(v@[j].1@, builtin_ready()),
            forall|j: int| 0 <= j < r.len() ==> (#[trigger] r@[j]).0@ == builtin_expr(v@[j].0@) && r@[j].1@ == builtin_expr(v@[j].1@),
        decreases v.len() - i,
    {
        let k = v[i].0.resolve();
        let x = v[i].1.resolve();
        r.push((k, x));
        i += 1;
    }
    r
}

fn resolve_stmts(v: &Vec<Statement>) -> (r: Vec<Statement>)
    requires
        forall|i: int| 0 <= i < v.len() ==> every_stmt_expr(#[trigger] v@[i]@, builtin_ready()),
    ensures
        r.len() == v.len(),
        forall|i: int| 0 <= i < r.len() ==> (#[trigger] r@[i])@ == builtin_stmt(v@[i]@),
    decreases v,
{
    let mut r: Vec<Statement> = Vec::new();
    let mut i: usize = 0;
    while i < v.len()
        invariant
            i <= v.len(),
            r.len() == i,
            forall|j: int| 0 <= j < v.len() ==> every_stmt_expr(#[trigger] v@[j]@, builtin_ready()),
            forall|j: int| 0 <= j < r.len() ==> (#[trigger] r@[j])@ == builtin_stmt(v@[j]@),
        decreases v.len() - i,
    {
        r.push(v[i].resolve());
        i += 1;
    }
    r
}

impl Statement {
    /// Rewrites the built-in calls inside the statement.
    pub fn resolve(&self) -> (r: Statement)
        requires
            every_stmt_expr(self@, builtin_ready()),
        ensures
            r@ == builtin_stmt(self@),
        decreases self,
    {
        let ghost sv = self@;
        match self {
            Statement::Assign(a) => Statement::Assign(Assign { target: a.target.resolve(), value: a.value.resolve() }),
            Statement::Expression(e) => Statement::Expression(e.resolve()),
            Statement::If(x) => {
                assert(forall|i: int| 0 <= i < x.body.len() ==> #[trigger] sv->If_1[i] == x.body@[i]@);
                assert(forall|i: int| 0 <= i < x.orelse.len() ==> #[trigger] sv->If_2[i] == x.orelse@[i]@);
                assert forall|i: int| 0 <= i < x.body.len() implies every_stmt_expr(#[trigger] x.body@[i]@, builtin_ready()) by {
                    assert(sv->If_1[i] == x.body@[i]@);
                }
                assert forall|i: int| 0 <= i < x.orelse.len() implies every_stmt_expr(#[trigger] x.orelse@[i]@, builtin_ready()) by {
                    assert(sv->If_2[i] == x.orelse@[i]@);
                }
                let r = Statement::If(If { test: x.test.resolve(), body: resolve_stmts(&x.body), orelse: resolve_stmts(&x.orelse) });
                proof {
                    assert(r@->If_1 =~= builtin_stmt(sv)->If_1);
                    assert(r@->If_2 =~= builtin_stmt(sv)->If_2);
                }
                r
            },
            Statement::Func(f) => {
                assert(forall|i: int| 0 <= i < f.body.len() ==> #[trigger] sv->Func_2[i] == f.body@[i]@);
                assert forall|i: int| 0 <= i < f.body.len() implies every_stmt_expr(#[trigger] f.body@[i]@, builtin_ready()) by {
                    assert(sv->Func_2[i] == f.body@[i]@);
                }
                let r = Statement::Func(Func { name: copy_string(&f.name), args: copy_strings(&f.args), body: resolve_stmts(&f.body) });
                proof {
                    assert(r@->Func_2 =~= builtin_stmt(sv)->Func_2);
                }
                r
            },
            Statement::Return(e) => match e {
                Some(x) => Statement::Return(Some(x.resolve())),
                None => Statement::Return(None),
            },
            Statement::While(w) => {
                assert(forall|i: int| 0 <= i < w.body.len() ==> #[trigger] sv->While_1[i] == w.body@[i]@);
                assert forall|i: int| 0 <= i < w.body.len() implies every_stmt_expr(#[trigger] w.body@[i]@, builtin_ready()) by {
                    assert(sv->While_1[i] == w.body@[i]@);
                }
                let r = Statement::While(While { test: w.test.resolve(), body: resolve_stmts(&w.body) });
                proof {
                    assert(r@->While_1 =~= builtin_stmt(sv)->While_1);
                }
                r
            },
            Statement::Break => Statement::Break,
            Statement::Continue => Statement::Continue,
            Statement::Import(i) => Statement::Import(copy_import(i)),
            Statement::FromImport(i) => Statement::FromImport(copy_from_import(i)),
        }
    }
}

/// Rewrites the built-in calls of a whole program.
pub fn resolve_builtin_functions(statements: &[Statement]) -> (r: Vec<Statement>)
    requires
        forall|i: int| 0 <= i < statements@.len() ==> every_stmt_expr(#[trigger] statements@[i]@, builtin_ready()),
    ensures
        r@.len() == statements@.len(),
        forall|i: int| 0 <= i < r@.len() ==> (#[trigger] r@[i])@ == builtin_stmt(statements@[i]@),
{
    let mut r: Vec<Statement> = Vec::new();
    let mut i: usize = 0;
    while i < statements.len()
        invariant
            i <= statements@.len(),
            r.len() == i,
            forall|j: int| 0 <= j < statements@.len() ==> every_stmt_expr(#[trigger] statements@[j]@, builtin_ready()),
            forall|j: int| 0 <= j < r.len() ==> (#[trigger] r@[j])@ == builtin_stmt(statements@[j]@),
        decreases statements@.len() - i,
    {
        r.push(statements[i].resolve());
        i += 1;
    }
    r
}


/// The built-ins that the runtime provides as macros are `range`, `print`, `pow`, `set`,
/// `exit`, `max`, `min` and `sum`: a call of each becomes a call of the same name followed
/// by `__macro__`, with each argument rewritten in turn.
pub proof fn law_builtin_macro_calls(name: Seq<char>, args: Seq<ExprV>)
    requires
        name == "range"@ || name == "print"@ || name == "pow"@ || name == "set"@ || name == "exit"@
            || name == "max"@ || name == "min"@ || name == "sum"@,
    ensures
        builtin_expr(ExprV::CallFunction(name, args)) matches ExprV::CallFunction(n, a)
            && n == name + "__macro__"@
            && a.len() == args.len()
            && forall|i: int| 0 <= i < args.len() ==> #[trigger] a[i] == builtin_expr(args[i]),
{
    reveal_strlit("map");
    reveal_strlit("range");
    reveal_strlit("print");
    reveal_strlit("pow");
    reveal_strlit("set");
    reveal_strlit("exit");
    reveal_strlit("max");
    reveal_strlit("min");
    reveal_strlit("sum");
    let m = "map"@;
    assert(m.len() == 3 && m[1] == 'a' && m[2] == 'p');
    if name.len() == 3 {
        assert(name[1] != 'a' || name[2] != 'p');
    }
    assert(name != m);
}

/// A call of a function other than `map` and those eight built-ins keeps its name, with
/// each argument rewritten in turn.
pub proof fn law_builtin_plain_calls(name: Seq<char>, args: Seq<ExprV>)
    requires
        name != "map"@,
        name != "range"@ && name != "print"@ && name != "pow"@ && name != "set"@ && name != "exit"@
            && name != "max"@ && name != "min"@ && name != "sum"@,
    ensures
        builtin_expr(ExprV::CallFunction(name, args)) matches ExprV::CallFunction(n, a)
            && n == name
            && a.len() == args.len()
            && forall|i: int| 0 <= i < args.len() ==> #[trigger] a[i] == builtin_expr(args[i]),
{
}

/// `map(int, xs)` becomes `map_int(xs)`, its other arguments rewritten in turn.
pub proof fn law_builtin_map_int(args: Seq<ExprV>)
    requires
        args.len() > 0,
        args[0] == ExprV::VariableName("int"@),
    ensures
        builtin_expr(ExprV::CallFunction("map"@, args)) matches ExprV::CallFunction(n, a)
            && n == "map_int"@
            && a.len() == args.len() - 1
            && forall|i: int| 0 <= i < a.len() ==> #[trigger] a[i] == builtin_expr(args[i + 1]),
{
}


/// A node that is no call of `map` or of one of the eight built-ins given as macros.
pub open spec fn no_builtin_call() -> spec_fn(ExprV) -> bool {
    |x: ExprV| x matches ExprV::CallFunction(n, _) ==> !(n == "map"@ || n == "range"@ || n == "print"@
        || n == "pow"@ || n == "set"@ || n == "exit"@ || n == "max"@ || n == "min"@ || n == "sum"@)
}

proof fn lemma_builtin_expr_keeps(e: ExprV)
    requires
        every_expr(e, no_builtin_call()),
    ensures
        builtin_expr(e) == e,
    decreases e,
{
    match e {
        ExprV::CallFunction(n, args) => {
            assert(!is_macro_name(n));
            assert(n != "map"@);
            assert forall|i: int| 0 <= i < args.len() implies builtin_expr(#[trigger] args[i]) == args[i] by {
                lemma_builtin_expr_keeps(args[i]);
            }
            assert(builtin_expr(e)->CallFunction_1 =~= args);
        },
        ExprV::CallMethod(v, n, args) => {
            lemma_builtin_expr_keeps(*v);
            assert forall|i: int| 0 <= i < args.len() implies builtin_expr(#[trigger] args[i]) == args[i] by {
                lemma_builtin_expr_keeps(args[i]);
            }
            assert(builtin_expr(e)->CallMethod_2 =~= args);
        },
        ExprV::Tuple(v) => {
            assert forall|i: int| 0 <= i < v.len() implies builtin_expr(#[trigger] v[i]) == v[i] by {
                lemma_builtin_expr_keeps(v[i]);
            }
            assert(builtin_expr(e)->Tuple_0 =~= v);
        },
        ExprV::BoolOperation(op, v) => {
            assert forall|i: int| 0 <= i < v.len() implies builtin_expr(#[trigger] v[i]) == v[i] by {
                lemma_builtin_expr_keeps(v[i]);
            }
            assert(builtin_expr(e)->BoolOperation_1 =~= v);
        },
        ExprV::Compare(l, r, _) => {
            lemma_builtin_expr_keeps(*l);
            lemma_builtin_expr_keeps(*r);
        },
        ExprV::BinaryOperation(l, r, _) => {
            lemma_builtin_expr_keeps(*l);
            lemma_builtin_expr_keeps(*r);
        },
        ExprV::Index(v, i) => {
            lemma_builtin_expr_keeps(*v);
            lemma_builtin_expr_keeps(*i);
        },
        ExprV::List(v) => {
            assert forall|i: int| 0 <= i < v.len() implies builtin_expr(#[trigger] v[i]) == v[i] by {
                lemma_builtin_expr_keeps(v[i]);
            }
            assert(builtin_expr(e)->List_0 =~= v);
        },
        ExprV::Dict(v) => {
            assert forall|i: int| 0 <= i < v.len() implies builtin_expr(#[trigger] v[i].0) == v[i].0 && builtin_expr(v[i].1) == v[i].1 by {
                lemma_builtin_expr_keeps(v[i].0);
                lemma_builtin_expr_keeps(v[i].1);
            }
            assert(builtin_expr(e)->Dict_0 =~= v);
        },
        ExprV::UnaryOperation(v, _) => {
            lemma_builtin_expr_keeps(*v);
        },
        _ => {},
    }
}

/// The built-in rewriting leaves an expression that calls neither `map` nor any of the eight
/// built-ins given as macros as it is: every operand stays in its place.
pub proof fn law_builtin_keeps_the_rest(e: ExprV)
    requires
        every_expr(e, no_builtin_call()),
    ensures
        builtin_expr(e) == e,
{
    lemma_builtin_expr_keeps(e);
}

proof fn lemma_builtin_stmt_keeps(s: StmtV)
    requires
        every_stmt_expr(s, no_builtin_call()),
    ensures
        builtin_stmt(s) == s,
    decreases s,
{
    match s {
        StmtV::Assign(t, v) => {
            lemma_builtin_expr_keeps(t);
            lemma_builtin_expr_keeps(v);
        },
        StmtV::Expression(e) => {
            lemma_builtin_expr_keeps(e);
        },
        StmtV::If(t, b, o) => {
            lemma_builtin_expr_keeps(t);
            assert forall|i: int| 0 <= i < b.len() implies builtin_stmt(#[trigger] b[i]) == b[i] by {
                lemma_builtin_stmt_keeps(b[i]);
            }
            assert forall|i: int| 0 <= i < o.len() implies builtin_stmt(#[trigger] o[i]) == o[i] by {
                lemma_builtin_stmt_keeps(o[i]);
            }
            assert(builtin_stmt(s)->If_1 =~= b);
            assert(builtin_stmt(s)->If_2 =~= o);
        },
        StmtV::Func(n, a, b) => {
            assert forall|i: int| 0 <= i < b.len() implies builtin_stmt(#[trigger] b[i]) == b[i] by {
                lemma_builtin_stmt_keeps(b[i]);
            }
            assert(builtin_stmt(s)->Func_2 =~= b);
        },
        StmtV::Return(r) => {
            if let Some(e) = r {
                lemma_builtin_expr_keeps(e);
            }
        },
        StmtV::While(t, b) => {
            lemma_builtin_expr_keeps(t);
            assert forall|i: int| 0 <= i < b.len() implies builtin_stmt(#[trigger] b[i]) == b[i] by {
                lemma_builtin_stmt_keeps(b[i]);
            }
            assert(builtin_stmt(s)->While_1 =~= b);
        },
        _ => {},
    }
}

/// The built-in rewriting leaves a program that calls neither `map` nor any of the eight
/// built-ins given as macros as it is (an `if` keeps its test, body and `else` branch).
pub proof fn law_builtin_keeps_programs(s: Seq<StmtV>)
    requires
        forall|i: int| 0 <= i < s.len() ==> every_stmt_expr(#[trigger] s[i], no_builtin_call()),
    ensures
        builtin_stmts(s) == s,
{
    assert forall|i: int| 0 <= i < s.len() implies builtin_stmt(#[trigger] s[i]) == s[i] by {
        lemma_builtin_stmt_keeps(s[i]);
    }
    assert(builtin_stmts(s) =~= s);
}

} // verus!
