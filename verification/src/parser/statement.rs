//! Reading statements of the Python syntax tree into `RawStmt<RawExpr>`.
//!
//! Besides one-to-one nodes:
//! - `a = b = v` assigns `v` to a fresh variable `__assign_tmp_N` and that variable to
//!   each target, where `N` is a stamp of the clock;
//! - `t op= v` becomes `t = t op v`;
//! - `del x[i]` becomes the call `x.__delete(i)`, `del x` the assignment `x = None`;
//! - `pass` yields no statement, and an import of several names one statement per name.
use vstd::prelude::*;
use crate::ast::{
    copy_raw_expr, copy_string, copy_strings, no_stmt, strings_view, views, Assign, BinaryOperation, CallMethod,
    ExprV, For, FromImport, Func, If, Import, RawExpr, RawStmt, StmtV, While,
};
use crate::parser::expression::{bin_op_of, bin_op_supported, expr_supported, parse_expressions, parsed};
use crate::parser::fresh::unixtime_nano;
use crate::parser::python::{PyAlias, PyExpr, PyStmt};
use crate::text::{string_of, with_number};

verus! {

/// The name an import binds: its `as` name, else the imported name.
pub open spec fn alias_of(a: PyAlias) -> Seq<char> {
    match a.asname {
        Some(x) => x@,
        None => a.name@,
    }
}

/// The temporary variable of a chained assignment stamped with `stamp`.
pub open spec fn assign_tmp(stamp: u128) -> ExprV {
    ExprV::VariableName("__assign_tmp_"@ + crate::text::decimal(stamp as nat))
}

/// The statement that deletes the target `t`.
pub open spec fn delete_stmt(t: ExprV) -> StmtV {
    match t {
        ExprV::Index(v, i) => StmtV::Expression(ExprV::CallMethod(v, "__delete"@, seq![*i])),
        _ => StmtV::Assign(t, ExprV::ConstantNone),
    }
}

/// The statements read from `s`, using stamps from the front of `st`; also the stamps left.
pub open spec fn parse_stmt(s: PyStmt, st: Seq<u128>) -> (Seq<StmtV>, Seq<u128>)
    decreases s,
{
    match s {
        PyStmt::Assign { targets, value } => {
            if targets@.len() == 1 {
                (seq![StmtV::Assign(parsed(targets@[0]), parsed(value))], st)
            } else {
                let tmp = assign_tmp(st[0]);
                (
                    seq![StmtV::Assign(tmp, parsed(value))] + Seq::new(targets@.len(), |i: int|
                        if 0 <= i < targets@.len() { StmtV::Assign(parsed(targets@[i]), tmp) } else { no_stmt() }),
                    st.drop_first(),
                )
            }
        },
        PyStmt::Expr(v) => (seq![StmtV::Expression(parsed(v))], st),
        PyStmt::If { test, body, orelse } => {
            let (b, st1) = parse_stmts(body@, st);
            let (o, st2) = parse_stmts(orelse@, st1);
            (seq![StmtV::If(parsed(test), b, o)], st2)
        },
        PyStmt::FunctionDef { name, args, body } => {
            let (b, st1) = parse_stmts(body@, st);
            (seq![StmtV::Func(name@, strings_view(args@), b)], st1)
        },
        PyStmt::Return(v) => (
            seq![StmtV::Return(match v {
                Some(e) => Some(parsed(e)),
                None => None,
            })],
            st,
        ),
        PyStmt::While { test, body } => {
            let (b, st1) = parse_stmts(body@, st);
            (seq![StmtV::While(parsed(test), b)], st1)
        },
        PyStmt::For { target, iter, body } => {
            let (b, st1) = parse_stmts(body@, st);
            (seq![StmtV::For(parsed(target), parsed(iter), b)], st1)
        },
        PyStmt::Break => (seq![StmtV::Break], st),
        PyStmt::Continue => (seq![StmtV::Continue], st),
        PyStmt::AugAssign { target, op, value } => (
            seq![StmtV::Assign(
                parsed(target),
                ExprV::BinaryOperation(Box::new(parsed(target)), Box::new(parsed(value)), bin_op_of(op)),
            )],
            st,
        ),
        PyStmt::Delete { targets } => (
            Seq::new(targets@.len(), |i: int|
                if 0 <= i < targets@.len() { delete_stmt(parsed(targets@[i])) } else { no_stmt() }),
            st,
        ),
        PyStmt::ImportFrom { module, names } => match module {
            Some(m) => (
                Seq::new(names@.len(), |i: int| StmtV::FromImport(m@, names@[i].name@, alias_of(names@[i]))),
                st,
            ),
            None => (seq![], st),
        },
        PyStmt::Import { names } => (
            Seq::new(names@.len(), |i: int| StmtV::Import(names@[i].name@, alias_of(names@[i]))),
            st,
        ),
        _ => (seq![], st),
    }
}

pub open spec fn parse_stmts(s: Seq<PyStmt>, st: Seq<u128>) -> (Seq<StmtV>, Seq<u128>)
    decreases s,
{
    if s.len() == 0 {
        (seq![], st)
    } else {
        let (a, st1) = parse_stmts(s.drop_last(), st);
        let (b, st2) = parse_stmt(s.last(), st1);
        (a + b, st2)
    }
}

/// The statements that `parse` reads, and does not panic on.
pub open spec fn stmt_supported(s: PyStmt) -> bool
    decreases s,
{
    match s {
        PyStmt::Assign { targets, value } => {
            &&& expr_supported(value)
            &&& forall|i: int| 0 <= i < targets@.len() ==> expr_supported(#[trigger] targets@[i])
        },
        PyStmt::Expr(v) => expr_supported(v),
        PyStmt::If { test, body, orelse } => {
            &&& expr_supported(test)
            &&& forall|i: int| 0 <= i < body@.len() ==> stmt_supported(#[trigger] body@[i])
            &&& forall|i: int| 0 <= i < orelse@.len() ==> stmt_supported(#[trigger] orelse@[i])
        },
        PyStmt::FunctionDef { name: _, args: _, body } => forall|i: int| 0 <= i < body@.len() ==> stmt_supported(#[trigger] body@[i]),
        PyStmt::Return(v) => match v {
            Some(e) => expr_supported(e),
            None => true,
        },
        PyStmt::While { test, body } => {
            &&& expr_supported(test)
            &&& forall|i: int| 0 <= i < body@.len() ==> stmt_supported(#[trigger] body@[i])
        },
        PyStmt::For { target, iter, body } => {
            &&& expr_supported(target)
            &&& expr_supported(iter)
            &&& forall|i: int| 0 <= i < body@.len() ==> stmt_supported(#[trigger] body@[i])
        },
        PyStmt::AugAssign { target, op, value } => expr_supported(target) && expr_supported(value) && bin_op_supported(op),
        PyStmt::Delete { targets } => forall|i: int| 0 <= i < targets@.len() ==> expr_supported(#[trigger] targets@[i]),
        PyStmt::ImportFrom { module, names: _ } => module is Some,
        PyStmt::Unsupported => false,
        _ => true,
    }
}

fn alias_string(a: &PyAlias) -> (r: String)
    ensures
        r@ == alias_of(*a),
{
    match &a.asname {
        Some(x) => copy_string(x),
        None => copy_string(&a.name),
    }
}

fn tmp_var(name: &String) -> (r: RawExpr)
    ensures
        r@ == ExprV::VariableName(name@),
{
    RawExpr::VariableName(copy_string(name))
}

/// An assignment, to one target or through a fresh temporary to several.
fn parse_assign(targets: &Vec<PyExpr>, value: &PyExpr) -> (r: (Vec<RawStmt<RawExpr>>, Ghost<Seq<u128>>))
    requires
        expr_supported(*value),
        forall|i: int| 0 <= i < targets@.len() ==> expr_supported(#[trigger] targets@[i]),
    ensures
        forall|rest: Seq<u128>| #[trigger] parse_stmt(PyStmt::Assign { targets: *targets, value: *value }, r.1@ + rest)
            == (views(r.0@), rest),
{
    let ghost sv = PyStmt::Assign { targets: *targets, value: *value };
    let v = RawExpr::parse(value);
    let parsed_targets = parse_expressions(targets);
    if parsed_targets.len() == 1 {
        let t = copy_raw_expr(&parsed_targets[0]);
        let out = vec![RawStmt::Assign(Assign { target: t, value: v })];
        proof {
            assert forall|rest: Seq<u128>| #[trigger] parse_stmt(sv, Seq::<u128>::empty() + rest) == (views(out@), rest) by {
                assert(Seq::<u128>::empty() + rest =~= rest);
                assert(views(out@) =~= seq![StmtV::Assign(parsed(targets@[0]), parsed(*value))]);
            }
        }
        (out, Ghost(Seq::empty()))
    } else {
        let stamp = unixtime_nano();
        let name = with_number("__assign_tmp_", stamp);
        let ghost tmp = assign_tmp(stamp);
        let ghost vv = v@;
        let mut out = vec![RawStmt::Assign(Assign { target: tmp_var(&name), value: v })];
        let mut i: usize = 0;
        while i < parsed_targets.len()
            invariant
                i <= parsed_targets.len(),
                parsed_targets.len() == targets.len(),
                tmp == assign_tmp(stamp),
                name@ == tmp->VariableName_0,
                forall|j: int| 0 <= j < targets@.len() ==> (#[trigger] parsed_targets@[j])@ == parsed(targets@[j]),
                views(out@) == seq![StmtV::Assign(tmp, vv)] + Seq::new(i as nat, |j: int| StmtV::Assign(parsed(targets@[j]), tmp)),
            decreases parsed_targets.len() - i,
        {
            let t = copy_raw_expr(&parsed_targets[i]);
            let ghost before = views(out@);
            let x = RawStmt::Assign(Assign { target: t, value: tmp_var(&name) });
            let ghost xv = x@;
            out.push(x);
            proof {
                assert(xv == StmtV::Assign(parsed(targets@[i as int]), tmp));
                assert(views(out@) =~= before.push(xv));
                assert(views(out@) =~= seq![StmtV::Assign(tmp, vv)] + Seq::new((i + 1) as nat, |j: int| StmtV::Assign(parsed(targets@[j]), tmp)));
            }
            i += 1;
        }
        proof {
            assert forall|rest: Seq<u128>| #[trigger] parse_stmt(sv, seq![stamp] + rest) == (views(out@), rest) by {
                let st = seq![stamp] + rest;
                assert(st[0] == stamp);
                assert(st.drop_first() =~= rest);
                assert(views(out@) =~= seq![StmtV::Assign(tmp, parsed(*value))] + Seq::new(targets@.len(), |j: int|
                    if 0 <= j < targets@.len() { StmtV::Assign(parsed(targets@[j]), tmp) } else { no_stmt() }));
            }
        }
        let ghost used = seq![stamp];
        (out, Ghost(used))
    }
}

/// `del t1, t2, ...`: a call of `__delete` for an indexed target, else an assignment of `None`.
fn parse_delete(targets: &Vec<PyExpr>) -> (r: Vec<RawStmt<RawExpr>>)
    requires
        forall|i: int| 0 <= i < targets@.len() ==> expr_supported(#[trigger] targets@[i]),
    ensures
        forall|st: Seq<u128>| #[trigger] parse_stmt(PyStmt::Delete { targets: *targets }, st) == (views(r@), st),
{
    let parsed_targets = parse_expressions(targets);
    let mut out: Vec<RawStmt<RawExpr>> = Vec::new();
    let mut i: usize = 0;
    while i < parsed_targets.len()
        invariant
            i <= parsed_targets.len(),
            parsed_targets.len() == targets.len(),
            forall|j: int| 0 <= j < targets@.len() ==> (#[trigger] parsed_targets@[j])@ == parsed(targets@[j]),
            views(out@) == Seq::new(i as nat, |j: int| delete_stmt(parsed(targets@[j]))),
        decreases parsed_targets.len() - i,
    {
        let ghost tv = parsed_targets@[i as int]@;
        let st = match &parsed_targets[i] {
            RawExpr::Index(x) => {
                let args = vec![copy_raw_expr(&x.index)];
                let e = RawExpr::CallMethod(CallMethod { value: Box::new(copy_raw_expr(&x.value)), name: string_of("__delete"), args });
                proof {
                    assert(e@->CallMethod_2 =~= seq![*tv->Index_1]);
                }
                RawStmt::Expression(e)
            },
            t => RawStmt::Assign(Assign { target: copy_raw_expr(t), value: RawExpr::ConstantNone }),
        };
        proof {
            assert(st@ == delete_stmt(tv));
        }
        let ghost before = views(out@);
        let ghost xv = st@;
        out.push(st);
        proof {
            assert(views(out@) =~= before.push(xv));
            assert(views(out@) =~= Seq::new((i + 1) as nat, |j: int| delete_stmt(parsed(targets@[j]))));
        }
        i += 1;
    }
    proof {
        assert forall|st: Seq<u128>| #[trigger] parse_stmt(PyStmt::Delete { targets: *targets }, st) == (views(out@), st) by {
            assert(views(out@) =~= Seq::new(targets@.len(), |j: int|
                if 0 <= j < targets@.len() { delete_stmt(parsed(targets@[j])) } else { no_stmt() }));
        }
    }
    out
}

/// `from m import a as b, ...`: one statement per name.
fn parse_import_from(module: &String, names: &Vec<PyAlias>) -> (r: Vec<RawStmt<RawExpr>>)
    ensures
        views(r@) == Seq::new(names@.len(), |i: int| StmtV::FromImport(module@, names@[i].name@, alias_of(names@[i]))),
{
    let mut out: Vec<RawStmt<RawExpr>> = Vec::new();
    let mut i: usize = 0;
    while i < names.len()
        invariant
            i <= names.len(),
            views(out@) == Seq::new(i as nat, |j: int| StmtV::FromImport(module@, names@[j].name@, alias_of(names@[j]))),
        decreases names.len() - i,
    {
        let n = &names[i];
        let x = RawStmt::FromImport(FromImport { from: copy_string(module), import: copy_string(&n.name), alias: alias_string(n) });
        let ghost before = views(out@);
        let ghost xv = x@;
        out.push(x);
        proof {
            assert(views(out@) =~= before.push(xv));
            assert(views(out@) =~= Seq::new((i + 1) as nat, |j: int| StmtV::FromImport(module@, names@[j].name@, alias_of(names@[j]))));
        }
        i += 1;
    }
    out
}

/// `import a as b, ...`: one statement per name.
fn parse_import(names: &Vec<PyAlias>) -> (r: Vec<RawStmt<RawExpr>>)
    ensures
        views(r@) == Seq::new(names@.len(), |i: int| StmtV::Import(names@[i].name@, alias_of(names@[i]))),
{
    let mut out: Vec<RawStmt<RawExpr>> = Vec::new();
    let mut i: usize = 0;
    while i < names.len()
        invariant
            i <= names.len(),
            views(out@) == Seq::new(i as nat, |j: int| StmtV::Import(names@[j].name@, alias_of(names@[j]))),
        decreases names.len() - i,
    {
        let n = &names[i];
        let x = RawStmt::Import(Import { import: copy_string(&n.name), alias: alias_string(n) });
        let ghost before = views(out@);
        let ghost xv = x@;
        out.push(x);
        proof {
            assert(views(out@) =~= before.push(xv));
            assert(views(out@) =~= Seq::new((i + 1) as nat, |j: int| StmtV::Import(names@[j].name@, alias_of(names@[j]))));
        }
        i += 1;
    }
    out
}

/// Statements that draw no stamp.
proof fn stampless(s: PyStmt, out: Seq<StmtV>)
    requires
        forall|st: Seq<u128>| #[trigger] parse_stmt(s, st) == (out, st),
    ensures
        forall|rest: Seq<u128>| #[trigger] parse_stmt(s, Seq::<u128>::empty() + rest) == (out, rest),
{
    assert forall|rest: Seq<u128>| #[trigger] parse_stmt(s, Seq::<u128>::empty() + rest) == (out, rest) by {
        assert(Seq::<u128>::empty() + rest =~= rest);
        assert(parse_stmt(s, rest) == (out, rest));
    }
}

fn parse_statement(s: &PyStmt) -> (r: (Vec<RawStmt<RawExpr>>, Ghost<Seq<u128>>))
    requires
        stmt_supported(*s),
    ensures
        forall|rest: Seq<u128>| #[trigger] parse_stmt(*s, r.1@ + rest) == (views(r.0@), rest),
    decreases s,
{
    let ghost sv = *s;
    match s {
        PyStmt::Assign { targets, value } => parse_assign(targets, value),
        PyStmt::Expr(v) => {
            let out = vec![RawStmt::Expression(RawExpr::parse(v))];
            proof {
                assert(views(out@) =~= seq![StmtV::Expression(parsed(*v))]);
                stampless(sv, views(out@));
            }
            (out, Ghost(Seq::empty()))
        },
        PyStmt::If { test, body, orelse } => {
            let t = RawExpr::parse(test);
            let (b, u1) = parse_statements(body);
            let (o, u2) = parse_statements(orelse);
            let ghost (tv, bv, ov) = (t@, views(b@), views(o@));
            let out = vec![RawStmt::If(If { test: t, body: b, orelse: o })];
            let ghost used = u1@ + u2@;
            proof {
                assert(out@[0]@->If_1 =~= bv);
                assert(out@[0]@->If_2 =~= ov);
                assert(views(out@) =~= seq![StmtV::If(tv, bv, ov)]);
                assert forall|rest: Seq<u128>| #[trigger] parse_stmt(sv, used + rest) == (views(out@), rest) by {
                    assert(used + rest =~= u1@ + (u2@ + rest));
                    assert(parse_stmts(body@, u1@ + (u2@ + rest)) == (bv, u2@ + rest));
                    assert(parse_stmts(orelse@, u2@ + rest) == (ov, rest));
                }
            }
            (out, Ghost(used))
        },
        PyStmt::FunctionDef { name, args, body } => {
            let (b, u) = parse_statements(body);
            let ghost bv = views(b@);
            let out = vec![RawStmt::Func(Func { name: copy_string(name), args: copy_strings(args), body: b })];
            proof {
                assert(out@[0]@->Func_2 =~= bv);
                assert(views(out@) =~= seq![StmtV::Func(name@, strings_view(args@), bv)]);
                assert forall|rest: Seq<u128>| #[trigger] parse_stmt(sv, u@ + rest) == (views(out@), rest) by {
                    assert(parse_stmts(body@, u@ + rest) == (bv, rest));
                }
            }
            (out, u)
        },
        PyStmt::Return(v) => {
            let e = match v {
                Some(x) => Some(RawExpr::parse(x)),
                None => None,
            };
            let out = vec![RawStmt::Return(e)];
            proof {
                assert(views(out@) =~= parse_stmt(sv, Seq::empty()).0);
                stampless(sv, views(out@));
            }
            (out, Ghost(Seq::empty()))
        },
        PyStmt::While { test, body } => {
            let t = RawExpr::parse(test);
            let (b, u) = parse_statements(body);
            let ghost (tv, bv) = (t@, views(b@));
            let out = vec![RawStmt::While(While { test: t, body: b })];
            proof {
                assert(out@[0]@->While_1 =~= bv);
                assert(views(out@) =~= seq![StmtV::While(tv, bv)]);
                assert forall|rest: Seq<u128>| #[trigger] parse_stmt(sv, u@ + rest) == (views(out@), rest) by {
                    assert(parse_stmts(body@, u@ + rest) == (bv, rest));
                }
            }
            (out, u)
        },
        PyStmt::For { target, iter, body } => {
            let t = RawExpr::parse(target);
            let it = RawExpr::parse(iter);
            let (b, u) = parse_statements(body);
            let ghost (tv, iv, bv) = (t@, it@, views(b@));
            let out = vec![RawStmt::For(For { target: t, iter: it, body: b })];
            proof {
                assert(out@[0]@->For_2 =~= bv);
                assert(views(out@) =~= seq![StmtV::For(tv, iv, bv)]);
                assert forall|rest: Seq<u128>| #[trigger] parse_stmt(sv, u@ + rest) == (views(out@), rest) by {
                    assert(parse_stmts(body@, u@ + rest) == (bv, rest));
                }
            }
            (out, u)
        },
        PyStmt::Break => {
            let out = vec![RawStmt::Break];
            proof {
                assert(views(out@) =~= seq![StmtV::Break]);
                stampless(sv, views(out@));
            }
            (out, Ghost(Seq::empty()))
        },
        PyStmt::Continue => {
            let out = vec![RawStmt::Continue];
            proof {
                assert(views(out@) =~= seq![StmtV::Continue]);
                stampless(sv, views(out@));
            }
            (out, Ghost(Seq::empty()))
        },
        PyStmt::AugAssign { target, op, value } => {
            let t = RawExpr::parse(target);
            let left = copy_raw_expr(&t);
            let v = RawExpr::parse(value);
            let e = RawExpr::BinaryOperation(BinaryOperation { left: Box::new(left), right: Box::new(v), op: crate::ast::BinaryOperator::parse(op) });
            let out = vec![RawStmt::Assign(Assign { target: t, value: e })];
            proof {
                assert(views(out@) =~= parse_stmt(sv, Seq::empty()).0);
                stampless(sv, views(out@));
            }
            (out, Ghost(Seq::empty()))
        },
        PyStmt::Delete { targets } => {
            let out = parse_delete(targets);
            proof { stampless(sv, views(out@)); }
            (out, Ghost(Seq::empty()))
        },
        PyStmt::ImportFrom { module, names } => {
            let out = match module {
                Some(m) => parse_import_from(m, names),
                None => Vec::new(),
            };
            proof {
                assert(views(out@) =~= parse_stmt(sv, Seq::empty()).0);
                stampless(sv, views(out@));
            }
            (out, Ghost(Seq::empty()))
        },
        PyStmt::Import { names } => {
            let out = parse_import(names);
            proof {
                stampless(sv, views(out@));
            }
            (out, Ghost(Seq::empty()))
        },
        _ => {
            let out: Vec<RawStmt<RawExpr>> = Vec::new();
            proof {
                assert(views(out@) =~= Seq::<StmtV>::empty());
                stampless(sv, views(out@));
            }
            (out, Ghost(Seq::empty()))
        },
    }
}

fn parse_statements(stmts: &Vec<PyStmt>) -> (r: (Vec<RawStmt<RawExpr>>, Ghost<Seq<u128>>))
    requires
        forall|i: int| 0 <= i < stmts@.len() ==> stmt_supported(#[trigger] stmts@[i]),
    ensures
        forall|rest: Seq<u128>| #[trigger] parse_stmts(stmts@, r.1@ + rest) == (views(r.0@), rest),
    decreases stmts,
{
    let ghost sv = stmts@;
    let mut out: Vec<RawStmt<RawExpr>> = Vec::new();
    let ghost mut used: Seq<u128> = Seq::empty();
    let mut i: usize = 0;
    proof {
        assert forall|rest: Seq<u128>| #[trigger] parse_stmts(sv.take(0), used + rest) == (views(out@), rest) by {
            assert(used + rest =~= rest);
            assert(views(out@) =~= Seq::<StmtV>::empty());
            assert(sv.take(0) =~= Seq::<PyStmt>::empty());
        }
    }
    while i < stmts.len()
        invariant
            i <= stmts.len(),
            sv == stmts@,
            forall|j: int| 0 <= j < stmts@.len() ==> stmt_supported(#[trigger] stmts@[j]),
            forall|rest: Seq<u128>| #[trigger] parse_stmts(sv.take(i as int), used + rest) == (views(out@), rest),
        decreases stmts.len() - i,
    {
        let (mut o, u) = parse_statement(&stmts[i]);
        let ghost old_out = views(out@);
        let ghost ov = views(o@);
        let ghost old_used = used;
        out.append(&mut o);
        proof {
            used = used + u@;
            assert(sv.take(i + 1).drop_last() =~= sv.take(i as int));
            assert(sv.take(i + 1).last() == stmts@[i as int]);
            assert(views(out@) =~= old_out + ov);
            assert forall|rest: Seq<u128>| #[trigger] parse_stmts(sv.take(i + 1), used + rest) == (views(out@), rest) by {
                assert(used + rest =~= old_used + (u@ + rest));
                assert(parse_stmts(sv.take(i as int), old_used + (u@ + rest)) == (old_out, u@ + rest));
                assert(parse_stmt(stmts@[i as int], u@ + rest) == (ov, rest));
            }
        }
        i += 1;
    }
    proof {
        assert(sv.take(i as int) =~= sv);
    }
    (out, Ghost(used))
}

impl RawStmt<RawExpr> {
    /// Reads a statement of the Python syntax tree.  The stamps that name temporaries are
    /// not known in advance: the result is the reading for some sequence of stamps, all of
    /// which it uses.
    pub fn parse(statement: &PyStmt) -> (r: Vec<Self>)
        requires
            stmt_supported(*statement),
        ensures
            exists|st: Seq<u128>| #[trigger] parse_stmt(*statement, st) == (views(r@), Seq::<u128>::empty()),
    {
        let (out, used) = parse_statement(statement);
        proof {
            assert(used@ + Seq::<u128>::empty() =~= used@);
            assert(parse_stmt(*statement, used@ + Seq::<u128>::empty()) == (views(out@), Seq::<u128>::empty()));
        }
        out
    }
}

/// Reads the statements of a program.
pub(crate) fn parse_program(stmts: &Vec<PyStmt>) -> (r: (Vec<RawStmt<RawExpr>>, Ghost<Seq<u128>>))
    requires
        forall|i: int| 0 <= i < stmts@.len() ==> stmt_supported(#[trigger] stmts@[i]),
    ensures
        forall|rest: Seq<u128>| #[trigger] parse_stmts(stmts@, r.1@ + rest) == (views(r.0@), rest),
{
    parse_statements(stmts)
}


/// An `if` is read as one `if` with the same test, its body read as body and its `else`
/// branch read as `else` branch; `t op= v` is read as `t = t op v`, the target on the left.
pub proof fn law_if_and_augmented_read(s: PyStmt, st: Seq<u128>)
    ensures
        s matches PyStmt::If { test, body, orelse } ==> {
            let (b, st1) = parse_stmts(body@, st);
            let (o, st2) = parse_stmts(orelse@, st1);
            parse_stmt(s, st) == (seq![StmtV::If(parsed(test), b, o)], st2)
        },
        s matches PyStmt::AugAssign { target, op, value } ==> parse_stmt(s, st) == (
            seq![StmtV::Assign(parsed(target), ExprV::BinaryOperation(Box::new(parsed(target)), Box::new(parsed(value)), bin_op_of(op)))],
            st,
        ),
{
}

} // verus!
