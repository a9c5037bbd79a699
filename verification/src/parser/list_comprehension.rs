//! Lowers list comprehensions to calls of generated functions.
//!
//! `[v for t in xs if c]` becomes a call `__fN()` of a new function, hoisted in front of
//! the statement that held the comprehension:
//!
//! ```text
//! def __fN():
//!     __result = []
//!     for t in xs:
//!         if c:
//!             __result.append(v)
//!     return __result
//! ```
//!
//! where `N` is a stamp of the clock.  Each further generator wraps the loops built so
//! far, so the first generator becomes the innermost loop.  Stamps are drawn after those
//! of the comprehensions nested inside.
use vstd::prelude::*;
use crate::ast::{
    copy_from_import, copy_import, copy_number, copy_string, copy_strings, every_expr,
    every_stmt_expr, views, Assign, BinaryOperation, BoolOperation, BoolOperator, CallFunction,
    CallMethod, Compare, Comprehension, ComprehensionV, Dict, Expr, ExprV, For, Func, If, Index,
    ListComprehension, RawExpr, RawStmt, StmtV, UnaryOperation, While,
};
use crate::parser::fresh::unixtime_nano;
use crate::text::{string_of, with_number};

verus! {

/// A node that is not a list comprehension.
pub open spec fn not_comprehension() -> spec_fn(ExprV) -> bool {
    |x: ExprV| !(x is ListComprehension)
}

/// The expression holds no list comprehension.
pub open spec fn no_comprehension(e: ExprV) -> bool {
    every_expr(e, not_comprehension())
}

/// The targets and filters of a comprehension hold no comprehension of their own.
pub open spec fn comprehension_ok(e: ExprV) -> bool {
    match e {
        ExprV::ListComprehension(_, gens) => forall|i: int| 0 <= i < gens.len() ==> {
            &&& no_comprehension((#[trigger] gens[i]).target)
            &&& forall|j: int| 0 <= j < gens[i].ifs.len() ==> no_comprehension(#[trigger] gens[i].ifs[j])
        },
        _ => true,
    }
}

/// A node whose comprehensions have plain targets and filters.
pub open spec fn comprehensions_ok() -> spec_fn(ExprV) -> bool {
    |x: ExprV| comprehension_ok(x)
}

/// A statement that, if it is a `for` loop, has a target without comprehension.
pub open spec fn for_targets_ok() -> spec_fn(StmtV) -> bool {
    |x: StmtV| x is For ==> no_comprehension(x->For_0)
}

/// The condition under which the lowering does not fail.
pub open spec fn lc_ready(e: ExprV) -> bool {
    every_expr(e, comprehensions_ok())
}

/// The condition on a statement: its expressions are ready, and a `for` target holds no comprehension.
pub open spec fn lc_stmt_ready(s: StmtV) -> bool {
    &&& every_stmt_expr(s, comprehensions_ok())
    &&& crate::ast::every_stmt(s, for_targets_ok())
}

/// The temporary list of a generated function.
pub open spec fn result_var() -> ExprV {
    ExprV::VariableName("__result"@)
}

/// The name of the function generated with stamp `stamp`.
pub open spec fn generated_name(stamp: u128) -> Seq<char> {
    "__f"@ + crate::text::decimal(stamp as nat)
}

/// The lowered expression, the statements hoisted before it, and the stamps left.
pub open spec fn lc_expr(e: ExprV, st: Seq<u128>) -> (ExprV, Seq<StmtV>, Seq<u128>)
    decreases e,
{
    match e {
        ExprV::CallFunction(name, args) => {
            let (a, s, st1) = lc_exprs(args, st);
            (ExprV::CallFunction(name, a), s, st1)
        },
        ExprV::CallMethod(v, name, args) => {
            let (v2, s1, st1) = lc_expr(*v, st);
            let (a, s2, st2) = lc_exprs(args, st1);
            (ExprV::CallMethod(Box::new(v2), name, a), s1 + s2, st2)
        },
        ExprV::Tuple(t) => {
            let (a, s, st1) = lc_exprs(t, st);
            (ExprV::Tuple(a), s, st1)
        },
        ExprV::BoolOperation(op, c) => {
            let (a, s, st1) = lc_exprs(c, st);
            (ExprV::BoolOperation(op, a), s, st1)
        },
        ExprV::Compare(l, r, op) => {
            let (l2, s1, st1) = lc_expr(*l, st);
            let (r2, s2, st2) = lc_expr(*r, st1);
            (ExprV::Compare(Box::new(l2), Box::new(r2), op), s1 + s2, st2)
        },
        ExprV::BinaryOperation(l, r, op) => {
            let (l2, s1, st1) = lc_expr(*l, st);
            let (r2, s2, st2) = lc_expr(*r, st1);
            (ExprV::BinaryOperation(Box::new(l2), Box::new(r2), op), s1 + s2, st2)
        },
        ExprV::Index(v, i) => {
            let (v2, s1, st1) = lc_expr(*v, st);
            let (i2, s2, st2) = lc_expr(*i, st1);
            (ExprV::Index(Box::new(v2), Box::new(i2)), s1 + s2, st2)
        },
        ExprV::List(l) => {
            let (a, s, st1) = lc_exprs(l, st);
            (ExprV::List(a), s, st1)
        },
        ExprV::Dict(p) => {
            let (a, s, st1) = lc_pairs(p, st);
            (ExprV::Dict(a), s, st1)
        },
        ExprV::UnaryOperation(v, op) => {
            let (v2, s, st1) = lc_expr(*v, st);
            (ExprV::UnaryOperation(Box::new(v2), op), s, st1)
        },
        ExprV::ListComprehension(value, gens) => {
            let (v2, s0, st1) = lc_expr(*value, st);
            let body = s0.push(StmtV::Expression(ExprV::CallMethod(Box::new(result_var()), "append"@, seq![v2])));
            let (loops, st2) = lc_gens(gens, body, st1);
            let name = generated_name(st2[0]);
            let fbody = seq![StmtV::Assign(result_var(), ExprV::List(seq![]))] + loops
                + seq![StmtV::Return(Some(result_var()))];
            (ExprV::CallFunction(name, seq![]), seq![StmtV::Func(name, seq![], fbody)], st2.drop_first())
        },
        _ => (e, seq![], st),
    }
}

pub open spec fn lc_exprs(es: Seq<ExprV>, st: Seq<u128>) -> (Seq<ExprV>, Seq<StmtV>, Seq<u128>)
    decreases es,
{
    if es.len() == 0 {
        (seq![], seq![], st)
    } else {
        let (a, s1, st1) = lc_exprs(es.drop_last(), st);
        let (b, s2, st2) = lc_expr(es.last(), st1);
        (a.push(b), s1 + s2, st2)
    }
}

pub open spec fn lc_pairs(ps: Seq<(ExprV, ExprV)>, st: Seq<u128>) -> (Seq<(ExprV, ExprV)>, Seq<StmtV>, Seq<u128>)
    decreases ps,
{
    if ps.len() == 0 {
        (seq![], seq![], st)
    } else {
        let (a, s1, st1) = lc_pairs(ps.drop_last(), st);
        let (k, s2, st2) = lc_expr(ps.last().0, st1);
        let (v, s3, st3) = lc_expr(ps.last().1, st2);
        (a.push((k, v)), s1 + s2 + s3, st3)
    }
}

/// The loops of the generators around `body`, the first generator innermost.
pub open spec fn lc_gens(gens: Seq<ComprehensionV>, body: Seq<StmtV>, st: Seq<u128>) -> (Seq<StmtV>, Seq<u128>)
    decreases gens,
{
    if gens.len() == 0 {
        (body, st)
    } else {
        let (inner, st1) = lc_gens(gens.drop_last(), body, st);
        let g = gens.last();
        let (ifs, _, st2) = lc_exprs(g.ifs, st1);
        let guarded = if ifs.len() > 0 {
            seq![StmtV::If(ExprV::BoolOperation(BoolOperator::And, ifs), inner, seq![])]
        } else {
            inner
        };
        let (iter, s, st3) = lc_expr(g.iter, st2);
        let (target, _, st4) = lc_expr(g.target, st3);
        (s.push(StmtV::For(target, iter, guarded)), st4)
    }
}

pub open spec fn lc_stmt(s: StmtV, st: Seq<u128>) -> (Seq<StmtV>, Seq<u128>)
    decreases s,
{
    match s {
        StmtV::Assign(t, v) => {
            let (t2, s1, st1) = lc_expr(t, st);
            let (v2, s2, st2) = lc_expr(v, st1);
            ((s1 + s2).push(StmtV::Assign(t2, v2)), st2)
        },
        StmtV::Expression(e) => {
            let (e2, s1, st1) = lc_expr(e, st);
            (s1.push(StmtV::Expression(e2)), st1)
        },
        StmtV::If(t, b, o) => {
            let (t2, s1, st1) = lc_expr(t, st);
            let (b2, st2) = lc_stmts(b, st1);
            let (o2, st3) = lc_stmts(o, st2);
            (s1.push(StmtV::If(t2, b2, o2)), st3)
        },
        StmtV::Func(n, a, b) => {
            let (b2, st1) = lc_stmts(b, st);
            (seq![StmtV::Func(n, a, b2)], st1)
        },
        StmtV::Return(r) => match r {
            Some(e) => {
                let (e2, s1, st1) = lc_expr(e, st);
                (s1.push(StmtV::Return(Some(e2))), st1)
            },
            None => (seq![s], st),
        },
        StmtV::While(t, b) => {
            let (t2, s1, st1) = lc_expr(t, st);
            let (b2, st2) = lc_stmts(b, st1);
            (s1.push(StmtV::While(t2, b2)), st2)
        },
        StmtV::For(t, it, b) => {
            let (t2, _, st1) = lc_expr(t, st);
            let (it2, s1, st2) = lc_expr(it, st1);
            let (b2, st3) = lc_stmts(b, st2);
            (s1.push(StmtV::For(t2, it2, b2)), st3)
        },
        _ => (seq![s], st),
    }
}

pub open spec fn lc_stmts(s: Seq<StmtV>, st: Seq<u128>) -> (Seq<StmtV>, Seq<u128>)
    decreases s,
{
    if s.len() == 0 {
        (seq![], st)
    } else {
        let (a, st1) = lc_stmts(s.drop_last(), st);
        let (b, st2) = lc_stmt(s.last(), st1);
        (a + b, st2)
    }
}

/// The views of key-value pairs.
pub open spec fn pair_views<E: View<V = ExprV>>(p: Seq<(E, E)>) -> Seq<(ExprV, ExprV)> {
    Seq::new(p.len(), |i: int| (p[i].0@, p[i].1@))
}

/// The views of the generators of a comprehension.
pub open spec fn gen_views(g: Seq<Comprehension<RawExpr>>) -> Seq<ComprehensionV> {
    Seq::new(g.len(), |i: int| ComprehensionV { target: (*g[i].target)@, iter: (*g[i].iter)@, ifs: views(g[i].ifs@) })
}

fn var_named(name: &str) -> (r: Expr)
    ensures
        r@ == ExprV::VariableName(name@),
{
    Expr::VariableName(string_of(name))
}

fn eval_exprs(v: &Vec<RawExpr>) -> (r: (Vec<Expr>, Vec<RawStmt<Expr>>, Ghost<Seq<u128>>))
    ensures
        forall|rest: Seq<u128>| #[trigger] lc_exprs(views(v@), r.2@ + rest) == (views(r.0@), views(r.1@), rest),
    decreases v,
{
    let ghost vv = views(v@);
    let mut out: Vec<Expr> = Vec::new();
    let mut stmts: Vec<RawStmt<Expr>> = Vec::new();
    let ghost mut used: Seq<u128> = Seq::empty();
    let mut i: usize = 0;
    proof {
        assert forall|rest: Seq<u128>| #[trigger] lc_exprs(vv.take(0), used + rest) == (views(out@), views(stmts@), rest) by {
            assert(used + rest =~= rest);
            assert(vv.take(0) =~= Seq::<ExprV>::empty());
            assert(views(out@) =~= Seq::<ExprV>::empty());
            assert(views(stmts@) =~= Seq::<StmtV>::empty());
        }
    }
    while i < v.len()
        invariant
            i <= v.len(),
            vv == views(v@),
            forall|rest: Seq<u128>| #[trigger] lc_exprs(vv.take(i as int), used + rest) == (views(out@), views(stmts@), rest),
        decreases v.len() - i,
    {
        let (x, mut s, u) = eval_expr(&v[i]);
        let ghost old_out = views(out@);
        let ghost old_st = views(stmts@);
        let ghost xv = x@;
        let ghost sv = views(s@);
        let ghost old_used = used;
        out.push(x);
        stmts.append(&mut s);
        proof {
            used = used + u@;
            assert(vv.take(i + 1).drop_last() =~= vv.take(i as int));
            assert(vv.take(i + 1).last() == v@[i as int]@);
            assert(views(out@) =~= old_out.push(xv));
            assert(views(stmts@) =~= old_st + sv);
            assert forall|rest: Seq<u128>| #[trigger] lc_exprs(vv.take(i + 1), used + rest) == (views(out@), views(stmts@), rest) by {
                assert(used + rest =~= old_used + (u@ + rest));
                assert(lc_exprs(vv.take(i as int), old_used + (u@ + rest)) == (old_out, old_st, u@ + rest));
                assert(lc_expr(v@[i as int]@, u@ + rest) == (xv, sv, rest));
            }
        }
        i += 1;
    }
    proof {
        assert(vv.take(i as int) =~= vv);
    }
    (out, stmts, Ghost(used))
}

fn eval_pairs(v: &Vec<(RawExpr, RawExpr)>) -> (r: (Vec<(Expr, Expr)>, Vec<RawStmt<Expr>>, Ghost<Seq<u128>>))
    ensures
        forall|rest: Seq<u128>| #[trigger] lc_pairs(pair_views(v@), r.2@ + rest) == (pair_views(r.0@), views(r.1@), rest),
    decreases v,
{
    let ghost vv = pair_views(v@);
    let mut out: Vec<(Expr, Expr)> = Vec::new();
    let mut stmts: Vec<RawStmt<Expr>> = Vec::new();
    let ghost mut used: Seq<u128> = Seq::empty();
    let mut i: usize = 0;
    proof {
        assert forall|rest: Seq<u128>| #[trigger] lc_pairs(vv.take(0), used + rest) == (pair_views(out@), views(stmts@), rest) by {
            assert(used + rest =~= rest);
            assert(vv.take(0) =~= Seq::<(ExprV, ExprV)>::empty());
            assert(pair_views(out@) =~= Seq::<(ExprV, ExprV)>::empty());
            assert(views(stmts@) =~= Seq::<StmtV>::empty());
        }
    }
    while i < v.len()
        invariant
            i <= v.len(),
            vv == pair_views(v@),
            forall|rest: Seq<u128>| #[trigger] lc_pairs(vv.take(i as int), used + rest) == (pair_views(out@), views(stmts@), rest),
        decreases v.len() - i,
    {
        let (k, mut s1, u1) = eval_expr(&v[i].0);
        let (x, mut s2, u2) = eval_expr(&v[i].1);
        let ghost old_out = pair_views(out@);
        let ghost old_st = views(stmts@);
        let ghost kv = k@;
        let ghost xv = x@;
        let ghost sv1 = views(s1@);
        let ghost sv2 = views(s2@);
        let ghost old_used = used;
        out.push((k, x));
        stmts.append(&mut s1);
        stmts.append(&mut s2);
        proof {
            used = used + u1@ + u2@;
            assert(vv.take(i + 1).drop_last() =~= vv.take(i as int));
            assert(vv.take(i + 1).last() == (v@[i as int].0@, v@[i as int].1@));
            assert(pair_views(out@) =~= old_out.push((kv, xv)));
            assert(views(stmts@) =~= old_st + sv1 + sv2);
            assert forall|rest: Seq<u128>| #[trigger] lc_pairs(vv.take(i + 1), used + rest) == (pair_views(out@), views(stmts@), rest) by {
                assert(used + rest =~= old_used + (u1@ + (u2@ + rest)));
                assert(lc_pairs(vv.take(i as int), old_used + (u1@ + (u2@ + rest))) == (old_out, old_st, u1@ + (u2@ + rest)));
                assert(lc_expr(v@[i as int].0@, u1@ + (u2@ + rest)) == (kv, sv1, u2@ + rest));
                assert(lc_expr(v@[i as int].1@, u2@ + rest) == (xv, sv2, rest));
            }
        }
        i += 1;
    }
    proof {
        assert(vv.take(i as int) =~= vv);
    }
    (out, stmts, Ghost(used))
}

/// The loops of the generators wrapped around `body`.
fn eval_gens(gens: &Vec<Comprehension<RawExpr>>, body: Vec<RawStmt<Expr>>) -> (r: (Vec<RawStmt<Expr>>, Ghost<Seq<u128>>))
    ensures
        forall|rest: Seq<u128>| #[trigger] lc_gens(gen_views(gens@), views(body@), r.1@ + rest) == (views(r.0@), rest),
    decreases gens,
{
    let ghost gv = gen_views(gens@);
    let ghost bv = views(body@);
    let mut cur = body;
    let ghost mut used: Seq<u128> = Seq::empty();
    let mut i: usize = 0;
    proof {
        assert forall|rest: Seq<u128>| #[trigger] lc_gens(gv.take(0), bv, used + rest) == (views(cur@), rest) by {
            assert(used + rest =~= rest);
            assert(gv.take(0) =~= Seq::<ComprehensionV>::empty());
        }
    }
    while i < gens.len()
        invariant
            i <= gens.len(),
            gv == gen_views(gens@),
            forall|rest: Seq<u128>| #[trigger] lc_gens(gv.take(i as int), bv, used + rest) == (views(cur@), rest),
        decreases gens.len() - i,
    {
        let g = &gens[i];
        let ghost inner = views(cur@);
        let (ifs, _, u1) = eval_exprs(&g.ifs);
        let ghost ifs_v = views(ifs@);
        let guarded = if ifs.len() > 0 {
            let test = Expr::BoolOperation(BoolOperation { op: BoolOperator::And, conditions: ifs });
            proof {
                assert(test@->BoolOperation_1 =~= ifs_v);
            }
            let x = RawStmt::If(If { test, body: cur, orelse: Vec::new() });
            proof {
                assert(x@->If_1 =~= inner);
                assert(x@->If_2 =~= Seq::<StmtV>::empty());
            }
            vec![x]
        } else {
            cur
        };
        let ghost guarded_v = views(guarded@);
        let (iter, mut s, u2) = eval_expr(&g.iter);
        let (target, _, u3) = eval_expr(&g.target);
        let ghost iv = iter@;
        let ghost tv = target@;
        let ghost sv = views(s@);
        let f = RawStmt::For(For { target, iter, body: guarded });
        proof {
            assert(f@->For_2 =~= guarded_v);
        }
        s.push(f);
        cur = s;
        let ghost old_used = used;
        proof {
            used = used + u1@ + u2@ + u3@;
            let last = gv[i as int];
            assert(last.ifs == views(gens@[i as int].ifs@));
            assert(gv.take(i + 1).drop_last() =~= gv.take(i as int));
            assert(gv.take(i + 1).last() == last);
            if ifs_v.len() > 0 {
                assert(guarded_v =~= seq![StmtV::If(ExprV::BoolOperation(BoolOperator::And, ifs_v), inner, seq![])]);
            } else {
                assert(guarded_v =~= inner);
            }
            assert(views(cur@) =~= sv.push(StmtV::For(tv, iv, guarded_v)));
            assert forall|rest: Seq<u128>| #[trigger] lc_gens(gv.take(i + 1), bv, used + rest) == (views(cur@), rest) by {
                assert(used + rest =~= old_used + (u1@ + (u2@ + (u3@ + rest))));
                assert(lc_gens(gv.take(i as int), bv, old_used + (u1@ + (u2@ + (u3@ + rest)))) == (inner, u1@ + (u2@ + (u3@ + rest))));
                assert(lc_exprs(last.ifs, u1@ + (u2@ + (u3@ + rest))).0 == ifs_v);
                assert(lc_exprs(last.ifs, u1@ + (u2@ + (u3@ + rest))).2 == u2@ + (u3@ + rest));
                assert(lc_expr(last.iter, u2@ + (u3@ + rest)) == (iv, sv, u3@ + rest));
                assert(lc_expr(last.target, u3@ + rest).0 == tv);
                assert(lc_expr(last.target, u3@ + rest).2 == rest);
            }
        }
        i += 1;
    }
    proof {
        assert(gv.take(i as int) =~= gv);
    }
    (cur, Ghost(used))
}

/// Lowers one comprehension to the call of a generated function.
fn eval_comprehension(l: &ListComprehension<RawExpr>) -> (r: (Expr, Vec<RawStmt<Expr>>, Ghost<Seq<u128>>))
    ensures
        forall|rest: Seq<u128>| #[trigger] lc_expr(
            ExprV::ListComprehension(Box::new((*l.value)@), gen_views(l.generators@)),
            r.2@ + rest,
        ) == (r.0@, views(r.1@), rest),
    decreases l,
{
    let (v, mut body, u1) = eval_expr(&l.value);
    let ghost vv = v@;
    let ghost s0 = views(body@);
    let args = vec![v];
    let append = RawStmt::Expression(Expr::CallMethod(CallMethod {
        value: Box::new(var_named("__result")),
        name: string_of("append"),
        args,
    }));
    proof {
        assert(append@->Expression_0->CallMethod_2 =~= seq![vv]);
    }
    body.push(append);
    let ghost body_v = views(body@);
    let (mut loops, u2) = eval_gens(&l.generators, body);
    let ghost loops_v = views(loops@);
    let stamp = unixtime_nano();
    let name = with_number("__f", stamp);
    let init = RawStmt::Assign(Assign { target: var_named("__result"), value: Expr::List(Vec::new()) });
    let mut fbody = vec![init];
    fbody.append(&mut loops);
    fbody.push(RawStmt::Return(Some(var_named("__result"))));
    let ghost fbody_v = views(fbody@);
    let call = Expr::CallFunction(CallFunction { name: copy_string(&name), args: Vec::new() });
    let f = RawStmt::Func(Func { name, args: Vec::new(), body: fbody });
    let out = vec![f];
    let ghost used = u1@ + u2@ + seq![stamp];
    proof {
        let ev = ExprV::ListComprehension(Box::new((*l.value)@), gen_views(l.generators@));
        assert(body_v =~= s0.push(StmtV::Expression(ExprV::CallMethod(Box::new(result_var()), "append"@, seq![vv]))));
        assert(init@->Assign_1->List_0 =~= Seq::<ExprV>::empty());
        assert(fbody_v =~= seq![StmtV::Assign(result_var(), ExprV::List(seq![]))] + loops_v
            + seq![StmtV::Return(Some(result_var()))]);
        assert(call@->CallFunction_1 =~= Seq::<ExprV>::empty());
        assert(out@[0]@->Func_1 =~= Seq::<Seq<char>>::empty());
        assert(out@[0]@->Func_2 =~= fbody_v);
        assert forall|rest: Seq<u128>| #[trigger] lc_expr(ev, used + rest) == (call@, views(out@), rest) by {
            assert(used + rest =~= u1@ + (u2@ + (seq![stamp] + rest)));
            assert(lc_expr((*l.value)@, u1@ + (u2@ + (seq![stamp] + rest))) == (vv, s0, u2@ + (seq![stamp] + rest)));
            assert(lc_gens(gen_views(l.generators@), body_v, u2@ + (seq![stamp] + rest)) == (loops_v, seq![stamp] + rest));
            assert((seq![stamp] + rest)[0] == stamp);
            assert((seq![stamp] + rest).drop_first() =~= rest);
            assert(views(out@) =~= seq![StmtV::Func(generated_name(stamp), seq![], fbody_v)]);
        }
    }
    (call, out, Ghost(used))
}

/// Lowers the comprehensions inside one expression.
#[verifier::spinoff_prover]
fn eval_expr(e: &RawExpr) -> (r: (Expr, Vec<RawStmt<Expr>>, Ghost<Seq<u128>>))
    ensures
        forall|rest: Seq<u128>| #[trigger] lc_expr(e@, r.2@ + rest) == (r.0@, views(r.1@), rest),
    decreases e,
{
    let ghost ev = e@;
    match e {
        RawExpr::CallFunction(c) => {
            let (args, s, u) = eval_exprs(&c.args);
            let ghost av = views(args@);
            let x = Expr::CallFunction(CallFunction { name: copy_string(&c.name), args });
            proof {
                assert(ev->CallFunction_1 =~= views(c.args@));
                assert(x@->CallFunction_1 =~= av);
                assert(x@->CallFunction_0 == c.name@);
                assert(x@ == ExprV::CallFunction(c.name@, av));
                assert(ev == ExprV::CallFunction(c.name@, views(c.args@)));
                assert forall|rest: Seq<u128>| #[trigger] lc_expr(ev, u@ + rest) == (x@, views(s@), rest) by {
                    assert(lc_exprs(views(c.args@), u@ + rest) == (av, views(s@), rest));
                }
            }
            (x, s, u)
        },
        RawExpr::CallMethod(c) => {
            let (v, mut s1, u1) = eval_expr(&c.value);
            let (args, mut s2, u2) = eval_exprs(&c.args);
            let ghost av = views(args@);
            let ghost sv1 = views(s1@);
            let ghost sv2 = views(s2@);
            let ghost vv = v@;
            s1.append(&mut s2);
            let x = Expr::CallMethod(CallMethod { value: Box::new(v), name: copy_string(&c.name), args });
            proof {
                assert(ev->CallMethod_2 =~= views(c.args@));
                assert(x@->CallMethod_2 =~= av);
                assert(views(s1@) =~= sv1 + sv2);
                assert forall|rest: Seq<u128>| #[trigger] lc_expr(ev, (u1@ + u2@) + rest) == (x@, views(s1@), rest) by {
                    assert((u1@ + u2@) + rest =~= u1@ + (u2@ + rest));
                    assert(lc_expr((*c.value)@, u1@ + (u2@ + rest)) == (vv, sv1, u2@ + rest));
                    assert(lc_exprs(views(c.args@), u2@ + rest) == (av, sv2, rest));
                }
            }
            (x, s1, Ghost(u1@ + u2@))
        },
        RawExpr::Tuple(t) => {
            let (a, s, u) = eval_exprs(t);
            let ghost av = views(a@);
            let x = Expr::Tuple(a);
            proof {
                assert(ev->Tuple_0 =~= views(t@));
                assert(x@->Tuple_0 =~= av);
                assert forall|rest: Seq<u128>| #[trigger] lc_expr(ev, u@ + rest) == (x@, views(s@), rest) by {
                    assert(lc_exprs(views(t@), u@ + rest) == (av, views(s@), rest));
                }
            }
            (x, s, u)
        },
        RawExpr::BoolOperation(b) => {
            let (a, s, u) = eval_exprs(&b.conditions);
            let ghost av = views(a@);
            let x = Expr::BoolOperation(BoolOperation { op: b.op, conditions: a });
            proof {
                assert(ev->BoolOperation_1 =~= views(b.conditions@));
                assert(x@->BoolOperation_1 =~= av);
                assert forall|rest: Seq<u128>| #[trigger] lc_expr(ev, u@ + rest) == (x@, views(s@), rest) by {
                    assert(lc_exprs(views(b.conditions@), u@ + rest) == (av, views(s@), rest));
                }
            }
            (x, s, u)
        },
        RawExpr::List(t) => {
            let (a, s, u) = eval_exprs(t);
            let ghost av = views(a@);
            let x = Expr::List(a);
            proof {
                assert(ev->List_0 =~= views(t@));
                assert(x@->List_0 =~= av);
                assert forall|rest: Seq<u128>| #[trigger] lc_expr(ev, u@ + rest) == (x@, views(s@), rest) by {
                    assert(lc_exprs(views(t@), u@ + rest) == (av, views(s@), rest));
                }
            }
            (x, s, u)
        },
        RawExpr::Compare(c) => {
            let (l, mut s1, u1) = eval_expr(&c.left);
            let (r, mut s2, u2) = eval_expr(&c.right);
            let ghost (lv, rv, sv1, sv2) = (l@, r@, views(s1@), views(s2@));
            s1.append(&mut s2);
            let x = Expr::Compare(Compare { left: Box::new(l), right: Box::new(r), op: c.op });
            proof {
                assert(views(s1@) =~= sv1 + sv2);
                assert forall|rest: Seq<u128>| #[trigger] lc_expr(ev, (u1@ + u2@) + rest) == (x@, views(s1@), rest) by {
                    assert((u1@ + u2@) + rest =~= u1@ + (u2@ + rest));
                    assert(lc_expr((*c.left)@, u1@ + (u2@ + rest)) == (lv, sv1, u2@ + rest));
                    assert(lc_expr((*c.right)@, u2@ + rest) == (rv, sv2, rest));
                }
            }
            (x, s1, Ghost(u1@ + u2@))
        },
        RawExpr::BinaryOperation(c) => {
            let (l, mut s1, u1) = eval_expr(&c.left);
            let (r, mut s2, u2) = eval_expr(&c.right);
            let ghost (lv, rv, sv1, sv2) = (l@, r@, views(s1@), views(s2@));
            s1.append(&mut s2);
            let x = Expr::BinaryOperation(BinaryOperation { left: Box::new(l), right: Box::new(r), op: c.op });
            proof {
                assert(views(s1@) =~= sv1 + sv2);
                assert forall|rest: Seq<u128>| #[trigger] lc_expr(ev, (u1@ + u2@) + rest) == (x@, views(s1@), rest) by {
                    assert((u1@ + u2@) + rest =~= u1@ + (u2@ + rest));
                    assert(lc_expr((*c.left)@, u1@ + (u2@ + rest)) == (lv, sv1, u2@ + rest));
                    assert(lc_expr((*c.right)@, u2@ + rest) == (rv, sv2, rest));
                }
            }
            (x, s1, Ghost(u1@ + u2@))
        },
        RawExpr::Index(c) => {
            let (l, mut s1, u1) = eval_expr(&c.value);
            let (r, mut s2, u2) = eval_expr(&c.index);
            let ghost (lv, rv, sv1, sv2) = (l@, r@, views(s1@), views(s2@));
            s1.append(&mut s2);
            let x = Expr::Index(Index { value: Box::new(l), index: Box::new(r) });
            proof {
                assert(views(s1@) =~= sv1 + sv2);
                assert forall|rest: Seq<u128>| #[trigger] lc_expr(ev, (u1@ + u2@) + rest) == (x@, views(s1@), rest) by {
                    assert((u1@ + u2@) + rest =~= u1@ + (u2@ + rest));
                    assert(lc_expr((*c.value)@, u1@ + (u2@ + rest)) == (lv, sv1, u2@ + rest));
                    assert(lc_expr((*c.index)@, u2@ + rest) == (rv, sv2, rest));
                }
            }
            (x, s1, Ghost(u1@ + u2@))
        },
        RawExpr::UnaryOperation(c) => {
            let (v, s, u) = eval_expr(&c.value);
            let ghost vv = v@;
            let x = Expr::UnaryOperation(UnaryOperation { value: Box::new(v), op: c.op });
            proof {
                assert forall|rest: Seq<u128>| #[trigger] lc_expr(ev, u@ + rest) == (x@, views(s@), rest) by {
                    assert(lc_expr((*c.value)@, u@ + rest) == (vv, views(s@), rest));
                }
            }
            (x, s, u)
        },
        RawExpr::Dict(d) => {
            let (p, s, u) = eval_pairs(&d.pairs);
            let ghost pv = pair_views(p@);
            let x = Expr::Dict(Dict { pairs: p });
            proof {
                assert(ev->Dict_0 =~= pair_views(d.pairs@));
                assert(x@->Dict_0 =~= pv);
                assert forall|rest: Seq<u128>| #[trigger] lc_expr(ev, u@ + rest) == (x@, views(s@), rest) by {
                    assert(lc_pairs(pair_views(d.pairs@), u@ + rest) == (pv, views(s@), rest));
                }
            }
            (x, s, u)
        },
        RawExpr::ListComprehension(l) => {
            proof {
                assert forall|i: int| 0 <= i < l.generators@.len() implies
                    #[trigger] ev->ListComprehension_1[i] == gen_views(l.generators@)[i] by {
                    assert(ev->ListComprehension_1[i].ifs =~= gen_views(l.generators@)[i].ifs);
                }
                assert(ev->ListComprehension_1 =~= gen_views(l.generators@));
                assert(ev == ExprV::ListComprehension(Box::new((*l.value)@), gen_views(l.generators@)));
            }
            eval_comprehension(l)
        },
        RawExpr::VariableName(n) => {
            let x = Expr::VariableName(copy_string(n));
            let out: Vec<RawStmt<Expr>> = Vec::new();
            proof { leaf_lemma(ev, x@, out@); }
            (x, out, Ghost(Seq::empty()))
        },
        RawExpr::ConstantNumber(n) => {
            let x = Expr::ConstantNumber(copy_number(n));
            let out: Vec<RawStmt<Expr>> = Vec::new();
            proof { leaf_lemma(ev, x@, out@); }
            (x, out, Ghost(Seq::empty()))
        },
        RawExpr::ConstantString(n) => {
            let x = Expr::ConstantString(copy_string(n));
            let out: Vec<RawStmt<Expr>> = Vec::new();
            proof { leaf_lemma(ev, x@, out@); }
            (x, out, Ghost(Seq::empty()))
        },
        RawExpr::ConstantBoolean(b) => {
            let x = Expr::ConstantBoolean(*b);
            let out: Vec<RawStmt<Expr>> = Vec::new();
            proof { leaf_lemma(ev, x@, out@); }
            (x, out, Ghost(Seq::empty()))
        },
        RawExpr::ConstantNone => {
            let x = Expr::ConstantNone;
            let out: Vec<RawStmt<Expr>> = Vec::new();
            proof { leaf_lemma(ev, x@, out@); }
            (x, out, Ghost(Seq::empty()))
        },
    }
}

/// An expression without subexpressions is kept as it is and draws no stamp.
proof fn leaf_lemma(e: ExprV, x: ExprV, out: Seq<RawStmt<Expr>>)
    requires
        e == x,
        out.len() == 0,
        e is VariableName || e is ConstantNumber || e is ConstantString || e is ConstantBoolean || e is ConstantNone,
    ensures
        forall|rest: Seq<u128>| #[trigger] lc_expr(e, Seq::<u128>::empty() + rest)
            == (x, views(out), rest),
{
    assert forall|rest: Seq<u128>| #[trigger] lc_expr(e, Seq::<u128>::empty() + rest)
        == (x, views(out), rest) by {
        assert(Seq::<u128>::empty() + rest =~= rest);
        assert(views(out) =~= Seq::<StmtV>::empty());
    }
}

/// Lowers the comprehensions of one statement; the functions they become come first.
#[verifier::spinoff_prover]
fn eval_stmt(st: &RawStmt<RawExpr>) -> (r: (Vec<RawStmt<Expr>>, Ghost<Seq<u128>>))
    ensures
        forall|rest: Seq<u128>| #[trigger] lc_stmt(st@, r.1@ + rest) == (views(r.0@), rest),
    decreases st,
{
    let ghost sv = st@;
    match st {
        RawStmt::Assign(a) => {
            let (t, mut s1, u1) = eval_expr(&a.target);
            let (v, mut s2, u2) = eval_expr(&a.value);
            let ghost (tv, vv, sv1, sv2) = (t@, v@, views(s1@), views(s2@));
            s1.append(&mut s2);
            s1.push(RawStmt::Assign(Assign { target: t, value: v }));
            proof {
                assert(views(s1@) =~= (sv1 + sv2).push(StmtV::Assign(tv, vv)));
                assert forall|rest: Seq<u128>| #[trigger] lc_stmt(sv, (u1@ + u2@) + rest) == (views(s1@), rest) by {
                    assert((u1@ + u2@) + rest =~= u1@ + (u2@ + rest));
                    assert(lc_expr((a.target)@, u1@ + (u2@ + rest)) == (tv, sv1, u2@ + rest));
                    assert(lc_expr((a.value)@, u2@ + rest) == (vv, sv2, rest));
                }
            }
            (s1, Ghost(u1@ + u2@))
        },
        RawStmt::Expression(e) => {
            let (x, mut s1, u) = eval_expr(e);
            let ghost (xv, sv1) = (x@, views(s1@));
            s1.push(RawStmt::Expression(x));
            proof {
                assert(views(s1@) =~= sv1.push(StmtV::Expression(xv)));
                assert forall|rest: Seq<u128>| #[trigger] lc_stmt(sv, u@ + rest) == (views(s1@), rest) by {
                    assert(lc_expr(e@, u@ + rest) == (xv, sv1, rest));
                }
            }
            (s1, u)
        },
        RawStmt::If(x) => {
            let (t, mut s1, u1) = eval_expr(&x.test);
            assert(views(x.body@) =~= sv->If_1);
            assert(views(x.orelse@) =~= sv->If_2);
            let (b, u2) = eval_stmts(&x.body);
            let (o, u3) = eval_stmts(&x.orelse);
            let ghost (tv, sv1, bv, ov) = (t@, views(s1@), views(b@), views(o@));
            let n = RawStmt::If(If { test: t, body: b, orelse: o });
            proof {
                assert(n@->If_1 =~= bv);
                assert(n@->If_2 =~= ov);
            }
            s1.push(n);
            let ghost used = u1@ + u2@ + u3@;
            proof {
                assert(views(s1@) =~= sv1.push(StmtV::If(tv, bv, ov)));
                assert forall|rest: Seq<u128>| #[trigger] lc_stmt(sv, used + rest) == (views(s1@), rest) by {
                    assert(used + rest =~= u1@ + (u2@ + (u3@ + rest)));
                    assert(lc_expr(x.test@, u1@ + (u2@ + (u3@ + rest))) == (tv, sv1, u2@ + (u3@ + rest)));
                    assert(lc_stmts(sv->If_1, u2@ + (u3@ + rest)) == (bv, u3@ + rest));
                    assert(lc_stmts(sv->If_2, u3@ + rest) == (ov, rest));
                }
            }
            (s1, Ghost(used))
        },
        RawStmt::Func(f) => {
            assert(views(f.body@) =~= sv->Func_2);
            let (b, u) = eval_stmts(&f.body);
            let ghost bv = views(b@);
            let out = vec![RawStmt::Func(Func { name: copy_string(&f.name), args: copy_strings(&f.args), body: b })];
            proof {
                assert(out@[0]@->Func_2 =~= bv);
                assert(views(out@) =~= seq![StmtV::Func(sv->Func_0, sv->Func_1, bv)]);
                assert forall|rest: Seq<u128>| #[trigger] lc_stmt(sv, u@ + rest) == (views(out@), rest) by {
                    assert(lc_stmts(sv->Func_2, u@ + rest) == (bv, rest));
                }
            }
            (out, u)
        },
        RawStmt::Return(r) => {
            match r {
                Some(e) => {
                    let (x, mut s1, u) = eval_expr(e);
                    let ghost (xv, sv1) = (x@, views(s1@));
                    s1.push(RawStmt::Return(Some(x)));
                    proof {
                        assert(views(s1@) =~= sv1.push(StmtV::Return(Some(xv))));
                        assert forall|rest: Seq<u128>| #[trigger] lc_stmt(sv, u@ + rest) == (views(s1@), rest) by {
                            assert(lc_expr(e@, u@ + rest) == (xv, sv1, rest));
                        }
                    }
                    (s1, u)
                },
                None => {
                    let out = vec![RawStmt::Return(None)];
                    proof { simple_stmt_lemma(sv, views(out@)); }
                    (out, Ghost(Seq::empty()))
                },
            }
        },
        RawStmt::While(w) => {
            let (t, mut s1, u1) = eval_expr(&w.test);
            assert(views(w.body@) =~= sv->While_1);
            let (b, u2) = eval_stmts(&w.body);
            let ghost (tv, sv1, bv) = (t@, views(s1@), views(b@));
            let n = RawStmt::While(While { test: t, body: b });
            proof {
                assert(n@->While_1 =~= bv);
            }
            s1.push(n);
            proof {
                assert(views(s1@) =~= sv1.push(StmtV::While(tv, bv)));
                assert forall|rest: Seq<u128>| #[trigger] lc_stmt(sv, (u1@ + u2@) + rest) == (views(s1@), rest) by {
                    assert((u1@ + u2@) + rest =~= u1@ + (u2@ + rest));
                    assert(lc_expr(w.test@, u1@ + (u2@ + rest)) == (tv, sv1, u2@ + rest));
                    assert(lc_stmts(sv->While_1, u2@ + rest) == (bv, rest));
                }
            }
            (s1, Ghost(u1@ + u2@))
        },
        RawStmt::For(f) => {
            let (t, _, u1) = eval_expr(&f.target);
            let (it, mut s1, u2) = eval_expr(&f.iter);
            assert(views(f.body@) =~= sv->For_2);
            let (b, u3) = eval_stmts(&f.body);
            let ghost (tv, iv, sv1, bv) = (t@, it@, views(s1@), views(b@));
            let n = RawStmt::For(For { target: t, iter: it, body: b });
            proof {
                assert(n@->For_2 =~= bv);
            }
            s1.push(n);
            let ghost used = u1@ + u2@ + u3@;
            proof {
                assert(views(s1@) =~= sv1.push(StmtV::For(tv, iv, bv)));
                assert forall|rest: Seq<u128>| #[trigger] lc_stmt(sv, used + rest) == (views(s1@), rest) by {
                    assert(used + rest =~= u1@ + (u2@ + (u3@ + rest)));
                    assert(lc_expr(f.target@, u1@ + (u2@ + (u3@ + rest))).0 == tv);
                    assert(lc_expr(f.target@, u1@ + (u2@ + (u3@ + rest))).2 == u2@ + (u3@ + rest));
                    assert(lc_expr(f.iter@, u2@ + (u3@ + rest)) == (iv, sv1, u3@ + rest));
                    assert(lc_stmts(sv->For_2, u3@ + rest) == (bv, rest));
                }
            }
            (s1, Ghost(used))
        },
        RawStmt::Break => {
            let out = vec![RawStmt::Break];
            proof { simple_stmt_lemma(sv, views(out@)); }
            (out, Ghost(Seq::empty()))
        },
        RawStmt::Continue => {
            let out = vec![RawStmt::Continue];
            proof { simple_stmt_lemma(sv, views(out@)); }
            (out, Ghost(Seq::empty()))
        },
        RawStmt::Import(i) => {
            let out = vec![RawStmt::Import(copy_import(i))];
            proof { simple_stmt_lemma(sv, views(out@)); }
            (out, Ghost(Seq::empty()))
        },
        RawStmt::FromImport(i) => {
            let out = vec![RawStmt::FromImport(copy_from_import(i))];
            proof { simple_stmt_lemma(sv, views(out@)); }
            (out, Ghost(Seq::empty()))
        },
    }
}

/// A statement without expressions or nested statements is kept as it is.
proof fn simple_stmt_lemma(s: StmtV, out: Seq<StmtV>)
    requires
        out =~= seq![s],
        s is Break || s is Continue || s is Import || s is FromImport || s == StmtV::Return(None),
    ensures
        forall|rest: Seq<u128>| #[trigger] lc_stmt(s, Seq::<u128>::empty() + rest) == (out, rest),
{
    assert forall|rest: Seq<u128>| #[trigger] lc_stmt(s, Seq::<u128>::empty() + rest) == (out, rest) by {
        assert(Seq::<u128>::empty() + rest =~= rest);
    }
}

fn eval_stmts(stmts: &Vec<RawStmt<RawExpr>>) -> (r: (Vec<RawStmt<Expr>>, Ghost<Seq<u128>>))
    ensures
        forall|rest: Seq<u128>| #[trigger] lc_stmts(views(stmts@), r.1@ + rest) == (views(r.0@), rest),
    decreases stmts,
{
    let ghost sv = views(stmts@);
    let mut out: Vec<RawStmt<Expr>> = Vec::new();
    let ghost mut used: Seq<u128> = Seq::empty();
    let mut i: usize = 0;
    proof {
        assert forall|rest: Seq<u128>| #[trigger] lc_stmts(sv.take(0), used + rest) == (views(out@), rest) by {
            assert(used + rest =~= rest);
            assert(views(out@) =~= Seq::<StmtV>::empty());
            assert(sv.take(0) =~= Seq::<StmtV>::empty());
        }
    }
    while i < stmts.len()
        invariant
            i <= stmts.len(),
            sv == views(stmts@),
            forall|rest: Seq<u128>| #[trigger] lc_stmts(sv.take(i as int), used + rest) == (views(out@), rest),
        decreases stmts.len() - i,
    {
        let (mut o, u) = eval_stmt(&stmts[i]);
        let ghost old_out = views(out@);
        let ghost ov = views(o@);
        let ghost old_used = used;
        out.append(&mut o);
        proof {
            used = used + u@;
            assert(sv.take(i + 1).drop_last() =~= sv.take(i as int));
            assert(sv.take(i + 1).last() == stmts@[i as int]@);
            assert(views(out@) =~= old_out + ov);
            assert forall|rest: Seq<u128>| #[trigger] lc_stmts(sv.take(i + 1), used + rest) == (views(out@), rest) by {
                assert(used + rest =~= old_used + (u@ + rest));
                assert(lc_stmts(sv.take(i as int), old_used + (u@ + rest)) == (old_out, u@ + rest));
                assert(lc_stmt(stmts@[i as int]@, u@ + rest) == (ov, rest));
            }
        }
        i += 1;
    }
    proof {
        assert(sv.take(i as int) =~= sv);
    }
    (out, Ghost(used))
}

/// Lowers every list comprehension of the program to the call of a generated function.
///
/// The stamps of the clock that name the generated functions are not known in advance:
/// the result is the lowering for some sequence of stamps, all of which it uses.
pub fn simplify_list_comprehensions(stmts: Vec<RawStmt<RawExpr>>) -> (r: Vec<RawStmt<Expr>>)
    requires
        forall|i: int| 0 <= i < stmts.len() ==> lc_stmt_ready(#[trigger] stmts@[i]@),
    ensures
        exists|st: Seq<u128>| #[trigger] lc_stmts(views(stmts@), st) == (views(r@), Seq::<u128>::empty()),
{
    let (out, used) = eval_stmts(&stmts);
    proof {
        assert(used@ + Seq::<u128>::empty() =~= used@);
        assert(lc_stmts(views(stmts@), used@ + Seq::<u128>::empty()) == (views(out@), Seq::<u128>::empty()));
    }
    out
}


proof fn lemma_lc_expr_keeps(e: ExprV, st: Seq<u128>)
    requires
        every_expr(e, not_comprehension()),
    ensures
        lc_expr(e, st) == (e, Seq::<StmtV>::empty(), st),
    decreases e,
{
    let none = Seq::<StmtV>::empty();
    match e {
        ExprV::CallFunction(_, args) => {
            lemma_lc_exprs_keeps(args, st);
        },
        ExprV::CallMethod(v, _, args) => {
            lemma_lc_expr_keeps(*v, st);
            lemma_lc_exprs_keeps(args, st);
            assert(none + none =~= none);
        },
        ExprV::Tuple(t) => {
            lemma_lc_exprs_keeps(t, st);
        },
        ExprV::BoolOperation(_, c) => {
            lemma_lc_exprs_keeps(c, st);
        },
        ExprV::Compare(l, r, _) => {
            lemma_lc_expr_keeps(*l, st);
            lemma_lc_expr_keeps(*r, st);
            assert(none + none =~= none);
        },
        ExprV::BinaryOperation(l, r, _) => {
            lemma_lc_expr_keeps(*l, st);
            lemma_lc_expr_keeps(*r, st);
            assert(none + none =~= none);
        },
        ExprV::Index(v, i) => {
            lemma_lc_expr_keeps(*v, st);
            lemma_lc_expr_keeps(*i, st);
            assert(none + none =~= none);
        },
        ExprV::List(l) => {
            lemma_lc_exprs_keeps(l, st);
        },
        ExprV::Dict(p) => {
            lemma_lc_pairs_keeps(p, st);
        },
        ExprV::UnaryOperation(v, _) => {
            lemma_lc_expr_keeps(*v, st);
        },
        _ => {},
    }
}

proof fn lemma_lc_exprs_keeps(es: Seq<ExprV>, st: Seq<u128>)
    requires
        forall|i: int| 0 <= i < es.len() ==> every_expr(#[trigger] es[i], not_comprehension()),
    ensures
        lc_exprs(es, st) == (es, Seq::<StmtV>::empty(), st),
    decreases es,
{
    if es.len() > 0 {
        let d = es.drop_last();
        assert forall|i: int| 0 <= i < d.len() implies every_expr(#[trigger] d[i], not_comprehension()) by {
            assert(d[i] == es[i]);
        }
        lemma_lc_exprs_keeps(d, st);
        assert(every_expr(es[es.len() - 1], not_comprehension()));
        lemma_lc_expr_keeps(es.last(), st);
        assert(d.push(es.last()) =~= es);
        assert(Seq::<StmtV>::empty() + Seq::<StmtV>::empty() =~= Seq::<StmtV>::empty());
    }
}

proof fn lemma_lc_pairs_keeps(ps: Seq<(ExprV, ExprV)>, st: Seq<u128>)
    requires
        forall|i: int| 0 <= i < ps.len() ==> every_expr(#[trigger] ps[i].0, not_comprehension())
            && every_expr(ps[i].1, not_comprehension()),
    ensures
        lc_pairs(ps, st) == (ps, Seq::<StmtV>::empty(), st),
    decreases ps,
{
    if ps.len() > 0 {
        let d = ps.drop_last();
        assert forall|i: int| 0 <= i < d.len() implies every_expr(#[trigger] d[i].0, not_comprehension())
            && every_expr(d[i].1, not_comprehension()) by {
            assert(d[i] == ps[i]);
        }
        lemma_lc_pairs_keeps(d, st);
        assert(every_expr(ps[ps.len() - 1].0, not_comprehension()));
        lemma_lc_expr_keeps(ps.last().0, st);
        lemma_lc_expr_keeps(ps.last().1, st);
        assert(d.push((ps.last().0, ps.last().1)) =~= ps);
        assert(Seq::<StmtV>::empty() + Seq::<StmtV>::empty() + Seq::<StmtV>::empty() =~= Seq::<StmtV>::empty());
    }
}

proof fn lemma_lc_stmt_keeps(s: StmtV, st: Seq<u128>)
    requires
        every_stmt_expr(s, not_comprehension()),
    ensures
        lc_stmt(s, st) == (seq![s], st),
    decreases s,
{
    let none = Seq::<StmtV>::empty();
    match s {
        StmtV::Assign(t, v) => {
            lemma_lc_expr_keeps(t, st);
            lemma_lc_expr_keeps(v, st);
            assert((none + none).push(s) =~= seq![s]);
        },
        StmtV::Expression(e) => {
            lemma_lc_expr_keeps(e, st);
            assert(none.push(s) =~= seq![s]);
        },
        StmtV::If(t, b, o) => {
            lemma_lc_expr_keeps(t, st);
            lemma_lc_stmts_keeps(b, st);
            lemma_lc_stmts_keeps(o, st);
            assert(none.push(s) =~= seq![s]);
        },
        StmtV::Func(_, _, b) => {
            lemma_lc_stmts_keeps(b, st);
        },
        StmtV::Return(r) => {
            if let Some(e) = r {
                lemma_lc_expr_keeps(e, st);
                assert(none.push(s) =~= seq![s]);
            }
        },
        StmtV::While(t, b) => {
            lemma_lc_expr_keeps(t, st);
            lemma_lc_stmts_keeps(b, st);
            assert(none.push(s) =~= seq![s]);
        },
        StmtV::For(t, it, b) => {
            lemma_lc_expr_keeps(t, st);
            lemma_lc_expr_keeps(it, st);
            lemma_lc_stmts_keeps(b, st);
            assert(none.push(s) =~= seq![s]);
        },
        _ => {},
    }
}

proof fn lemma_lc_stmts_keeps(v: Seq<StmtV>, st: Seq<u128>)
    requires
        forall|i: int| 0 <= i < v.len() ==> every_stmt_expr(#[trigger] v[i], not_comprehension()),
    ensures
        lc_stmts(v, st) == (v, st),
    decreases v,
{
    if v.len() > 0 {
        let d = v.drop_last();
        assert forall|i: int| 0 <= i < d.len() implies every_stmt_expr(#[trigger] d[i], not_comprehension()) by {
            assert(d[i] == v[i]);
        }
        lemma_lc_stmts_keeps(d, st);
        assert(every_stmt_expr(v[v.len() - 1], not_comprehension()));
        lemma_lc_stmt_keeps(v.last(), st);
        assert(d + seq![v.last()] =~= v);
    }
}

/// Lowering list comprehensions keeps a program without list comprehensions, at any depth,
/// as it is, and uses none of the fresh names (so an `if` keeps its test, its body as body
/// and its `else` branch as `else` branch, and every operand stays in its place).
pub proof fn law_comprehension_lowering_keeps_the_rest(s: Seq<StmtV>, st: Seq<u128>)
    requires
        forall|i: int| 0 <= i < s.len() ==> every_stmt_expr(#[trigger] s[i], not_comprehension()),
    ensures
        lc_stmts(s, st) == (s, st),
{
    lemma_lc_stmts_keeps(s, st);
}

} // verus!
