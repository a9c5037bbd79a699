//! Lowers `for` loops to `while` loops over an iterator:
//!
//! ```text
//! for t in xs: body        __tmp_for_loop_iter_N = iter(xs)
//!                    ==>   while __has_next(__tmp_for_loop_iter_N):
//!                              t = next(__tmp_for_loop_iter_N)
//!                              body
//! ```
//!
//! where `N` is a stamp of the clock, taken afresh for each loop, outer loops first.
use vstd::prelude::*;
use crate::ast::{
    every_stmt, copy_expr, copy_from_import, copy_import, copy_opt_expr, copy_string, copy_strings, views,
    Assign, CallFunction, Expr, ExprV, For, Func, If, RawStmt, Statement, StmtV, While,
};
use crate::parser::fresh::unixtime_nano;
use crate::text::{string_of, with_number};

verus! {

/// The temporary variable of the loop stamped with `stamp`.
pub open spec fn loop_var(stamp: u128) -> ExprV {
    ExprV::VariableName("__tmp_for_loop_iter_"@ + crate::text::decimal(stamp as nat))
}

/// The lowering of one statement, using stamps from the front of `st`; also the stamps left.
pub open spec fn lower_stmt(s: StmtV, st: Seq<u128>) -> (Seq<StmtV>, Seq<u128>)
    decreases s,
{
    match s {
        StmtV::If(t, b, o) => {
            let (b2, st1) = lower_stmts(b, st);
            let (o2, st2) = lower_stmts(o, st1);
            (seq![StmtV::If(t, b2, o2)], st2)
        },
        StmtV::Func(n, a, b) => {
            let (b2, st1) = lower_stmts(b, st);
            (seq![StmtV::Func(n, a, b2)], st1)
        },
        StmtV::While(t, b) => {
            let (b2, st1) = lower_stmts(b, st);
            (seq![StmtV::While(t, b2)], st1)
        },
        StmtV::For(target, iter, body) => {
            let tmp = loop_var(st[0]);
            let (b2, st1) = lower_stmts(body, st.drop_first());
            (
                seq![
                    StmtV::Assign(tmp, ExprV::CallFunction("iter"@, seq![iter])),
                    StmtV::While(
                        ExprV::CallFunction("__has_next"@, seq![tmp]),
                        seq![StmtV::Assign(target, ExprV::CallFunction("next"@, seq![tmp]))] + b2,
                    ),
                ],
                st1,
            )
        },
        _ => (seq![s], st),
    }
}

pub open spec fn lower_stmts(s: Seq<StmtV>, st: Seq<u128>) -> (Seq<StmtV>, Seq<u128>)
    decreases s,
{
    if s.len() == 0 {
        (seq![], st)
    } else {
        let (a, st1) = lower_stmts(s.drop_last(), st);
        let (b, st2) = lower_stmt(s.last(), st1);
        (a + b, st2)
    }
}

fn var_expr(name: &String) -> (r: Expr)
    ensures
        r@ == ExprV::VariableName(name@),
{
    Expr::VariableName(copy_string(name))
}

fn call1(name: &str, arg: Expr) -> (r: Expr)
    ensures
        r@ == ExprV::CallFunction(name@, seq![arg@]),
{
    let ghost a = arg@;
    let r = Expr::CallFunction(CallFunction { name: string_of(name), args: vec![arg] });
    proof {
        assert(r@->CallFunction_1 =~= seq![a]);
    }
    r
}

fn lower_statement(s: &RawStmt<Expr>) -> (r: (Vec<Statement>, Ghost<Seq<u128>>))
    ensures
        forall|rest: Seq<u128>| #[trigger] lower_stmt(s@, r.1@ + rest) == (views(r.0@), rest),
    decreases s,
{
    let ghost sv = s@;
    match s {
        RawStmt::Assign(a) => {
            let out = vec![Statement::Assign(Assign { target: copy_expr(&a.target), value: copy_expr(&a.value) })];
            proof {
                assert forall|rest: Seq<u128>| #[trigger] lower_stmt(sv, Seq::<u128>::empty() + rest) == (views(out@), rest) by {
                    assert(Seq::<u128>::empty() + rest =~= rest);
                    assert(views(out@) =~= seq![sv]);
                }
            }
            (out, Ghost(Seq::empty()))
        },
        RawStmt::Expression(e) => {
            let out = vec![Statement::Expression(copy_expr(e))];
            proof {
                assert forall|rest: Seq<u128>| #[trigger] lower_stmt(sv, Seq::<u128>::empty() + rest) == (views(out@), rest) by {
                    assert(Seq::<u128>::empty() + rest =~= rest);
                    assert(views(out@) =~= seq![sv]);
                }
            }
            (out, Ghost(Seq::empty()))
        },
        RawStmt::Return(e) => {
            let out = vec![Statement::Return(copy_opt_expr(e))];
            proof {
                assert forall|rest: Seq<u128>| #[trigger] lower_stmt(sv, Seq::<u128>::empty() + rest) == (views(out@), rest) by {
                    assert(Seq::<u128>::empty() + rest =~= rest);
                    assert(views(out@) =~= seq![sv]);
                }
            }
            (out, Ghost(Seq::empty()))
        },
        RawStmt::Break | RawStmt::Continue | RawStmt::Import(_) | RawStmt::FromImport(_) => {
            let st = match s {
                RawStmt::Break => Statement::Break,
                RawStmt::Continue => Statement::Continue,
                RawStmt::Import(i) => Statement::Import(copy_import(i)),
                RawStmt::FromImport(i) => Statement::FromImport(copy_from_import(i)),
                _ => Statement::Break,
            };
            let out = vec![st];
            proof {
                assert forall|rest: Seq<u128>| #[trigger] lower_stmt(sv, Seq::<u128>::empty() + rest) == (views(out@), rest) by {
                    assert(Seq::<u128>::empty() + rest =~= rest);
                    assert(views(out@) =~= seq![sv]);
                }
            }
            (out, Ghost(Seq::empty()))
        },
        RawStmt::If(x) => {
            assert(views(x.body@) =~= sv->If_1);
            assert(views(x.orelse@) =~= sv->If_2);
            let (body, ub) = lower_statements(&x.body);
            let (orelse, uo) = lower_statements(&x.orelse);
            let ghost bv = views(body@);
            let ghost ov = views(orelse@);
            let out = vec![Statement::If(If { test: copy_expr(&x.test), body, orelse })];
            let ghost used = ub@ + uo@;
            proof {
                assert forall|rest: Seq<u128>| #[trigger] lower_stmt(sv, used + rest) == (views(out@), rest) by {
                    assert(used + rest =~= ub@ + (uo@ + rest));
                    assert(lower_stmts(sv->If_1, ub@ + (uo@ + rest)) == (bv, uo@ + rest));
                    assert(lower_stmts(sv->If_2, uo@ + rest) == (ov, rest));
                    assert(out@[0]@->If_1 =~= bv);
                    assert(out@[0]@->If_2 =~= ov);
                    assert(views(out@) =~= seq![StmtV::If(sv->If_0, bv, ov)]);
                }
            }
            (out, Ghost(used))
        },
        RawStmt::Func(f) => {
            assert(views(f.body@) =~= sv->Func_2);
            let (body, ub) = lower_statements(&f.body);
            let ghost bv = views(body@);
            let out = vec![Statement::Func(Func { name: copy_string(&f.name), args: copy_strings(&f.args), body })];
            proof {
                assert forall|rest: Seq<u128>| #[trigger] lower_stmt(sv, ub@ + rest) == (views(out@), rest) by {
                    assert(lower_stmts(sv->Func_2, ub@ + rest) == (bv, rest));
                    assert(out@[0]@->Func_2 =~= bv);
                    assert(views(out@) =~= seq![StmtV::Func(sv->Func_0, sv->Func_1, bv)]);
                }
            }
            (out, ub)
        },
        RawStmt::While(w) => {
            assert(views(w.body@) =~= sv->While_1);
            let (body, ub) = lower_statements(&w.body);
            let ghost bv = views(body@);
            let out = vec![Statement::While(While { test: copy_expr(&w.test), body })];
            proof {
                assert forall|rest: Seq<u128>| #[trigger] lower_stmt(sv, ub@ + rest) == (views(out@), rest) by {
                    assert(lower_stmts(sv->While_1, ub@ + rest) == (bv, rest));
                    assert(out@[0]@->While_1 =~= bv);
                    assert(views(out@) =~= seq![StmtV::While(sv->While_0, bv)]);
                }
            }
            (out, ub)
        },
        RawStmt::For(f) => {
            assert(views(f.body@) =~= sv->For_2);
            let stamp = unixtime_nano();
            let name = with_number("__tmp_for_loop_iter_", stamp);
            let (body, ub) = lower_statements(&f.body);
            let ghost bv = views(body@);
            let first = Statement::Assign(Assign { target: var_expr(&name), value: call1("iter", copy_expr(&f.iter)) });
            let step = Statement::Assign(Assign { target: copy_expr(&f.target), value: call1("next", var_expr(&name)) });
            let mut while_body = vec![step];
            let ghost step_v = while_body@[0]@;
            let mut body = body;
            while_body.append(&mut body);
            let ghost wv = views(while_body@);
            let second = Statement::While(While { test: call1("__has_next", var_expr(&name)), body: while_body });
            let out = vec![first, second];
            let ghost used = seq![stamp] + ub@;
            proof {
                assert(wv =~= seq![step_v] + bv);
                assert forall|rest: Seq<u128>| #[trigger] lower_stmt(sv, used + rest) == (views(out@), rest) by {
                    let st = used + rest;
                    assert(st[0] == stamp);
                    assert(st.drop_first() =~= ub@ + rest);
                    assert(lower_stmts(sv->For_2, ub@ + rest) == (bv, rest));
                    assert(out@[1]@->While_1 =~= wv);
                    assert(views(out@) =~= lower_stmt(sv, st).0);
                }
            }
            (out, Ghost(used))
        },
    }
}

fn lower_statements(stmts: &Vec<RawStmt<Expr>>) -> (r: (Vec<Statement>, Ghost<Seq<u128>>))
    ensures
        forall|rest: Seq<u128>| #[trigger] lower_stmts(views(stmts@), r.1@ + rest) == (views(r.0@), rest),
    decreases stmts,
{
    let ghost sv = views(stmts@);
    let mut out: Vec<Statement> = Vec::new();
    let ghost mut used: Seq<u128> = Seq::empty();
    let mut i: usize = 0;
    proof {
        assert forall|rest: Seq<u128>| #[trigger] lower_stmts(sv.take(0), used + rest) == (views(out@), rest) by {
            assert(used + rest =~= rest);
            assert(views(out@) =~= Seq::<StmtV>::empty());
            assert(sv.take(0) =~= Seq::<StmtV>::empty());
        }
    }
    while i < stmts.len()
        invariant
            i <= stmts.len(),
            sv == views(stmts@),
            forall|rest: Seq<u128>| #[trigger] lower_stmts(sv.take(i as int), used + rest) == (views(out@), rest),
        decreases stmts.len() - i,
    {
        let (mut o, u) = lower_statement(&stmts[i]);
        let ghost old_out = views(out@);
        let ghost ov = views(o@);
        let ghost old_used = used;
        out.append(&mut o);
        proof {
            used = used + u@;
            assert(sv.take(i + 1).drop_last() =~= sv.take(i as int));
            assert(sv.take(i + 1).last() == stmts@[i as int]@);
            assert(views(out@) =~= old_out + ov);
            assert forall|rest: Seq<u128>| #[trigger] lower_stmts(sv.take(i + 1), used + rest) == (views(out@), rest) by {
                assert(used + rest =~= old_used + (u@ + rest));
                assert(lower_stmts(sv.take(i as int), old_used + (u@ + rest)) == (old_out, u@ + rest));
                assert(lower_stmt(stmts@[i as int]@, u@ + rest) == (ov, rest));
            }
        }
        i += 1;
    }
    proof {
        assert(sv.take(i as int) =~= sv);
    }
    (out, Ghost(used))
}

/// Lowers every `for` loop of the statements to a `while` loop over an iterator.
pub fn simplify_for_loops(stmts: Vec<RawStmt<Expr>>) -> (r: Vec<Statement>)
    ensures
        exists|st: Seq<u128>| #[trigger] lower_stmts(views(stmts@), st) == (views(r@), Seq::<u128>::empty()),
{
    let (out, used) = lower_statements(&stmts);
    proof {
        assert(used@ + Seq::<u128>::empty() =~= used@);
        assert(lower_stmts(views(stmts@), used@ + Seq::<u128>::empty()) == (views(out@), Seq::<u128>::empty()));
    }
    out
}

/// A statement that is not a `for` loop.
pub open spec fn not_for() -> spec_fn(StmtV) -> bool {
    |s: StmtV| !(s is For)
}

/// What the lowering makes of one statement holds no `for` loop, at any depth.
pub proof fn lemma_lower_stmt_no_for(s: StmtV, st: Seq<u128>)
    ensures
        forall|i: int| 0 <= i < lower_stmt(s, st).0.len() ==> every_stmt(#[trigger] lower_stmt(s, st).0[i], not_for()),
    decreases s,
{
    match s {
        StmtV::If(t, b, o) => {
            let (b2, st1) = lower_stmts(b, st);
            let (o2, st2) = lower_stmts(o, st1);
            lemma_lower_stmts_no_for(b, st);
            lemma_lower_stmts_no_for(o, st1);
            let r = StmtV::If(t, b2, o2);
            assert(lower_stmt(s, st).0 == seq![r]);
            assert(every_stmt(r, not_for()));
        },
        StmtV::Func(n, a, b) => {
            let (b2, st1) = lower_stmts(b, st);
            lemma_lower_stmts_no_for(b, st);
            let r = StmtV::Func(n, a, b2);
            assert(lower_stmt(s, st).0 == seq![r]);
            assert(every_stmt(r, not_for()));
        },
        StmtV::While(t, b) => {
            let (b2, st1) = lower_stmts(b, st);
            lemma_lower_stmts_no_for(b, st);
            let r = StmtV::While(t, b2);
            assert(lower_stmt(s, st).0 == seq![r]);
            assert(every_stmt(r, not_for()));
        },
        StmtV::For(target, iter, body) => {
            let tmp = loop_var(st[0]);
            let (b2, st1) = lower_stmts(body, st.drop_first());
            lemma_lower_stmts_no_for(body, st.drop_first());
            let head = StmtV::Assign(target, ExprV::CallFunction("next"@, seq![tmp]));
            let inner = seq![head] + b2;
            assert forall|i: int| 0 <= i < inner.len() implies every_stmt(#[trigger] inner[i], not_for()) by {
                if i > 0 {
                    assert(inner[i] == b2[i - 1]);
                }
            }
            assert(every_stmt(lower_stmt(s, st).0[0], not_for()));
            assert(every_stmt(lower_stmt(s, st).0[1], not_for()));
        },
        _ => {
            assert(every_stmt(lower_stmt(s, st).0[0], not_for()));
        },
    }
}

/// What the lowering makes of statements holds no `for` loop, at any depth.
pub proof fn lemma_lower_stmts_no_for(s: Seq<StmtV>, st: Seq<u128>)
    ensures
        forall|i: int| 0 <= i < lower_stmts(s, st).0.len() ==> every_stmt(#[trigger] lower_stmts(s, st).0[i], not_for()),
    decreases s,
{
    if s.len() > 0 {
        let (a, st1) = lower_stmts(s.drop_last(), st);
        let (b, st2) = lower_stmt(s.last(), st1);
        lemma_lower_stmts_no_for(s.drop_last(), st);
        lemma_lower_stmt_no_for(s.last(), st1);
        assert forall|i: int| 0 <= i < lower_stmts(s, st).0.len() implies every_stmt(#[trigger] lower_stmts(s, st).0[i], not_for()) by {
            if i < a.len() {
                assert(lower_stmts(s, st).0[i] == a[i]);
            } else {
                assert(lower_stmts(s, st).0[i] == b[i - a.len()]);
            }
        }
    }
}


proof fn lemma_lower_stmt_keeps(s: StmtV, st: Seq<u128>)
    requires
        every_stmt(s, not_for()),
    ensures
        lower_stmt(s, st) == (seq![s], st),
    decreases s,
{
    match s {
        StmtV::If(t, b, o) => {
            lemma_lower_stmts_keeps(b, st);
            lemma_lower_stmts_keeps(o, st);
        },
        StmtV::Func(n, a, b) => {
            lemma_lower_stmts_keeps(b, st);
        },
        StmtV::While(t, b) => {
            lemma_lower_stmts_keeps(b, st);
        },
        _ => {},
    }
}

proof fn lemma_lower_stmts_keeps(v: Seq<StmtV>, st: Seq<u128>)
    requires
        forall|i: int| 0 <= i < v.len() ==> every_stmt(#[trigger] v[i], not_for()),
    ensures
        lower_stmts(v, st) == (v, st),
    decreases v,
{
    if v.len() > 0 {
        assert forall|i: int| 0 <= i < v.drop_last().len() implies every_stmt(#[trigger] v.drop_last()[i], not_for()) by {
            assert(v.drop_last()[i] == v[i]);
        }
        lemma_lower_stmts_keeps(v.drop_last(), st);
        assert(every_stmt(v[v.len() - 1], not_for()));
        lemma_lower_stmt_keeps(v.last(), st);
        assert(v.drop_last() + seq![v.last()] =~= v);
    }
}

/// Lowering `for` loops keeps a program without `for` loops, at any depth, as it is, and
/// uses none of the fresh names (so an `if` keeps its test, its body as body and its `else`
/// branch as `else` branch).
pub proof fn law_for_lowering_keeps_the_rest(s: Seq<StmtV>, st: Seq<u128>)
    requires
        forall|i: int| 0 <= i < s.len() ==> every_stmt(#[trigger] s[i], not_for()),
    ensures
        lower_stmts(s, st) == (s, st),
{
    lemma_lower_stmts_keeps(s, st);
}

} // verus!
