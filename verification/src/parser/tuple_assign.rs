//! Lowers assignments to tuples:
//!
//! ```text
//! a, b = v    ==>   __tmp_for_tuple = v
//!                   a = __tmp_for_tuple[0]
//!                   b = __tmp_for_tuple[1]
//! ```
use vstd::prelude::*;
use crate::ast::{
    every_stmt, copy_expr, copy_from_import, copy_import, copy_opt_expr, copy_string, copy_strings, views,
    Assign, Expr, ExprV, Func, If, Index, Number, NumberV, Statement, StmtV, While,
};
use crate::parser::for_loop::not_for;
use crate::text::{decimal, string_of, usize_to_string};

verus! {

/// The temporary variable that holds the assigned tuple.
pub open spec fn tuple_tmp() -> ExprV {
    ExprV::VariableName("__tmp_for_tuple"@)
}

/// The assignment of the `i`-th element of the tuple to `target`.
pub open spec fn element_assign(target: ExprV, i: int) -> StmtV {
    StmtV::Assign(
        target,
        ExprV::Index(Box::new(tuple_tmp()), Box::new(ExprV::ConstantNumber(NumberV::Int(decimal(i as nat))))),
    )
}

pub open spec fn tuple_stmt(s: StmtV) -> Seq<StmtV>
    decreases s,
{
    match s {
        StmtV::Assign(target, value) => match target {
            ExprV::Tuple(targets) => seq![StmtV::Assign(tuple_tmp(), value)]
                + Seq::new(targets.len(), |i: int| element_assign(targets[i], i)),
            _ => seq![s],
        },
        StmtV::If(t, b, o) => seq![StmtV::If(t, tuple_stmts(b), tuple_stmts(o))],
        StmtV::Func(n, a, b) => seq![StmtV::Func(n, a, tuple_stmts(b))],
        StmtV::While(t, b) => seq![StmtV::While(t, tuple_stmts(b))],
        _ => seq![s],
    }
}

pub open spec fn tuple_stmts(s: Seq<StmtV>) -> Seq<StmtV>
    decreases s,
{
    if s.len() == 0 {
        seq![]
    } else {
        tuple_stmts(s.drop_last()) + tuple_stmt(s.last())
    }
}

fn simplify_stmt(stmt: &Statement) -> (r: Vec<Statement>)
    ensures
        views(r@) == tuple_stmt(stmt@),
    decreases stmt,
{
    let ghost sv = stmt@;
    match stmt {
        Statement::Assign(a) => {
            match &a.target {
                Expr::Tuple(targets) => {
                    let ghost tv = sv->Assign_0->Tuple_0;
                    let mut result = vec![Statement::Assign(Assign {
                        target: Expr::VariableName(string_of("__tmp_for_tuple")),
                        value: copy_expr(&a.value),
                    })];
                    let mut i: usize = 0;
                    while i < targets.len()
                        invariant
                            i <= targets.len(),
                            tv.len() == targets.len(),
                            forall|j: int| 0 <= j < targets.len() ==> #[trigger] tv[j] == targets@[j]@,
                            views(result@) == seq![StmtV::Assign(tuple_tmp(), sv->Assign_1)]
                                + Seq::new(i as nat, |j: int| element_assign(tv[j], j)),
                        decreases targets.len() - i,
                    {
                        let tmp = Expr::VariableName(string_of("__tmp_for_tuple"));
                        assert(tmp@ == tuple_tmp());
                        let digits = usize_to_string(i);
                        let num = Expr::ConstantNumber(Number::Int(digits));
                        assert(num@ == ExprV::ConstantNumber(NumberV::Int(decimal(i as nat))));
                        let index = Expr::Index(Index { value: Box::new(tmp), index: Box::new(num) });
                        let ghost before = views(result@);
                        let ghost iv = index@;
                        assert(iv == ExprV::Index(Box::new(tuple_tmp()), Box::new(ExprV::ConstantNumber(NumberV::Int(decimal(i as nat))))));
                        let st = Statement::Assign(Assign { target: copy_expr(&targets[i]), value: index });
                        assert(st@ == element_assign(tv[i as int], i as int));
                        result.push(st);
                        proof {
                            assert(views(result@) =~= before.push(element_assign(tv[i as int], i as int)));
                            assert(views(result@) =~= seq![StmtV::Assign(tuple_tmp(), sv->Assign_1)]
                                + Seq::new((i + 1) as nat, |j: int| element_assign(tv[j], j)));
                        }
                        i += 1;
                    }
                    result
                },
                _ => {
                    let r = vec![Statement::Assign(Assign { target: copy_expr(&a.target), value: copy_expr(&a.value) })];
                    proof {
                        assert(views(r@) =~= seq![sv]);
                    }
                    r
                },
            }
        },
        Statement::If(x) => {
            assert(views(x.body@) =~= sv->If_1);
            assert(views(x.orelse@) =~= sv->If_2);
            let body = simplify_tuple_assignments_of(&x.body);
            let orelse = simplify_tuple_assignments_of(&x.orelse);
            let ghost bv = views(body@);
            let ghost ov = views(orelse@);
            let r = vec![Statement::If(If { test: copy_expr(&x.test), body, orelse })];
            proof {
                assert(r@[0]@->If_1 =~= bv);
                assert(r@[0]@->If_2 =~= ov);
                assert(views(r@) =~= tuple_stmt(sv));
            }
            r
        },
        Statement::Func(f) => {
            assert(views(f.body@) =~= sv->Func_2);
            let body = simplify_tuple_assignments_of(&f.body);
            let ghost bv = views(body@);
            let r = vec![Statement::Func(Func { name: copy_string(&f.name), args: copy_strings(&f.args), body })];
            proof {
                assert(r@[0]@->Func_2 =~= bv);
                assert(views(r@) =~= tuple_stmt(sv));
            }
            r
        },
        Statement::While(w) => {
            assert(views(w.body@) =~= sv->While_1);
            let body = simplify_tuple_assignments_of(&w.body);
            let ghost bv = views(body@);
            let r = vec![Statement::While(While { test: copy_expr(&w.test), body })];
            proof {
                assert(r@[0]@->While_1 =~= bv);
                assert(views(r@) =~= tuple_stmt(sv));
            }
            r
        },
        Statement::Expression(e) => {
            let r = vec![Statement::Expression(copy_expr(e))];
            proof { assert(views(r@) =~= seq![sv]); }
            r
        },
        Statement::Return(e) => {
            let r = vec![Statement::Return(copy_opt_expr(e))];
            proof { assert(views(r@) =~= seq![sv]); }
            r
        },
        Statement::Break => {
            let r = vec![Statement::Break];
            proof { assert(views(r@) =~= seq![sv]); }
            r
        },
        Statement::Continue => {
            let r = vec![Statement::Continue];
            proof { assert(views(r@) =~= seq![sv]); }
            r
        },
        Statement::Import(i) => {
            let r = vec![Statement::Import(copy_import(i))];
            proof { assert(views(r@) =~= seq![sv]); }
            r
        },
        Statement::FromImport(i) => {
            let r = vec![Statement::FromImport(copy_from_import(i))];
            proof { assert(views(r@) =~= seq![sv]); }
            r
        },
    }
}

fn simplify_tuple_assignments_of(stmts: &Vec<Statement>) -> (r: Vec<Statement>)
    ensures
        views(r@) == tuple_stmts(views(stmts@)),
    decreases stmts,
{
    let ghost sv = views(stmts@);
    let mut out: Vec<Statement> = Vec::new();
    let mut i: usize = 0;
    proof {
        assert(sv.take(0) =~= Seq::<StmtV>::empty());
        assert(views(out@) =~= Seq::<StmtV>::empty());
    }
    while i < stmts.len()
        invariant
            i <= stmts.len(),
            sv == views(stmts@),
            views(out@) == tuple_stmts(sv.take(i as int)),
        decreases stmts.len() - i,
    {
        let mut o = simplify_stmt(&stmts[i]);
        let ghost old_out = views(out@);
        let ghost ov = views(o@);
        out.append(&mut o);
        proof {
            assert(sv.take(i + 1).drop_last() =~= sv.take(i as int));
            assert(sv.take(i + 1).last() == stmts@[i as int]@);
            assert(views(out@) =~= old_out + ov);
        }
        i += 1;
    }
    proof {
        assert(sv.take(i as int) =~= sv);
    }
    out
}

/// Lowers every assignment to a tuple into assignments of its elements.
pub fn simplify_tuple_assignments(stmts: Vec<Statement>) -> (r: Vec<Statement>)
    ensures
        views(r@) == tuple_stmts(views(stmts@)),
{
    simplify_tuple_assignments_of(&stmts)
}

/// Lowering tuple assignments brings in no `for` loop.
pub proof fn lemma_tuple_stmt_no_for(s: StmtV)
    requires
        every_stmt(s, not_for()),
    ensures
        forall|i: int| 0 <= i < tuple_stmt(s).len() ==> every_stmt(#[trigger] tuple_stmt(s)[i], not_for()),
    decreases s,
{
    match s {
        StmtV::Assign(target, value) => {
            match target {
                ExprV::Tuple(targets) => {
                    assert forall|i: int| 0 <= i < tuple_stmt(s).len() implies every_stmt(#[trigger] tuple_stmt(s)[i], not_for()) by {
                        if i > 0 {
                            assert(tuple_stmt(s)[i] == element_assign(targets[i - 1], i - 1));
                        }
                    }
                },
                _ => {},
            }
        },
        StmtV::If(t, b, o) => {
            lemma_tuple_stmts_no_for(b);
            lemma_tuple_stmts_no_for(o);
            let r = StmtV::If(t, tuple_stmts(b), tuple_stmts(o));
            assert(every_stmt(r, not_for()));
        },
        StmtV::Func(n, a, b) => {
            lemma_tuple_stmts_no_for(b);
            let r = StmtV::Func(n, a, tuple_stmts(b));
            assert(every_stmt(r, not_for()));
        },
        StmtV::While(t, b) => {
            lemma_tuple_stmts_no_for(b);
            let r = StmtV::While(t, tuple_stmts(b));
            assert(every_stmt(r, not_for()));
        },
        _ => {},
    }
}

/// Lowering tuple assignments brings in no `for` loop.
pub proof fn lemma_tuple_stmts_no_for(s: Seq<StmtV>)
    requires
        forall|i: int| 0 <= i < s.len() ==> every_stmt(#[trigger] s[i], not_for()),
    ensures
        forall|i: int| 0 <= i < tuple_stmts(s).len() ==> every_stmt(#[trigger] tuple_stmts(s)[i], not_for()),
    decreases s,
{
    if s.len() > 0 {
        let a = tuple_stmts(s.drop_last());
        let b = tuple_stmt(s.last());
        assert forall|i: int| 0 <= i < s.drop_last().len() implies every_stmt(#[trigger] s.drop_last()[i], not_for()) by {
            assert(s.drop_last()[i] == s[i]);
        }
        lemma_tuple_stmts_no_for(s.drop_last());
        assert(every_stmt(s[s.len() - 1], not_for()));
        lemma_tuple_stmt_no_for(s.last());
        assert forall|i: int| 0 <= i < tuple_stmts(s).len() implies every_stmt(#[trigger] tuple_stmts(s)[i], not_for()) by {
            if i < a.len() {
                assert(tuple_stmts(s)[i] == a[i]);
            } else {
                assert(tuple_stmts(s)[i] == b[i - a.len()]);
            }
        }
    }
}

/// A statement that is not an assignment to a tuple.
pub open spec fn not_tuple_assign() -> spec_fn(StmtV) -> bool {
    |s: StmtV| !(s matches StmtV::Assign(ExprV::Tuple(_), _))
}

/// A statement that, if it assigns to a tuple, assigns to a tuple of no tuples.
pub open spec fn flat_tuple_target() -> spec_fn(StmtV) -> bool {
    |s: StmtV| s matches StmtV::Assign(ExprV::Tuple(ts), _) ==> forall|i: int| 0 <= i < ts.len() ==> !(#[trigger] ts[i] is Tuple)
}

proof fn lemma_tuple_stmt_lowered(s: StmtV)
    requires
        every_stmt(s, flat_tuple_target()),
        every_stmt(s, not_for()),
    ensures
        forall|i: int| 0 <= i < tuple_stmt(s).len() ==> every_stmt(#[trigger] tuple_stmt(s)[i], not_tuple_assign()),
    decreases s,
{
    match s {
        StmtV::Assign(target, value) => {
            match target {
                ExprV::Tuple(targets) => {
                    assert forall|i: int| 0 <= i < tuple_stmt(s).len() implies every_stmt(#[trigger] tuple_stmt(s)[i], not_tuple_assign()) by {
                        if i > 0 {
                            assert(tuple_stmt(s)[i] == element_assign(targets[i - 1], i - 1));
                            assert(!(targets[i - 1] is Tuple));
                        }
                    }
                },
                _ => {
                    assert(tuple_stmt(s) == seq![s]);
                },
            }
        },
        StmtV::If(t, b, o) => {
            lemma_tuple_stmts_lowered(b);
            lemma_tuple_stmts_lowered(o);
            assert(every_stmt(StmtV::If(t, tuple_stmts(b), tuple_stmts(o)), not_tuple_assign()));
        },
        StmtV::Func(n, a, b) => {
            lemma_tuple_stmts_lowered(b);
            assert(every_stmt(StmtV::Func(n, a, tuple_stmts(b)), not_tuple_assign()));
        },
        StmtV::While(t, b) => {
            lemma_tuple_stmts_lowered(b);
            assert(every_stmt(StmtV::While(t, tuple_stmts(b)), not_tuple_assign()));
        },
        StmtV::For(..) => {},
        _ => {
            assert(tuple_stmt(s) == seq![s]);
        },
    }
}

proof fn lemma_tuple_stmts_lowered(s: Seq<StmtV>)
    requires
        forall|i: int| 0 <= i < s.len() ==> every_stmt(#[trigger] s[i], flat_tuple_target()),
        forall|i: int| 0 <= i < s.len() ==> every_stmt(#[trigger] s[i], not_for()),
    ensures
        forall|i: int| 0 <= i < tuple_stmts(s).len() ==> every_stmt(#[trigger] tuple_stmts(s)[i], not_tuple_assign()),
    decreases s,
{
    if s.len() > 0 {
        let a = tuple_stmts(s.drop_last());
        let b = tuple_stmt(s.last());
        assert forall|i: int| 0 <= i < s.drop_last().len() implies every_stmt(#[trigger] s.drop_last()[i], flat_tuple_target())
            && every_stmt(s.drop_last()[i], not_for()) by {
            assert(s.drop_last()[i] == s[i]);
        }
        lemma_tuple_stmts_lowered(s.drop_last());
        assert(every_stmt(s[s.len() - 1], flat_tuple_target()));
        assert(every_stmt(s[s.len() - 1], not_for()));
        lemma_tuple_stmt_lowered(s.last());
        assert forall|i: int| 0 <= i < tuple_stmts(s).len() implies every_stmt(#[trigger] tuple_stmts(s)[i], not_tuple_assign()) by {
            if i < a.len() {
                assert(tuple_stmts(s)[i] == a[i]);
            } else {
                assert(tuple_stmts(s)[i] == b[i - a.len()]);
            }
        }
    }
}

/// Assignments to tuples are lowered: after the pass, on statements without `for` loops
/// whose tuple targets hold no tuples, no assignment to a tuple is left, at any depth.
pub proof fn law_tuple_assignments_lowered(s: Seq<StmtV>)
    requires
        forall|i: int| 0 <= i < s.len() ==> every_stmt(#[trigger] s[i], flat_tuple_target()),
        forall|i: int| 0 <= i < s.len() ==> every_stmt(#[trigger] s[i], not_for()),
    ensures
        forall|i: int| 0 <= i < tuple_stmts(s).len() ==> every_stmt(#[trigger] tuple_stmts(s)[i], not_tuple_assign()),
{
    lemma_tuple_stmts_lowered(s);
}


proof fn lemma_tuple_stmt_keeps(s: StmtV)
    requires
        every_stmt(s, not_tuple_assign()),
    ensures
        tuple_stmt(s) == seq![s],
    decreases s,
{
    match s {
        StmtV::If(t, b, o) => {
            lemma_tuple_stmts_keeps(b);
            lemma_tuple_stmts_keeps(o);
        },
        StmtV::Func(n, a, b) => {
            lemma_tuple_stmts_keeps(b);
        },
        StmtV::While(t, b) => {
            lemma_tuple_stmts_keeps(b);
        },
        _ => {},
    }
}

proof fn lemma_tuple_stmts_keeps(v: Seq<StmtV>)
    requires
        forall|i: int| 0 <= i < v.len() ==> every_stmt(#[trigger] v[i], not_tuple_assign()),
    ensures
        tuple_stmts(v) == v,
    decreases v,
{
    if v.len() > 0 {
        assert forall|i: int| 0 <= i < v.drop_last().len() implies every_stmt(#[trigger] v.drop_last()[i], not_tuple_assign()) by {
            assert(v.drop_last()[i] == v[i]);
        }
        lemma_tuple_stmts_keeps(v.drop_last());
        assert(every_stmt(v[v.len() - 1], not_tuple_assign()));
        lemma_tuple_stmt_keeps(v.last());
        assert(v.drop_last() + seq![v.last()] =~= v);
    }
}

/// Lowering tuple assignments keeps every statement that assigns to no tuple in place: on a
/// program without assignments to tuples, at any depth, it gives the program back (so an
/// `if` keeps its test, its body as body and its `else` branch as `else` branch).
pub proof fn law_tuple_lowering_keeps_the_rest(s: Seq<StmtV>)
    requires
        forall|i: int| 0 <= i < s.len() ==> every_stmt(#[trigger] s[i], not_tuple_assign()),
    ensures
        tuple_stmts(s) == s,
{
    lemma_tuple_stmts_keeps(s);
}

/// An `if` is lowered in place: one `if` with the same test, whose body is the lowered body
/// and whose `else` branch is the lowered `else` branch.
pub proof fn law_tuple_lowering_in_if(t: ExprV, b: Seq<StmtV>, o: Seq<StmtV>)
    ensures
        tuple_stmt(StmtV::If(t, b, o)).len() == 1,
        tuple_stmt(StmtV::If(t, b, o))[0] matches StmtV::If(t2, b2, o2)
            && t2 == t && b2 == tuple_stmts(b) && o2 == tuple_stmts(o),
{
}

} // verus!
