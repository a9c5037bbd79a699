//! Whether the parser takes a program: every node is one it knows, and no list
//! comprehension stands where a lowered one could not.
use vstd::prelude::*;
use crate::parser::expression::{bin_op_supported, chain_len, compare_op_supported, expr_supported, unary_op_supported};
use crate::parser::python::{PyCompareOp, PyComprehension, PyConstant, PyExpr, PyOperator, PyStmt, PyUnaryOp};
use crate::parser::statement::{assign_tmp, parse_stmt, parse_stmts, stmt_supported};
use crate::parser::list_comprehension::{
    comprehension_ok, comprehensions_ok, for_targets_ok, gen_views, lc_ready, lc_stmt_ready, no_comprehension,
    not_comprehension, pair_views,
};
use crate::ast::{every_expr, every_stmt, every_stmt_expr, views, Comprehension, ExprV, RawExpr, RawStmt, StmtV};

verus! {

fn compare_ops_supported(ops: &Vec<PyCompareOp>, comparators: &Vec<PyExpr>) -> (r: bool)
    ensures
        r == forall|i: int| #![trigger ops@[i]] #![trigger comparators@[i]]
            0 <= i < chain_len(ops@, comparators@) ==> {
                &&& compare_op_supported(ops@[i])
                &&& expr_supported(comparators@[i])
            },
    decreases comparators,
{
    let n = if ops.len() <= comparators.len() { ops.len() } else { comparators.len() };
    let mut i: usize = 0;
    while i < n
        invariant
            i <= n,
            n == chain_len(ops@, comparators@),
            n <= ops.len(),
            n <= comparators.len(),
            forall|j: int| #![trigger ops@[j]] #![trigger comparators@[j]]
                0 <= j < i ==> compare_op_supported(ops@[j]) && expr_supported(comparators@[j]),
        decreases n - i,
    {
        let supported = match ops[i] {
            PyCompareOp::Is | PyCompareOp::IsNot => false,
            _ => true,
        };
        if !supported || !py_expr_supported(&comparators[i]) {
            return false;
        }
        i += 1;
    }
    true
}

fn py_exprs_supported(v: &Vec<PyExpr>) -> (r: bool)
    ensures
        r == forall|i: int| 0 <= i < v@.len() ==> expr_supported(#[trigger] v@[i]),
    decreases v,
{
    let mut i: usize = 0;
    while i < v.len()
        invariant
            i <= v.len(),
            forall|j: int| 0 <= j < i ==> expr_supported(#[trigger] v@[j]),
        decreases v.len() - i,
    {
        if !py_expr_supported(&v[i]) {
            return false;
        }
        i += 1;
    }
    true
}

fn generators_supported(g: &Vec<PyComprehension>) -> (r: bool)
    ensures
        r == forall|i: int| 0 <= i < g@.len() ==> {
            &&& expr_supported(#[trigger] g@[i].target)
            &&& expr_supported(g@[i].iter)
            &&& forall|j: int| 0 <= j < g@[i].ifs@.len() ==> expr_supported(#[trigger] g@[i].ifs@[j])
        },
    decreases g,
{
    let mut i: usize = 0;
    while i < g.len()
        invariant
            i <= g.len(),
            forall|k: int| 0 <= k < i ==> {
                &&& expr_supported(#[trigger] g@[k].target)
                &&& expr_supported(g@[k].iter)
                &&& forall|j: int| 0 <= j < g@[k].ifs@.len() ==> expr_supported(#[trigger] g@[k].ifs@[j])
            },
        decreases g.len() - i,
    {
        if !(py_expr_supported(&g[i].target) && py_expr_supported(&g[i].iter) && py_exprs_supported(&g[i].ifs)) {
            return false;
        }
        i += 1;
    }
    true
}

/// Whether the parser knows every node of the expression.
pub fn py_expr_supported(e: &PyExpr) -> (r: bool)
    ensures
        r == expr_supported(*e),
    decreases e,
{
    match e {
        PyExpr::Tuple(v) => py_exprs_supported(v),
        PyExpr::Name(_) => true,
        PyExpr::Call { func, args, keywords } => {
            if *keywords != 0 || !py_exprs_supported(args) {
                return false;
            }
            match &**func {
                PyExpr::Attribute { value, attr: _ } => py_expr_supported(value),
                PyExpr::Name(_) => true,
                _ => false,
            }
        },
        PyExpr::BoolOp { op: _, values } => py_exprs_supported(values),
        PyExpr::Compare { left, ops, comparators } => {
            let n = if ops.len() <= comparators.len() { ops.len() } else { comparators.len() };
            n > 0 && py_expr_supported(left) && compare_ops_supported(ops, comparators)
        },
        PyExpr::BinOp { left, op, right } => {
            let supported = match op {
                PyOperator::MatMult | PyOperator::BitOr | PyOperator::BitXor => false,
                _ => true,
            };
            proof {
                assert(supported == bin_op_supported(*op));
            }
            py_expr_supported(left) && py_expr_supported(right) && supported
        },
        PyExpr::Subscript { value, slice } => py_expr_supported(value) && py_expr_supported(slice),
        PyExpr::Constant(c) => match c {
            PyConstant::Unsupported => false,
            _ => true,
        },
        PyExpr::List(v) => py_exprs_supported(v),
        PyExpr::ListComp { elt, generators } => py_expr_supported(elt) && generators_supported(generators),
        PyExpr::UnaryOp { op, operand } => {
            let supported = match op {
                PyUnaryOp::Invert => false,
                _ => true,
            };
            proof {
                assert(supported == unary_op_supported(*op));
            }
            supported && py_expr_supported(operand)
        },
        _ => false,
    }
}

/// Whether the parser knows every statement and expression of the statements.
pub fn py_stmts_supported(v: &Vec<PyStmt>) -> (r: bool)
    ensures
        r == forall|i: int| 0 <= i < v@.len() ==> stmt_supported(#[trigger] v@[i]),
    decreases v,
{
    let mut i: usize = 0;
    while i < v.len()
        invariant
            i <= v.len(),
            forall|j: int| 0 <= j < i ==> stmt_supported(#[trigger] v@[j]),
        decreases v.len() - i,
    {
        if !py_stmt_supported(&v[i]) {
            return false;
        }
        i += 1;
    }
    true
}

/// Whether the parser knows every statement and expression of the statement.
pub fn py_stmt_supported(s: &PyStmt) -> (r: bool)
    ensures
        r == stmt_supported(*s),
    decreases s,
{
    match s {
        PyStmt::Assign { targets, value } => py_expr_supported(value) && py_exprs_supported(targets),
        PyStmt::Expr(v) => py_expr_supported(v),
        PyStmt::If { test, body, orelse } => py_expr_supported(test) && py_stmts_supported(body) && py_stmts_supported(orelse),
        PyStmt::FunctionDef { name: _, args: _, body } => py_stmts_supported(body),
        PyStmt::Return(v) => match v {
            Some(e) => py_expr_supported(e),
            None => true,
        },
        PyStmt::While { test, body } => py_expr_supported(test) && py_stmts_supported(body),
        PyStmt::For { target, iter, body } => py_expr_supported(target) && py_expr_supported(iter) && py_stmts_supported(body),
        PyStmt::AugAssign { target, op, value } => {
            let supported = match op {
                PyOperator::MatMult | PyOperator::BitOr | PyOperator::BitXor => false,
                _ => true,
            };
            proof {
                assert(supported == bin_op_supported(*op));
            }
            py_expr_supported(target) && py_expr_supported(value) && supported
        },
        PyStmt::Delete { targets } => py_exprs_supported(targets),
        PyStmt::ImportFrom { module, names: _ } => module.is_some(),
        PyStmt::Unsupported => false,
        _ => true,
    }
}

/// Whether the raw expression holds no comprehension, and whether each of its
/// comprehensions has targets and filters without comprehension.
pub fn raw_lc_check(e: &RawExpr) -> (r: (bool, bool))
    ensures
        r.0 == no_comprehension(e@),
        r.1 == lc_ready(e@),
    decreases e,
{
    let ghost ev = e@;
    proof {
        assert(not_comprehension()(ev) == !(ev is ListComprehension));
        assert(comprehensions_ok()(ev) == comprehension_ok(ev));
    }
    match e {
        RawExpr::CallFunction(c) => {
            proof {
                assert(ev->CallFunction_1 =~= views(c.args@));
            }
            raw_lc_check_all(&c.args)
        },
        RawExpr::CallMethod(c) => {
            proof {
                assert(ev->CallMethod_2 =~= views(c.args@));
            }
            let (a, b) = raw_lc_check(&c.value);
            let (x, y) = raw_lc_check_all(&c.args);
            (a && x, b && y)
        },
        RawExpr::Tuple(t) => {
            proof {
                assert(ev->Tuple_0 =~= views(t@));
            }
            raw_lc_check_all(t)
        },
        RawExpr::VariableName(_) => (true, true),
        RawExpr::BoolOperation(b) => {
            proof {
                assert(ev->BoolOperation_1 =~= views(b.conditions@));
            }
            raw_lc_check_all(&b.conditions)
        },
        RawExpr::Compare(c) => {
            let (a, b) = raw_lc_check(&c.left);
            let (x, y) = raw_lc_check(&c.right);
            (a && x, b && y)
        },
        RawExpr::UnaryOperation(u) => raw_lc_check(&u.value),
        RawExpr::BinaryOperation(o) => {
            let (a, b) = raw_lc_check(&o.left);
            let (x, y) = raw_lc_check(&o.right);
            (a && x, b && y)
        },
        RawExpr::Index(x) => {
            let (a, b) = raw_lc_check(&x.value);
            let (c, d) = raw_lc_check(&x.index);
            (a && c, b && d)
        },
        RawExpr::ConstantNumber(_) => (true, true),
        RawExpr::ConstantString(_) => (true, true),
        RawExpr::ConstantBoolean(_) => (true, true),
        RawExpr::ConstantNone => (true, true),
        RawExpr::List(l) => {
            proof {
                assert(ev->List_0 =~= views(l@));
            }
            raw_lc_check_all(l)
        },
        RawExpr::Dict(d) => {
            proof {
                assert(ev->Dict_0 =~= pair_views(d.pairs@));
            }
            let (x, y) = raw_lc_check_pairs(&d.pairs);
            proof {
                let ps = ev->Dict_0;
                assert forall|i: int| 0 <= i < ps.len() implies pair_plain(#[trigger] ps[i])
                    == (every_expr(ps[i].0, not_comprehension()) && every_expr(ps[i].1, not_comprehension())) by {}
                assert forall|i: int| 0 <= i < ps.len() implies pair_ready(#[trigger] ps[i])
                    == (every_expr(ps[i].0, comprehensions_ok()) && every_expr(ps[i].1, comprehensions_ok())) by {}
            }
            (x, y)
        },
        RawExpr::ListComprehension(l) => {
            proof {
                let gs = gen_views(l.generators@);
                assert forall|i: int| 0 <= i < gs.len() implies #[trigger] ev->ListComprehension_1[i] == gs[i] by {
                    assert(ev->ListComprehension_1[i].ifs =~= gs[i].ifs);
                }
                assert(ev->ListComprehension_1 =~= gs);
            }
            let (_, b) = raw_lc_check(&l.value);
            let (_, y, z) = raw_lc_check_gens(&l.generators);
            proof {
                let gs = ev->ListComprehension_1;
                assert forall|i: int| 0 <= i < gs.len() implies gen_ok(#[trigger] gs[i])
                    == (no_comprehension(gs[i].target) && forall|j: int| 0 <= j < gs[i].ifs.len() ==> no_comprehension(#[trigger] gs[i].ifs[j])) by {}
                assert(comprehension_ok(ev) == z);
                assert forall|i: int| 0 <= i < gs.len() implies gen_ready(#[trigger] gs[i])
                    == (every_expr(gs[i].target, comprehensions_ok()) && every_expr(gs[i].iter, comprehensions_ok())
                    && forall|j: int| 0 <= j < gs[i].ifs.len() ==> every_expr(#[trigger] gs[i].ifs[j], comprehensions_ok())) by {}
            }
            (false, b && y && z)
        },
    }
}

fn raw_lc_check_all(v: &Vec<RawExpr>) -> (r: (bool, bool))
    ensures
        r.0 == forall|i: int| 0 <= i < views(v@).len() ==> every_expr(#[trigger] views(v@)[i], not_comprehension()),
        r.0 == forall|i: int| 0 <= i < views(v@).len() ==> no_comprehension(#[trigger] views(v@)[i]),
        r.1 == forall|i: int| 0 <= i < views(v@).len() ==> every_expr(#[trigger] views(v@)[i], comprehensions_ok()),
    decreases v,
{
    let ghost vs = views(v@);
    let mut a = true;
    let mut b = true;
    let mut i: usize = 0;
    while i < v.len()
        invariant
            i <= v.len(),
            vs == views(v@),
            a == forall|j: int| 0 <= j < i ==> no_comprehension(#[trigger] vs[j]),
            b == forall|j: int| 0 <= j < i ==> lc_ready(#[trigger] vs[j]),
        decreases v.len() - i,
    {
        let (x, y) = raw_lc_check(&v[i]);
        proof {
            assert(vs[i as int] == v@[i as int]@);
        }
        a = a && x;
        b = b && y;
        i += 1;
    }
    proof {
        assert((forall|j: int| 0 <= j < vs.len() ==> no_comprehension(#[trigger] vs[j]))
            == (forall|j: int| 0 <= j < vs.len() ==> every_expr(#[trigger] vs[j], not_comprehension()))) by {
            assert forall|j: int| 0 <= j < vs.len() implies #[trigger] no_comprehension(vs[j]) == every_expr(vs[j], not_comprehension()) by {}
        }
        assert((forall|j: int| 0 <= j < vs.len() ==> lc_ready(#[trigger] vs[j]))
            == (forall|j: int| 0 <= j < vs.len() ==> every_expr(#[trigger] vs[j], comprehensions_ok()))) by {
            assert forall|j: int| 0 <= j < vs.len() implies #[trigger] lc_ready(vs[j]) == every_expr(vs[j], comprehensions_ok()) by {}
        }
    }
    (a, b)
}

/// Neither the key nor the value holds a comprehension.
pub open spec fn pair_plain(p: (ExprV, ExprV)) -> bool {
    every_expr(p.0, not_comprehension()) && every_expr(p.1, not_comprehension())
}

/// The comprehensions of the key and the value have plain targets and filters.
pub open spec fn pair_ready(p: (ExprV, ExprV)) -> bool {
    every_expr(p.0, comprehensions_ok()) && every_expr(p.1, comprehensions_ok())
}

fn raw_lc_check_pairs(v: &Vec<(RawExpr, RawExpr)>) -> (r: (bool, bool))
    ensures
        r.0 == forall|i: int| 0 <= i < pair_views(v@).len() ==> #[trigger] pair_plain(pair_views(v@)[i]),
        r.1 == forall|i: int| 0 <= i < pair_views(v@).len() ==> #[trigger] pair_ready(pair_views(v@)[i]),
    decreases v,
{
    let ghost vs = pair_views(v@);
    let mut a = true;
    let mut b = true;
    let mut i: usize = 0;
    while i < v.len()
        invariant
            i <= v.len(),
            vs == pair_views(v@),
            a == forall|j: int| 0 <= j < i ==> #[trigger] pair_plain(vs[j]),
            b == forall|j: int| 0 <= j < i ==> #[trigger] pair_ready(vs[j]),
        decreases v.len() - i,
    {
        let (x1, y1) = raw_lc_check(&v[i].0);
        let (x2, y2) = raw_lc_check(&v[i].1);
        proof {
            assert(vs[i as int] == (v@[i as int].0@, v@[i as int].1@));
            assert(pair_plain(vs[i as int]) == (x1 && x2));
            assert(pair_ready(vs[i as int]) == (y1 && y2));
        }
        a = a && x1 && x2;
        b = b && y1 && y2;
        i += 1;
    }
    (a, b)
}

/// The target, the iterable and the filters of a generator hold no comprehension.
pub open spec fn gen_plain(g: crate::ast::ComprehensionV) -> bool {
    &&& every_expr(g.target, not_comprehension())
    &&& every_expr(g.iter, not_comprehension())
    &&& forall|j: int| 0 <= j < g.ifs.len() ==> every_expr(#[trigger] g.ifs[j], not_comprehension())
}

/// The comprehensions inside a generator have plain targets and filters.
pub open spec fn gen_ready(g: crate::ast::ComprehensionV) -> bool {
    &&& every_expr(g.target, comprehensions_ok())
    &&& every_expr(g.iter, comprehensions_ok())
    &&& forall|j: int| 0 <= j < g.ifs.len() ==> every_expr(#[trigger] g.ifs[j], comprehensions_ok())
}

/// The target and the filters of a generator hold no comprehension.
pub open spec fn gen_ok(g: crate::ast::ComprehensionV) -> bool {
    &&& no_comprehension(g.target)
    &&& forall|j: int| 0 <= j < g.ifs.len() ==> no_comprehension(#[trigger] g.ifs[j])
}

fn raw_lc_check_gens(g: &Vec<Comprehension<RawExpr>>) -> (r: (bool, bool, bool))
    ensures
        r.0 == forall|i: int| 0 <= i < gen_views(g@).len() ==> #[trigger] gen_plain(gen_views(g@)[i]),
        r.1 == forall|i: int| 0 <= i < gen_views(g@).len() ==> #[trigger] gen_ready(gen_views(g@)[i]),
        r.2 == forall|i: int| 0 <= i < gen_views(g@).len() ==> #[trigger] gen_ok(gen_views(g@)[i]),
    decreases g,
{
    let ghost gs = gen_views(g@);
    let mut a = true;
    let mut b = true;
    let mut c = true;
    let mut i: usize = 0;
    while i < g.len()
        invariant
            i <= g.len(),
            gs == gen_views(g@),
            a == forall|k: int| 0 <= k < i ==> #[trigger] gen_plain(gs[k]),
            b == forall|k: int| 0 <= k < i ==> #[trigger] gen_ready(gs[k]),
            c == forall|k: int| 0 <= k < i ==> #[trigger] gen_ok(gs[k]),
        decreases g.len() - i,
    {
        let (t0, t1) = raw_lc_check(&g[i].target);
        let (i0, i1) = raw_lc_check(&g[i].iter);
        let (f0, f1) = raw_lc_check_all(&g[i].ifs);
        proof {
            let gi = gs[i as int];
            assert(gi.target == (*g@[i as int].target)@);
            assert(gi.iter == (*g@[i as int].iter)@);
            assert(gi.ifs == views(g@[i as int].ifs@));
            assert(gen_plain(gi) == (t0 && i0 && f0));
            assert(gen_ready(gi) == (t1 && i1 && f1));
            assert(gen_ok(gi) == (t0 && f0));
        }
        a = a && t0 && i0 && f0;
        b = b && t1 && i1 && f1;
        c = c && t0 && f0;
        i += 1;
    }
    (a, b, c)
}

/// A block is ready exactly when each of its statements is.
proof fn lemma_ready_block(b: Seq<StmtV>)
    ensures
        ((forall|i: int| 0 <= i < b.len() ==> every_stmt_expr(#[trigger] b[i], comprehensions_ok()))
            && (forall|i: int| 0 <= i < b.len() ==> every_stmt(#[trigger] b[i], for_targets_ok())))
            == (forall|i: int| 0 <= i < b.len() ==> lc_stmt_ready(#[trigger] b[i])),
{
}

/// Whether the lowering of comprehensions takes the raw statement: see `lc_stmt_ready`.
pub fn raw_stmt_lc_ready(s: &RawStmt<RawExpr>) -> (r: bool)
    ensures
        r == lc_stmt_ready(s@),
    decreases s, 0int,
{
    let ghost sv = s@;
    proof {
        assert(for_targets_ok()(sv) == (sv is For ==> no_comprehension(sv->For_0)));
    }
    match s {
        RawStmt::Assign(a) => {
            let (_, x) = raw_lc_check(&a.target);
            let (_, y) = raw_lc_check(&a.value);
            x && y
        },
        RawStmt::Expression(e) => {
            let (_, x) = raw_lc_check(e);
            x
        },
        RawStmt::If(x) => {
            proof {
                assert(views(x.body@) =~= sv->If_1);
                assert(views(x.orelse@) =~= sv->If_2);
                lemma_ready_block(sv->If_1);
                lemma_ready_block(sv->If_2);
            }
            let (_, t) = raw_lc_check(&x.test);
            t && raw_stmts_lc_ready(&x.body) && raw_stmts_lc_ready(&x.orelse)
        },
        RawStmt::Func(f) => {
            proof {
                assert(views(f.body@) =~= sv->Func_2);
                lemma_ready_block(sv->Func_2);
            }
            raw_stmts_lc_ready(&f.body)
        },
        RawStmt::Return(v) => match v {
            Some(e) => {
                let (_, x) = raw_lc_check(e);
                x
            },
            None => true,
        },
        RawStmt::While(w) => {
            proof {
                assert(views(w.body@) =~= sv->While_1);
                lemma_ready_block(sv->While_1);
            }
            let (_, t) = raw_lc_check(&w.test);
            t && raw_stmts_lc_ready(&w.body)
        },
        RawStmt::For(f) => {
            proof {
                assert(views(f.body@) =~= sv->For_2);
                lemma_ready_block(sv->For_2);
            }
            let (plain, t) = raw_lc_check(&f.target);
            let (_, it) = raw_lc_check(&f.iter);
            t && it && plain && raw_stmts_lc_ready(&f.body)
        },
        _ => true,
    }
}

/// Whether the lowering of comprehensions takes the raw statements.
pub fn raw_stmts_lc_ready(v: &Vec<RawStmt<RawExpr>>) -> (r: bool)
    ensures
        r == forall|i: int| 0 <= i < v.len() ==> lc_stmt_ready(#[trigger] v@[i]@),
        r == forall|i: int| 0 <= i < views(v@).len() ==> lc_stmt_ready(#[trigger] views(v@)[i]),
    decreases v, 1int,
{
    let mut i: usize = 0;
    while i < v.len()
        invariant
            i <= v.len(),
            forall|j: int| 0 <= j < i ==> lc_stmt_ready(#[trigger] v@[j]@),
        decreases v.len() - i,
    {
        if !raw_stmt_lc_ready(&v[i]) {
            proof {
                assert(views(v@)[i as int] == v@[i as int]@);
            }
            return false;
        }
        i += 1;
    }
    proof {
        assert forall|j: int| 0 <= j < views(v@).len() implies lc_stmt_ready(#[trigger] views(v@)[j]) by {
            assert(views(v@)[j] == v@[j]@);
        }
    }
    true
}

/// Every statement of the block is ready for the lowering of comprehensions.
pub open spec fn block_ready(b: Seq<StmtV>) -> bool {
    forall|i: int| 0 <= i < b.len() ==> lc_stmt_ready(#[trigger] b[i])
}

proof fn lemma_block_ready_concat(x: Seq<StmtV>, y: Seq<StmtV>)
    ensures
        block_ready(x + y) == (block_ready(x) && block_ready(y)),
{
    if block_ready(x) && block_ready(y) {
        assert forall|i: int| 0 <= i < (x + y).len() implies lc_stmt_ready(#[trigger] (x + y)[i]) by {
            if i < x.len() {
                assert((x + y)[i] == x[i]);
            } else {
                assert((x + y)[i] == y[i - x.len()]);
            }
        }
    }
    if block_ready(x + y) {
        assert forall|i: int| 0 <= i < x.len() implies lc_stmt_ready(#[trigger] x[i]) by {
            assert((x + y)[i] == x[i]);
        }
        assert forall|i: int| 0 <= i < y.len() implies lc_stmt_ready(#[trigger] y[i]) by {
            assert((x + y)[i + x.len()] == y[i]);
        }
    }
}

proof fn lemma_block_ready_single(x: StmtV)
    ensures
        block_ready(seq![x]) == lc_stmt_ready(x),
{
    assert(seq![x][0] == x);
}

/// Whether a compound statement is ready, in terms of its blocks.
proof fn lemma_node_ready(x: StmtV)
    ensures
        x matches StmtV::If(t, b, o) ==> lc_stmt_ready(x)
            == (every_expr(t, comprehensions_ok()) && block_ready(b) && block_ready(o)),
        x matches StmtV::Func(_, _, b) ==> lc_stmt_ready(x) == block_ready(b),
        x matches StmtV::While(t, b) ==> lc_stmt_ready(x) == (every_expr(t, comprehensions_ok()) && block_ready(b)),
        x matches StmtV::For(t, it, b) ==> lc_stmt_ready(x) == (every_expr(t, comprehensions_ok())
            && every_expr(it, comprehensions_ok()) && no_comprehension(t) && block_ready(b)),
{
    match x {
        StmtV::If(t, b, o) => {
            lemma_ready_block(b);
            lemma_ready_block(o);
        },
        StmtV::Func(_, _, b) => {
            lemma_ready_block(b);
        },
        StmtV::While(t, b) => {
            lemma_ready_block(b);
        },
        StmtV::For(t, it, b) => {
            lemma_ready_block(b);
        },
        _ => {},
    }
}

/// Reading a statement gives ready statements with some stamps exactly where it does with
/// any other: the stamps only name temporaries.
proof fn lemma_stmt_ready_stamps(s: PyStmt, a: Seq<u128>, b: Seq<u128>)
    ensures
        block_ready(parse_stmt(s, a).0) == block_ready(parse_stmt(s, b).0),
    decreases s,
{
    match s {
        PyStmt::Assign { targets, value } => {
            if targets@.len() != 1 {
                let (xa, _) = parse_stmt(s, a);
                let (xb, _) = parse_stmt(s, b);
                assert(every_expr(assign_tmp(a[0]), comprehensions_ok()));
                assert(every_expr(assign_tmp(b[0]), comprehensions_ok()));
                assert forall|i: int| 0 <= i < xa.len() implies lc_stmt_ready(#[trigger] xa[i]) == lc_stmt_ready(xb[i]) by {
                    if i > 0 {
                        assert(xa[i] == StmtV::Assign(crate::parser::expression::parsed(targets@[i - 1]), assign_tmp(a[0])));
                        assert(xb[i] == StmtV::Assign(crate::parser::expression::parsed(targets@[i - 1]), assign_tmp(b[0])));
                    }
                }
                assert(xa.len() == xb.len());
                if block_ready(xa) {
                    assert forall|i: int| 0 <= i < xb.len() implies lc_stmt_ready(#[trigger] xb[i]) by {
                        assert(lc_stmt_ready(xa[i]));
                    }
                }
                if block_ready(xb) {
                    assert forall|i: int| 0 <= i < xa.len() implies lc_stmt_ready(#[trigger] xa[i]) by {
                        assert(lc_stmt_ready(xb[i]));
                    }
                }
                assert(block_ready(xa) == block_ready(xb));
            } else {
                assert(parse_stmt(s, a).0 == parse_stmt(s, b).0);
                }
        },
        PyStmt::If { test, body, orelse } => {
            let (ba, a1) = parse_stmts(body@, a);
            let (bb, b1) = parse_stmts(body@, b);
            let (oa, _) = parse_stmts(orelse@, a1);
            let (ob, _) = parse_stmts(orelse@, b1);
            lemma_stmts_ready_stamps(body@, a, b);
            lemma_stmts_ready_stamps(orelse@, a1, b1);
            let t = crate::parser::expression::parsed(test);
            lemma_node_ready(StmtV::If(t, ba, oa));
            lemma_block_ready_single(StmtV::If(t, ba, oa));
            lemma_node_ready(StmtV::If(t, bb, ob));
            lemma_block_ready_single(StmtV::If(t, bb, ob));
            assert(parse_stmt(s, a).0 == seq![StmtV::If(t, ba, oa)]);
            assert(parse_stmt(s, b).0 == seq![StmtV::If(t, bb, ob)]);
        },
        PyStmt::FunctionDef { name, args, body } => {
            let (ba, _) = parse_stmts(body@, a);
            let (bb, _) = parse_stmts(body@, b);
            lemma_stmts_ready_stamps(body@, a, b);
            let sv = crate::ast::strings_view(args@);
            lemma_node_ready(StmtV::Func(name@, sv, ba));
            lemma_block_ready_single(StmtV::Func(name@, sv, ba));
            lemma_node_ready(StmtV::Func(name@, sv, bb));
            lemma_block_ready_single(StmtV::Func(name@, sv, bb));
            assert(parse_stmt(s, a).0 == seq![StmtV::Func(name@, sv, ba)]);
            assert(parse_stmt(s, b).0 == seq![StmtV::Func(name@, sv, bb)]);
        },
        PyStmt::While { test, body } => {
            let (ba, _) = parse_stmts(body@, a);
            let (bb, _) = parse_stmts(body@, b);
            lemma_stmts_ready_stamps(body@, a, b);
            let t = crate::parser::expression::parsed(test);
            lemma_node_ready(StmtV::While(t, ba));
            lemma_block_ready_single(StmtV::While(t, ba));
            lemma_node_ready(StmtV::While(t, bb));
            lemma_block_ready_single(StmtV::While(t, bb));
            assert(parse_stmt(s, a).0 == seq![StmtV::While(t, ba)]);
            assert(parse_stmt(s, b).0 == seq![StmtV::While(t, bb)]);
        },
        PyStmt::For { target, iter, body } => {
            let (ba, _) = parse_stmts(body@, a);
            let (bb, _) = parse_stmts(body@, b);
            lemma_stmts_ready_stamps(body@, a, b);
            let t = crate::parser::expression::parsed(target);
            let it = crate::parser::expression::parsed(iter);
            lemma_node_ready(StmtV::For(t, it, ba));
            lemma_block_ready_single(StmtV::For(t, it, ba));
            lemma_node_ready(StmtV::For(t, it, bb));
            lemma_block_ready_single(StmtV::For(t, it, bb));
            assert(parse_stmt(s, a).0 == seq![StmtV::For(t, it, ba)]);
            assert(parse_stmt(s, b).0 == seq![StmtV::For(t, it, bb)]);
        },
        _ => {
            assert(parse_stmt(s, a).0 == parse_stmt(s, b).0);
        },
    }
}

/// Reading statements gives ready statements with some stamps exactly where it does with
/// any other.
proof fn lemma_stmts_ready_stamps(ss: Seq<PyStmt>, a: Seq<u128>, b: Seq<u128>)
    ensures
        block_ready(parse_stmts(ss, a).0) == block_ready(parse_stmts(ss, b).0),
    decreases ss,
{
    if ss.len() > 0 {
        let (xa, a1) = parse_stmts(ss.drop_last(), a);
        let (xb, b1) = parse_stmts(ss.drop_last(), b);
        lemma_stmts_ready_stamps(ss.drop_last(), a, b);
        lemma_stmt_ready_stamps(ss.last(), a1, b1);
        lemma_block_ready_concat(xa, parse_stmt(ss.last(), a1).0);
        lemma_block_ready_concat(xb, parse_stmt(ss.last(), b1).0);
    }
}

/// Whether what reading gives is ready for the lowering of comprehensions, with some stamps
/// or with all, is the same.
pub proof fn lemma_ready_any_stamps(p: Seq<PyStmt>, a: Seq<u128>)
    ensures
        block_ready(parse_stmts(p, a).0) == forall|st: Seq<u128>, i: int| 0 <= i < parse_stmts(p, st).0.len()
            ==> lc_stmt_ready(#[trigger] parse_stmts(p, st).0[i]),
{
    if block_ready(parse_stmts(p, a).0) {
        assert forall|st: Seq<u128>, i: int| 0 <= i < parse_stmts(p, st).0.len()
            implies lc_stmt_ready(#[trigger] parse_stmts(p, st).0[i]) by {
            lemma_stmts_ready_stamps(p, a, st);
        }
    }
}

} // verus!
