//! Reading expressions of the Python syntax tree into `RawExpr`.
//!
//! A chain of comparisons `a < b <= c` becomes the conjunction `a < b and b <= c`; a
//! call is a function call when the callee is a name and a method call when it is an
//! attribute.  Every other node kind, keyword arguments, and the operators without a
//! counterpart are not supported: `expr_supported` tells them apart.
use vstd::prelude::*;
use crate::ast::{
    copy_raw_expr, copy_string, views, no_expr, BinaryOperation, BinaryOperator, BoolOperation, BoolOperator,
    CallFunction, CallMethod, Compare, CompareOperator, Comprehension, ComprehensionV, ExprV,
    Index, ListComprehension, Number, NumberV, RawExpr, UnaryOperation, UnaryOperator,
};
use crate::parser::python::{
    PyBoolOp, PyCompareOp, PyComprehension, PyConstant, PyExpr, PyOperator, PyUnaryOp,
};

verus! {

pub open spec fn bool_op_of(op: PyBoolOp) -> BoolOperator {
    match op {
        PyBoolOp::And => BoolOperator::And,
        PyBoolOp::Or => BoolOperator::Or,
    }
}

impl BoolOperator {
    pub fn parse(op: &PyBoolOp) -> (r: Self)
        ensures
            r == bool_op_of(*op),
    {
        match op {
            PyBoolOp::And => BoolOperator::And,
            PyBoolOp::Or => BoolOperator::Or,
        }
    }
}

/// `is` and `is not` have no counterpart.
pub open spec fn compare_op_supported(op: PyCompareOp) -> bool {
    !(op is Is || op is IsNot)
}

pub open spec fn compare_op_of(op: PyCompareOp) -> CompareOperator {
    match op {
        PyCompareOp::Lt => CompareOperator::Less,
        PyCompareOp::LtE => CompareOperator::LessOrEqual,
        PyCompareOp::Gt => CompareOperator::Greater,
        PyCompareOp::GtE => CompareOperator::GreaterOrEqual,
        PyCompareOp::Eq => CompareOperator::Equal,
        PyCompareOp::NotEq => CompareOperator::NotEqual,
        PyCompareOp::NotIn => CompareOperator::NotIn,
        _ => CompareOperator::In,
    }
}

impl CompareOperator {
    pub fn parse(op: &PyCompareOp) -> (r: Self)
        requires
            compare_op_supported(*op),
        ensures
            r == compare_op_of(*op),
    {
        match op {
            PyCompareOp::Lt => CompareOperator::Less,
            PyCompareOp::LtE => CompareOperator::LessOrEqual,
            PyCompareOp::Gt => CompareOperator::Greater,
            PyCompareOp::GtE => CompareOperator::GreaterOrEqual,
            PyCompareOp::Eq => CompareOperator::Equal,
            PyCompareOp::NotEq => CompareOperator::NotEqual,
            PyCompareOp::NotIn => CompareOperator::NotIn,
            _ => CompareOperator::In,
        }
    }
}

/// `@`, `|` and `^` have no counterpart.
pub open spec fn bin_op_supported(op: PyOperator) -> bool {
    !(op is MatMult || op is BitOr || op is BitXor)
}

pub open spec fn bin_op_of(op: PyOperator) -> BinaryOperator {
    match op {
        PyOperator::Add => BinaryOperator::Add,
        PyOperator::Sub => BinaryOperator::Sub,
        PyOperator::Mult => BinaryOperator::Mul,
        PyOperator::Div => BinaryOperator::Div,
        PyOperator::Mod => BinaryOperator::Mod,
        PyOperator::FloorDiv => BinaryOperator::FloorDiv,
        PyOperator::Pow => BinaryOperator::Pow,
        PyOperator::BitAnd => BinaryOperator::BitAnd,
        PyOperator::LShift => BinaryOperator::LeftShift,
        _ => BinaryOperator::RightShift,
    }
}

impl BinaryOperator {
    pub fn parse(op: &PyOperator) -> (r: Self)
        requires
            bin_op_supported(*op),
        ensures
            r == bin_op_of(*op),
    {
        match op {
            PyOperator::Add => BinaryOperator::Add,
            PyOperator::Sub => BinaryOperator::Sub,
            PyOperator::Mult => BinaryOperator::Mul,
            PyOperator::Div => BinaryOperator::Div,
            PyOperator::Mod => BinaryOperator::Mod,
            PyOperator::FloorDiv => BinaryOperator::FloorDiv,
            PyOperator::Pow => BinaryOperator::Pow,
            PyOperator::BitAnd => BinaryOperator::BitAnd,
            PyOperator::LShift => BinaryOperator::LeftShift,
            _ => BinaryOperator::RightShift,
        }
    }
}

/// `~` has no counterpart.
pub open spec fn unary_op_supported(op: PyUnaryOp) -> bool {
    !(op is Invert)
}

pub open spec fn unary_op_of(op: PyUnaryOp) -> UnaryOperator {
    match op {
        PyUnaryOp::UAdd => UnaryOperator::Add,
        PyUnaryOp::USub => UnaryOperator::Sub,
        _ => UnaryOperator::Not,
    }
}

impl UnaryOperator {
    pub fn parse(op: &PyUnaryOp) -> (r: Self)
        requires
            unary_op_supported(*op),
        ensures
            r == unary_op_of(*op),
    {
        match op {
            PyUnaryOp::UAdd => UnaryOperator::Add,
            PyUnaryOp::USub => UnaryOperator::Sub,
            _ => UnaryOperator::Not,
        }
    }
}

/// The number of comparisons in a chain: one per operator that has a right operand.
pub open spec fn chain_len(ops: Seq<PyCompareOp>, comparators: Seq<PyExpr>) -> nat {
    if ops.len() <= comparators.len() { ops.len() } else { comparators.len() }
}

/// The expression that `parse` reads from `e`.
pub open spec fn parsed(e: PyExpr) -> ExprV
    decreases e,
{
    match e {
        PyExpr::Tuple(v) => ExprV::Tuple(
            Seq::new(v@.len(), |i: int| if 0 <= i < v@.len() { parsed(v@[i]) } else { no_expr() }),
        ),
        PyExpr::Name(id) => ExprV::VariableName(id@),
        PyExpr::Call { func, args, keywords: _ } => {
            let a = Seq::new(args@.len(), |i: int| if 0 <= i < args@.len() { parsed(args@[i]) } else { no_expr() });
            match *func {
                PyExpr::Attribute { value, attr } => ExprV::CallMethod(Box::new(parsed(*value)), attr@, a),
                PyExpr::Name(id) => ExprV::CallFunction(id@, a),
                _ => no_expr(),
            }
        },
        PyExpr::BoolOp { op, values } => ExprV::BoolOperation(
            bool_op_of(op),
            Seq::new(values@.len(), |i: int| if 0 <= i < values@.len() { parsed(values@[i]) } else { no_expr() }),
        ),
        PyExpr::Compare { left, ops, comparators } => {
            let n = chain_len(ops@, comparators@);
            let conds = Seq::new(n, |i: int|
                if 0 <= i < n {
                    ExprV::Compare(
                        Box::new(if i == 0 { parsed(*left) } else { parsed(comparators@[i - 1]) }),
                        Box::new(parsed(comparators@[i])),
                        compare_op_of(ops@[i]),
                    )
                } else {
                    no_expr()
                });
            if n == 1 { conds[0] } else { ExprV::BoolOperation(BoolOperator::And, conds) }
        },
        PyExpr::BinOp { left, op, right } => ExprV::BinaryOperation(
            Box::new(parsed(*left)),
            Box::new(parsed(*right)),
            bin_op_of(op),
        ),
        PyExpr::Subscript { value, slice } => ExprV::Index(Box::new(parsed(*value)), Box::new(parsed(*slice))),
        PyExpr::Constant(c) => match c {
            PyConstant::Bool(b) => ExprV::ConstantBoolean(b),
            PyConstant::Str(s) => ExprV::ConstantString(s@),
            PyConstant::Int(s) => ExprV::ConstantNumber(NumberV::Int(s@)),
            PyConstant::Float(s) => ExprV::ConstantNumber(NumberV::Float(s@)),
            PyConstant::Unsupported => no_expr(),
        },
        PyExpr::List(v) => ExprV::List(
            Seq::new(v@.len(), |i: int| if 0 <= i < v@.len() { parsed(v@[i]) } else { no_expr() }),
        ),
        PyExpr::ListComp { elt, generators } => ExprV::ListComprehension(
            Box::new(parsed(*elt)),
            Seq::new(generators@.len(), |i: int|
                if 0 <= i < generators@.len() {
                    ComprehensionV {
                        target: parsed(generators@[i].target),
                        iter: parsed(generators@[i].iter),
                        ifs: Seq::new(generators@[i].ifs@.len(), |j: int|
                            if 0 <= j < generators@[i].ifs@.len() {
                                parsed(generators@[i].ifs@[j])
                            } else {
                                no_expr()
                            }),
                    }
                } else {
                    ComprehensionV { target: no_expr(), iter: no_expr(), ifs: seq![] }
                }),
        ),
        PyExpr::UnaryOp { op, operand } => ExprV::UnaryOperation(Box::new(parsed(*operand)), unary_op_of(op)),
        _ => no_expr(),
    }
}

/// The expressions that `parse` reads, and does not panic on.
pub open spec fn expr_supported(e: PyExpr) -> bool
    decreases e,
{
    match e {
        PyExpr::Tuple(v) => forall|i: int| 0 <= i < v@.len() ==> expr_supported(#[trigger] v@[i]),
        PyExpr::Name(_) => true,
        PyExpr::Call { func, args, keywords } => {
            &&& keywords == 0
            &&& forall|i: int| 0 <= i < args@.len() ==> expr_supported(#[trigger] args@[i])
            &&& match *func {
                PyExpr::Attribute { value, attr: _ } => expr_supported(*value),
                PyExpr::Name(_) => true,
                _ => false,
            }
        },
        PyExpr::BoolOp { op: _, values } => forall|i: int| 0 <= i < values@.len() ==> expr_supported(#[trigger] values@[i]),
        PyExpr::Compare { left, ops, comparators } => {
            &&& chain_len(ops@, comparators@) > 0
            &&& expr_supported(*left)
            &&& forall|i: int| #![trigger ops@[i]] #![trigger comparators@[i]]
                0 <= i < chain_len(ops@, comparators@) ==> {
                    &&& compare_op_supported(ops@[i])
                    &&& expr_supported(comparators@[i])
                }
        },
        PyExpr::BinOp { left, op, right } => expr_supported(*left) && expr_supported(*right) && bin_op_supported(op),
        PyExpr::Subscript { value, slice } => expr_supported(*value) && expr_supported(*slice),
        PyExpr::Constant(c) => !(c is Unsupported),
        PyExpr::List(v) => forall|i: int| 0 <= i < v@.len() ==> expr_supported(#[trigger] v@[i]),
        PyExpr::ListComp { elt, generators } => {
            &&& expr_supported(*elt)
            &&& forall|i: int| 0 <= i < generators@.len() ==> {
                &&& expr_supported(#[trigger] generators@[i].target)
                &&& expr_supported(generators@[i].iter)
                &&& forall|j: int| 0 <= j < generators@[i].ifs@.len() ==> expr_supported(#[trigger] generators@[i].ifs@[j])
            }
        },
        PyExpr::UnaryOp { op, operand } => unary_op_supported(op) && expr_supported(*operand),
        _ => false,
    }
}

/// Reads each expression of `v`.
pub fn parse_expressions(v: &Vec<PyExpr>) -> (r: Vec<RawExpr>)
    requires
        forall|i: int| 0 <= i < v@.len() ==> expr_supported(#[trigger] v@[i]),
    ensures
        r.len() == v.len(),
        forall|i: int| 0 <= i < v@.len() ==> (#[trigger] r@[i])@ == parsed(v@[i]),
    decreases v, 1int,
{
    let mut r: Vec<RawExpr> = Vec::new();
    let mut i: usize = 0;
    while i < v.len()
        invariant
            i <= v.len(),
            r.len() == i,
            forall|j: int| 0 <= j < v@.len() ==> expr_supported(#[trigger] v@[j]),
            forall|j: int| 0 <= j < i ==> (#[trigger] r@[j])@ == parsed(v@[j]),
        decreases v.len() - i,
    {
        r.push(RawExpr::parse(&v[i]));
        i += 1;
    }
    r
}

/// Reads the first `n` expressions of `v`.
fn parse_prefix(v: &Vec<PyExpr>, n: usize) -> (r: Vec<RawExpr>)
    requires
        n <= v.len(),
        forall|i: int| 0 <= i < n ==> expr_supported(#[trigger] v@[i]),
    ensures
        r.len() == n,
        forall|i: int| 0 <= i < n ==> (#[trigger] r@[i])@ == parsed(v@[i]),
    decreases v, 1int,
{
    let mut r: Vec<RawExpr> = Vec::new();
    let mut i: usize = 0;
    while i < n
        invariant
            i <= n,
            n <= v.len(),
            r.len() == i,
            forall|j: int| 0 <= j < n ==> expr_supported(#[trigger] v@[j]),
            forall|j: int| 0 <= j < i ==> (#[trigger] r@[j])@ == parsed(v@[j]),
        decreases n - i,
    {
        r.push(RawExpr::parse(&v[i]));
        i += 1;
    }
    r
}

/// Reads a chain of comparisons `left op0 c0 op1 c1 ...`.
fn parse_compare(expr: &PyExpr) -> (r: RawExpr)
    requires
        expr is Compare,
        expr_supported(*expr),
    ensures
        r@ == parsed(*expr),
    decreases expr, 0int,
{
    match expr {
        PyExpr::Compare { left, ops, comparators } => {
            let n: usize = if ops.len() <= comparators.len() { ops.len() } else { comparators.len() };
            let ghost conds = Seq::new(n as nat, |i: int|
                if 0 <= i < n {
                    ExprV::Compare(
                        Box::new(if i == 0 { parsed(**left) } else { parsed(comparators@[i - 1]) }),
                        Box::new(parsed(comparators@[i])),
                        compare_op_of(ops@[i]),
                    )
                } else {
                    no_expr()
                });
            let first = RawExpr::parse(left);
            let rights = parse_prefix(comparators, n);
            let mut conditions: Vec<RawExpr> = Vec::new();
            let mut current = first;
            let mut i: usize = 0;
            while i < n
                invariant
                    i <= n,
                    conds == Seq::new(n as nat, |i: int|
                        if 0 <= i < n {
                            ExprV::Compare(
                                Box::new(if i == 0 { parsed(**left) } else { parsed(comparators@[i - 1]) }),
                                Box::new(parsed(comparators@[i])),
                                compare_op_of(ops@[i]),
                            )
                        } else {
                            no_expr()
                        }),
                    n == chain_len(ops@, comparators@),
                    n <= ops.len(),
                    rights.len() == n,
                    forall|j: int| 0 <= j < n ==> (#[trigger] rights@[j])@ == parsed(comparators@[j]),
                    forall|j: int| 0 <= j < n ==> compare_op_supported(#[trigger] ops@[j]),
                    conditions.len() == i,
                    current@ == (if i == 0 { parsed(**left) } else { parsed(comparators@[i - 1]) }),
                    forall|j: int| 0 <= j < i ==> (#[trigger] conditions@[j])@ == conds[j],
                decreases n - i,
            {
                let op = CompareOperator::parse(&ops[i]);
                let right = copy_raw_expr(&rights[i]);
                let next = copy_raw_expr(&rights[i]);
                conditions.push(RawExpr::Compare(Compare { left: Box::new(current), right: Box::new(right), op }));
                current = next;
                i += 1;
            }
            let ghost pe = parsed(*expr);
            if n == 1 {
                let c = conditions.remove(0);
                proof {
                    assert(pe == conds[0]);
                }
                c
            } else {
                let r = RawExpr::BoolOperation(BoolOperation { op: BoolOperator::And, conditions });
                proof {
                    assert(r@->BoolOperation_1 =~= conds);
                    assert(pe->BoolOperation_1 =~= conds);
                }
                r
            }
        },
        _ => RawExpr::ConstantNone,
    }
}

/// Reads the generators of a list comprehension.
fn parse_generators(g: &Vec<PyComprehension>) -> (r: Vec<Comprehension<RawExpr>>)
    requires
        forall|i: int| 0 <= i < g@.len() ==> {
            &&& expr_supported(#[trigger] g@[i].target)
            &&& expr_supported(g@[i].iter)
            &&& forall|j: int| 0 <= j < g@[i].ifs@.len() ==> expr_supported(#[trigger] g@[i].ifs@[j])
        },
    ensures
        r.len() == g.len(),
        forall|i: int| 0 <= i < g@.len() ==> {
            &&& (*(#[trigger] r@[i]).target)@ == parsed(g@[i].target)
            &&& (*r@[i].iter)@ == parsed(g@[i].iter)
            &&& views(r@[i].ifs@) == Seq::new(g@[i].ifs@.len(), |j: int|
                if 0 <= j < g@[i].ifs@.len() { parsed(g@[i].ifs@[j]) } else { no_expr() })
        },
    decreases g, 1int,
{
    let mut r: Vec<Comprehension<RawExpr>> = Vec::new();
    let mut i: usize = 0;
    while i < g.len()
        invariant
            i <= g.len(),
            r.len() == i,
            forall|k: int| 0 <= k < g@.len() ==> {
                &&& expr_supported(#[trigger] g@[k].target)
                &&& expr_supported(g@[k].iter)
                &&& forall|j: int| 0 <= j < g@[k].ifs@.len() ==> expr_supported(#[trigger] g@[k].ifs@[j])
            },
            forall|k: int| 0 <= k < i ==> {
                &&& (*(#[trigger] r@[k]).target)@ == parsed(g@[k].target)
                &&& (*r@[k].iter)@ == parsed(g@[k].iter)
                &&& views(r@[k].ifs@) == Seq::new(g@[k].ifs@.len(), |j: int|
                    if 0 <= j < g@[k].ifs@.len() { parsed(g@[k].ifs@[j]) } else { no_expr() })
            },
        decreases g.len() - i,
    {
        let c = &g[i];
        let target = RawExpr::parse(&c.target);
        let iter = RawExpr::parse(&c.iter);
        let ifs = parse_expressions(&c.ifs);
        proof {
            assert(views(ifs@) =~= Seq::new(g@[i as int].ifs@.len(), |j: int|
                if 0 <= j < g@[i as int].ifs@.len() { parsed(g@[i as int].ifs@[j]) } else { no_expr() }));
        }
        r.push(Comprehension { target: Box::new(target), iter: Box::new(iter), ifs });
        i += 1;
    }
    r
}

impl RawExpr {
    /// Reads an expression of the Python syntax tree.
    pub fn parse(expr: &PyExpr) -> (r: RawExpr)
        requires
            expr_supported(*expr),
        ensures
            r@ == parsed(*expr),
        decreases expr, 1int,
    {
        let ghost pe = parsed(*expr);
        match expr {
            PyExpr::Tuple(elts) => {
                let r = RawExpr::Tuple(parse_expressions(elts));
                proof { assert(r@->Tuple_0 =~= pe->Tuple_0); }
                r
            },
            PyExpr::Name(id) => RawExpr::VariableName(copy_string(id)),
            PyExpr::Call { func, args, keywords: _ } => {
                let args = parse_expressions(args);
                match &**func {
                    PyExpr::Attribute { value, attr } => {
                        let value = RawExpr::parse(value);
                        let r = RawExpr::CallMethod(CallMethod { value: Box::new(value), name: copy_string(attr), args });
                        proof { assert(r@->CallMethod_2 =~= pe->CallMethod_2); }
                        r
                    },
                    PyExpr::Name(id) => {
                        let r = RawExpr::CallFunction(CallFunction { name: copy_string(id), args });
                        proof { assert(r@->CallFunction_1 =~= pe->CallFunction_1); }
                        r
                    },
                    _ => RawExpr::ConstantNone,
                }
            },
            PyExpr::BoolOp { op, values } => {
                let conditions = parse_expressions(values);
                let r = RawExpr::BoolOperation(BoolOperation { op: BoolOperator::parse(op), conditions });
                proof { assert(r@->BoolOperation_1 =~= pe->BoolOperation_1); }
                r
            },
            PyExpr::Compare { .. } => parse_compare(expr),
            PyExpr::BinOp { left, op, right } => {
                let left = RawExpr::parse(left);
                let right = RawExpr::parse(right);
                RawExpr::BinaryOperation(BinaryOperation { left: Box::new(left), right: Box::new(right), op: BinaryOperator::parse(op) })
            },
            PyExpr::Subscript { value, slice } => {
                let value = RawExpr::parse(value);
                let index = RawExpr::parse(slice);
                RawExpr::Index(Index { value: Box::new(value), index: Box::new(index) })
            },
            PyExpr::Constant(c) => match c {
                PyConstant::Bool(b) => RawExpr::ConstantBoolean(*b),
                PyConstant::Str(s) => RawExpr::ConstantString(copy_string(s)),
                PyConstant::Int(i) => RawExpr::ConstantNumber(Number::Int(copy_string(i))),
                PyConstant::Float(f) => RawExpr::ConstantNumber(Number::Float(copy_string(f))),
                PyConstant::Unsupported => RawExpr::ConstantNone,
            },
            PyExpr::List(elts) => {
                let r = RawExpr::List(parse_expressions(elts));
                proof { assert(r@->List_0 =~= pe->List_0); }
                r
            },
            PyExpr::ListComp { elt, generators } => {
                let value = RawExpr::parse(elt);
                let generators = parse_generators(generators);
                let ghost gs = generators@;
                let r = RawExpr::ListComprehension(ListComprehension { value: Box::new(value), generators });
                proof {
                    assert forall|i: int| 0 <= i < pe->ListComprehension_1.len() implies
                        #[trigger] r@->ListComprehension_1[i] == pe->ListComprehension_1[i] by {
                        assert(r@->ListComprehension_1[i].ifs =~= views(gs[i].ifs@));
                        assert(pe->ListComprehension_1[i].ifs =~= views(gs[i].ifs@));
                    }
                    assert(r@->ListComprehension_1 =~= pe->ListComprehension_1);
                }
                r
            },
            PyExpr::UnaryOp { op, operand } => {
                let value = RawExpr::parse(operand);
                RawExpr::UnaryOperation(UnaryOperation { value: Box::new(value), op: UnaryOperator::parse(op) })
            },
            _ => RawExpr::ConstantNone,
        }
    }
}


/// Each Python operator is read as the operator of the same meaning: `%` as `Mod`, `//` as
/// `FloorDiv`, `<=` as `LessOrEqual`, `<` as `Less`, and so on.
pub proof fn law_operators_read(op: PyOperator, c: PyCompareOp, u: PyUnaryOp, b: PyBoolOp)
    ensures
        op == PyOperator::Add ==> bin_op_of(op) == BinaryOperator::Add,
        op == PyOperator::Sub ==> bin_op_of(op) == BinaryOperator::Sub,
        op == PyOperator::Mult ==> bin_op_of(op) == BinaryOperator::Mul,
        op == PyOperator::Div ==> bin_op_of(op) == BinaryOperator::Div,
        op == PyOperator::Mod ==> bin_op_of(op) == BinaryOperator::Mod,
        op == PyOperator::FloorDiv ==> bin_op_of(op) == BinaryOperator::FloorDiv,
        op == PyOperator::Pow ==> bin_op_of(op) == BinaryOperator::Pow,
        op == PyOperator::BitAnd ==> bin_op_of(op) == BinaryOperator::BitAnd,
        op == PyOperator::LShift ==> bin_op_of(op) == BinaryOperator::LeftShift,
        op == PyOperator::RShift ==> bin_op_of(op) == BinaryOperator::RightShift,
        c == PyCompareOp::Lt ==> compare_op_of(c) == CompareOperator::Less,
        c == PyCompareOp::LtE ==> compare_op_of(c) == CompareOperator::LessOrEqual,
        c == PyCompareOp::Gt ==> compare_op_of(c) == CompareOperator::Greater,
        c == PyCompareOp::GtE ==> compare_op_of(c) == CompareOperator::GreaterOrEqual,
        c == PyCompareOp::Eq ==> compare_op_of(c) == CompareOperator::Equal,
        c == PyCompareOp::NotEq ==> compare_op_of(c) == CompareOperator::NotEqual,
        c == PyCompareOp::In ==> compare_op_of(c) == CompareOperator::In,
        c == PyCompareOp::NotIn ==> compare_op_of(c) == CompareOperator::NotIn,
        u == PyUnaryOp::UAdd ==> unary_op_of(u) == UnaryOperator::Add,
        u == PyUnaryOp::USub ==> unary_op_of(u) == UnaryOperator::Sub,
        u == PyUnaryOp::Not ==> unary_op_of(u) == UnaryOperator::Not,
        b == PyBoolOp::And ==> bool_op_of(b) == BoolOperator::And,
        b == PyBoolOp::Or ==> bool_op_of(b) == BoolOperator::Or,
{
}

/// Operands are read in place: the left operand of a binary operation stays left, the
/// subscripted value stays the value and the index the index, and a single comparison
/// compares the left operand with its one comparator.
pub proof fn law_operands_read_in_place(e: PyExpr)
    ensures
        e matches PyExpr::BinOp { left, op, right } ==> parsed(e)
            == ExprV::BinaryOperation(Box::new(parsed(*left)), Box::new(parsed(*right)), bin_op_of(op)),
        e matches PyExpr::Subscript { value, slice } ==> parsed(e)
            == ExprV::Index(Box::new(parsed(*value)), Box::new(parsed(*slice))),
        e matches PyExpr::Compare { left, ops, comparators } ==> (ops@.len() == 1 && comparators@.len() == 1 ==> parsed(e)
            == ExprV::Compare(Box::new(parsed(*left)), Box::new(parsed(comparators@[0])), compare_op_of(ops@[0]))),
        e matches PyExpr::UnaryOp { op, operand } ==> parsed(e) == ExprV::UnaryOperation(Box::new(parsed(*operand)), unary_op_of(op)),
{
}

} // verus!
