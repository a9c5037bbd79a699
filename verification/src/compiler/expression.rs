//! The expressions of the compiler, loaded from the Python syntax tree.
use vstd::prelude::*;
use crate::ast::{copy_string, NumberV};
use crate::parser::python::{PyCompareOp, PyConstant, PyExpr, PyOperator};

verus! {

#[derive(Debug, PartialEq, Eq, Clone, Copy, Structural)]
pub enum Comparison {
    Equal,
    NotEqual,
    Less,
    LessOrEqual,
    Greater,
    GreaterOrEqual,
    In,
    NotIn,
    Is,
    IsNot,
}

#[derive(Debug, PartialEq, Eq, Clone, Copy, Structural)]
pub enum Operator {
    Add,
    Sub,
    Mult,
    MatMult,
    Div,
    Mod,
    Pow,
    LShift,
    RShift,
    BitOr,
    BitXor,
    BitAnd,
    FloorDiv,
}

/// A number literal by its source text.
#[derive(Debug, PartialEq, Eq)]
pub enum Number {
    Integer { value: String },
    Float { value: String },
}

#[derive(Debug, PartialEq, Eq)]
pub enum OptpyExpression {
    Identifier { name: String },
    Call { function: Box<OptpyExpression>, args: Vec<OptpyExpression> },
    Binop { a: Box<OptpyExpression>, b: Box<OptpyExpression>, op: Operator },
    Tuple { elements: Vec<OptpyExpression> },
    Attribute { value: Box<OptpyExpression>, name: String },
    Compare { values: Vec<OptpyExpression>, ops: Vec<Comparison> },
    Number { value: Number },
    Subscript { a: Box<OptpyExpression>, b: Box<OptpyExpression> },
}

/// What an expression is, as a mathematical value.
pub enum OExprV {
    Identifier(Seq<char>),
    Call(Box<OExprV>, Seq<OExprV>),
    Binop(Box<OExprV>, Box<OExprV>, Operator),
    Tuple(Seq<OExprV>),
    Attribute(Box<OExprV>, Seq<char>),
    Compare(Seq<OExprV>, Seq<Comparison>),
    Number(NumberV),
    Subscript(Box<OExprV>, Box<OExprV>),
}

/// Why the syntax tree could not be loaded.
#[derive(Debug, PartialEq, Eq, Clone, Copy, Structural)]
pub enum LoadError {
    /// A call with keyword arguments.
    Keywords,
    /// An expression of a kind the compiler does not know.
    Expression,
    /// A statement of a kind the compiler does not know.
    Statement,
}

pub open spec fn no_oexpr() -> OExprV {
    OExprV::Identifier(seq![])
}

pub open spec fn cnumber_view(n: Number) -> NumberV {
    match n {
        Number::Integer { value } => NumberV::Int(value@),
        Number::Float { value } => NumberV::Float(value@),
    }
}

pub open spec fn oexpr_view(e: OptpyExpression) -> OExprV
    decreases e,
{
    match e {
        OptpyExpression::Identifier { name } => OExprV::Identifier(name@),
        OptpyExpression::Call { function, args } => OExprV::Call(
            Box::new(oexpr_view(*function)),
            Seq::new(args@.len(), |i: int| if 0 <= i < args@.len() { oexpr_view(args@[i]) } else { no_oexpr() }),
        ),
        OptpyExpression::Binop { a, b, op } => OExprV::Binop(Box::new(oexpr_view(*a)), Box::new(oexpr_view(*b)), op),
        OptpyExpression::Tuple { elements } => OExprV::Tuple(
            Seq::new(elements@.len(), |i: int| if 0 <= i < elements@.len() { oexpr_view(elements@[i]) } else { no_oexpr() }),
        ),
        OptpyExpression::Attribute { value, name } => OExprV::Attribute(Box::new(oexpr_view(*value)), name@),
        OptpyExpression::Compare { values, ops } => OExprV::Compare(
            Seq::new(values@.len(), |i: int| if 0 <= i < values@.len() { oexpr_view(values@[i]) } else { no_oexpr() }),
            ops@,
        ),
        OptpyExpression::Number { value } => OExprV::Number(cnumber_view(value)),
        OptpyExpression::Subscript { a, b } => OExprV::Subscript(Box::new(oexpr_view(*a)), Box::new(oexpr_view(*b))),
    }
}

impl View for OptpyExpression {
    type V = OExprV;

    open spec fn view(&self) -> OExprV {
        oexpr_view(*self)
    }
}

/// The views of a sequence of expressions.
pub open spec fn oviews(s: Seq<OptpyExpression>) -> Seq<OExprV> {
    Seq::new(s.len(), |i: int| s[i]@)
}

pub open spec fn comparison_of(c: PyCompareOp) -> Comparison {
    match c {
        PyCompareOp::Eq => Comparison::Equal,
        PyCompareOp::NotEq => Comparison::NotEqual,
        PyCompareOp::Lt => Comparison::Less,
        PyCompareOp::LtE => Comparison::LessOrEqual,
        PyCompareOp::Gt => Comparison::Greater,
        PyCompareOp::GtE => Comparison::GreaterOrEqual,
        PyCompareOp::In => Comparison::In,
        PyCompareOp::NotIn => Comparison::NotIn,
        PyCompareOp::Is => Comparison::Is,
        PyCompareOp::IsNot => Comparison::IsNot,
    }
}

pub open spec fn operator_of(op: PyOperator) -> Operator {
    match op {
        PyOperator::Add => Operator::Add,
        PyOperator::Sub => Operator::Sub,
        PyOperator::Mult => Operator::Mult,
        PyOperator::MatMult => Operator::MatMult,
        PyOperator::Div => Operator::Div,
        PyOperator::Mod => Operator::Mod,
        PyOperator::Pow => Operator::Pow,
        PyOperator::LShift => Operator::LShift,
        PyOperator::RShift => Operator::RShift,
        PyOperator::BitOr => Operator::BitOr,
        PyOperator::BitXor => Operator::BitXor,
        PyOperator::BitAnd => Operator::BitAnd,
        PyOperator::FloorDiv => Operator::FloorDiv,
    }
}

impl Comparison {
    pub fn from(c: &PyCompareOp) -> (r: Self)
        ensures
            r == comparison_of(*c),
    {
        match c {
            PyCompareOp::Eq => Comparison::Equal,
            PyCompareOp::NotEq => Comparison::NotEqual,
            PyCompareOp::Lt => Comparison::Less,
            PyCompareOp::LtE => Comparison::LessOrEqual,
            PyCompareOp::Gt => Comparison::Greater,
            PyCompareOp::GtE => Comparison::GreaterOrEqual,
            PyCompareOp::In => Comparison::In,
            PyCompareOp::NotIn => Comparison::NotIn,
            PyCompareOp::Is => Comparison::Is,
            PyCompareOp::IsNot => Comparison::IsNot,
        }
    }
}

impl Operator {
    pub fn from(op: &PyOperator) -> (r: Self)
        ensures
            r == operator_of(*op),
    {
        match op {
            PyOperator::Add => Operator::Add,
            PyOperator::Sub => Operator::Sub,
            PyOperator::Mult => Operator::Mult,
            PyOperator::MatMult => Operator::MatMult,
            PyOperator::Div => Operator::Div,
            PyOperator::Mod => Operator::Mod,
            PyOperator::Pow => Operator::Pow,
            PyOperator::LShift => Operator::LShift,
            PyOperator::RShift => Operator::RShift,
            PyOperator::BitOr => Operator::BitOr,
            PyOperator::BitXor => Operator::BitXor,
            PyOperator::BitAnd => Operator::BitAnd,
            PyOperator::FloorDiv => Operator::FloorDiv,
        }
    }
}

/// The expression that `load` reads from `e`, or the first node it does not know.
pub open spec fn load_expr(e: PyExpr) -> Result<OExprV, LoadError>
    decreases e,
{
    match e {
        PyExpr::Name(id) => Ok(OExprV::Identifier(id@)),
        PyExpr::Call { func, args, keywords } => {
            if keywords != 0 {
                Err(LoadError::Keywords)
            } else {
                match load_expr(*func) {
                    Err(x) => Err(x),
                    Ok(f) => match load_exprs(args@) {
                        Err(x) => Err(x),
                        Ok(a) => Ok(OExprV::Call(Box::new(f), a)),
                    },
                }
            }
        },
        PyExpr::BinOp { left, op, right } => match load_expr(*left) {
            Err(x) => Err(x),
            Ok(a) => match load_expr(*right) {
                Err(x) => Err(x),
                Ok(b) => Ok(OExprV::Binop(Box::new(a), Box::new(b), operator_of(op))),
            },
        },
        PyExpr::Tuple(v) => match load_exprs(v@) {
            Err(x) => Err(x),
            Ok(a) => Ok(OExprV::Tuple(a)),
        },
        PyExpr::Attribute { value, attr } => match load_expr(*value) {
            Err(x) => Err(x),
            Ok(v) => Ok(OExprV::Attribute(Box::new(v), attr@)),
        },
        PyExpr::Compare { left, ops, comparators } => match load_expr(*left) {
            Err(x) => Err(x),
            Ok(l) => match load_exprs(comparators@) {
                Err(x) => Err(x),
                Ok(c) => Ok(OExprV::Compare(seq![l] + c, ops@.map_values(|o: PyCompareOp| comparison_of(o)))),
            },
        },
        PyExpr::Constant(c) => match c {
            PyConstant::Int(s) => Ok(OExprV::Number(NumberV::Int(s@))),
            PyConstant::Float(s) => Ok(OExprV::Number(NumberV::Float(s@))),
            _ => Err(LoadError::Expression),
        },
        PyExpr::Subscript { value, slice } => match load_expr(*value) {
            Err(x) => Err(x),
            Ok(a) => match load_expr(*slice) {
                Err(x) => Err(x),
                Ok(b) => Ok(OExprV::Subscript(Box::new(a), Box::new(b))),
            },
        },
        _ => Err(LoadError::Expression),
    }
}

/// The expressions loaded in order, or the first failure.
pub open spec fn load_exprs(es: Seq<PyExpr>) -> Result<Seq<OExprV>, LoadError>
    decreases es,
{
    if es.len() == 0 {
        Ok(seq![])
    } else {
        match load_exprs(es.drop_last()) {
            Err(x) => Err(x),
            Ok(v) => match load_expr(es.last()) {
                Err(x) => Err(x),
                Ok(e) => Ok(v.push(e)),
            },
        }
    }
}

fn load_comparisons(ops: &Vec<PyCompareOp>) -> (r: Vec<Comparison>)
    ensures
        r@ == ops@.map_values(|o: PyCompareOp| comparison_of(o)),
{
    let mut r: Vec<Comparison> = Vec::new();
    let mut i: usize = 0;
    while i < ops.len()
        invariant
            i <= ops.len(),
            r@ == ops@.take(i as int).map_values(|o: PyCompareOp| comparison_of(o)),
        decreases ops.len() - i,
    {
        r.push(Comparison::from(&ops[i]));
        proof {
            assert(ops@.take(i + 1).map_values(|o: PyCompareOp| comparison_of(o))
                =~= ops@.take(i as int).map_values(|o: PyCompareOp| comparison_of(o)).push(comparison_of(ops@[i as int])));
        }
        i += 1;
    }
    proof {
        assert(ops@.take(i as int) =~= ops@);
    }
    r
}

pub fn copy_comparisons(ops: &Vec<Comparison>) -> (r: Vec<Comparison>)
    ensures
        r@ == ops@,
{
    let mut r: Vec<Comparison> = Vec::new();
    let mut i: usize = 0;
    while i < ops.len()
        invariant
            i <= ops.len(),
            r@ == ops@.take(i as int),
        decreases ops.len() - i,
    {
        r.push(ops[i]);
        proof {
            assert(ops@.take(i + 1) =~= ops@.take(i as int).push(ops@[i as int]));
        }
        i += 1;
    }
    proof {
        assert(ops@.take(i as int) =~= ops@);
    }
    r
}

pub fn copy_number(n: &Number) -> (r: Number)
    ensures
        cnumber_view(r) == cnumber_view(*n),
{
    match n {
        Number::Integer { value } => Number::Integer { value: copy_string(value) },
        Number::Float { value } => Number::Float { value: copy_string(value) },
    }
}

impl OptpyExpression {
    /// Loads an expression of the syntax tree.
    pub fn load(expression: &PyExpr) -> (r: Result<OptpyExpression, LoadError>)
        ensures
            match r {
                Ok(e) => load_expr(*expression) == Ok::<OExprV, LoadError>(e@),
                Err(x) => load_expr(*expression) == Err::<OExprV, LoadError>(x),
            },
        decreases expression,
    {
        match expression {
            PyExpr::Name(id) => Ok(OptpyExpression::Identifier { name: copy_string(id) }),
            PyExpr::Call { func, args, keywords } => {
                if *keywords != 0 {
                    return Err(LoadError::Keywords);
                }
                let function = match OptpyExpression::load(func) {
                    Ok(f) => f,
                    Err(x) => return Err(x),
                };
                let args = match load_expressions(args) {
                    Ok(a) => a,
                    Err(x) => return Err(x),
                };
                let r = OptpyExpression::Call { function: Box::new(function), args };
                proof {
                    assert(r@->Call_1 =~= oviews(args@));
                }
                Ok(r)
            },
            PyExpr::BinOp { left, op, right } => {
                let a = match OptpyExpression::load(left) {
                    Ok(x) => x,
                    Err(x) => return Err(x),
                };
                let b = match OptpyExpression::load(right) {
                    Ok(x) => x,
                    Err(x) => return Err(x),
                };
                Ok(OptpyExpression::Binop { a: Box::new(a), b: Box::new(b), op: Operator::from(op) })
            },
            PyExpr::Tuple(v) => {
                let elements = match load_expressions(v) {
                    Ok(a) => a,
                    Err(x) => return Err(x),
                };
                let r = OptpyExpression::Tuple { elements };
                proof {
                    assert(r@->Tuple_0 =~= oviews(elements@));
                }
                Ok(r)
            },
            PyExpr::Attribute { value, attr } => {
                let v = match OptpyExpression::load(value) {
                    Ok(x) => x,
                    Err(x) => return Err(x),
                };
                Ok(OptpyExpression::Attribute { value: Box::new(v), name: copy_string(attr) })
            },
            PyExpr::Compare { left, ops, comparators } => {
                let l = match OptpyExpression::load(left) {
                    Ok(x) => x,
                    Err(x) => return Err(x),
                };
                let rest = match load_expressions(comparators) {
                    Ok(a) => a,
                    Err(x) => return Err(x),
                };
                let ghost lv = l@;
                let ghost rv = oviews(rest@);
                let mut values: Vec<OptpyExpression> = Vec::new();
                values.push(l);
                let mut rest = rest;
                values.append(&mut rest);
                let r = OptpyExpression::Compare { values, ops: load_comparisons(ops) };
                proof {
                    assert(r@->Compare_0 =~= seq![lv] + rv);
                }
                Ok(r)
            },
            PyExpr::Constant(c) => match c {
                PyConstant::Int(s) => Ok(OptpyExpression::Number { value: Number::Integer { value: copy_string(s) } }),
                PyConstant::Float(s) => Ok(OptpyExpression::Number { value: Number::Float { value: copy_string(s) } }),
                _ => Err(LoadError::Expression),
            },
            PyExpr::Subscript { value, slice } => {
                let a = match OptpyExpression::load(value) {
                    Ok(x) => x,
                    Err(x) => return Err(x),
                };
                let b = match OptpyExpression::load(slice) {
                    Ok(x) => x,
                    Err(x) => return Err(x),
                };
                Ok(OptpyExpression::Subscript { a: Box::new(a), b: Box::new(b) })
            },
            _ => Err(LoadError::Expression),
        }
    }
}

/// Loads the expressions in order, stopping at the first failure.
pub fn load_expressions(v: &Vec<PyExpr>) -> (r: Result<Vec<OptpyExpression>, LoadError>)
    ensures
        match r {
            Ok(es) => load_exprs(v@) == Ok::<Seq<OExprV>, LoadError>(oviews(es@)),
            Err(x) => load_exprs(v@) == Err::<Seq<OExprV>, LoadError>(x),
        },
    decreases v,
{
    let mut r: Vec<OptpyExpression> = Vec::new();
    let mut i: usize = 0;
    proof {
        assert(v@.take(0) =~= Seq::<PyExpr>::empty());
        assert(oviews(r@) =~= Seq::<OExprV>::empty());
    }
    while i < v.len()
        invariant
            i <= v.len(),
            load_exprs(v@.take(i as int)) == Ok::<Seq<OExprV>, LoadError>(oviews(r@)),
        decreases v.len() - i,
    {
        proof {
            assert(v@.take(i + 1).drop_last() =~= v@.take(i as int));
            assert(v@.take(i + 1).last() == v@[i as int]);
        }
        let e = match OptpyExpression::load(&v[i]) {
            Ok(e) => e,
            Err(x) => {
                proof {
                    lemma_load_exprs_stops(v@, i as int + 1);
                }
                return Err(x);
            },
        };
        let ghost before = oviews(r@);
        let ghost ev = e@;
        r.push(e);
        proof {
            assert(oviews(r@) =~= before.push(ev));
        }
        i += 1;
    }
    proof {
        assert(v@.take(i as int) =~= v@);
    }
    Ok(r)
}

/// Once a prefix fails, every longer prefix fails the same way.
proof fn lemma_load_exprs_stops(v: Seq<PyExpr>, k: int)
    requires
        0 < k <= v.len(),
        load_exprs(v.take(k)) is Err,
    ensures
        load_exprs(v) == load_exprs(v.take(k)),
    decreases v.len() - k,
{
    if k < v.len() {
        assert(v.take(k + 1).drop_last() =~= v.take(k));
        lemma_load_exprs_stops(v, k + 1);
    } else {
        assert(v.take(k) =~= v);
    }
}


/// Each Python operator and comparison is read as the one of the same meaning.
pub proof fn law_operators_loaded(op: PyOperator, c: PyCompareOp)
    ensures
        op == PyOperator::Add ==> operator_of(op) == Operator::Add,
        op == PyOperator::Sub ==> operator_of(op) == Operator::Sub,
        op == PyOperator::Mult ==> operator_of(op) == Operator::Mult,
        op == PyOperator::MatMult ==> operator_of(op) == Operator::MatMult,
        op == PyOperator::Div ==> operator_of(op) == Operator::Div,
        op == PyOperator::Mod ==> operator_of(op) == Operator::Mod,
        op == PyOperator::Pow ==> operator_of(op) == Operator::Pow,
        op == PyOperator::LShift ==> operator_of(op) == Operator::LShift,
        op == PyOperator::RShift ==> operator_of(op) == Operator::RShift,
        op == PyOperator::BitOr ==> operator_of(op) == Operator::BitOr,
        op == PyOperator::BitXor ==> operator_of(op) == Operator::BitXor,
        op == PyOperator::BitAnd ==> operator_of(op) == Operator::BitAnd,
        op == PyOperator::FloorDiv ==> operator_of(op) == Operator::FloorDiv,
        c == PyCompareOp::Eq ==> comparison_of(c) == Comparison::Equal,
        c == PyCompareOp::NotEq ==> comparison_of(c) == Comparison::NotEqual,
        c == PyCompareOp::Lt ==> comparison_of(c) == Comparison::Less,
        c == PyCompareOp::LtE ==> comparison_of(c) == Comparison::LessOrEqual,
        c == PyCompareOp::Gt ==> comparison_of(c) == Comparison::Greater,
        c == PyCompareOp::GtE ==> comparison_of(c) == Comparison::GreaterOrEqual,
        c == PyCompareOp::In ==> comparison_of(c) == Comparison::In,
        c == PyCompareOp::NotIn ==> comparison_of(c) == Comparison::NotIn,
        c == PyCompareOp::Is ==> comparison_of(c) == Comparison::Is,
        c == PyCompareOp::IsNot ==> comparison_of(c) == Comparison::IsNot,
{
}

/// Operands are loaded in place: the left operand stays left, the subscripted value stays
/// the value, the object of an attribute stays the object, and a chain of comparisons keeps
/// its left operand first, then its comparators in order.
pub proof fn law_operands_loaded_in_place(e: PyExpr)
    ensures
        e matches PyExpr::BinOp { left, op, right } ==> (load_expr(*left) matches Ok(a) ==> (load_expr(*right) matches Ok(b)
            ==> load_expr(e) == Ok::<OExprV, LoadError>(OExprV::Binop(Box::new(a), Box::new(b), operator_of(op))))),
        e matches PyExpr::Subscript { value, slice } ==> (load_expr(*value) matches Ok(a) ==> (load_expr(*slice) matches Ok(b)
            ==> load_expr(e) == Ok::<OExprV, LoadError>(OExprV::Subscript(Box::new(a), Box::new(b))))),
        e matches PyExpr::Attribute { value, attr } ==> (load_expr(*value) matches Ok(v)
            ==> load_expr(e) == Ok::<OExprV, LoadError>(OExprV::Attribute(Box::new(v), attr@))),
        e matches PyExpr::Compare { left, ops, comparators } ==> (load_expr(*left) matches Ok(l) ==> (load_exprs(comparators@) matches Ok(c)
            ==> load_expr(e) == Ok::<OExprV, LoadError>(OExprV::Compare(seq![l] + c, ops@.map_values(|o: PyCompareOp| comparison_of(o)))))),
{
}

} // verus!
