//! The syntax tree of the supported Python subset, and its mathematical model.
//!
//! Every node type has a view: `Expr` and `RawExpr` map to `ExprV`, `Statement` and
//! `RawStmt<E>` map to `StmtV`, with every `String` replaced by its character
//! sequence.  The contracts of the passes over the tree are stated over these views.
use vstd::prelude::*;

verus! {

#[derive(Debug, PartialEq, Eq, Clone, Copy, Structural)]
pub enum BoolOperator {
    And,
    Or,
}

#[derive(Debug, PartialEq, Eq, Clone, Copy, Structural)]
pub enum CompareOperator {
    Less,
    LessOrEqual,
    Greater,
    GreaterOrEqual,
    Equal,
    NotEqual,
    NotIn,
    In,
}

#[derive(Debug, PartialEq, Eq, Clone, Copy, Structural)]
pub enum BinaryOperator {
    Add,
    Sub,
    Mul,
    Div,
    Mod,
    FloorDiv,
    Pow,
    BitAnd,
    LeftShift,
    RightShift,
}

#[derive(Debug, PartialEq, Eq, Clone, Copy, Structural)]
pub enum UnaryOperator {
    Add,
    Sub,
    Not,
}

/// A numeric literal, kept as its source text.
#[derive(Debug, PartialEq, Eq, Clone)]
pub enum Number {
    Int(String),
    Float(String),
}

#[derive(Debug, PartialEq, Eq)]
pub struct CallFunction<E> {
    pub name: String,
    pub args: Vec<E>,
}

#[derive(Debug, PartialEq, Eq)]
pub struct CallMethod<E> {
    pub value: Box<E>,
    pub name: String,
    pub args: Vec<E>,
}

#[derive(Debug, PartialEq, Eq)]
pub struct BoolOperation<E> {
    pub op: BoolOperator,
    pub conditions: Vec<E>,
}

#[derive(Debug, PartialEq, Eq)]
pub struct Compare<E> {
    pub left: Box<E>,
    pub right: Box<E>,
    pub op: CompareOperator,
}

#[derive(Debug, PartialEq, Eq)]
pub struct UnaryOperation<E> {
    pub value: Box<E>,
    pub op: UnaryOperator,
}

#[derive(Debug, PartialEq, Eq)]
pub struct BinaryOperation<E> {
    pub left: Box<E>,
    pub right: Box<E>,
    pub op: BinaryOperator,
}

#[derive(Debug, PartialEq, Eq)]
pub struct Index<E> {
    pub value: Box<E>,
    pub index: Box<E>,
}

#[derive(Debug, PartialEq, Eq)]
pub struct Dict<E> {
    pub pairs: Vec<(E, E)>,
}

#[derive(Debug, PartialEq, Eq)]
pub struct ListComprehension<E> {
    pub value: Box<E>,
    pub generators: Vec<Comprehension<E>>,
}

#[derive(Debug, PartialEq, Eq)]
pub struct Comprehension<E> {
    pub target: Box<E>,
    pub iter: Box<E>,
    pub ifs: Vec<E>,
}

/// An expression after list comprehensions have been lowered.
#[derive(Debug, PartialEq, Eq)]
pub enum Expr {
    CallFunction(CallFunction<Expr>),
    CallMethod(CallMethod<Expr>),
    Tuple(Vec<Expr>),
    VariableName(String),
    BoolOperation(BoolOperation<Expr>),
    Compare(Compare<Expr>),
    UnaryOperation(UnaryOperation<Expr>),
    BinaryOperation(BinaryOperation<Expr>),
    Index(Index<Expr>),
    ConstantNumber(Number),
    ConstantString(String),
    ConstantBoolean(bool),
    ConstantNone,
    List(Vec<Expr>),
    Dict(Dict<Expr>),
}

/// An expression as read from the source, list comprehensions included.
#[derive(Debug, PartialEq, Eq)]
pub enum RawExpr {
    CallFunction(CallFunction<RawExpr>),
    CallMethod(CallMethod<RawExpr>),
    Tuple(Vec<RawExpr>),
    VariableName(String),
    BoolOperation(BoolOperation<RawExpr>),
    Compare(Compare<RawExpr>),
    UnaryOperation(UnaryOperation<RawExpr>),
    BinaryOperation(BinaryOperation<RawExpr>),
    Index(Index<RawExpr>),
    ConstantNumber(Number),
    ConstantString(String),
    ConstantBoolean(bool),
    ConstantNone,
    List(Vec<RawExpr>),
    Dict(Dict<RawExpr>),
    ListComprehension(ListComprehension<RawExpr>),
}

#[derive(Debug, PartialEq, Eq)]
pub struct Assign<E> {
    pub target: E,
    pub value: E,
}

#[derive(Debug, PartialEq, Eq)]
pub struct If<S, E> {
    pub test: E,
    pub body: Vec<S>,
    pub orelse: Vec<S>,
}

#[derive(Debug, PartialEq, Eq)]
pub struct Func<S> {
    pub name: String,
    pub args: Vec<String>,
    pub body: Vec<S>,
}

#[derive(Debug, PartialEq, Eq)]
pub struct While<S, E> {
    pub test: E,
    pub body: Vec<S>,
}

#[derive(Debug, PartialEq, Eq)]
pub struct For<S, E> {
    pub target: E,
    pub iter: E,
    pub body: Vec<S>,
}

#[derive(Debug, PartialEq, Eq, Clone)]
pub struct Import {
    pub import: String,
    pub alias: String,
}

#[derive(Debug, PartialEq, Eq, Clone)]
pub struct FromImport {
    pub from: String,
    pub import: String,
    pub alias: String,
}

/// A statement after `for` loops have been lowered to `while` loops.
#[derive(Debug, PartialEq, Eq)]
pub enum Statement {
    Assign(Assign<Expr>),
    Expression(Expr),
    If(If<Statement, Expr>),
    Func(Func<Statement>),
    Return(Option<Expr>),
    While(While<Statement, Expr>),
    Break,
    Continue,
    Import(Import),
    FromImport(FromImport),
}

/// A statement as read from the source, `for` loops included.
#[derive(Debug, PartialEq, Eq)]
pub enum RawStmt<E> {
    Assign(Assign<E>),
    Expression(E),
    If(If<RawStmt<E>, E>),
    Func(Func<RawStmt<E>>),
    Return(Option<E>),
    While(While<RawStmt<E>, E>),
    Break,
    Continue,
    For(For<RawStmt<E>, E>),
    Import(Import),
    FromImport(FromImport),
}

// ---------------------------------------------------------------------------
// The mathematical model
// ---------------------------------------------------------------------------

pub enum NumberV {
    Int(Seq<char>),
    Float(Seq<char>),
}

pub struct ComprehensionV {
    pub target: ExprV,
    pub iter: ExprV,
    pub ifs: Seq<ExprV>,
}

pub enum ExprV {
    CallFunction(Seq<char>, Seq<ExprV>),
    CallMethod(Box<ExprV>, Seq<char>, Seq<ExprV>),
    Tuple(Seq<ExprV>),
    VariableName(Seq<char>),
    BoolOperation(BoolOperator, Seq<ExprV>),
    Compare(Box<ExprV>, Box<ExprV>, CompareOperator),
    UnaryOperation(Box<ExprV>, UnaryOperator),
    BinaryOperation(Box<ExprV>, Box<ExprV>, BinaryOperator),
    Index(Box<ExprV>, Box<ExprV>),
    ConstantNumber(NumberV),
    ConstantString(Seq<char>),
    ConstantBoolean(bool),
    ConstantNone,
    List(Seq<ExprV>),
    Dict(Seq<(ExprV, ExprV)>),
    ListComprehension(Box<ExprV>, Seq<ComprehensionV>),
}

pub enum StmtV {
    Assign(ExprV, ExprV),
    Expression(ExprV),
    If(ExprV, Seq<StmtV>, Seq<StmtV>),
    Func(Seq<char>, Seq<Seq<char>>, Seq<StmtV>),
    Return(Option<ExprV>),
    While(ExprV, Seq<StmtV>),
    Break,
    Continue,
    For(ExprV, ExprV, Seq<StmtV>),
    Import(Seq<char>, Seq<char>),
    FromImport(Seq<char>, Seq<char>, Seq<char>),
}

pub open spec fn no_expr() -> ExprV {
    ExprV::ConstantNone
}

pub open spec fn no_stmt() -> StmtV {
    StmtV::Break
}

pub open spec fn number_view(n: Number) -> NumberV {
    match n {
        Number::Int(s) => NumberV::Int(s@),
        Number::Float(s) => NumberV::Float(s@),
    }
}

/// The views of a sequence of strings.
pub open spec fn strings_view(s: Seq<String>) -> Seq<Seq<char>> {
    Seq::new(s.len(), |i: int| s[i]@)
}

pub open spec fn expr_view(e: Expr) -> ExprV
    decreases e,
{
    match e {
        Expr::CallFunction(c) => ExprV::CallFunction(
            c.name@,
            Seq::new(c.args@.len(), |i: int| if 0 <= i < c.args@.len() { expr_view(c.args@[i]) } else { no_expr() }),
        ),
        Expr::CallMethod(c) => ExprV::CallMethod(
            Box::new(expr_view(*c.value)),
            c.name@,
            Seq::new(c.args@.len(), |i: int| if 0 <= i < c.args@.len() { expr_view(c.args@[i]) } else { no_expr() }),
        ),
        Expr::Tuple(v) => ExprV::Tuple(
            Seq::new(v@.len(), |i: int| if 0 <= i < v@.len() { expr_view(v@[i]) } else { no_expr() }),
        ),
        Expr::VariableName(n) => ExprV::VariableName(n@),
        Expr::BoolOperation(b) => ExprV::BoolOperation(
            b.op,
            Seq::new(b.conditions@.len(), |i: int| if 0 <= i < b.conditions@.len() { expr_view(b.conditions@[i]) } else { no_expr() }),
        ),
        Expr::Compare(c) => ExprV::Compare(Box::new(expr_view(*c.left)), Box::new(expr_view(*c.right)), c.op),
        Expr::UnaryOperation(u) => ExprV::UnaryOperation(Box::new(expr_view(*u.value)), u.op),
        Expr::BinaryOperation(b) => ExprV::BinaryOperation(Box::new(expr_view(*b.left)), Box::new(expr_view(*b.right)), b.op),
        Expr::Index(x) => ExprV::Index(Box::new(expr_view(*x.value)), Box::new(expr_view(*x.index))),
        Expr::ConstantNumber(n) => ExprV::ConstantNumber(number_view(n)),
        Expr::ConstantString(s) => ExprV::ConstantString(s@),
        Expr::ConstantBoolean(b) => ExprV::ConstantBoolean(b),
        Expr::ConstantNone => ExprV::ConstantNone,
        Expr::List(v) => ExprV::List(
            Seq::new(v@.len(), |i: int| if 0 <= i < v@.len() { expr_view(v@[i]) } else { no_expr() }),
        ),
        Expr::Dict(d) => ExprV::Dict(
            Seq::new(d.pairs@.len(), |i: int|
                if 0 <= i < d.pairs@.len() {
                    (expr_view(d.pairs@[i].0), expr_view(d.pairs@[i].1))
                } else {
                    (no_expr(), no_expr())
                }),
        ),
    }
}

pub open spec fn raw_expr_view(e: RawExpr) -> ExprV
    decreases e,
{
    match e {
        RawExpr::CallFunction(c) => ExprV::CallFunction(
            c.name@,
            Seq::new(c.args@.len(), |i: int| if 0 <= i < c.args@.len() { raw_expr_view(c.args@[i]) } else { no_expr() }),
        ),
        RawExpr::CallMethod(c) => ExprV::CallMethod(
            Box::new(raw_expr_view(*c.value)),
            c.name@,
            Seq::new(c.args@.len(), |i: int| if 0 <= i < c.args@.len() { raw_expr_view(c.args@[i]) } else { no_expr() }),
        ),
        RawExpr::Tuple(v) => ExprV::Tuple(
            Seq::new(v@.len(), |i: int| if 0 <= i < v@.len() { raw_expr_view(v@[i]) } else { no_expr() }),
        ),
        RawExpr::VariableName(n) => ExprV::VariableName(n@),
        RawExpr::BoolOperation(b) => ExprV::BoolOperation(
            b.op,
            Seq::new(b.conditions@.len(), |i: int| if 0 <= i < b.conditions@.len() { raw_expr_view(b.conditions@[i]) } else { no_expr() }),
        ),
        RawExpr::Compare(c) => ExprV::Compare(Box::new(raw_expr_view(*c.left)), Box::new(raw_expr_view(*c.right)), c.op),
        RawExpr::UnaryOperation(u) => ExprV::UnaryOperation(Box::new(raw_expr_view(*u.value)), u.op),
        RawExpr::BinaryOperation(b) => ExprV::BinaryOperation(Box::new(raw_expr_view(*b.left)), Box::new(raw_expr_view(*b.right)), b.op),
        RawExpr::Index(x) => ExprV::Index(Box::new(raw_expr_view(*x.value)), Box::new(raw_expr_view(*x.index))),
        RawExpr::ConstantNumber(n) => ExprV::ConstantNumber(number_view(n)),
        RawExpr::ConstantString(s) => ExprV::ConstantString(s@),
        RawExpr::ConstantBoolean(b) => ExprV::ConstantBoolean(b),
        RawExpr::ConstantNone => ExprV::ConstantNone,
        RawExpr::List(v) => ExprV::List(
            Seq::new(v@.len(), |i: int| if 0 <= i < v@.len() { raw_expr_view(v@[i]) } else { no_expr() }),
        ),
        RawExpr::Dict(d) => ExprV::Dict(
            Seq::new(d.pairs@.len(), |i: int|
                if 0 <= i < d.pairs@.len() {
                    (raw_expr_view(d.pairs@[i].0), raw_expr_view(d.pairs@[i].1))
                } else {
                    (no_expr(), no_expr())
                }),
        ),
        RawExpr::ListComprehension(l) => ExprV::ListComprehension(
            Box::new(raw_expr_view(*l.value)),
            Seq::new(l.generators@.len(), |i: int|
                if 0 <= i < l.generators@.len() {
                    ComprehensionV {
                        target: raw_expr_view(*l.generators@[i].target),
                        iter: raw_expr_view(*l.generators@[i].iter),
                        ifs: Seq::new(l.generators@[i].ifs@.len(), |j: int|
                            if 0 <= j < l.generators@[i].ifs@.len() {
                                raw_expr_view(l.generators@[i].ifs@[j])
                            } else {
                                no_expr()
                            }),
                    }
                } else {
                    ComprehensionV { target: no_expr(), iter: no_expr(), ifs: seq![] }
                }),
        ),
    }
}

impl View for Number {
    type V = NumberV;

    open spec fn view(&self) -> NumberV {
        number_view(*self)
    }
}

impl View for Expr {
    type V = ExprV;

    open spec fn view(&self) -> ExprV {
        expr_view(*self)
    }
}

impl View for RawExpr {
    type V = ExprV;

    open spec fn view(&self) -> ExprV {
        raw_expr_view(*self)
    }
}

pub open spec fn opt_view<E: View<V = ExprV>>(e: Option<E>) -> Option<ExprV> {
    match e {
        Some(x) => Some(x@),
        None => None,
    }
}

pub open spec fn stmt_view(s: Statement) -> StmtV
    decreases s,
{
    match s {
        Statement::Assign(a) => StmtV::Assign(a.target@, a.value@),
        Statement::Expression(e) => StmtV::Expression(e@),
        Statement::If(x) => StmtV::If(
            x.test@,
            Seq::new(x.body@.len(), |i: int| if 0 <= i < x.body@.len() { stmt_view(x.body@[i]) } else { no_stmt() }),
            Seq::new(x.orelse@.len(), |i: int| if 0 <= i < x.orelse@.len() { stmt_view(x.orelse@[i]) } else { no_stmt() }),
        ),
        Statement::Func(f) => StmtV::Func(
            f.name@,
            strings_view(f.args@),
            Seq::new(f.body@.len(), |i: int| if 0 <= i < f.body@.len() { stmt_view(f.body@[i]) } else { no_stmt() }),
        ),
        Statement::Return(r) => StmtV::Return(opt_view(r)),
        Statement::While(w) => StmtV::While(
            w.test@,
            Seq::new(w.body@.len(), |i: int| if 0 <= i < w.body@.len() { stmt_view(w.body@[i]) } else { no_stmt() }),
        ),
        Statement::Break => StmtV::Break,
        Statement::Continue => StmtV::Continue,
        Statement::Import(i) => StmtV::Import(i.import@, i.alias@),
        Statement::FromImport(i) => StmtV::FromImport(i.from@, i.import@, i.alias@),
    }
}

pub open spec fn raw_stmt_view<E: View<V = ExprV>>(s: RawStmt<E>) -> StmtV
    decreases s,
{
    match s {
        RawStmt::Assign(a) => StmtV::Assign(a.target@, a.value@),
        RawStmt::Expression(e) => StmtV::Expression(e@),
        RawStmt::If(x) => StmtV::If(
            x.test@,
            Seq::new(x.body@.len(), |i: int| if 0 <= i < x.body@.len() { raw_stmt_view(x.body@[i]) } else { no_stmt() }),
            Seq::new(x.orelse@.len(), |i: int| if 0 <= i < x.orelse@.len() { raw_stmt_view(x.orelse@[i]) } else { no_stmt() }),
        ),
        RawStmt::Func(f) => StmtV::Func(
            f.name@,
            strings_view(f.args@),
            Seq::new(f.body@.len(), |i: int| if 0 <= i < f.body@.len() { raw_stmt_view(f.body@[i]) } else { no_stmt() }),
        ),
        RawStmt::Return(r) => StmtV::Return(opt_view(r)),
        RawStmt::While(w) => StmtV::While(
            w.test@,
            Seq::new(w.body@.len(), |i: int| if 0 <= i < w.body@.len() { raw_stmt_view(w.body@[i]) } else { no_stmt() }),
        ),
        RawStmt::Break => StmtV::Break,
        RawStmt::Continue => StmtV::Continue,
        RawStmt::For(f) => StmtV::For(
            f.target@,
            f.iter@,
            Seq::new(f.body@.len(), |i: int| if 0 <= i < f.body@.len() { raw_stmt_view(f.body@[i]) } else { no_stmt() }),
        ),
        RawStmt::Import(i) => StmtV::Import(i.import@, i.alias@),
        RawStmt::FromImport(i) => StmtV::FromImport(i.from@, i.import@, i.alias@),
    }
}

impl View for Statement {
    type V = StmtV;

    open spec fn view(&self) -> StmtV {
        stmt_view(*self)
    }
}

impl<E: View<V = ExprV>> View for RawStmt<E> {
    type V = StmtV;

    open spec fn view(&self) -> StmtV {
        raw_stmt_view(*self)
    }
}

/// The views of a sequence of nodes.
pub open spec fn views<T: View>(s: Seq<T>) -> Seq<T::V> {
    Seq::new(s.len(), |i: int| s[i]@)
}

/// Every subexpression of `e` (itself included) satisfies `p`.
pub open spec fn every_expr(e: ExprV, p: spec_fn(ExprV) -> bool) -> bool
    decreases e,
{
    &&& p(e)
    &&& match e {
        ExprV::CallFunction(_, args) => forall|i: int| 0 <= i < args.len() ==> every_expr(#[trigger] args[i], p),
        ExprV::CallMethod(v, _, args) => every_expr(*v, p) && forall|i: int| 0 <= i < args.len() ==> every_expr(#[trigger] args[i], p),
        ExprV::Tuple(v) => forall|i: int| 0 <= i < v.len() ==> every_expr(#[trigger] v[i], p),
        ExprV::BoolOperation(_, v) => forall|i: int| 0 <= i < v.len() ==> every_expr(#[trigger] v[i], p),
        ExprV::Compare(l, r, _) => every_expr(*l, p) && every_expr(*r, p),
        ExprV::UnaryOperation(v, _) => every_expr(*v, p),
        ExprV::BinaryOperation(l, r, _) => every_expr(*l, p) && every_expr(*r, p),
        ExprV::Index(v, i) => every_expr(*v, p) && every_expr(*i, p),
        ExprV::List(v) => forall|i: int| 0 <= i < v.len() ==> every_expr(#[trigger] v[i], p),
        ExprV::Dict(v) => forall|i: int| 0 <= i < v.len() ==> every_expr(#[trigger] v[i].0, p) && every_expr(v[i].1, p),
        ExprV::ListComprehension(v, g) => every_expr(*v, p) && forall|i: int| 0 <= i < g.len() ==> {
            &&& every_expr(#[trigger] g[i].target, p)
            &&& every_expr(g[i].iter, p)
            &&& forall|j: int| 0 <= j < g[i].ifs.len() ==> every_expr(#[trigger] g[i].ifs[j], p)
        },
        _ => true,
    }
}

/// Every expression inside the statement `s` satisfies `p` in all its subexpressions.
pub open spec fn every_stmt_expr(s: StmtV, p: spec_fn(ExprV) -> bool) -> bool
    decreases s,
{
    match s {
        StmtV::Assign(t, v) => every_expr(t, p) && every_expr(v, p),
        StmtV::Expression(e) => every_expr(e, p),
        StmtV::If(t, b, o) => every_expr(t, p)
            && (forall|i: int| 0 <= i < b.len() ==> every_stmt_expr(#[trigger] b[i], p))
            && (forall|i: int| 0 <= i < o.len() ==> every_stmt_expr(#[trigger] o[i], p)),
        StmtV::Func(_, _, b) => forall|i: int| 0 <= i < b.len() ==> every_stmt_expr(#[trigger] b[i], p),
        StmtV::Return(r) => match r {
            Some(e) => every_expr(e, p),
            None => true,
        },
        StmtV::While(t, b) => every_expr(t, p) && forall|i: int| 0 <= i < b.len() ==> every_stmt_expr(#[trigger] b[i], p),
        StmtV::For(t, it, b) => every_expr(t, p) && every_expr(it, p)
            && forall|i: int| 0 <= i < b.len() ==> every_stmt_expr(#[trigger] b[i], p),
        _ => true,
    }
}

/// The statement `s` and every statement nested in it satisfy `p`.
pub open spec fn every_stmt(s: StmtV, p: spec_fn(StmtV) -> bool) -> bool
    decreases s,
{
    &&& p(s)
    &&& match s {
        StmtV::If(_, b, o) => (forall|i: int| 0 <= i < b.len() ==> every_stmt(#[trigger] b[i], p))
            && (forall|i: int| 0 <= i < o.len() ==> every_stmt(#[trigger] o[i], p)),
        StmtV::Func(_, _, b) => forall|i: int| 0 <= i < b.len() ==> every_stmt(#[trigger] b[i], p),
        StmtV::While(_, b) => forall|i: int| 0 <= i < b.len() ==> every_stmt(#[trigger] b[i], p),
        StmtV::For(_, _, b) => forall|i: int| 0 <= i < b.len() ==> every_stmt(#[trigger] b[i], p),
        _ => true,
    }
}

// ---------------------------------------------------------------------------
// Copies
// ---------------------------------------------------------------------------

pub fn copy_string(s: &String) -> (r: String)
    ensures
        r@ == s@,
{
    s.clone()
}

pub fn copy_number(n: &Number) -> (r: Number)
    ensures
        r@ == n@,
{
    match n {
        Number::Int(s) => Number::Int(copy_string(s)),
        Number::Float(s) => Number::Float(copy_string(s)),
    }
}

/// A copy of an expression with the same view.
pub fn copy_expr(e: &Expr) -> (r: Expr)
    ensures
        r@ == e@,
    decreases e,
{
    match e {
        Expr::CallFunction(c) => {
            let args = copy_exprs(&c.args);
            let r = Expr::CallFunction(CallFunction { name: copy_string(&c.name), args });
            proof { assert(expr_view(r)->CallFunction_1 =~= expr_view(*e)->CallFunction_1); }
            r
        },
        Expr::CallMethod(c) => {
            let value = copy_expr(&c.value);
            let args = copy_exprs(&c.args);
            let r = Expr::CallMethod(CallMethod { value: Box::new(value), name: copy_string(&c.name), args });
            proof { assert(expr_view(r)->CallMethod_2 =~= expr_view(*e)->CallMethod_2); }
            r
        },
        Expr::Tuple(v) => {
            let r = Expr::Tuple(copy_exprs(v));
            proof { assert(expr_view(r)->Tuple_0 =~= expr_view(*e)->Tuple_0); }
            r
        },
        Expr::VariableName(n) => Expr::VariableName(copy_string(n)),
        Expr::BoolOperation(b) => {
            let r = Expr::BoolOperation(BoolOperation { op: b.op, conditions: copy_exprs(&b.conditions) });
            proof { assert(expr_view(r)->BoolOperation_1 =~= expr_view(*e)->BoolOperation_1); }
            r
        },
        Expr::Compare(c) => Expr::Compare(Compare {
            left: Box::new(copy_expr(&c.left)),
            right: Box::new(copy_expr(&c.right)),
            op: c.op,
        }),
        Expr::UnaryOperation(u) => Expr::UnaryOperation(UnaryOperation {
            value: Box::new(copy_expr(&u.value)),
            op: u.op,
        }),
        Expr::BinaryOperation(b) => Expr::BinaryOperation(BinaryOperation {
            left: Box::new(copy_expr(&b.left)),
            right: Box::new(copy_expr(&b.right)),
            op: b.op,
        }),
        Expr::Index(x) => Expr::Index(Index {
            value: Box::new(copy_expr(&x.value)),
            index: Box::new(copy_expr(&x.index)),
        }),
        Expr::ConstantNumber(n) => Expr::ConstantNumber(copy_number(n)),
        Expr::ConstantString(s) => Expr::ConstantString(copy_string(s)),
        Expr::ConstantBoolean(b) => Expr::ConstantBoolean(*b),
        Expr::ConstantNone => Expr::ConstantNone,
        Expr::List(v) => {
            let r = Expr::List(copy_exprs(v));
            proof { assert(expr_view(r)->List_0 =~= expr_view(*e)->List_0); }
            r
        },
        Expr::Dict(d) => {
            let pairs = copy_pairs(&d.pairs);
            let r = Expr::Dict(Dict { pairs });
            proof { assert(expr_view(r)->Dict_0 =~= expr_view(*e)->Dict_0); }
            r
        },
    }
}

/// Copies of a sequence of expressions, with the same views.
pub fn copy_exprs(v: &Vec<Expr>) -> (r: Vec<Expr>)
    ensures
        r.len() == v.len(),
        forall|i: int| 0 <= i < v.len() ==> (#[trigger] r@[i])@ == v@[i]@,
    decreases v,
{
    let mut r: Vec<Expr> = Vec::new();
    let mut i: usize = 0;
    while i < v.len()
        invariant
            i <= v.len(),
            r.len() == i,
            forall|j: int| 0 <= j < i ==> (#[trigger] r@[j])@ == v@[j]@,
        decreases v.len() - i,
    {
        r.push(copy_expr(&v[i]));
        i += 1;
    }
    r
}

/// Copies of a sequence of key-value pairs, with the same views.
pub fn copy_pairs(v: &Vec<(Expr, Expr)>) -> (r: Vec<(Expr, Expr)>)
    ensures
        r.len() == v.len(),
        forall|i: int| 0 <= i < v.len() ==> (#[trigger] r@[i]).0@ == v@[i].0@ && r@[i].1@ == v@[i].1@,
    decreases v,
{
    let mut r: Vec<(Expr, Expr)> = Vec::new();
    let mut i: usize = 0;
    while i < v.len()
        invariant
            i <= v.len(),
            r.len() == i,
            forall|j: int| 0 <= j < i ==> (#[trigger] r@[j]).0@ == v@[j].0@ && r@[j].1@ == v@[j].1@,
        decreases v.len() - i,
    {
        let k = copy_expr(&v[i].0);
        let x = copy_expr(&v[i].1);
        r.push((k, x));
        i += 1;
    }
    r
}

/// Copies of a sequence of strings, with the same views.
pub fn copy_strings(v: &Vec<String>) -> (r: Vec<String>)
    ensures
        r.len() == v.len(),
        forall|i: int| 0 <= i < v.len() ==> (#[trigger] r@[i])@ == v@[i]@,
        strings_view(r@) == strings_view(v@),
{
    let mut r: Vec<String> = Vec::new();
    let mut i: usize = 0;
    while i < v.len()
        invariant
            i <= v.len(),
            r.len() == i,
            forall|j: int| 0 <= j < i ==> (#[trigger] r@[j])@ == v@[j]@,
        decreases v.len() - i,
    {
        r.push(copy_string(&v[i]));
        i += 1;
    }
    proof {
        assert(strings_view(r@) =~= strings_view(v@));
    }
    r
}

pub fn copy_import(i: &Import) -> (r: Import)
    ensures
        r.import@ == i.import@,
        r.alias@ == i.alias@,
{
    Import { import: copy_string(&i.import), alias: copy_string(&i.alias) }
}

pub fn copy_from_import(i: &FromImport) -> (r: FromImport)
    ensures
        r.from@ == i.from@,
        r.import@ == i.import@,
        r.alias@ == i.alias@,
{
    FromImport { from: copy_string(&i.from), import: copy_string(&i.import), alias: copy_string(&i.alias) }
}

pub fn copy_opt_expr(e: &Option<Expr>) -> (r: Option<Expr>)
    ensures
        opt_view(r) == opt_view(*e),
{
    match e {
        Some(x) => Some(copy_expr(x)),
        None => None,
    }
}

/// A copy of a statement with the same view.
pub fn copy_stmt(s: &Statement) -> (r: Statement)
    ensures
        r@ == s@,
    decreases s,
{
    let ghost sv = s@;
    match s {
        Statement::Assign(a) => Statement::Assign(Assign { target: copy_expr(&a.target), value: copy_expr(&a.value) }),
        Statement::Expression(e) => Statement::Expression(copy_expr(e)),
        Statement::If(x) => {
            let r = Statement::If(If { test: copy_expr(&x.test), body: copy_stmts(&x.body), orelse: copy_stmts(&x.orelse) });
            proof {
                assert(r@->If_1 =~= sv->If_1);
                assert(r@->If_2 =~= sv->If_2);
            }
            r
        },
        Statement::Func(f) => {
            let r = Statement::Func(Func { name: copy_string(&f.name), args: copy_strings(&f.args), body: copy_stmts(&f.body) });
            proof {
                assert(r@->Func_2 =~= sv->Func_2);
            }
            r
        },
        Statement::Return(e) => Statement::Return(copy_opt_expr(e)),
        Statement::While(w) => {
            let r = Statement::While(While { test: copy_expr(&w.test), body: copy_stmts(&w.body) });
            proof {
                assert(r@->While_1 =~= sv->While_1);
            }
            r
        },
        Statement::Break => Statement::Break,
        Statement::Continue => Statement::Continue,
        Statement::Import(i) => Statement::Import(copy_import(i)),
        Statement::FromImport(i) => Statement::FromImport(copy_from_import(i)),
    }
}

/// Copies of a sequence of statements, with the same views.
pub fn copy_stmts(v: &Vec<Statement>) -> (r: Vec<Statement>)
    ensures
        r.len() == v.len(),
        forall|i: int| 0 <= i < v.len() ==> (#[trigger] r@[i])@ == v@[i]@,
    decreases v,
{
    let mut r: Vec<Statement> = Vec::new();
    let mut i: usize = 0;
    while i < v.len()
        invariant
            i <= v.len(),
            r.len() == i,
            forall|j: int| 0 <= j < i ==> (#[trigger] r@[j])@ == v@[j]@,
        decreases v.len() - i,
    {
        r.push(copy_stmt(&v[i]));
        i += 1;
    }
    r
}

/// A copy of a source expression with the same view.
pub fn copy_raw_expr(e: &RawExpr) -> (r: RawExpr)
    ensures
        r@ == e@,
    decreases e,
{
    let ghost ev = e@;
    match e {
        RawExpr::CallFunction(c) => {
            let r = RawExpr::CallFunction(CallFunction { name: copy_string(&c.name), args: copy_raw_exprs(&c.args) });
            proof { assert(r@->CallFunction_1 =~= ev->CallFunction_1); }
            r
        },
        RawExpr::CallMethod(c) => {
            let value = copy_raw_expr(&c.value);
            let r = RawExpr::CallMethod(CallMethod { value: Box::new(value), name: copy_string(&c.name), args: copy_raw_exprs(&c.args) });
            proof { assert(r@->CallMethod_2 =~= ev->CallMethod_2); }
            r
        },
        RawExpr::Tuple(v) => {
            let r = RawExpr::Tuple(copy_raw_exprs(v));
            proof { assert(r@->Tuple_0 =~= ev->Tuple_0); }
            r
        },
        RawExpr::VariableName(n) => RawExpr::VariableName(copy_string(n)),
        RawExpr::BoolOperation(b) => {
            let r = RawExpr::BoolOperation(BoolOperation { op: b.op, conditions: copy_raw_exprs(&b.conditions) });
            proof { assert(r@->BoolOperation_1 =~= ev->BoolOperation_1); }
            r
        },
        RawExpr::Compare(c) => RawExpr::Compare(Compare {
            left: Box::new(copy_raw_expr(&c.left)),
            right: Box::new(copy_raw_expr(&c.right)),
            op: c.op,
        }),
        RawExpr::UnaryOperation(u) => RawExpr::UnaryOperation(UnaryOperation {
            value: Box::new(copy_raw_expr(&u.value)),
            op: u.op,
        }),
        RawExpr::BinaryOperation(b) => RawExpr::BinaryOperation(BinaryOperation {
            left: Box::new(copy_raw_expr(&b.left)),
            right: Box::new(copy_raw_expr(&b.right)),
            op: b.op,
        }),
        RawExpr::Index(x) => RawExpr::Index(Index {
            value: Box::new(copy_raw_expr(&x.value)),
            index: Box::new(copy_raw_expr(&x.index)),
        }),
        RawExpr::ConstantNumber(n) => RawExpr::ConstantNumber(copy_number(n)),
        RawExpr::ConstantString(s) => RawExpr::ConstantString(copy_string(s)),
        RawExpr::ConstantBoolean(b) => RawExpr::ConstantBoolean(*b),
        RawExpr::ConstantNone => RawExpr::ConstantNone,
        RawExpr::List(v) => {
            let r = RawExpr::List(copy_raw_exprs(v));
            proof { assert(r@->List_0 =~= ev->List_0); }
            r
        },
        RawExpr::Dict(d) => {
            let r = RawExpr::Dict(Dict { pairs: copy_raw_pairs(&d.pairs) });
            proof { assert(r@->Dict_0 =~= ev->Dict_0); }
            r
        },
        RawExpr::ListComprehension(l) => {
            let value = copy_raw_expr(&l.value);
            let generators = copy_comprehensions(&l.generators);
            let r = RawExpr::ListComprehension(ListComprehension { value: Box::new(value), generators });
            proof {
                assert forall|j: int| 0 <= j < ev->ListComprehension_1.len() implies
                    #[trigger] r@->ListComprehension_1[j] == ev->ListComprehension_1[j] by {
                    assert(r@->ListComprehension_1[j].ifs =~= ev->ListComprehension_1[j].ifs);
                }
                assert(r@->ListComprehension_1 =~= ev->ListComprehension_1);
            }
            r
        },
    }
}

fn copy_raw_pairs(v: &Vec<(RawExpr, RawExpr)>) -> (r: Vec<(RawExpr, RawExpr)>)
    ensures
        r.len() == v.len(),
        forall|j: int| 0 <= j < v.len() ==> (#[trigger] r@[j]).0@ == v@[j].0@ && r@[j].1@ == v@[j].1@,
    decreases v,
{
    let mut pairs: Vec<(RawExpr, RawExpr)> = Vec::new();
    let mut i: usize = 0;
    while i < v.len()
        invariant
            i <= v.len(),
            pairs.len() == i,
            forall|j: int| 0 <= j < i ==> (#[trigger] pairs@[j]).0@ == v@[j].0@ && pairs@[j].1@ == v@[j].1@,
        decreases v.len() - i,
    {
        let k = copy_raw_expr(&v[i].0);
        let x = copy_raw_expr(&v[i].1);
        pairs.push((k, x));
        i += 1;
    }
    pairs
}

fn copy_comprehensions(v: &Vec<Comprehension<RawExpr>>) -> (r: Vec<Comprehension<RawExpr>>)
    ensures
        r.len() == v.len(),
        forall|j: int| 0 <= j < v.len() ==> {
            &&& (*(#[trigger] r@[j]).target)@ == (*v@[j].target)@
            &&& (*r@[j].iter)@ == (*v@[j].iter)@
            &&& r@[j].ifs.len() == v@[j].ifs.len()
            &&& forall|k: int| 0 <= k < r@[j].ifs.len() ==> (#[trigger] r@[j].ifs@[k])@ == v@[j].ifs@[k]@
        },
    decreases v,
{
    let mut generators: Vec<Comprehension<RawExpr>> = Vec::new();
    let mut i: usize = 0;
    while i < v.len()
        invariant
            i <= v.len(),
            generators.len() == i,
            forall|j: int| 0 <= j < i ==> {
                &&& (*(#[trigger] generators@[j]).target)@ == (*v@[j].target)@
                &&& (*generators@[j].iter)@ == (*v@[j].iter)@
                &&& generators@[j].ifs.len() == v@[j].ifs.len()
                &&& forall|k: int| 0 <= k < generators@[j].ifs.len() ==> (#[trigger] generators@[j].ifs@[k])@ == v@[j].ifs@[k]@
            },
        decreases v.len() - i,
    {
        let g = &v[i];
        let c = Comprehension {
            target: Box::new(copy_raw_expr(&g.target)),
            iter: Box::new(copy_raw_expr(&g.iter)),
            ifs: copy_raw_exprs(&g.ifs),
        };
        generators.push(c);
        i += 1;
    }
    generators
}

/// Copies of a sequence of source expressions, with the same views.
pub fn copy_raw_exprs(v: &Vec<RawExpr>) -> (r: Vec<RawExpr>)
    ensures
        r.len() == v.len(),
        forall|i: int| 0 <= i < v.len() ==> (#[trigger] r@[i])@ == v@[i]@,
    decreases v,
{
    let mut r: Vec<RawExpr> = Vec::new();
    let mut i: usize = 0;
    while i < v.len()
        invariant
            i <= v.len(),
            r.len() == i,
            forall|j: int| 0 <= j < i ==> (#[trigger] r@[j])@ == v@[j]@,
        decreases v.len() - i,
    {
        r.push(copy_raw_expr(&v[i]));
        i += 1;
    }
    r
}

// ---------------------------------------------------------------------------
// Equality
// ---------------------------------------------------------------------------

fn number_eq(a: &Number, b: &Number) -> (r: bool)
    ensures
        r == (a@ == b@),
{
    match (a, b) {
        (Number::Int(x), Number::Int(y)) => crate::text::string_eq(x, y),
        (Number::Float(x), Number::Float(y)) => crate::text::string_eq(x, y),
        _ => false,
    }
}

/// Whether two expressions have the same view.
pub fn expr_eq(a: &Expr, b: &Expr) -> (r: bool)
    ensures
        r == (a@ == b@),
    decreases a,
{
    let ghost av = a@;
    let ghost bv = b@;
    match (a, b) {
        (Expr::CallFunction(x), Expr::CallFunction(y)) => {
            let r = crate::text::string_eq(&x.name, &y.name) && exprs_eq(&x.args, &y.args);
            proof {
                assert(av->CallFunction_1 =~= views(x.args@));
                assert(bv->CallFunction_1 =~= views(y.args@));
            }
            r
        },
        (Expr::CallMethod(x), Expr::CallMethod(y)) => {
            let r = expr_eq(&x.value, &y.value) && crate::text::string_eq(&x.name, &y.name) && exprs_eq(&x.args, &y.args);
            proof {
                assert(av->CallMethod_2 =~= views(x.args@));
                assert(bv->CallMethod_2 =~= views(y.args@));
            }
            r
        },
        (Expr::Tuple(x), Expr::Tuple(y)) => {
            let r = exprs_eq(x, y);
            proof {
                assert(av->Tuple_0 =~= views(x@));
                assert(bv->Tuple_0 =~= views(y@));
            }
            r
        },
        (Expr::VariableName(x), Expr::VariableName(y)) => crate::text::string_eq(x, y),
        (Expr::BoolOperation(x), Expr::BoolOperation(y)) => {
            let r = x.op == y.op && exprs_eq(&x.conditions, &y.conditions);
            proof {
                assert(av->BoolOperation_1 =~= views(x.conditions@));
                assert(bv->BoolOperation_1 =~= views(y.conditions@));
            }
            r
        },
        (Expr::Compare(x), Expr::Compare(y)) => expr_eq(&x.left, &y.left) && expr_eq(&x.right, &y.right) && x.op == y.op,
        (Expr::UnaryOperation(x), Expr::UnaryOperation(y)) => expr_eq(&x.value, &y.value) && x.op == y.op,
        (Expr::BinaryOperation(x), Expr::BinaryOperation(y)) => expr_eq(&x.left, &y.left) && expr_eq(&x.right, &y.right) && x.op == y.op,
        (Expr::Index(x), Expr::Index(y)) => expr_eq(&x.value, &y.value) && expr_eq(&x.index, &y.index),
        (Expr::ConstantNumber(x), Expr::ConstantNumber(y)) => number_eq(x, y),
        (Expr::ConstantString(x), Expr::ConstantString(y)) => crate::text::string_eq(x, y),
        (Expr::ConstantBoolean(x), Expr::ConstantBoolean(y)) => *x == *y,
        (Expr::ConstantNone, Expr::ConstantNone) => true,
        (Expr::List(x), Expr::List(y)) => {
            let r = exprs_eq(x, y);
            proof {
                assert(av->List_0 =~= views(x@));
                assert(bv->List_0 =~= views(y@));
            }
            r
        },
        (Expr::Dict(x), Expr::Dict(y)) => {
            let r = pairs_eq(&x.pairs, &y.pairs);
            proof {
                assert(av->Dict_0 =~= Seq::new(x.pairs@.len(), |i: int| (x.pairs@[i].0@, x.pairs@[i].1@)));
                assert(bv->Dict_0 =~= Seq::new(y.pairs@.len(), |i: int| (y.pairs@[i].0@, y.pairs@[i].1@)));
            }
            r
        },
        _ => false,
    }
}

/// Whether two sequences of expressions have the same views.
pub fn exprs_eq(a: &Vec<Expr>, b: &Vec<Expr>) -> (r: bool)
    ensures
        r == (views(a@) == views(b@)),
    decreases a,
{
    if a.len() != b.len() {
        proof {
            assert(views(a@).len() != views(b@).len());
        }
        return false;
    }
    let mut i: usize = 0;
    while i < a.len()
        invariant
            i <= a.len(),
            a.len() == b.len(),
            forall|j: int| 0 <= j < i ==> a@[j]@ == b@[j]@,
        decreases a.len() - i,
    {
        if !expr_eq(&a[i], &b[i]) {
            proof {
                assert(views(a@)[i as int] != views(b@)[i as int]);
            }
            return false;
        }
        i += 1;
    }
    proof {
        assert(views(a@) =~= views(b@));
    }
    true
}

fn pairs_eq(a: &Vec<(Expr, Expr)>, b: &Vec<(Expr, Expr)>) -> (r: bool)
    ensures
        r == (Seq::new(a@.len(), |i: int| (a@[i].0@, a@[i].1@)) == Seq::new(b@.len(), |i: int| (b@[i].0@, b@[i].1@))),
    decreases a,
{
    let ghost av = Seq::new(a@.len(), |i: int| (a@[i].0@, a@[i].1@));
    let ghost bv = Seq::new(b@.len(), |i: int| (b@[i].0@, b@[i].1@));
    if a.len() != b.len() {
        proof {
            assert(av.len() != bv.len());
        }
        return false;
    }
    let mut i: usize = 0;
    while i < a.len()
        invariant
            i <= a.len(),
            a.len() == b.len(),
            av == Seq::new(a@.len(), |i: int| (a@[i].0@, a@[i].1@)),
            bv == Seq::new(b@.len(), |i: int| (b@[i].0@, b@[i].1@)),
            forall|j: int| 0 <= j < i ==> a@[j].0@ == b@[j].0@ && a@[j].1@ == b@[j].1@,
        decreases a.len() - i,
    {
        if !(expr_eq(&a[i].0, &b[i].0) && expr_eq(&a[i].1, &b[i].1)) {
            proof {
                assert(av[i as int] != bv[i as int]);
            }
            return false;
        }
        i += 1;
    }
    proof {
        assert(av =~= bv);
    }
    true
}

pub fn strings_eq(a: &Vec<String>, b: &Vec<String>) -> (r: bool)
    ensures
        r == (strings_view(a@) == strings_view(b@)),
{
    if a.len() != b.len() {
        proof {
            assert(strings_view(a@).len() != strings_view(b@).len());
        }
        return false;
    }
    let mut i: usize = 0;
    while i < a.len()
        invariant
            i <= a.len(),
            a.len() == b.len(),
            forall|j: int| 0 <= j < i ==> a@[j]@ == b@[j]@,
        decreases a.len() - i,
    {
        if !crate::text::string_eq(&a[i], &b[i]) {
            proof {
                assert(strings_view(a@)[i as int] != strings_view(b@)[i as int]);
            }
            return false;
        }
        i += 1;
    }
    proof {
        assert(strings_view(a@) =~= strings_view(b@));
    }
    true
}

fn opt_expr_eq(a: &Option<Expr>, b: &Option<Expr>) -> (r: bool)
    ensures
        r == (opt_view(*a) == opt_view(*b)),
{
    match (a, b) {
        (Some(x), Some(y)) => expr_eq(x, y),
        (None, None) => true,
        _ => false,
    }
}

/// Whether two statements have the same view.
pub fn stmt_eq(a: &Statement, b: &Statement) -> (r: bool)
    ensures
        r == (a@ == b@),
    decreases a,
{
    let ghost av = a@;
    let ghost bv = b@;
    match (a, b) {
        (Statement::Assign(x), Statement::Assign(y)) => expr_eq(&x.target, &y.target) && expr_eq(&x.value, &y.value),
        (Statement::Expression(x), Statement::Expression(y)) => expr_eq(x, y),
        (Statement::If(x), Statement::If(y)) => {
            let r = expr_eq(&x.test, &y.test) && stmts_eq(&x.body, &y.body) && stmts_eq(&x.orelse, &y.orelse);
            proof {
                assert(av->If_1 =~= views(x.body@));
                assert(bv->If_1 =~= views(y.body@));
                assert(av->If_2 =~= views(x.orelse@));
                assert(bv->If_2 =~= views(y.orelse@));
            }
            r
        },
        (Statement::Func(x), Statement::Func(y)) => {
            let r = crate::text::string_eq(&x.name, &y.name) && strings_eq(&x.args, &y.args) && stmts_eq(&x.body, &y.body);
            proof {
                assert(av->Func_2 =~= views(x.body@));
                assert(bv->Func_2 =~= views(y.body@));
            }
            r
        },
        (Statement::Return(x), Statement::Return(y)) => opt_expr_eq(x, y),
        (Statement::While(x), Statement::While(y)) => {
            let r = expr_eq(&x.test, &y.test) && stmts_eq(&x.body, &y.body);
            proof {
                assert(av->While_1 =~= views(x.body@));
                assert(bv->While_1 =~= views(y.body@));
            }
            r
        },
        (Statement::Break, Statement::Break) => true,
        (Statement::Continue, Statement::Continue) => true,
        (Statement::Import(x), Statement::Import(y)) => crate::text::string_eq(&x.import, &y.import) && crate::text::string_eq(&x.alias, &y.alias),
        (Statement::FromImport(x), Statement::FromImport(y)) => crate::text::string_eq(&x.from, &y.from)
            && crate::text::string_eq(&x.import, &y.import) && crate::text::string_eq(&x.alias, &y.alias),
        _ => false,
    }
}

/// Whether two sequences of statements have the same views.
pub fn stmts_eq(a: &Vec<Statement>, b: &Vec<Statement>) -> (r: bool)
    ensures
        r == (views(a@) == views(b@)),
    decreases a,
{
    if a.len() != b.len() {
        proof {
            assert(views(a@).len() != views(b@).len());
        }
        return false;
    }
    let mut i: usize = 0;
    while i < a.len()
        invariant
            i <= a.len(),
            a.len() == b.len(),
            forall|j: int| 0 <= j < i ==> a@[j]@ == b@[j]@,
        decreases a.len() - i,
    {
        if !stmt_eq(&a[i], &b[i]) {
            proof {
                assert(views(a@)[i as int] != views(b@)[i as int]);
            }
            return false;
        }
        i += 1;
    }
    proof {
        assert(views(a@) =~= views(b@));
    }
    true
}

} // verus!
