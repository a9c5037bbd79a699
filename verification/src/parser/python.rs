//! The Python syntax tree that the parser reads: the nodes of the supported subset, with
//! every other node kind kept as `Unsupported`.  Literals of numbers are held as the text
//! the Python parser prints for them.
use vstd::prelude::*;

verus! {

#[derive(Debug, PartialEq, Eq, Clone, Copy, Structural)]
pub enum PyBoolOp {
    And,
    Or,
}

#[derive(Debug, PartialEq, Eq, Clone, Copy, Structural)]
pub enum PyCompareOp {
    Eq,
    NotEq,
    Lt,
    LtE,
    Gt,
    GtE,
    Is,
    IsNot,
    In,
    NotIn,
}

#[derive(Debug, PartialEq, Eq, Clone, Copy, Structural)]
pub enum PyOperator {
    Add,
    Sub,
    Mult,
    MatMult,
    Div,
    Mod,
    Pow,
    LShift,
    RShift,
    BitOr,
    BitXor,
    BitAnd,
    FloorDiv,
}

#[derive(Debug, PartialEq, Eq, Clone, Copy, Structural)]
pub enum PyUnaryOp {
    Invert,
    Not,
    UAdd,
    USub,
}

/// A constant; `Unsupported` stands for `None`, bytes, tuples, complex numbers and `...`.
#[derive(Debug, PartialEq, Eq)]
pub enum PyConstant {
    Bool(bool),
    Str(String),
    Int(String),
    Float(String),
    Unsupported,
}

#[derive(Debug, PartialEq, Eq)]
pub struct PyComprehension {
    pub target: PyExpr,
    pub iter: PyExpr,
    pub ifs: Vec<PyExpr>,
}

/// An expression node; `keywords` counts the keyword arguments of a call.
#[derive(Debug, PartialEq, Eq)]
pub enum PyExpr {
    Tuple(Vec<PyExpr>),
    Name(String),
    Call { func: Box<PyExpr>, args: Vec<PyExpr>, keywords: usize },
    Attribute { value: Box<PyExpr>, attr: String },
    BoolOp { op: PyBoolOp, values: Vec<PyExpr> },
    Compare { left: Box<PyExpr>, ops: Vec<PyCompareOp>, comparators: Vec<PyExpr> },
    BinOp { left: Box<PyExpr>, op: PyOperator, right: Box<PyExpr> },
    Subscript { value: Box<PyExpr>, slice: Box<PyExpr> },
    Constant(PyConstant),
    List(Vec<PyExpr>),
    ListComp { elt: Box<PyExpr>, generators: Vec<PyComprehension> },
    UnaryOp { op: PyUnaryOp, operand: Box<PyExpr> },
    Unsupported,
}

/// A name of an `import`, with its `as` name if it has one.
#[derive(Debug, PartialEq, Eq)]
pub struct PyAlias {
    pub name: String,
    pub asname: Option<String>,
}

/// A statement node; `args` of a function are the names of its positional parameters.
#[derive(Debug, PartialEq, Eq)]
pub enum PyStmt {
    Assign { targets: Vec<PyExpr>, value: PyExpr },
    Expr(PyExpr),
    If { test: PyExpr, body: Vec<PyStmt>, orelse: Vec<PyStmt> },
    FunctionDef { name: String, args: Vec<String>, body: Vec<PyStmt> },
    Return(Option<PyExpr>),
    While { test: PyExpr, body: Vec<PyStmt> },
    For { target: PyExpr, iter: PyExpr, body: Vec<PyStmt> },
    Break,
    Continue,
    AugAssign { target: PyExpr, op: PyOperator, value: PyExpr },
    Pass,
    Delete { targets: Vec<PyExpr> },
    ImportFrom { module: Option<String>, names: Vec<PyAlias> },
    Import { names: Vec<PyAlias> },
    Unsupported,
}

} // verus!
