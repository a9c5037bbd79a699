use optpy::ast::{
    Assign, BinaryOperation, BinaryOperator, BoolOperation, BoolOperator, CallFunction, CallMethod, Compare,
    CompareOperator, Dict, Expr, Func, If, Index, Number, Statement, UnaryOperation, UnaryOperator, While,
};
use optpy::dump::{indent_code, DumpPython};

fn var(s: &str) -> Expr {
    Expr::VariableName(s.to_string())
}

fn num(s: &str) -> Expr {
    Expr::ConstantNumber(Number::Int(s.to_string()))
}

fn less(a: Expr, b: Expr) -> Expr {
    Expr::Compare(Compare { left: Box::new(a), right: Box::new(b), op: CompareOperator::Less })
}

#[test]
fn indents_every_line() {
    assert_eq!(indent_code("a\nb"), "    a\n    b\n");
    assert_eq!(indent_code(""), "    \n");
}

#[test]
fn dumps_expressions() {
    let e = Expr::BoolOperation(BoolOperation {
        op: BoolOperator::And,
        conditions: vec![less(var("a"), var("b")), less(var("b"), num("3"))],
    });
    assert_eq!(e.to_python_code(), "((a < b)) and ((b < 3))");
    let one = Expr::BoolOperation(BoolOperation { op: BoolOperator::Or, conditions: vec![var("x")] });
    assert_eq!(one.to_python_code(), "x");
    let call = Expr::CallMethod(CallMethod {
        value: Box::new(Expr::CallFunction(CallFunction { name: "input".to_string(), args: vec![] })),
        name: "split".to_string(),
        args: vec![],
    });
    assert_eq!(call.to_python_code(), "input().split()");
    let idx = Expr::Index(Index { value: Box::new(var("v")), index: Box::new(num("0")) });
    assert_eq!(idx.to_python_code(), "v[0]");
    let arith = Expr::BinaryOperation(BinaryOperation {
        left: Box::new(var("a")),
        right: Box::new(Expr::UnaryOperation(UnaryOperation { value: Box::new(var("b")), op: UnaryOperator::Not })),
        op: BinaryOperator::FloorDiv,
    });
    assert_eq!(arith.to_python_code(), "(a // (not b))");
    let lit = Expr::List(vec![
        Expr::ConstantString("s".to_string()),
        Expr::ConstantBoolean(true),
        Expr::ConstantNone,
        Expr::Tuple(vec![num("1"), num("2")]),
        Expr::Dict(Dict { pairs: vec![(num("1"), var("x"))] }),
    ]);
    assert_eq!(lit.to_python_code(), "[\"s\", True, None, (1, 2), {1:x}]");
}

#[test]
fn dumps_statements() {
    let s = Statement::If(If {
        test: less(var("a"), var("b")),
        body: vec![Statement::Assign(Assign { target: var("x"), value: num("1") })],
        orelse: vec![Statement::Break],
    });
    assert_eq!(s.to_python_code(), "if (a < b):\n    x = 1\n\nelse:\n    break\n");
    let f = Statement::Func(Func {
        name: "f".to_string(),
        args: vec!["a".to_string(), "b".to_string()],
        body: vec![
            Statement::While(While { test: var("a"), body: vec![Statement::Continue] }),
            Statement::Return(None),
        ],
    });
    assert_eq!(f.to_python_code(), "def f(a, b):\n    while a:\n        continue\n    \n    return\n");
    let v = vec![Statement::Expression(var("a")), Statement::Return(Some(var("b")))];
    assert_eq!(v.to_python_code(), "a\nreturn b");
}
