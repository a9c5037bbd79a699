use optpy::ast::{Assign, CallFunction, CallMethod, Expr, Index, Number, Statement};
use optpy::parser::{parse, parse_syntax, try_parse, try_parse_syntax, SourceError};
use optpy::parser::python::{PyBoolOp, PyCompareOp, PyConstant, PyExpr, PyStmt};

fn name(s: &str) -> PyExpr {
    PyExpr::Name(s.to_string())
}

fn call_name(f: &str, args: Vec<PyExpr>) -> PyExpr {
    PyExpr::Call { func: Box::new(name(f)), args, keywords: 0 }
}

fn call_method(value: PyExpr, attr: &str, args: Vec<PyExpr>) -> PyExpr {
    PyExpr::Call {
        func: Box::new(PyExpr::Attribute { value: Box::new(value), attr: attr.to_string() }),
        args,
        keywords: 0,
    }
}

fn num(s: &str) -> PyExpr {
    PyExpr::Constant(PyConstant::Int(s.to_string()))
}

fn subscript(v: PyExpr, i: PyExpr) -> PyExpr {
    PyExpr::Subscript { value: Box::new(v), slice: Box::new(i) }
}

fn assign(t: PyExpr, v: PyExpr) -> PyStmt {
    PyStmt::Assign { targets: vec![t], value: v }
}

#[test]
fn basic() {
    let code = r"
a, b, c = input().split()
print(a)
";

    let expected = r"
__tmp_for_tuple = input().split()
a = __tmp_for_tuple[0]
b = __tmp_for_tuple[1]
c = __tmp_for_tuple[2]
print(a)";
    assert_eq!(parse(code).unwrap(), parse(expected).unwrap());
    let r = parse(code).unwrap();
    assert_eq!(r.len(), 5);
    assert_eq!(
        r[1],
        Statement::Assign(Assign {
            target: Expr::VariableName("a".to_string()),
            value: Expr::Index(Index {
                value: Box::new(Expr::VariableName("__tmp_for_tuple".to_string())),
                index: Box::new(Expr::ConstantNumber(Number::Int("0".to_string()))),
            }),
        })
    );
    assert_eq!(
        r[0],
        Statement::Assign(Assign {
            target: Expr::VariableName("__tmp_for_tuple".to_string()),
            value: Expr::CallMethod(CallMethod {
                value: Box::new(Expr::CallFunction(CallFunction { name: "input".to_string(), args: vec![] })),
                name: "split".to_string(),
                args: vec![],
            }),
        })
    );
}

#[test]
fn tuple_assignment_from_the_syntax_tree() {
    // a, b, c = input().split()
    // print(a)
    let code = vec![
        assign(
            PyExpr::Tuple(vec![name("a"), name("b"), name("c")]),
            call_method(call_name("input", vec![]), "split", vec![]),
        ),
        PyStmt::Expr(call_name("print", vec![name("a")])),
    ];
    let expected = vec![
        assign(name("__tmp_for_tuple"), call_method(call_name("input", vec![]), "split", vec![])),
        assign(name("a"), subscript(name("__tmp_for_tuple"), num("0"))),
        assign(name("b"), subscript(name("__tmp_for_tuple"), num("1"))),
        assign(name("c"), subscript(name("__tmp_for_tuple"), num("2"))),
        PyStmt::Expr(call_name("print", vec![name("a")])),
    ];
    assert_eq!(parse_syntax(&code), parse_syntax(&expected));
    assert_eq!(parse_syntax(&code), parse("a, b, c = input().split()\nprint(a)\n").unwrap());
}

fn compare(left: PyExpr, ops: Vec<PyCompareOp>, comparators: Vec<PyExpr>) -> PyExpr {
    PyExpr::Compare { left: Box::new(left), ops, comparators }
}

#[test]
fn lib_test_if_statement() {
    let code = r"
if a <= c < b:
    result = 1
else:
    result = 2
print(result)
";
    let expected = r"
if a<=c and c<b:
    result = 1
else:
    result = 2
print(result)
";
    assert_eq!(parse(code).unwrap(), parse(expected).unwrap());
}

#[test]
fn chained_comparison_from_the_syntax_tree() {
    let code = vec![
        PyStmt::If {
            test: compare(name("a"), vec![PyCompareOp::LtE, PyCompareOp::Lt], vec![name("c"), name("b")]),
            body: vec![assign(name("result"), num("1"))],
            orelse: vec![assign(name("result"), num("2"))],
        },
        PyStmt::Expr(call_name("print", vec![name("result")])),
    ];
    let expected = vec![
        PyStmt::If {
            test: PyExpr::BoolOp {
                op: PyBoolOp::And,
                values: vec![
                    compare(name("a"), vec![PyCompareOp::LtE], vec![name("c")]),
                    compare(name("c"), vec![PyCompareOp::Lt], vec![name("b")]),
                ],
            },
            body: vec![assign(name("result"), num("1"))],
            orelse: vec![assign(name("result"), num("2"))],
        },
        PyStmt::Expr(call_name("print", vec![name("result")])),
    ];
    assert_eq!(parse_syntax(&code), parse_syntax(&expected));
}

#[test]
fn source_errors() {
    // not Python
    assert!(matches!(parse("a = = 1\n"), Err(SourceError::Syntax(_))));
    assert!(matches!(try_parse("if :\n"), Err(SourceError::Syntax(_))));
    // an octal escape above 255, which the reader cannot take
    assert!(matches!(try_parse("s = '\\777'\n"), Err(SourceError::OctalEscape)));
    // a number whose exponent has no digits, which the reader cannot take
    assert!(matches!(try_parse("x = 1.e\n"), Err(SourceError::EmptyExponent)));
    assert!(matches!(try_parse("x = 1.5e+\n"), Err(SourceError::EmptyExponent)));
    assert!(matches!(try_parse("x = .5E\n"), Err(SourceError::EmptyExponent)));
    assert!(try_parse("x = 1.5e3\nxs.extend(a)\n").is_ok());
    // a formatted string, whose parts the reader reads again after decoding them
    assert!(matches!(try_parse("x = f\"{\\x31\\x2ee}\"\n"), Err(SourceError::FormattedString)));
    assert!(matches!(try_parse("x = f'{a}'\n"), Err(SourceError::FormattedString)));
    assert!(matches!(try_parse("x = rF'a'\n"), Err(SourceError::FormattedString)));
    // the same characters in a string, a comment or after an escaped backslash are read
    assert!(try_parse("x = '1.e'\n").is_ok());
    // an octal escape in a raw string is no escape; after a name, the string is not raw
    assert!(try_parse("x = r'\\400'\n").is_ok());
    assert!(matches!(try_parse("x = xr'\\400'\n"), Err(SourceError::OctalEscape)));
    assert!(try_parse("x = 1 # 1.e and \\400\n").is_ok());
    assert!(try_parse("x = '\\\\400'\n").is_ok());
    assert!(try_parse("x = \"half\"\r\ny = '''1.e\n\\\\''' + 'if'\r\n").is_ok());
    // a node that the passes do not take: a dict literal
    assert!(matches!(try_parse("d = {1: 2}\n"), Err(SourceError::Unsupported)));
    // what parse takes, try_parse reads the same way
    assert_eq!(try_parse("print(a)\n").unwrap(), parse("print(a)\n").unwrap());
}

#[test]
fn try_parse_refuses_what_parse_does_not_take() {
    // a bare attribute is not an expression the reader knows
    let attr = vec![PyStmt::Expr(PyExpr::Attribute { value: Box::new(name("a")), attr: "b".to_string() })];
    assert_eq!(try_parse_syntax(&attr), None);
    // a keyword argument
    let kw = vec![PyStmt::Expr(PyExpr::Call { func: Box::new(name("f")), args: vec![], keywords: 1 })];
    assert_eq!(try_parse_syntax(&kw), None);
    // a statement of an unknown kind
    assert_eq!(try_parse_syntax(&vec![PyStmt::Unsupported]), None);
    // a comprehension in the filter of a comprehension
    let inner = PyExpr::ListComp {
        elt: Box::new(name("y")),
        generators: vec![optpy::parser::python::PyComprehension { target: name("y"), iter: name("b"), ifs: vec![] }],
    };
    let outer = PyExpr::ListComp {
        elt: Box::new(name("x")),
        generators: vec![optpy::parser::python::PyComprehension { target: name("x"), iter: name("a"), ifs: vec![inner] }],
    };
    assert_eq!(try_parse_syntax(&vec![assign(name("r"), outer)]), None);
    // what parse takes, try_parse reads the same way
    let code = vec![PyStmt::Expr(call_name("print", vec![name("a")]))];
    assert_eq!(try_parse_syntax(&code), Some(parse_syntax(&code)));
}

#[test]
fn for_loops_become_while_loops() {
    // for x in xs:
    //     for y in x:
    //         print(y)
    let code = vec![PyStmt::For {
        target: name("x"),
        iter: name("xs"),
        body: vec![PyStmt::For {
            target: name("y"),
            iter: name("x"),
            body: vec![PyStmt::Expr(call_name("print", vec![name("y")]))],
        }],
    }];
    let r = parse_syntax(&code);
    assert_eq!(r.len(), 2);
    assert_eq!(parse("for x in xs:\n    for y in x:\n        print(y)\n").unwrap().len(), 2);
    let outer_tmp = match &r[0] {
        Statement::Assign(Assign { target: Expr::VariableName(tmp), value: Expr::CallFunction(CallFunction { name, args }) }) => {
            assert_eq!(name, "iter");
            assert_eq!(args.len(), 1);
            assert!(tmp.starts_with("__tmp_for_loop_iter_"));
            tmp.clone()
        }
        other => panic!("unexpected {:?}", other),
    };
    match &r[1] {
        Statement::While(w) => {
            match &w.test {
                Expr::CallFunction(CallFunction { name, args }) => {
                    assert_eq!(name, "__has_next");
                    assert_eq!(args[0], Expr::VariableName(outer_tmp.clone()));
                }
                other => panic!("unexpected {:?}", other),
            }
            assert_eq!(w.body.len(), 3);
            assert!(matches!(&w.body[1], Statement::Assign(_)));
            assert!(matches!(&w.body[2], Statement::While(_)));
        }
        other => panic!("unexpected {:?}", other),
    }
}

fn has_tuple_target(s: &Statement) -> bool {
    match s {
        Statement::Assign(Assign { target: Expr::Tuple(_), .. }) => true,
        Statement::If(i) => i.body.iter().any(has_tuple_target) || i.orelse.iter().any(has_tuple_target),
        Statement::While(w) => w.body.iter().any(has_tuple_target),
        Statement::Func(f) => f.body.iter().any(has_tuple_target),
        _ => false,
    }
}

#[test]
fn tuple_assignments_are_lowered() {
    let code = "if x:\n    a, b = f()\nwhile y:\n    for i, j in z:\n        c, d = i, j\n";
    let r = parse(code).unwrap();
    assert!(!r.iter().any(has_tuple_target));
    // a tuple inside a tuple target is lowered one level only
    let nested = parse("(a, b), c = x\n").unwrap();
    assert!(nested.iter().any(has_tuple_target));
}
