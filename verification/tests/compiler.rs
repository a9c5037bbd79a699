use optpy::compiler::compile::{can_compile, compile_code, compile_program, try_compile_code, CodeError};
use optpy::compiler::context::{format_variable, CompileError, IdentifierStore};
use optpy::compiler::expression::LoadError;
use optpy::generator::{Delimiter, Token};
use optpy::parser::python::{PyCompareOp, PyConstant, PyExpr, PyOperator, PyStmt};
use proc_macro2::{Group, Ident, Literal, Punct, Spacing, Span, TokenStream, TokenTree};

fn stream(tokens: &[Token]) -> TokenStream {
    let mut out = TokenStream::new();
    for t in tokens {
        let tree: TokenTree = match t {
            Token::Ident(s) => Ident::new(s, Span::call_site()).into(),
            Token::Punct(c, joint) => Punct::new(*c, if *joint { Spacing::Joint } else { Spacing::Alone }).into(),
            Token::Int(v) => Literal::i64_suffixed(*v).into(),
            Token::Usize(v) => Literal::usize_suffixed(*v).into(),
            Token::Float(s) => Literal::f64_suffixed(s.parse().unwrap()).into(),
            Token::Str(s) => Literal::string(s).into(),
            Token::Group(d, inner) => {
                let d = match d {
                    Delimiter::Parenthesis => proc_macro2::Delimiter::Parenthesis,
                    Delimiter::Brace => proc_macro2::Delimiter::Brace,
                    Delimiter::Bracket => proc_macro2::Delimiter::Bracket,
                };
                Group::new(d, stream(inner)).into()
            },
        };
        out.extend(std::iter::once(tree));
    }
    out
}

fn rust(code: &str) -> String {
    code.parse::<TokenStream>().unwrap().to_string()
}

fn name(s: &str) -> PyExpr {
    PyExpr::Name(s.to_string())
}

fn call_name(f: &str, args: Vec<PyExpr>) -> PyExpr {
    PyExpr::Call { func: Box::new(name(f)), args, keywords: 0 }
}

fn call_method(value: PyExpr, attr: &str, args: Vec<PyExpr>) -> PyExpr {
    PyExpr::Call {
        func: Box::new(PyExpr::Attribute { value: Box::new(value), attr: attr.to_string() }),
        args,
        keywords: 0,
    }
}

fn num(s: &str) -> PyExpr {
    PyExpr::Constant(PyConstant::Int(s.to_string()))
}

fn binop(l: PyExpr, op: PyOperator, r: PyExpr) -> PyExpr {
    PyExpr::BinOp { left: Box::new(l), op, right: Box::new(r) }
}

fn assign(t: PyExpr, v: PyExpr) -> PyStmt {
    PyStmt::Assign { targets: vec![t], value: v }
}

fn print(e: PyExpr) -> PyStmt {
    PyStmt::Expr(call_name("print", vec![e]))
}

fn int_input() -> PyExpr {
    call_name("int", vec![call_name("input", vec![])])
}

fn compiled(code: &str) -> String {
    stream(&compile_code(code).unwrap()).to_string()
}

fn compiled_tree(program: &Vec<PyStmt>) -> String {
    stream(&compile_program(program).unwrap()).to_string()
}

/// a = int(input())
/// b = int(input())
/// answer = b - a
/// print(answer)
fn subtraction() -> Vec<PyStmt> {
    vec![
        assign(name("a"), int_input()),
        assign(name("b"), int_input()),
        assign(name("answer"), binop(name("b"), PyOperator::Sub, name("a"))),
        print(name("answer")),
    ]
}

#[test]
fn test_assign() {
    let code = r"
a = int(input())
b = int(input())
answer = b - a
print(answer)
";
    assert_eq!(
        compiled(code),
        rust(
            "fn main() {
                let mut __v0 = Value::None;
                let mut __v1 = Value::None;
                let mut __v2 = Value::None;

                __v0 = int(input());
                __v1 = int(input());
                __v2 = __v1 - __v0;
                print(__v2);
            }"
        )
    );
}

#[test]
fn test() {
    let code = "a = int(input())\nb = int(input())\nanswer = b - a\nprint(answer)\n";
    assert_eq!(
        compiled(code),
        rust(
            "fn main() {
                let mut __v0 = Value::None;
                let mut __v1 = Value::None;
                let mut __v2 = Value::None;

                __v0 = int(input());
                __v1 = int(input());
                __v2 = __v1 - __v0;
                print(__v2);
            }"
        )
    );
    assert_eq!(compiled_tree(&subtraction()), compiled(code));
}

#[test]
fn test_basic_test_if_statement() {
    let code = r"
a, b, c = map(int, input().split())
if a <= c < b:
    answer = 1
else:
    answer = 0
print(answer)
";
    assert_eq!(
        compiled(code),
        rust(
            "fn main() {
                let mut __v0 = Value::None;
                let mut __v1 = Value::None;
                let mut __v2 = Value::None;
                let mut __v3 = Value::None;
                let __tmp = map(int, input().split());
                __v0 = __tmp.index(Value::from(0usize));
                __v1 = __tmp.index(Value::from(1usize));
                __v2 = __tmp.index(Value::from(2usize));
                if __v0 <= __v2 && __v2 < __v1 {
                    __v3 = Value::from(1i64);
                } else {
                    __v3 = Value::from(0i64);
                }
                print(__v3);
            }"
        )
    );
    // the same program as a syntax tree
    let tree = vec![
        assign(
            PyExpr::Tuple(vec![name("a"), name("b"), name("c")]),
            call_name("map", vec![name("int"), call_method(call_name("input", vec![]), "split", vec![])]),
        ),
        PyStmt::If {
            test: PyExpr::Compare {
                left: Box::new(name("a")),
                ops: vec![PyCompareOp::LtE, PyCompareOp::Lt],
                comparators: vec![name("c"), name("b")],
            },
            body: vec![assign(name("answer"), num("1"))],
            orelse: vec![assign(name("answer"), num("0"))],
        },
        print(name("answer")),
    ];
    assert_eq!(compiled_tree(&tree), compiled(code));
}

#[test]
fn test_for_loop() {
    let code = r"
n=int(input())
ans=1
for i in range(1,n+1):
    ans = ans * i
print(ans)
";
    assert_eq!(
        compiled(code),
        rust(
            "fn main() {
                let mut __v0 = Value::None;
                let mut __v1 = Value::None;
                let mut __v2 = Value::None;
                __v0 = int(input());
                __v1 = Value::from(1i64);
                for __for_tmp_v in range!(Value::from(1i64), __v0 + Value::from(1i64)) {
                    let __for_tmp_v = Value::from(__for_tmp_v);
                    __v2 = __for_tmp_v;
                    __v1 = __v1 * __v2;
                }
                print(__v1);
            }"
        )
    );

    let code = r"
n=int(input())
ans=1
for i, j in range(1,n+1):
    ans = ans * i
print(ans)
";
    assert_eq!(
        compiled(code),
        rust(
            "fn main() {
                let mut __v0 = Value::None;
                let mut __v1 = Value::None;
                let mut __v2 = Value::None;
                let mut __v3 = Value::None;
                __v0 = int(input());
                __v1 = Value::from(1i64);
                for __for_tmp_v in range!(Value::from(1i64), __v0 + Value::from(1i64)) {
                    let __for_tmp_v = Value::from(__for_tmp_v);
                    let __tmp = __for_tmp_v;
                    __v2 = __tmp.index(Value::from(0usize));
                    __v3 = __tmp.index(Value::from(1usize));
                    __v1 = __v1 * __v2;
                }
                print(__v1);
            }"
        )
    );
}

#[test]
fn compile_function_definition() {
    let code = r"
def my_function(a, b, c):
    return a + b + c

print(my_function(1, 2, 3))
";
    assert_eq!(
        compiled(code),
        rust(
            "fn main() {
                let mut __v0 = Value::None;
                fn __v0(__v1: Value, __v2: Value, __v3: Value,) -> Value {
                    struct Context { __v1: Value, __v2: Value, __v3: Value, }
                    let mut ctx = Context { __v1, __v2, __v3 };
                    return __v1 + __v2 + __v3;
                }
                print(__v0(Value::from(1i64), Value::from(2i64), Value::from(3i64)));
            }"
        )
    );
}

#[test]
fn compile_big_and_float_numbers() {
    let code = "a = 123456789012345678901234567890\nb = 1.5\nreturn\n";
    assert_eq!(
        compiled(code),
        rust(
            "fn main() {
                let mut __v0 = Value::None;
                let mut __v1 = Value::None;
                __v0 = Value::bigint(\"123456789012345678901234567890\");
                __v1 = Value::float(1.5f64);
                return Value::None;
            }"
        )
    );
}

#[test]
fn compile_errors() {
    // print(x): x is declared nowhere
    assert_eq!(
        compile_code("print(x)\n"),
        Err(CodeError::Compile(CompileError::Undeclared { ctx: vec![], name: "x".to_string() }))
    );
    // a name of the top level is not seen inside a function
    assert_eq!(
        compile_code("a = 1\ndef f():\n    return a\n"),
        Err(CodeError::Compile(CompileError::Undeclared { ctx: vec!["__v1".to_string()], name: "a".to_string() }))
    );
    // keyword arguments
    assert_eq!(compile_code("print(end='')\n"), Err(CodeError::Compile(CompileError::Load(LoadError::Keywords))));
    // a string literal
    assert_eq!(compile_code("a = 'x'\n"), Err(CodeError::Compile(CompileError::Load(LoadError::Expression))));
    // a while loop
    assert_eq!(compile_code("while a:\n    pass\n"), Err(CodeError::Compile(CompileError::Load(LoadError::Statement))));
    // not Python
    assert!(matches!(compile_code("a = = 1\n"), Err(CodeError::Syntax(_))));
}

#[test]
fn try_compile_code_refuses_what_would_panic() {
    // an assignment to two targets
    assert!(try_compile_code("a = b = 1\n").is_none());
    // an operator without code
    assert!(try_compile_code("print(1 / 2)\n").is_none());
    // an octal escape above 255
    assert!(try_compile_code("a = '\\777'\n").is_none());
    // an exponent without digits
    assert!(try_compile_code("a = 1.e\n").is_none());
    // a formatted string
    assert!(try_compile_code("a = f'{1}'\n").is_none());
    // the same characters in a comment are read
    assert!(try_compile_code("a = 1 # 1.e\nprint(a)\n").is_some());
    // the others are compiled as compile_code compiles them
    let code = "a = int(input())\nprint(a)\n";
    assert_eq!(try_compile_code(code), Some(compile_code(code)));
    assert!(matches!(try_compile_code("a = = 1\n"), Some(Err(CodeError::Syntax(_)))));
}

#[test]
fn can_compile_tells_the_panics_apart() {
    assert!(can_compile(&subtraction()));
    // a = b = 1: an assignment to two targets
    let two = vec![PyStmt::Assign { targets: vec![name("a"), name("b")], value: num("1") }];
    assert!(!can_compile(&two));
    // a tuple outside an assignment target
    let tuple = vec![print(PyExpr::Tuple(vec![num("1"), num("2")]))];
    assert!(!can_compile(&tuple));
    // an operator without code
    let div = vec![print(binop(num("1"), PyOperator::Div, num("2")))];
    assert!(!can_compile(&div));
    // a failure of loading comes before: this is an error, not a panic
    let early = vec![
        PyStmt::While { test: name("a"), body: vec![] },
        PyStmt::Assign { targets: vec![name("a"), name("b")], value: num("1") },
    ];
    assert!(can_compile(&early));
    assert_eq!(compile_program(&early), Err(CompileError::Load(LoadError::Statement)));
}

#[test]
fn identifier_store_names_each_variable_once() {
    let mut store = IdentifierStore::new();
    let top: Vec<String> = vec![];
    let inner = vec!["__v1".to_string()];
    assert_eq!(store.declare(&top, &"b".to_string()), "__v0");
    assert_eq!(store.declare(&top, &"a".to_string()), "__v1");
    assert_eq!(store.declare(&top, &"b".to_string()), "__v0");
    assert_eq!(store.declare(&inner, &"b".to_string()), "__v2");
    assert_eq!(store.fetch(&top, &"a".to_string()), Ok(("__v1".to_string(), true)));
    assert_eq!(store.fetch(&inner, &"b".to_string()), Ok(("__v2".to_string(), true)));
    assert_eq!(store.fetch(&inner, &"range".to_string()), Ok(("range!".to_string(), false)));
    assert_eq!(
        store.fetch(&inner, &"a".to_string()),
        Err(CompileError::Undeclared { ctx: inner.clone(), name: "a".to_string() })
    );
    // in the order of the names: a, b
    assert_eq!(store.list_declared_variables(&top), vec!["__v1".to_string(), "__v0".to_string()]);
    assert_eq!(store.list_declared_variables(&vec!["x".to_string()]), Vec::<String>::new());
    assert_eq!(format_variable(12), "__v12");
}

#[test]
fn test_test() {
    let code = r"
def my_function(a, b, c):
    return a + b + c

a, b, c = map(int, input().split())
print(my_function(a, b, c))
";
    let tokens = compile_code(code).unwrap();
    let text = stream(&tokens).to_string();
    assert!(text.starts_with("fn main"));
    assert!(text.contains("struct Context"));
}
