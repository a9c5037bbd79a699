use optpy::ast::{Assign, BinaryOperation, BinaryOperator, CallFunction, Expr, Import, Index, Number, Statement};
use optpy::generator::{generate_code, parse_int, statements_generatable, CodeGenerator, Delimiter, Token};
use optpy::resolver::sorted::{SortedMap, SortedStrings};
use proc_macro2::{Group, Ident, Literal, Punct, Spacing, Span, TokenStream, TokenTree};

fn stream(tokens: &[Token]) -> TokenStream {
    let mut out = TokenStream::new();
    for t in tokens {
        let tree: TokenTree = match t {
            Token::Ident(s) => Ident::new(s, Span::call_site()).into(),
            Token::Punct(c, joint) => Punct::new(*c, if *joint { Spacing::Joint } else { Spacing::Alone }).into(),
            Token::Int(v) => Literal::i64_suffixed(*v).into(),
            Token::Usize(v) => Literal::usize_suffixed(*v).into(),
            Token::Float(s) => Literal::f64_suffixed(s.parse().unwrap()).into(),
            Token::Str(s) => Literal::string(s).into(),
            Token::Group(d, inner) => {
                let d = match d {
                    Delimiter::Parenthesis => proc_macro2::Delimiter::Parenthesis,
                    Delimiter::Brace => proc_macro2::Delimiter::Brace,
                    Delimiter::Bracket => proc_macro2::Delimiter::Bracket,
                };
                Group::new(d, stream(inner)).into()
            },
        };
        out.extend(std::iter::once(tree));
    }
    out
}

fn rust(code: &str) -> String {
    code.parse::<TokenStream>().unwrap().to_string()
}

fn var(s: &str) -> Expr {
    Expr::VariableName(s.to_string())
}

fn call(f: &str, args: Vec<Expr>) -> Expr {
    Expr::CallFunction(CallFunction { name: f.to_string(), args })
}

fn num(s: &str) -> Expr {
    Expr::ConstantNumber(Number::Int(s.to_string()))
}

fn definitions(entries: &[(&str, &[&str])]) -> SortedMap {
    let mut m = SortedMap::new();
    for (f, vs) in entries {
        let mut s = SortedStrings::new();
        for v in vs.iter() {
            s.insert(v.to_string());
        }
        m.put(f.to_string(), s);
    }
    m
}

#[test]
fn generates_main_with_declarations() {
    // __v1 = num(input())
    // __v0[__v1] = __v1 + 1
    // print(__v0, __v1)
    let program = vec![
        Statement::Assign(Assign { target: var("__v1"), value: call("int", vec![call("input", vec![])]) }),
        Statement::Assign(Assign {
            target: Expr::Index(Index { value: Box::new(var("__v0")), index: Box::new(var("__v1")) }),
            value: Expr::BinaryOperation(BinaryOperation {
                left: Box::new(var("__v1")),
                right: Box::new(num("1")),
                op: BinaryOperator::Add,
            }),
        }),
        Statement::Expression(call("print__macro__", vec![var("__v0"), var("__v1")])),
    ];
    let defs = definitions(&[("", &["__v1", "__v0"])]);
    assert_eq!(
        stream(&generate_code(&program, &defs)).to_string(),
        rust(
            "fn main() {
                let mut __v0 = Value::default();
                let mut __v1 = Value::default();
                __v1.assign(int(input()));
                __v0.__index_ref(__v1.__shallow_copy()).assign(__v1.__add(Value::from(1i64)));
                print!(__v0.__shallow_copy(), __v1.__shallow_copy());
            }"
        )
    );
}

#[test]
fn generates_functions_and_blocks() {
    // def __f0(__v1):
    //     while __v1 > 0:
    //         __v1 = __v1 - 1
    //     return [__v1, "a", True, None]
    let func = Statement::Func(optpy::ast::Func {
        name: "__f0".to_string(),
        args: vec!["__v1".to_string()],
        body: vec![
            Statement::While(optpy::ast::While {
                test: Expr::Compare(optpy::ast::Compare {
                    left: Box::new(var("__v1")),
                    right: Box::new(num("0")),
                    op: optpy::ast::CompareOperator::Greater,
                }),
                body: vec![Statement::Assign(Assign {
                    target: var("__v1"),
                    value: Expr::BinaryOperation(BinaryOperation {
                        left: Box::new(var("__v1")),
                        right: Box::new(num("1")),
                        op: BinaryOperator::Sub,
                    }),
                })],
            }),
            Statement::Return(Some(Expr::List(vec![
                var("__v1"),
                Expr::ConstantString("a".to_string()),
                Expr::ConstantBoolean(true),
                Expr::ConstantNone,
            ]))),
        ],
    });
    let defs = definitions(&[("", &[]), ("__f0", &[])]);
    assert_eq!(
        stream(&generate_code(&vec![func], &defs)).to_string(),
        rust(
            "fn main() {
                fn __f0(mut __v1: Value) -> Value {
                    while (__v1.__gt(Value::from(0i64))).test() {
                        __v1.assign(__v1.__sub(Value::from(1i64)));
                    }
                    return Value::from(vec![
                        Value::from(__v1.__shallow_copy()),
                        Value::from(Value::from(\"a\")),
                        Value::from(Value::from(true)),
                        Value::from(Value::default())
                    ]);
                    return Default::default();
                }
            }"
        )
    );
}

#[test]
fn parses_i64_literals() {
    assert_eq!(parse_int(&"123".to_string()), Some(123));
    assert_eq!(parse_int(&"+5".to_string()), Some(5));
    assert_eq!(parse_int(&"-9223372036854775808".to_string()), Some(i64::MIN));
    assert_eq!(parse_int(&"9223372036854775807".to_string()), Some(i64::MAX));
    assert_eq!(parse_int(&"9223372036854775808".to_string()), None);
    assert_eq!(parse_int(&"".to_string()), None);
    assert_eq!(parse_int(&"-".to_string()), None);
    assert_eq!(parse_int(&"12a".to_string()), None);
}

#[test]
fn generatable_programs() {
    let ok = vec![Statement::Expression(call("print__macro__", vec![num("12")]))];
    assert!(statements_generatable(&ok));
    let big = vec![Statement::Expression(num("99999999999999999999"))];
    assert!(!statements_generatable(&big));
    let import = vec![Statement::Import(Import { import: "math".to_string(), alias: "math".to_string() })];
    assert!(!statements_generatable(&import));
    let body = CodeGenerator::default().generate_function_body(&ok, &"".to_string(), &definitions(&[("", &["__v0"])]));
    assert_eq!(stream(&body).to_string(), rust("let mut __v0 = Value::default(); print!(Value::from(12i64));"));
}
