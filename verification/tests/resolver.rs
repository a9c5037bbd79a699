use optpy::ast::{CallFunction, Expr, Func, Number, Statement};
use optpy::parser::parse;
use optpy::resolver::error::Error;
use optpy::resolver::call::ReferenceStore;
use optpy::resolver::name::{resolve_names, ContextPath, NameStore};
use optpy::resolver::resolve;
use optpy::resolver::sorted::{string_lt, SortedMap, SortedStrings};

/// The lines of `s`, each cut after its first `|`, as in a margin-stripped string.
fn strip_margin(s: &str) -> String {
    s.lines()
        .filter_map(|l| l.find('|').map(|i| &l[i + 1..]))
        .collect::<Vec<_>>()
        .join("\n")
}

#[test]
fn test_non_variable_function() {
    let code = strip_margin(
        r"
            |def f():
            |   return 1
            |print(f())",
    );

    let ast = parse(&code).unwrap();
    let (statements, definitions) = resolve(&ast);

    assert_eq!(
        statements,
        vec![
            Statement::Func(Func {
                name: "__f0".into(),
                args: vec![],
                body: vec![Statement::Return(Some(Expr::ConstantNumber(Number::Int("1".into()))))],
            }),
            Statement::Expression(Expr::CallFunction(CallFunction {
                name: "print__macro__".into(),
                args: vec![Expr::CallFunction(CallFunction { name: "__f0".into(), args: vec![] })],
            })),
        ]
    );
    let entries: Vec<(String, Vec<String>)> =
        definitions.entries.iter().map(|(k, v)| (k.clone(), v.items.clone())).collect();
    assert_eq!(entries, vec![("".to_string(), vec![]), ("__f0".to_string(), vec![])]);
}

// The tuple `a, b = map(int, input().split())` is written below as it is taken item by item
// through an iterator, the form the expected programs hold.

#[test]
fn test_basic_resolver() {
    let code = strip_margin(
        r"
            |t = iter(map(int, input().split()))
            |a = next(t)
            |b = next(t)
            |print(a)
            |",
    );
    let ast = parse(&code).unwrap();
    let resolved = resolve_names(&ast);

    let expected = strip_margin(
        r"
            |__v0 = iter(map(int, input().split()))
            |__v1 = next(__v0)
            |__v2 = next(__v0)
            |print(__v1)",
    );
    assert_eq!(resolved, parse(&expected).unwrap());
}

#[test]
fn test_function_resolver() {
    let code = strip_margin(
        r"
            |t = iter(map(int, input().split()))
            |a = next(t)
            |b = next(t)
            |def func(a):
            |    return a + b
            |c = func(a)
            |print(c)
            |",
    );
    let ast = parse(&code).unwrap();
    let resolved = resolve_names(&ast);

    let expected = strip_margin(
        r"
            |__v0 = iter(map(int, input().split()))
            |__v1 = next(__v0)
            |__v2 = next(__v0)
            |def __f0(__v3):
            |    return __v3 + __v2
            |__v4 = __f0(__v1)
            |print(__v4)",
    );
    assert_eq!(resolved, parse(&expected).unwrap());

    let code = strip_margin(
        r"
            |t = iter(map(int, input().split()))
            |a = next(t)
            |b = next(t)
            |c = a + b
            |def f(a):
            |   def g(a):
            |       return a + b + c
            |   return g(b) + a
            |d = f(a + b + c)
            |print(d)
        ",
    );

    let expected = strip_margin(
        r"
            |__v0 = iter(map(int, input().split()))
            |__v1 = next(__v0)
            |__v2 = next(__v0)
            |__v3 = __v1 + __v2
            |def __f0(__v4):
            |    def __f1(__v5):
            |        return __v5 + __v2 + __v3
            |    return __f1(__v2) + __v4
            |__v6 = __f0(__v1 + __v2 + __v3)
            |print(__v6)",
    );
    assert_eq!(resolve_names(&parse(&code).unwrap()), parse(&expected).unwrap());

    let code = strip_margin(
        r"
            |t = iter(map(int, input().split()))
            |a = next(t)
            |b = next(t)
            |c = a + b
            |def f(a):
            |    def g(a):
            |        d = b + c
            |        return a + d
            |    return g(b) + a
            |d = f(a + b + c)
            |print(d)
        ",
    );

    let expected = strip_margin(
        r"
            |__v0 = iter(map(int, input().split()))
            |__v1 = next(__v0)
            |__v2 = next(__v0)
            |__v3 = __v1 + __v2
            |def __f0(__v4):
            |    def __f1(__v5):
            |        __v6 = __v2 + __v3
            |        return __v5 + __v6
            |    return __f1(__v2) + __v4
            |__v7 = __f0(__v1 + __v2 + __v3)
            |print(__v7)",
    );
    assert_eq!(resolve_names(&parse(&code).unwrap()), parse(&expected).unwrap());
}

#[test]
fn resolving_again_changes_nothing() {
    // a, b = map(int, input().split())
    // def f(x):
    //     return x + a
    // print(f(b))
    let code = "a, b = map(int, input().split())\ndef f(x):\n    return x + a\nprint(f(b))\n";
    let (once, defs) = resolve(&parse(code).unwrap());
    let (twice, defs_again) = resolve(&once);
    assert_eq!(once, twice);
    let view = |d: &SortedMap| -> Vec<(String, Vec<String>)> {
        d.entries.iter().map(|(k, v)| (k.clone(), v.items.clone())).collect()
    };
    assert_eq!(view(&defs), view(&defs_again));
}

#[test]
fn sorted_strings_and_maps() {
    let mut s = SortedStrings::new();
    assert!(s.insert("b".to_string()));
    assert!(s.insert("a".to_string()));
    assert!(!s.insert("b".to_string()));
    assert!(s.insert("ab".to_string()));
    assert_eq!(s.items, vec!["a".to_string(), "ab".to_string(), "b".to_string()]);
    assert!(s.contains(&"ab".to_string()));
    assert!(s.remove(&"a".to_string()));
    assert!(!s.remove(&"a".to_string()));
    assert_eq!(s.len(), 2);
    assert!(string_lt(&"a".to_string(), &"ab".to_string()));
    assert!(!string_lt(&"b".to_string(), &"ab".to_string()));
    let mut m = SortedMap::new();
    m.put("g".to_string(), s.copy());
    m.put("f".to_string(), SortedStrings::new());
    assert_eq!(m.entries.iter().map(|(k, _)| k.clone()).collect::<Vec<_>>(), vec!["f".to_string(), "g".to_string()]);
    assert_eq!(m.get(&"g".to_string()).map(|v| v.items), Some(vec!["ab".to_string(), "b".to_string()]));
    assert!(m.get(&"h".to_string()).is_none());
}

#[test]
fn unresolved_name_message() {
    let e = Error::Unresolved("foo".to_string());
    assert_eq!(e.message(), "unresolved name: foo");
    let e = Error::Unresolved(String::new());
    assert_eq!(e.message(), "unresolved name: ");
}

#[test]
fn reference_store_variables_accumulate() {
    let mut s = ReferenceStore::new();
    s.record(&"b".to_string(), &"f".to_string());
    s.record(&"a".to_string(), &"g".to_string());
    s.record(&"b".to_string(), &"g".to_string());
    s.remove_function(&"f".to_string());
    s.remove_function(&"g".to_string());
    assert_eq!(s.list_variables(), vec!["a".to_string(), "b".to_string()]);
}

#[test]
fn name_store_gives_distinct_names() {
    let mut s = NameStore::new("__v");
    let top = ContextPath(vec![]);
    let inner = top.join("f");
    s.declare("x", &top);
    s.declare("y", &top);
    s.declare("x", &inner);
    s.declare("x", &top);
    assert_eq!(s.resolve("x", &top), Some("__v0".to_string()));
    assert_eq!(s.resolve("y", &top), Some("__v1".to_string()));
    assert_eq!(s.resolve("x", &inner), Some("__v2".to_string()));
    assert_eq!(s.resolve("y", &inner), Some("__v1".to_string()));
    assert_eq!(s.resolve("z", &inner), None);
}
