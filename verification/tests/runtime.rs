use optpy::runtime::builtin::{__min2, __range1, __range2, abs, len};
use optpy::runtime::deque::Deque;
use optpy::runtime::heapq::{heap_pop, heap_push, heapify, shift_down, shift_up};
use optpy::runtime::iter::Iter;
use optpy::runtime::list::{list, TypedList};
use optpy::runtime::number::{gcd, pow_mod, Number};
use optpy::runtime::string::{input, split_words, trim_string, ImmutableString, TypedString};
use optpy::runtime::truth::{Bool, Boolean};

#[test]
fn heap_pops_in_increasing_order() {
    let mut h: Vec<i64> = vec![5, 3, 9, 1, 7, 1];
    heapify(&mut h);
    heap_push(&mut h, 4);
    heap_push(&mut h, -2);
    let mut out = vec![];
    while !h.is_empty() {
        out.push(heap_pop(&mut h));
    }
    assert_eq!(out, vec![-2, 1, 1, 3, 4, 5, 7, 9]);
}

#[test]
fn iterators_yield_in_order() {
    let mut it = Iter::new(vec![Boolean(false), Boolean(true), Boolean(false)]);
    assert!(it.__has_next());
    assert_eq!(it.__next(), Some(Boolean(false)));
    assert!(it.any());
    let mut it = Iter::new(vec![Boolean(true), Boolean(false)]);
    assert!(!it.all());
    let mut it = Iter::new(vec![1, 2, 3]);
    assert_eq!(it.__next(), Some(1));
    assert_eq!(it.__list(), vec![2, 3]);
    assert!(!it.__has_next());
    assert_eq!(it.__next(), None);
}

#[test]
fn typed_lists() {
    let mut l = TypedList(vec![Bool(true), Bool(false)]);
    l.append(Bool(true));
    l.reverse();
    assert_eq!(l.0, vec![Bool(true), Bool(false), Bool(true)]);
    assert_eq!(l.pop(), Bool(true));
    let copy = list(l.__list());
    assert_eq!(copy.0, vec![Bool(true), Bool(false)]);
}

#[test]
fn strings_split_and_strip() {
    let words = split_words("  1 22\t333\n");
    assert_eq!(words, vec!["1".to_string(), "22".to_string(), "333".to_string()]);
    assert_eq!(trim_string("\t a b \n"), "a b".to_string());
    assert_eq!(input(" 7 8 \n").0, "7 8".to_string());
    let parts = TypedString("x  y".to_string()).split();
    assert_eq!(parts.0.iter().map(|s| s.0.clone()).collect::<Vec<_>>(), vec!["x".to_string(), "y".to_string()]);
    let s = ImmutableString("  ".to_string());
    assert!(s.test());
    assert!(!s.strip().test());
    assert_eq!(ImmutableString("a b".to_string()).split().len(), 2);
}

#[test]
fn booleans() {
    assert!(Boolean(true).__test());
    assert_eq!(Boolean(true).__bit_and(&Boolean(false)), Boolean(false));
    assert_eq!(Boolean::from(true), Boolean(true));
}

#[test]
fn pow_mod_by_squaring() {
    assert_eq!(pow_mod(2, 10, 1000), 24);
    assert_eq!(pow_mod(3, 0, 7), 1);
    assert_eq!(pow_mod(3, -2, 7), 1);
    // Rust's remainder keeps the sign of the power
    assert_eq!(pow_mod(-2, 3, 5), -3);
    assert_eq!(pow_mod(-2, 3, -5), -3);
    assert_eq!(pow_mod(5, 1, 1), 0);
    let m: i64 = 1_000_000_007;
    let mut expected: i128 = 1;
    for _ in 0..62 {
        expected = expected * 2 % m as i128;
    }
    assert_eq!(pow_mod(2, 62, m) as i128, expected);
}

#[test]
fn gcd_by_euclid() {
    assert_eq!(gcd(12, 18), 6);
    assert_eq!(gcd(18, 12), 6);
    assert_eq!(gcd(0, 5), 5);
    assert_eq!(gcd(7, 0), 7);
    assert_eq!(gcd(0, 0), 0);
    // the sign follows the remainders
    assert_eq!(gcd(-4, 6), 2);
    assert_eq!(gcd(4, -6), -2);
    assert_eq!(gcd(17, 5), 1);
}

#[test]
fn count_occurrences() {
    let s = |x: &str| ImmutableString(x.to_string());
    assert_eq!(s("abcabca").count(&s("a")), 3);
    assert_eq!(s("abcabca").count(&s("abc")), 2);
    // taken from the left, not overlapping
    assert_eq!(s("aaaa").count(&s("aa")), 2);
    assert_eq!(s("aaa").count(&s("aa")), 1);
    assert_eq!(s("abc").count(&s("d")), 0);
    assert_eq!(s("ab").count(&s("abc")), 0);
    // an empty pattern stands before each character and at the end
    assert_eq!(s("abc").count(&s("")), 4);
    assert_eq!(s("").count(&s("")), 1);
    assert_eq!(s("ééé").count(&s("é")), 3);
}

#[test]
fn typed_list_index_len_and_repeat() {
    let mut l = TypedList(vec![Bool(true), Bool(false), Bool(false)]);
    assert_eq!(l.__len(), 3);
    assert_eq!(l.__index_value(0), Bool(true));
    assert_eq!(l.__index_value(-1), Bool(false));
    assert_eq!(l.__index_value(-3), Bool(true));
    *l.__index_ref(-1) = Bool(true);
    assert_eq!(l.0, vec![Bool(true), Bool(false), Bool(true)]);
    let twice = l.__mul(2);
    assert_eq!(twice.0, vec![Bool(true), Bool(false), Bool(true), Bool(true), Bool(false), Bool(true)]);
    assert_eq!(l.__mul(0).0, Vec::<Bool>::new());
    assert_eq!(l.__mul(-4).0, Vec::<Bool>::new());
}

#[test]
fn typed_builtins_on_integers() {
    assert_eq!(__range1(4).0, vec![0, 1, 2, 3]);
    assert_eq!(__range1(-2).0, Vec::<i64>::new());
    assert_eq!(__range2(-2, 2).0, vec![-2, -1, 0, 1]);
    assert_eq!(__range2(3, 3).0, Vec::<i64>::new());
    assert_eq!(len(__range2(1, 11)), 10);
    assert_eq!(__min2(3, -1), -1);
    assert_eq!(__min2(2, 2), 2);
    assert_eq!(abs(-7), 7);
    assert_eq!(abs(7), 7);
    assert_eq!(list(__range1(3)).0, vec![0, 1, 2]);
}

#[test]
fn deque_at_both_ends() {
    let mut q = Deque::from_list(&__range1(3));
    assert!(q.test());
    q.appendleft(-1);
    q.append(9);
    assert_eq!(q.0.iter().copied().collect::<Vec<i64>>(), vec![-1, 0, 1, 2, 9]);
    assert_eq!(q.popleft(), -1);
    assert_eq!(q.popleft(), 0);
    let mut e: Deque<i64> = Deque::new();
    assert!(!e.test());
    e.append(5);
    assert_eq!(e.popleft(), 5);
    assert!(!e.test());
}

#[test]
fn heap_arrangements() {
    let mut x: Vec<i64> = vec![5, 4, 3, 2, 1];
    heapify(&mut x);
    assert_eq!(x, vec![1, 2, 3, 5, 4]);
    let mut h: Vec<i64> = vec![1, 3, 2];
    heap_push(&mut h, 0);
    assert_eq!(h, vec![0, 1, 2, 3]);
    let mut h: Vec<i64> = vec![1, 3, 2, 7, 4];
    assert_eq!(heap_pop(&mut h), 1);
    assert_eq!(h, vec![2, 3, 4, 7]);
    // on a sequence that is not a heap the steps run all the same
    let mut s: Vec<i64> = vec![3, 1, 2];
    heap_push(&mut s, 0);
    assert_eq!(s, vec![0, 3, 2, 1]);
    let mut d: Vec<i64> = vec![9, 5, 8, 1];
    shift_down(&mut d, 0, 3);
    assert_eq!(d, vec![1, 9, 8, 5]);
    let mut u: Vec<i64> = vec![9, 5, 8, 1];
    shift_up(&mut u, 0);
    assert_eq!(u, vec![5, 1, 8, 9]);
    let mut v: Vec<i64> = vec![2];
    shift_up(&mut v, 4);
    assert_eq!(v, vec![2]);
}

#[test]
fn shifts_stay_in_their_subtree() {
    // The subtree of position 1 is {1, 3, 4}; the entries at 0, 2, 5, 6 stay where they are.
    let mut u: Vec<i64> = vec![9, 8, 1, 7, 5, 2, 3];
    shift_up(&mut u, 1);
    assert_eq!(u, vec![9, 5, 1, 7, 8, 2, 3]);
    // Only the path from position 4 up to position 1 moves; position 0 is above `start`.
    let mut d: Vec<i64> = vec![0, 6, 1, 7, 2, 4, 3];
    shift_down(&mut d, 1, 4);
    assert_eq!(d, vec![0, 2, 1, 7, 6, 4, 3]);
}

fn int_of(n: Number) -> i64 {
    match n {
        Number::Int64(i) => i,
    }
}

#[test]
fn number_integer_operations() {
    // division rounds towards zero, as Rust's does
    assert_eq!(int_of(Number::Int64(7).floor_div(&Number::Int64(2))), 3);
    assert_eq!(int_of(Number::Int64(-7).floor_div(&Number::Int64(2))), -3);
    assert_eq!(int_of(Number::Int64(7).floor_div(&Number::Int64(-2))), -3);
    assert_eq!(int_of(Number::Int64(i64::MIN).floor_div(&Number::Int64(2))), i64::MIN / 2);
    // powers
    assert_eq!(int_of(Number::Int64(3).pow(Number::Int64(4))), 81);
    assert_eq!(int_of(Number::Int64(-2).pow(Number::Int64(63))), i64::MIN);
    assert_eq!(int_of(Number::Int64(5).pow(Number::Int64(0))), 1);
    assert_eq!(int_of(Number::Int64(-1).pow(Number::Int64(-1))), -1);
    assert_eq!(int_of(Number::Int64(0).pow(Number::Int64(3))), 0);
    // size and truth
    assert_eq!(int_of(Number::Int64(-5).abs()), 5);
    assert!(Number::Int64(-5).test());
    assert!(!Number::Int64(0).test());
}
