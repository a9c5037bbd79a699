//! Generates the Rust code of a resolved program, as a sequence of tokens.
//!
//! Every value of the program is a `Value` of the runtime: each variable is declared at the
//! top of its function, each Python function becomes a Rust function over `Value`s, and
//! each operation a method of `Value` (`a + b` is `a.__add(b)`).  A variable passed as an
//! argument is passed as its `__shallow_copy()`.
use vstd::prelude::*;
use crate::ast::{
    copy_string, every_expr, every_stmt, every_stmt_expr, strings_view, views, BinaryOperator, BoolOperator, CompareOperator, Expr, ExprV,
    Number, NumberV, Statement, StmtV, UnaryOperator,
};
use crate::resolver::sorted::{lemma_sorted_of, map_of, sorted_of, SortedMap, SortedStrings};
use crate::text::{chars_of, string_from, string_of};
use crate::dump::pair_views;

verus! {

#[derive(Debug, PartialEq, Eq, Clone, Copy, Structural)]
pub enum Delimiter {
    Parenthesis,
    Brace,
    Bracket,
}

/// A token of Rust source: an identifier, a punctuation character (`joint` when it is glued
/// to the next one, as the `:` of `::`), an `i64` or a `usize` literal, an `f64` literal by
/// its source text, a string literal, or a delimited group.
#[derive(Debug, PartialEq, Eq)]
pub enum Token {
    Ident(String),
    Punct(char, bool),
    Int(i64),
    Usize(usize),
    Float(String),
    Str(String),
    Group(Delimiter, Vec<Token>),
}

pub enum TokenV {
    Ident(Seq<char>),
    Punct(char, bool),
    Int(i64),
    Usize(usize),
    Float(Seq<char>),
    Str(Seq<char>),
    Group(Delimiter, Seq<TokenV>),
}

pub open spec fn no_token() -> TokenV {
    TokenV::Punct(' ', false)
}

pub open spec fn token_view(t: Token) -> TokenV
    decreases t,
{
    match t {
        Token::Ident(s) => TokenV::Ident(s@),
        Token::Punct(c, j) => TokenV::Punct(c, j),
        Token::Int(v) => TokenV::Int(v),
        Token::Usize(v) => TokenV::Usize(v),
        Token::Float(s) => TokenV::Float(s@),
        Token::Str(s) => TokenV::Str(s@),
        Token::Group(d, ts) => TokenV::Group(d, Seq::new(ts@.len(), |i: int| if 0 <= i < ts@.len() { token_view(ts@[i]) } else { no_token() })),
    }
}

impl View for Token {
    type V = TokenV;

    open spec fn view(&self) -> TokenV {
        token_view(*self)
    }
}

// ---------------------------------------------------------------------------
// Integer literals
// ---------------------------------------------------------------------------

pub open spec fn is_digit(c: char) -> bool {
    '0' <= c && c <= '9'
}

pub open spec fn digit_value(c: char) -> int {
    (c as int) - ('0' as int)
}

/// The value of a string of decimal digits.
pub open spec fn digits_value(s: Seq<char>) -> int
    decreases s.len(),
{
    if s.len() == 0 {
        0
    } else {
        digits_value(s.drop_last()) * 10 + digit_value(s.last())
    }
}

pub open spec fn all_digits(s: Seq<char>) -> bool {
    s.len() > 0 && forall|i: int| 0 <= i < s.len() ==> is_digit(#[trigger] s[i])
}

/// The integer that `s` writes, as `i64::from_str` reads it: an optional sign, then digits.
pub open spec fn int_value(s: Seq<char>) -> Option<int> {
    if s.len() > 0 && (s[0] == '-' || s[0] == '+') {
        if all_digits(s.skip(1)) {
            Some(if s[0] == '-' { -digits_value(s.skip(1)) } else { digits_value(s.skip(1)) })
        } else {
            None
        }
    } else if all_digits(s) {
        Some(digits_value(s))
    } else {
        None
    }
}

/// `s` as an `i64`, if it writes one in range.
pub open spec fn parse_i64(s: Seq<char>) -> Option<i64> {
    match int_value(s) {
        Some(v) => if i64::MIN <= v <= i64::MAX { Some(v as i64) } else { None },
        None => None,
    }
}

proof fn lemma_digits_value_grows(s: Seq<char>, i: int)
    requires
        0 <= i <= s.len(),
        forall|k: int| 0 <= k < s.len() ==> is_digit(#[trigger] s[k]),
    ensures
        0 <= digits_value(s.take(i)) <= digits_value(s),
    decreases s.len(),
{
    if i < s.len() {
        assert(s.drop_last().take(i) =~= s.take(i));
        lemma_digits_value_grows(s.drop_last(), i);
        assert(is_digit(s.last()));
    } else {
        assert(s.take(i) =~= s);
        if s.len() > 0 {
            lemma_digits_value_grows(s.drop_last(), s.len() - 1);
            assert(s.drop_last().take(s.len() - 1) =~= s.drop_last());
            assert(is_digit(s.last()));
        }
    }
}

/// Reads an `i64` written in decimal, as `str::parse::<i64>` does.
pub fn parse_int(text: &String) -> (r: Option<i64>)
    ensures
        r == parse_i64(text@),
{
    let s = chars_of(text.as_str());
    let n = s.len();
    if n == 0 {
        return None;
    }
    let negative = s[0] == '-';
    let start: usize = if s[0] == '-' || s[0] == '+' { 1 } else { 0 };
    let ghost d = s@.skip(start as int);
    proof {
        if start == 0 {
            assert(d =~= s@);
            assert(!(s@[0] == '-' || s@[0] == '+'));
        } else {
            assert(s@[0] == '-' || s@[0] == '+');
        }
    }
    if start >= n {
        proof {
            assert(d.len() == 0);
            assert(!all_digits(d));
        }
        return None;
    }
    let limit: i128 = 9223372036854775808;
    let mut acc: i128 = 0;
    let mut i: usize = start;
    proof {
        assert(d.take(0) =~= Seq::<char>::empty());
    }
    while i < n
        invariant
            start <= i <= n,
            n == s.len(),
            n > 0,
            start == (if s@[0] == '-' || s@[0] == '+' { 1usize } else { 0usize }),
            negative == (s@[0] == '-'),
            s@ == text@,
            d == s@.skip(start as int),
            0 <= acc <= limit,
            limit == 9223372036854775808,
            forall|k: int| 0 <= k < i - start ==> is_digit(#[trigger] d[k]),
            acc == digits_value(d.take(i - start)),
        decreases n - i,
    {
        let c = s[i];
        if !('0' <= c && c <= '9') {
            proof {
                assert(d[i - start] == c);
                assert(!is_digit(d[i - start]));
                assert(!all_digits(d));
                if start == 0 {
                    assert(d =~= s@);
                } else {
                    assert(s@.skip(1) =~= d);
                }
                assert(int_value(text@) is None);
            }
            return None;
        }
        proof {
            assert(d[i - start] == c);
            assert(d.take(i - start + 1).drop_last() =~= d.take(i - start));
        }
        let digit: i128 = (c as u32 - '0' as u32) as i128;
        acc = acc * 10 + digit;
        if acc > limit {
            proof {
                assert forall|k: int| 0 <= k < i - start + 1 implies is_digit(#[trigger] d[k]) by {}
                if all_digits(d) {
                    lemma_digits_value_grows(d, i - start + 1);
                }
                if start == 0 {
                    assert(d =~= s@);
                } else {
                    assert(s@.skip(1) =~= d);
                }
                assert(parse_i64(text@) is None);
            }
            return None;
        }
        i += 1;
    }
    proof {
        assert(d.take(n - start) =~= d);
        assert(all_digits(d));
        if start == 0 {
            assert(d =~= s@);
            assert(int_value(text@) == Some(acc as int));
        } else if negative {
            assert(int_value(text@) == Some(-(acc as int)));
        } else {
            assert(int_value(text@) == Some(acc as int));
        }
    }
    if negative {
        Some((-acc) as i64)
    } else if acc <= 9223372036854775807 {
        Some(acc as i64)
    } else {
        None
    }
}

// ---------------------------------------------------------------------------
// The generated code
// ---------------------------------------------------------------------------

/// The views of a sequence of tokens.
pub open spec fn tviews(ts: Seq<Token>) -> Seq<TokenV> {
    Seq::new(ts.len(), |i: int| ts[i]@)
}

/// The views of a sequence of token lists.
pub open spec fn lists_view(v: Seq<Vec<Token>>) -> Seq<Seq<TokenV>> {
    Seq::new(v.len(), |i: int| tviews(v[i]@))
}

pub open spec fn ident(s: Seq<char>) -> TokenV {
    TokenV::Ident(s)
}

pub open spec fn punct(c: char) -> TokenV {
    TokenV::Punct(c, false)
}

pub open spec fn joint(c: char) -> TokenV {
    TokenV::Punct(c, true)
}

pub open spec fn parens(ts: Seq<TokenV>) -> TokenV {
    TokenV::Group(Delimiter::Parenthesis, ts)
}

/// The parts joined by the tokens `sep`.
pub open spec fn join_tokens(parts: Seq<Seq<TokenV>>, sep: Seq<TokenV>) -> Seq<TokenV>
    decreases parts.len(),
{
    if parts.len() == 0 {
        seq![]
    } else if parts.len() == 1 {
        parts[0]
    } else {
        join_tokens(parts.drop_last(), sep) + sep + parts.last()
    }
}

/// The parts separated by commas.
pub open spec fn comma_list(parts: Seq<Seq<TokenV>>) -> Seq<TokenV> {
    join_tokens(parts, seq![punct(',')])
}

/// `Value::name(inner)`.
pub open spec fn value_fn(name: Seq<char>, inner: Seq<TokenV>) -> Seq<TokenV> {
    seq![ident("Value"@), joint(':'), punct(':'), ident(name), parens(inner)]
}

/// `Value::from(inner)`.
pub open spec fn value_from(inner: Seq<TokenV>) -> Seq<TokenV> {
    value_fn("from"@, inner)
}

/// `recv.name(args)`.
pub open spec fn method(recv: Seq<TokenV>, name: Seq<char>, args: Seq<TokenV>) -> Seq<TokenV> {
    recv + seq![punct('.'), ident(name), parens(args)]
}

/// `vec![items]`.
pub open spec fn vec_of(items: Seq<Seq<TokenV>>) -> Seq<TokenV> {
    seq![ident("vec"@), punct('!'), TokenV::Group(Delimiter::Bracket, comma_list(items))]
}

pub open spec fn ident_char(c: char) -> bool {
    ('0' <= c && c <= '9') || ('A' <= c && c <= 'Z') || ('a' <= c && c <= 'z') || c == '_'
}

/// The tokens are a lone identifier made of ASCII letters, digits and underscores.
pub open spec fn is_plain(ts: Seq<TokenV>) -> bool {
    &&& ts.len() == 1
    &&& ts[0] is Ident
    &&& forall|i: int| 0 <= i < ts[0]->Ident_0.len() ==> ident_char(#[trigger] ts[0]->Ident_0[i])
}

/// An argument: a plain variable is passed as its shallow copy.
pub open spec fn arg(ts: Seq<TokenV>) -> Seq<TokenV> {
    if is_plain(ts) {
        method(ts, "__shallow_copy"@, seq![])
    } else {
        ts
    }
}

pub open spec fn macro_suffix() -> Seq<char> {
    seq!['_', '_', 'm', 'a', 'c', 'r', 'o', '_', '_']
}

/// The function name asks for a macro of the runtime.
pub open spec fn is_macro(name: Seq<char>) -> bool {
    name.len() >= 9 && name.skip(name.len() - 9) == macro_suffix()
}

pub open spec fn compare_ident(op: CompareOperator) -> Seq<char> {
    match op {
        CompareOperator::Less => "__lt"@,
        CompareOperator::LessOrEqual => "__le"@,
        CompareOperator::Greater => "__gt"@,
        CompareOperator::GreaterOrEqual => "__ge"@,
        CompareOperator::Equal => "__eq"@,
        CompareOperator::NotEqual => "__ne"@,
        CompareOperator::In => "__in"@,
        CompareOperator::NotIn => "__not_in"@,
    }
}

pub open spec fn binary_ident(op: BinaryOperator) -> Seq<char> {
    match op {
        BinaryOperator::Add => "__add"@,
        BinaryOperator::Sub => "__sub"@,
        BinaryOperator::Mul => "__mul"@,
        BinaryOperator::Div => "__div"@,
        BinaryOperator::Mod => "__rem"@,
        BinaryOperator::FloorDiv => "__floor_div"@,
        BinaryOperator::Pow => "__pow"@,
        BinaryOperator::BitAnd => "__bit_and"@,
        BinaryOperator::LeftShift => "__left_shift"@,
        BinaryOperator::RightShift => "__right_shift"@,
    }
}

pub open spec fn unary_ident(op: UnaryOperator) -> Seq<char> {
    match op {
        UnaryOperator::Add => "__unary_add"@,
        UnaryOperator::Sub => "__unary_sub"@,
        UnaryOperator::Not => "__unary_not"@,
    }
}

/// `&&` or `||`.
pub open spec fn bool_symbol(op: BoolOperator) -> Seq<TokenV> {
    match op {
        BoolOperator::And => seq![joint('&'), punct('&')],
        BoolOperator::Or => seq![joint('|'), punct('|')],
    }
}

/// The literal of a number: an `i64`, or a float by its text.
pub open spec fn number_token(n: NumberV) -> TokenV {
    match n {
        NumberV::Int(s) => match parse_i64(s) {
            Some(v) => TokenV::Int(v),
            None => TokenV::Int(0),
        },
        NumberV::Float(s) => TokenV::Float(s),
    }
}

/// The Rust code of an expression; `lhs` when it is the target of an assignment.
pub open spec fn gen_expr(e: ExprV, lhs: bool) -> Seq<TokenV>
    decreases e,
{
    match e {
        ExprV::CallFunction(name, args) => {
            let a = parens(comma_list(gen_args(args)));
            if is_macro(name) {
                seq![ident(name.take(name.len() - 9)), punct('!'), a]
            } else {
                seq![ident(name), a]
            }
        },
        ExprV::CallMethod(v, name, args) => method(gen_expr(*v, false), name, comma_list(gen_args(args))),
        ExprV::Tuple(t) => value_from(vec_of(gen_items(t))),
        ExprV::VariableName(n) => seq![ident(n)],
        ExprV::BoolOperation(op, c) => value_from(join_tokens(gen_tests(c), bool_symbol(op))),
        ExprV::Compare(l, r, op) => method(gen_expr(*l, false), compare_ident(op), arg(gen_expr(*r, false))),
        ExprV::UnaryOperation(v, op) => method(gen_expr(*v, false), unary_ident(op), seq![]),
        ExprV::BinaryOperation(l, r, op) => method(gen_expr(*l, false), binary_ident(op), arg(gen_expr(*r, false))),
        ExprV::Index(v, i) => method(
            gen_expr(*v, lhs),
            if lhs { "__index_ref"@ } else { "__index_value"@ },
            arg(gen_expr(*i, false)),
        ),
        ExprV::ConstantNumber(n) => value_from(seq![number_token(n)]),
        ExprV::ConstantString(s) => value_from(seq![TokenV::Str(s)]),
        ExprV::ConstantBoolean(b) => value_from(seq![ident(if b { "true"@ } else { "false"@ })]),
        ExprV::ConstantNone => value_fn("default"@, seq![]),
        ExprV::List(l) => value_from(vec_of(gen_items(l))),
        ExprV::Dict(p) => value_fn("dict"@, vec_of(gen_pairs(p))),
        _ => seq![],
    }
}

/// The arguments of a call.
pub open spec fn gen_args(es: Seq<ExprV>) -> Seq<Seq<TokenV>>
    decreases es,
{
    if es.len() == 0 {
        seq![]
    } else {
        gen_args(es.drop_last()).push(arg(gen_expr(es.last(), false)))
    }
}

/// The items of a tuple or a list, each as `Value::from(..)`.
pub open spec fn gen_items(es: Seq<ExprV>) -> Seq<Seq<TokenV>>
    decreases es,
{
    if es.len() == 0 {
        seq![]
    } else {
        gen_items(es.drop_last()).push(value_from(arg(gen_expr(es.last(), false))))
    }
}

/// The conditions of a boolean operation, each tested.
pub open spec fn gen_tests(es: Seq<ExprV>) -> Seq<Seq<TokenV>>
    decreases es,
{
    if es.len() == 0 {
        seq![]
    } else {
        gen_tests(es.drop_last()).push(method(gen_expr(es.last(), false), "test"@, seq![]))
    }
}

/// The entries of a dict, each as `(Value::from(key), Value::from(value))`.
pub open spec fn gen_pairs(ps: Seq<(ExprV, ExprV)>) -> Seq<Seq<TokenV>>
    decreases ps,
{
    if ps.len() == 0 {
        seq![]
    } else {
        gen_pairs(ps.drop_last()).push(seq![parens(
            value_from(arg(gen_expr(ps.last().0, false))) + seq![punct(',')]
                + value_from(arg(gen_expr(ps.last().1, false))),
        )])
    }
}

/// Every integer literal in the expression fits an `i64`.
pub open spec fn ints_fit() -> spec_fn(ExprV) -> bool {
    |x: ExprV| x matches ExprV::ConstantNumber(NumberV::Int(s)) ==> parse_i64(s) is Some
}

pub(crate) fn ident_token(s: &str) -> (r: Token)
    ensures
        r@ == ident(s@),
{
    Token::Ident(string_of(s))
}

pub(crate) fn punct_token(c: char, glued: bool) -> (r: Token)
    ensures
        r@ == TokenV::Punct(c, glued),
{
    Token::Punct(c, glued)
}

pub(crate) fn group_token(d: Delimiter, ts: Vec<Token>) -> (r: Token)
    ensures
        r@ == TokenV::Group(d, tviews(ts@)),
{
    let ghost tv = tviews(ts@);
    let r = Token::Group(d, ts);
    proof {
        assert(r@->Group_1 =~= tv);
    }
    r
}

pub(crate) fn push_token(out: &mut Vec<Token>, t: Token)
    ensures
        tviews(final(out)@) == tviews(old(out)@).push(t@),
{
    let ghost before = tviews(out@);
    let ghost tv = t@;
    out.push(t);
    proof {
        assert(tviews(out@) =~= before.push(tv));
    }
}

pub(crate) fn append_tokens(out: &mut Vec<Token>, ts: Vec<Token>)
    ensures
        tviews(final(out)@) == tviews(old(out)@) + tviews(ts@),
{
    let ghost before = tviews(out@);
    let ghost added = tviews(ts@);
    let mut ts = ts;
    out.append(&mut ts);
    proof {
        assert(tviews(out@) =~= before + added);
    }
}

fn copy_token(t: &Token) -> (r: Token)
    ensures
        r@ == t@,
    decreases t,
{
    match t {
        Token::Ident(s) => Token::Ident(copy_string(s)),
        Token::Punct(c, j) => Token::Punct(*c, *j),
        Token::Int(v) => Token::Int(*v),
        Token::Usize(v) => Token::Usize(*v),
        Token::Float(s) => Token::Float(copy_string(s)),
        Token::Str(s) => Token::Str(copy_string(s)),
        Token::Group(d, ts) => {
            let inner = copy_tokens(ts);
            let r = group_token(*d, inner);
            proof {
                assert(r@->Group_1 =~= t@->Group_1);
            }
            r
        },
    }
}

pub(crate) fn copy_tokens(v: &Vec<Token>) -> (r: Vec<Token>)
    ensures
        tviews(r@) == tviews(v@),
    decreases v,
{
    let mut r: Vec<Token> = Vec::new();
    let mut i: usize = 0;
    while i < v.len()
        invariant
            i <= v.len(),
            r.len() == i,
            forall|j: int| 0 <= j < i ==> (#[trigger] r@[j])@ == v@[j]@,
        decreases v.len() - i,
    {
        r.push(copy_token(&v[i]));
        i += 1;
    }
    proof {
        assert(tviews(r@) =~= tviews(v@));
    }
    r
}

/// `recv.name(args)`.
pub(crate) fn method_call(recv: Vec<Token>, name: String, args: Vec<Token>) -> (r: Vec<Token>)
    ensures
        tviews(r@) == method(tviews(recv@), name@, tviews(args@)),
{
    let mut r = recv;
    let ghost start = tviews(r@);
    push_token(&mut r, punct_token('.', false));
    push_token(&mut r, Token::Ident(name));
    push_token(&mut r, group_token(Delimiter::Parenthesis, args));
    proof {
        assert(tviews(r@) =~= method(start, name@, tviews(args@)));
    }
    r
}

/// `Value::name(inner)`.
pub(crate) fn value_call(name: &str, inner: Vec<Token>) -> (r: Vec<Token>)
    ensures
        tviews(r@) == value_fn(name@, tviews(inner@)),
{
    let mut r: Vec<Token> = Vec::new();
    push_token(&mut r, ident_token("Value"));
    push_token(&mut r, punct_token(':', true));
    push_token(&mut r, punct_token(':', false));
    push_token(&mut r, ident_token(name));
    push_token(&mut r, group_token(Delimiter::Parenthesis, inner));
    proof {
        assert(tviews(r@) =~= value_fn(name@, tviews(inner@)));
    }
    r
}

/// The lists joined by the tokens `sep`.
pub(crate) fn join_lists(parts: Vec<Vec<Token>>, sep: &Vec<Token>) -> (r: Vec<Token>)
    ensures
        tviews(r@) == join_tokens(lists_view(parts@), tviews(sep@)),
{
    let ghost all = lists_view(parts@);
    let n = parts.len();
    let mut parts = parts;
    let mut r: Vec<Token> = Vec::new();
    let mut k: usize = 0;
    proof {
        assert(all.take(0) =~= Seq::<Seq<TokenV>>::empty());
        assert(lists_view(parts@) =~= all.skip(0));
        assert(tviews(r@) =~= Seq::<TokenV>::empty());
    }
    while parts.len() > 0
        invariant
            k + parts.len() == n,
            n == all.len(),
            lists_view(parts@) == all.skip(k as int),
            tviews(r@) == join_tokens(all.take(k as int), tviews(sep@)),
        decreases parts.len(),
    {
        let ghost before = parts@;
        let p = parts.remove(0);
        proof {
            assert(lists_view(before)[0] == tviews(p@));
            assert(all.skip(k as int)[0] == all[k as int]);
            assert(lists_view(parts@) =~= all.skip(k + 1)) by {
                assert forall|i: int| 0 <= i < parts@.len() implies #[trigger] lists_view(parts@)[i] == all.skip(k + 1)[i] by {
                    assert(parts@[i] == before[i + 1]);
                    assert(lists_view(before)[i + 1] == all.skip(k as int)[i + 1]);
                }
            }
            assert(all.take(k + 1).drop_last() =~= all.take(k as int));
            assert(all.take(k + 1).last() == all[k as int]);
        }
        if k > 0 {
            append_tokens(&mut r, copy_tokens(sep));
        } else {
            proof {
                assert(all.take(1) =~= seq![all[0]]);
            }
        }
        append_tokens(&mut r, p);
        k += 1;
    }
    proof {
        assert(all.take(k as int) =~= all);
    }
    r
}

pub(crate) fn comma() -> (r: Vec<Token>)
    ensures
        tviews(r@) == seq![punct(',')],
{
    let mut r: Vec<Token> = Vec::new();
    push_token(&mut r, punct_token(',', false));
    proof {
        assert(tviews(r@) =~= seq![punct(',')]);
    }
    r
}

/// `vec![items]`.
fn vec_call(items: Vec<Vec<Token>>) -> (r: Vec<Token>)
    ensures
        tviews(r@) == vec_of(lists_view(items@)),
{
    let mut r: Vec<Token> = Vec::new();
    push_token(&mut r, ident_token("vec"));
    push_token(&mut r, punct_token('!', false));
    let inner = join_lists(items, &comma());
    push_token(&mut r, group_token(Delimiter::Bracket, inner));
    proof {
        assert(tviews(r@) =~= vec_of(lists_view(items@)));
    }
    r
}

fn all_ident_chars(s: &String) -> (r: bool)
    ensures
        r == forall|i: int| 0 <= i < s@.len() ==> ident_char(#[trigger] s@[i]),
{
    let cs = chars_of(s.as_str());
    let mut i: usize = 0;
    while i < cs.len()
        invariant
            i <= cs.len(),
            cs@ == s@,
            forall|k: int| 0 <= k < i ==> ident_char(#[trigger] cs@[k]),
        decreases cs.len() - i,
    {
        let c = cs[i];
        if !(('0' <= c && c <= '9') || ('A' <= c && c <= 'Z') || ('a' <= c && c <= 'z') || c == '_') {
            proof {
                assert(!ident_char(s@[i as int]));
            }
            return false;
        }
        i += 1;
    }
    true
}

/// An argument: a plain variable is passed as its shallow copy.
fn arg_tokens(ts: Vec<Token>) -> (r: Vec<Token>)
    ensures
        tviews(r@) == arg(tviews(ts@)),
{
    let ghost tv = tviews(ts@);
    let plain = if ts.len() == 1 {
        match &ts[0] {
            Token::Ident(s) => {
                proof {
                    assert(tv[0] == ts@[0]@);
                    assert(tv[0] == TokenV::Ident(s@));
                }
                let b = all_ident_chars(s);
                proof {
                    let n = tv[0]->Ident_0;
                    assert(n == s@);
                    if b {
                        assert forall|i: int| 0 <= i < n.len() implies ident_char(#[trigger] n[i]) by {
                            assert(ident_char(s@[i]));
                        }
                    }
                }
                b
            },
            _ => {
                proof {
                    assert(tv[0] == ts@[0]@);
                    assert(!(tv[0] is Ident));
                }
                false
            },
        }
    } else {
        false
    };
    assert(plain == is_plain(tv));
    if plain {
        let empty: Vec<Token> = Vec::new();
        proof {
            assert(tviews(empty@) =~= Seq::<TokenV>::empty());
        }
        method_call(ts, string_of("__shallow_copy"), empty)
    } else {
        ts
    }
}

/// The name without its macro suffix, if it has one.
fn strip_macro(name: &String) -> (r: Option<String>)
    ensures
        match r {
            Some(m) => is_macro(name@) && m@ == name@.take(name@.len() - 9),
            None => !is_macro(name@),
        },
{
    let cs = chars_of(name.as_str());
    let n = cs.len();
    if n < 9 {
        return None;
    }
    let suffix: Vec<char> = vec!['_', '_', 'm', 'a', 'c', 'r', 'o', '_', '_'];
    proof {
        assert(suffix@ =~= macro_suffix());
    }
    let mut j: usize = 0;
    while j < 9
        invariant
            j <= 9,
            n >= 9,
            n == cs.len(),
            cs@ == name@,
            suffix@ == macro_suffix(),
            forall|k: int| 0 <= k < j ==> cs@[n - 9 + k] == #[trigger] suffix@[k],
        decreases 9 - j,
    {
        if cs[n - 9 + j] != suffix[j] {
            proof {
                assert(name@.skip(n - 9)[j as int] != macro_suffix()[j as int]);
            }
            return None;
        }
        j += 1;
    }
    proof {
        assert(name@.skip(n - 9) =~= macro_suffix());
    }
    Some(string_from(&cs, 0, n - 9))
}

fn expr_tokens(e: &Expr, lhs: bool) -> (r: Vec<Token>)
    requires
        every_expr(e@, ints_fit()),
    ensures
        tviews(r@) == gen_expr(e@, lhs),
    decreases e,
{
    let ghost ev = e@;
    match e {
        Expr::CallFunction(c) => {
            proof {
                assert(ev->CallFunction_1 =~= views(c.args@));
                assert forall|i: int| 0 <= i < c.args.len() implies every_expr(#[trigger] c.args@[i]@, ints_fit()) by {
                    assert(ev->CallFunction_1[i] == c.args@[i]@);
                }
            }
            let args = join_lists(arg_lists(&c.args), &comma());
            let a = group_token(Delimiter::Parenthesis, args);
            let mut r: Vec<Token> = Vec::new();
            match strip_macro(&c.name) {
                Some(m) => {
                    push_token(&mut r, Token::Ident(m));
                    push_token(&mut r, punct_token('!', false));
                },
                None => {
                    push_token(&mut r, Token::Ident(copy_string(&c.name)));
                },
            }
            push_token(&mut r, a);
            proof {
                assert(tviews(r@) =~= gen_expr(ev, lhs));
            }
            r
        },
        Expr::CallMethod(c) => {
            proof {
                assert(ev->CallMethod_2 =~= views(c.args@));
                assert forall|i: int| 0 <= i < c.args.len() implies every_expr(#[trigger] c.args@[i]@, ints_fit()) by {
                    assert(ev->CallMethod_2[i] == c.args@[i]@);
                }
            }
            let v = expr_tokens(&c.value, false);
            let args = join_lists(arg_lists(&c.args), &comma());
            method_call(v, copy_string(&c.name), args)
        },
        Expr::Tuple(t) => {
            proof {
                assert(ev->Tuple_0 =~= views(t@));
                assert forall|i: int| 0 <= i < t.len() implies every_expr(#[trigger] t@[i]@, ints_fit()) by {
                    assert(ev->Tuple_0[i] == t@[i]@);
                }
            }
            value_call("from", vec_call(item_lists(t)))
        },
        Expr::VariableName(n) => {
            let mut r: Vec<Token> = Vec::new();
            push_token(&mut r, Token::Ident(copy_string(n)));
            proof {
                assert(tviews(r@) =~= gen_expr(ev, lhs));
            }
            r
        },
        Expr::BoolOperation(b) => {
            proof {
                assert(ev->BoolOperation_1 =~= views(b.conditions@));
                assert forall|i: int| 0 <= i < b.conditions.len() implies every_expr(#[trigger] b.conditions@[i]@, ints_fit()) by {
                    assert(ev->BoolOperation_1[i] == b.conditions@[i]@);
                }
            }
            let c = match b.op {
                BoolOperator::And => '&',
                BoolOperator::Or => '|',
            };
            let mut sep: Vec<Token> = Vec::new();
            push_token(&mut sep, punct_token(c, true));
            push_token(&mut sep, punct_token(c, false));
            proof {
                assert(tviews(sep@) =~= bool_symbol(b.op));
            }
            value_call("from", join_lists(test_lists(&b.conditions), &sep))
        },
        Expr::Compare(c) => {
            let l = expr_tokens(&c.left, false);
            let r = arg_tokens(expr_tokens(&c.right, false));
            method_call(l, string_of(compare_str(c.op)), r)
        },
        Expr::UnaryOperation(u) => {
            let v = expr_tokens(&u.value, false);
            let empty: Vec<Token> = Vec::new();
            proof {
                assert(tviews(empty@) =~= Seq::<TokenV>::empty());
            }
            method_call(v, string_of(unary_str(u.op)), empty)
        },
        Expr::BinaryOperation(b) => {
            let l = expr_tokens(&b.left, false);
            let r = arg_tokens(expr_tokens(&b.right, false));
            method_call(l, string_of(binary_str(b.op)), r)
        },
        Expr::Index(x) => {
            let v = expr_tokens(&x.value, lhs);
            let i = arg_tokens(expr_tokens(&x.index, false));
            let name = if lhs { string_of("__index_ref") } else { string_of("__index_value") };
            method_call(v, name, i)
        },
        Expr::ConstantNumber(n) => {
            let t = match n {
                Number::Int(s) => match parse_int(s) {
                    Some(v) => Token::Int(v),
                    None => {
                        proof {
                            assert(false);
                        }
                        Token::Int(0)
                    },
                },
                Number::Float(s) => Token::Float(copy_string(s)),
            };
            let mut inner: Vec<Token> = Vec::new();
            push_token(&mut inner, t);
            proof {
                assert(tviews(inner@) =~= seq![number_token(ev->ConstantNumber_0)]);
            }
            value_call("from", inner)
        },
        Expr::ConstantString(s) => {
            let mut inner: Vec<Token> = Vec::new();
            push_token(&mut inner, Token::Str(copy_string(s)));
            proof {
                assert(tviews(inner@) =~= seq![TokenV::Str(s@)]);
            }
            value_call("from", inner)
        },
        Expr::ConstantBoolean(b) => {
            let mut inner: Vec<Token> = Vec::new();
            push_token(&mut inner, if *b { ident_token("true") } else { ident_token("false") });
            proof {
                assert(tviews(inner@) =~= seq![ident(if *b { "true"@ } else { "false"@ })]);
            }
            value_call("from", inner)
        },
        Expr::ConstantNone => {
            let empty: Vec<Token> = Vec::new();
            proof {
                assert(tviews(empty@) =~= Seq::<TokenV>::empty());
            }
            value_call("default", empty)
        },
        Expr::List(l) => {
            proof {
                assert(ev->List_0 =~= views(l@));
                assert forall|i: int| 0 <= i < l.len() implies every_expr(#[trigger] l@[i]@, ints_fit()) by {
                    assert(ev->List_0[i] == l@[i]@);
                }
            }
            value_call("from", vec_call(item_lists(l)))
        },
        Expr::Dict(d) => {
            proof {
                assert(ev->Dict_0 =~= pair_views(d.pairs@));
                assert forall|i: int| 0 <= i < d.pairs.len() implies every_expr(#[trigger] d.pairs@[i].0@, ints_fit())
                    && every_expr(d.pairs@[i].1@, ints_fit()) by {
                    assert(ev->Dict_0[i] == (d.pairs@[i].0@, d.pairs@[i].1@));
                    assert(every_expr(ev->Dict_0[i].0, ints_fit()));
                    assert(every_expr(ev->Dict_0[i].1, ints_fit()));
                }
                assert(pairs_fit(d.pairs@));
            }
            value_call("dict", vec_call(pair_lists(&d.pairs)))
        },
    }
}

fn compare_str(op: CompareOperator) -> (r: &'static str)
    ensures
        r@ == compare_ident(op),
{
    match op {
        CompareOperator::Less => "__lt",
        CompareOperator::LessOrEqual => "__le",
        CompareOperator::Greater => "__gt",
        CompareOperator::GreaterOrEqual => "__ge",
        CompareOperator::Equal => "__eq",
        CompareOperator::NotEqual => "__ne",
        CompareOperator::In => "__in",
        CompareOperator::NotIn => "__not_in",
    }
}

fn binary_str(op: BinaryOperator) -> (r: &'static str)
    ensures
        r@ == binary_ident(op),
{
    match op {
        BinaryOperator::Add => "__add",
        BinaryOperator::Sub => "__sub",
        BinaryOperator::Mul => "__mul",
        BinaryOperator::Div => "__div",
        BinaryOperator::Mod => "__rem",
        BinaryOperator::FloorDiv => "__floor_div",
        BinaryOperator::Pow => "__pow",
        BinaryOperator::BitAnd => "__bit_and",
        BinaryOperator::LeftShift => "__left_shift",
        BinaryOperator::RightShift => "__right_shift",
    }
}

fn unary_str(op: UnaryOperator) -> (r: &'static str)
    ensures
        r@ == unary_ident(op),
{
    match op {
        UnaryOperator::Add => "__unary_add",
        UnaryOperator::Sub => "__unary_sub",
        UnaryOperator::Not => "__unary_not",
    }
}

fn arg_lists(v: &Vec<Expr>) -> (r: Vec<Vec<Token>>)
    requires
        forall|i: int| 0 <= i < v.len() ==> every_expr(#[trigger] v@[i]@, ints_fit()),
    ensures
        lists_view(r@) == gen_args(views(v@)),
    decreases v,
{
    let ghost vs = views(v@);
    let mut r: Vec<Vec<Token>> = Vec::new();
    let mut i: usize = 0;
    proof {
        assert(vs.take(0) =~= Seq::<ExprV>::empty());
        assert(lists_view(r@) =~= Seq::<Seq<TokenV>>::empty());
    }
    while i < v.len()
        invariant
            i <= v.len(),
            vs == views(v@),
            forall|j: int| 0 <= j < v.len() ==> every_expr(#[trigger] v@[j]@, ints_fit()),
            lists_view(r@) == gen_args(vs.take(i as int)),
        decreases v.len() - i,
    {
        let x = arg_tokens(expr_tokens(&v[i], false));
        let ghost before = lists_view(r@);
        let ghost xv = tviews(x@);
        r.push(x);
        proof {
            assert(lists_view(r@) =~= before.push(xv));
            assert(vs.take(i + 1).drop_last() =~= vs.take(i as int));
            assert(vs.take(i + 1).last() == v@[i as int]@);
        }
        i += 1;
    }
    proof {
        assert(vs.take(i as int) =~= vs);
    }
    r
}

fn item_lists(v: &Vec<Expr>) -> (r: Vec<Vec<Token>>)
    requires
        forall|i: int| 0 <= i < v.len() ==> every_expr(#[trigger] v@[i]@, ints_fit()),
    ensures
        lists_view(r@) == gen_items(views(v@)),
    decreases v,
{
    let ghost vs = views(v@);
    let mut r: Vec<Vec<Token>> = Vec::new();
    let mut i: usize = 0;
    proof {
        assert(vs.take(0) =~= Seq::<ExprV>::empty());
        assert(lists_view(r@) =~= Seq::<Seq<TokenV>>::empty());
    }
    while i < v.len()
        invariant
            i <= v.len(),
            vs == views(v@),
            forall|j: int| 0 <= j < v.len() ==> every_expr(#[trigger] v@[j]@, ints_fit()),
            lists_view(r@) == gen_items(vs.take(i as int)),
        decreases v.len() - i,
    {
        let x = value_call("from", arg_tokens(expr_tokens(&v[i], false)));
        let ghost before = lists_view(r@);
        let ghost xv = tviews(x@);
        r.push(x);
        proof {
            assert(lists_view(r@) =~= before.push(xv));
            assert(vs.take(i + 1).drop_last() =~= vs.take(i as int));
            assert(vs.take(i + 1).last() == v@[i as int]@);
        }
        i += 1;
    }
    proof {
        assert(vs.take(i as int) =~= vs);
    }
    r
}

fn test_lists(v: &Vec<Expr>) -> (r: Vec<Vec<Token>>)
    requires
        forall|i: int| 0 <= i < v.len() ==> every_expr(#[trigger] v@[i]@, ints_fit()),
    ensures
        lists_view(r@) == gen_tests(views(v@)),
    decreases v,
{
    let ghost vs = views(v@);
    let mut r: Vec<Vec<Token>> = Vec::new();
    let mut i: usize = 0;
    proof {
        assert(vs.take(0) =~= Seq::<ExprV>::empty());
        assert(lists_view(r@) =~= Seq::<Seq<TokenV>>::empty());
    }
    while i < v.len()
        invariant
            i <= v.len(),
            vs == views(v@),
            forall|j: int| 0 <= j < v.len() ==> every_expr(#[trigger] v@[j]@, ints_fit()),
            lists_view(r@) == gen_tests(vs.take(i as int)),
        decreases v.len() - i,
    {
        let empty: Vec<Token> = Vec::new();
        proof {
            assert(tviews(empty@) =~= Seq::<TokenV>::empty());
        }
        let x = method_call(expr_tokens(&v[i], false), string_of("test"), empty);
        let ghost before = lists_view(r@);
        let ghost xv = tviews(x@);
        r.push(x);
        proof {
            assert(lists_view(r@) =~= before.push(xv));
            assert(vs.take(i + 1).drop_last() =~= vs.take(i as int));
            assert(vs.take(i + 1).last() == v@[i as int]@);
        }
        i += 1;
    }
    proof {
        assert(vs.take(i as int) =~= vs);
    }
    r
}

/// Every integer literal in the key and the value fits an `i64`.
pub open spec fn pair_fits(p: (Expr, Expr)) -> bool {
    every_expr(p.0@, ints_fit()) && every_expr(p.1@, ints_fit())
}

/// Every integer literal in the keys and values fits an `i64`.
pub open spec fn pairs_fit(v: Seq<(Expr, Expr)>) -> bool {
    forall|i: int| 0 <= i < v.len() ==> #[trigger] pair_fits(v[i])
}

fn pair_lists(v: &Vec<(Expr, Expr)>) -> (r: Vec<Vec<Token>>)
    requires
        pairs_fit(v@),
    ensures
        lists_view(r@) == gen_pairs(pair_views(v@)),
    decreases v,
{
    let ghost vs = pair_views(v@);
    let mut r: Vec<Vec<Token>> = Vec::new();
    let mut i: usize = 0;
    proof {
        assert(vs.take(0) =~= Seq::<(ExprV, ExprV)>::empty());
        assert(lists_view(r@) =~= Seq::<Seq<TokenV>>::empty());
    }
    while i < v.len()
        invariant
            i <= v.len(),
            vs == pair_views(v@),
            pairs_fit(v@),
            lists_view(r@) == gen_pairs(vs.take(i as int)),
        decreases v.len() - i,
    {
        proof {
            assert(pair_fits(v@[i as int]));
        }
        let mut inner = value_call("from", arg_tokens(expr_tokens(&v[i].0, false)));
        push_token(&mut inner, punct_token(',', false));
        append_tokens(&mut inner, value_call("from", arg_tokens(expr_tokens(&v[i].1, false))));
        let ghost iv = tviews(inner@);
        let mut x: Vec<Token> = Vec::new();
        push_token(&mut x, group_token(Delimiter::Parenthesis, inner));
        let ghost before = lists_view(r@);
        let ghost xv = tviews(x@);
        r.push(x);
        proof {
            assert(lists_view(r@) =~= before.push(xv));
            assert(vs.take(i + 1).drop_last() =~= vs.take(i as int));
            assert(vs.take(i + 1).last() == (v@[i as int].0@, v@[i as int].1@));
            assert(xv =~= seq![parens(iv)]);
            let last = vs.take(i + 1).last();
            assert(iv == value_from(arg(gen_expr(last.0, false))) + seq![punct(',')]
                + value_from(arg(gen_expr(last.1, false))));
            assert(gen_pairs(vs.take(i + 1)) == gen_pairs(vs.take(i as int)).push(xv));
        }
        i += 1;
    }
    proof {
        assert(vs.take(i as int) =~= vs);
    }
    r
}

// ---------------------------------------------------------------------------
// Statements
// ---------------------------------------------------------------------------

/// The variables of each function: the name `""` stands for the top level.
pub type Definitions = Map<Seq<char>, Set<Seq<char>>>;

pub open spec fn braces(ts: Seq<TokenV>) -> TokenV {
    TokenV::Group(Delimiter::Brace, ts)
}

/// `let mut v = Value::default();`
pub open spec fn declaration(v: Seq<char>) -> Seq<TokenV> {
    seq![ident("let"@), ident("mut"@), ident(v), punct('=')] + value_fn("default"@, seq![]) + seq![punct(';')]
}

/// The declarations of the variables, in order.
pub open spec fn declarations(vs: Seq<Seq<char>>) -> Seq<TokenV>
    decreases vs.len(),
{
    if vs.len() == 0 {
        seq![]
    } else {
        declarations(vs.drop_last()) + declaration(vs.last())
    }
}

/// The declarations of the variables of the function `name`, in increasing order.
pub open spec fn declared(defs: Definitions, name: Seq<char>) -> Seq<TokenV> {
    if defs.contains_key(name) {
        declarations(sorted_of(defs[name]))
    } else {
        seq![]
    }
}

/// `return Default::default();`
pub open spec fn return_default() -> Seq<TokenV> {
    seq![ident("return"@), ident("Default"@), joint(':'), punct(':'), ident("default"@), parens(seq![]), punct(';')]
}

/// `(test).test()`.
pub open spec fn tested(t: ExprV) -> Seq<TokenV> {
    seq![parens(gen_expr(t, false)), punct('.'), ident("test"@), parens(seq![])]
}

/// `mut a: Value`.
pub open spec fn param(a: Seq<char>) -> Seq<TokenV> {
    seq![ident("mut"@), ident(a), punct(':'), ident("Value"@)]
}

pub open spec fn params(args: Seq<Seq<char>>) -> Seq<Seq<TokenV>> {
    Seq::new(args.len(), |i: int| param(args[i]))
}

/// The Rust code of a statement.
pub open spec fn gen_stmt(s: StmtV, defs: Definitions) -> Seq<TokenV>
    decreases s, 0int,
{
    match s {
        StmtV::Assign(t, v) => method(gen_expr(t, true), "assign"@, arg(gen_expr(v, false))) + seq![punct(';')],
        StmtV::Expression(e) => gen_expr(e, false) + seq![punct(';')],
        StmtV::If(t, b, o) => seq![ident("if"@)] + tested(t)
            + seq![braces(gen_block(b, defs)), ident("else"@), braces(gen_block(o, defs))],
        StmtV::Func(n, a, b) => seq![
            ident("fn"@),
            ident(n),
            parens(comma_list(params(a))),
            joint('-'),
            punct('>'),
            ident("Value"@),
            braces(gen_body(b, n, defs) + return_default()),
        ],
        StmtV::Return(r) => match r {
            Some(e) => seq![ident("return"@)] + gen_expr(e, false) + seq![punct(';')],
            None => return_default(),
        },
        StmtV::While(t, b) => seq![ident("while"@)] + tested(t) + seq![braces(gen_block(b, defs))],
        StmtV::Break => seq![ident("break"@), punct(';')],
        StmtV::Continue => seq![ident("continue"@), punct(';')],
        _ => seq![],
    }
}

/// The code of each statement.
pub open spec fn gen_stmts(ss: Seq<StmtV>, defs: Definitions) -> Seq<Seq<TokenV>>
    decreases ss, 0int,
{
    if ss.len() == 0 {
        seq![]
    } else {
        gen_stmts(ss.drop_last(), defs).push(gen_stmt(ss.last(), defs))
    }
}

/// The statements of a block, separated by `;`.
pub open spec fn gen_block(ss: Seq<StmtV>, defs: Definitions) -> Seq<TokenV>
    decreases ss, 1int,
{
    join_tokens(gen_stmts(ss, defs), seq![punct(';')])
}

/// The body of the function `name`: the declarations of its variables, then its statements.
pub open spec fn gen_body(ss: Seq<StmtV>, name: Seq<char>, defs: Definitions) -> Seq<TokenV>
    decreases ss, 1int,
{
    declared(defs, name) + join_tokens(gen_stmts(ss, defs), seq![])
}

/// The whole program: `fn main() { .. }`.
pub open spec fn gen_program(ss: Seq<StmtV>, defs: Definitions) -> Seq<TokenV> {
    seq![ident("fn"@), ident("main"@), parens(seq![]), braces(gen_body(ss, seq![], defs))]
}

/// Statements that the generator does not take: imports, which the resolver removes, and
/// `for` loops, which the parser rewrites.
pub open spec fn generated_kind() -> spec_fn(StmtV) -> bool {
    |s: StmtV| !(s is Import || s is FromImport || s is For)
}

/// The statement can be generated: no import is left in it and every integer fits an `i64`.
pub open spec fn generatable(s: StmtV) -> bool {
    every_stmt(s, generated_kind()) && every_stmt_expr(s, ints_fit())
}

pub(crate) fn semicolon() -> (r: Vec<Token>)
    ensures
        tviews(r@) == seq![punct(';')],
{
    let mut r: Vec<Token> = Vec::new();
    push_token(&mut r, punct_token(';', false));
    proof {
        assert(tviews(r@) =~= seq![punct(';')]);
    }
    r
}

pub(crate) fn no_tokens() -> (r: Vec<Token>)
    ensures
        tviews(r@) == Seq::<TokenV>::empty(),
{
    let r: Vec<Token> = Vec::new();
    proof {
        assert(tviews(r@) =~= Seq::<TokenV>::empty());
    }
    r
}

fn declaration_tokens(vs: &SortedStrings) -> (r: Vec<Token>)
    ensures
        tviews(r@) == declarations(vs@),
{
    let ghost all = vs@;
    let mut r = no_tokens();
    let mut i: usize = 0;
    proof {
        assert(all.take(0) =~= Seq::<Seq<char>>::empty());
    }
    while i < vs.items.len()
        invariant
            i <= vs.items.len(),
            all == vs@,
            all.len() == vs.items.len(),
            tviews(r@) == declarations(all.take(i as int)),
        decreases vs.items.len() - i,
    {
        let ghost before = tviews(r@);
        push_token(&mut r, ident_token("let"));
        push_token(&mut r, ident_token("mut"));
        push_token(&mut r, Token::Ident(copy_string(&vs.items[i])));
        push_token(&mut r, punct_token('=', false));
        append_tokens(&mut r, value_call("default", no_tokens()));
        push_token(&mut r, punct_token(';', false));
        proof {
            assert(all[i as int] == vs.items@[i as int]@);
            assert(tviews(r@) =~= before + declaration(all[i as int]));
            assert(all.take(i + 1).drop_last() =~= all.take(i as int));
        }
        i += 1;
    }
    proof {
        assert(all.take(i as int) =~= all);
    }
    r
}

fn tested_tokens(t: &Expr) -> (r: Vec<Token>)
    requires
        every_expr(t@, ints_fit()),
    ensures
        tviews(r@) == tested(t@),
{
    let mut r = no_tokens();
    push_token(&mut r, group_token(Delimiter::Parenthesis, expr_tokens(t, false)));
    push_token(&mut r, punct_token('.', false));
    push_token(&mut r, ident_token("test"));
    push_token(&mut r, group_token(Delimiter::Parenthesis, no_tokens()));
    proof {
        assert(tviews(r@) =~= tested(t@));
    }
    r
}

fn return_default_tokens() -> (r: Vec<Token>)
    ensures
        tviews(r@) == return_default(),
{
    let mut r = no_tokens();
    push_token(&mut r, ident_token("return"));
    push_token(&mut r, ident_token("Default"));
    push_token(&mut r, punct_token(':', true));
    push_token(&mut r, punct_token(':', false));
    push_token(&mut r, ident_token("default"));
    push_token(&mut r, group_token(Delimiter::Parenthesis, no_tokens()));
    push_token(&mut r, punct_token(';', false));
    proof {
        assert(tviews(r@) =~= return_default());
    }
    r
}

fn param_lists(args: &Vec<String>) -> (r: Vec<Vec<Token>>)
    ensures
        lists_view(r@) == params(strings_view(args@)),
{
    let mut r: Vec<Vec<Token>> = Vec::new();
    let mut i: usize = 0;
    while i < args.len()
        invariant
            i <= args.len(),
            r.len() == i,
            forall|j: int| 0 <= j < i ==> tviews(#[trigger] r@[j]@) == param(args@[j]@),
        decreases args.len() - i,
    {
        let mut p = no_tokens();
        push_token(&mut p, ident_token("mut"));
        push_token(&mut p, Token::Ident(copy_string(&args[i])));
        push_token(&mut p, punct_token(':', false));
        push_token(&mut p, ident_token("Value"));
        proof {
            assert(tviews(p@) =~= param(args@[i as int]@));
        }
        r.push(p);
        i += 1;
    }
    proof {
        assert(lists_view(r@) =~= params(strings_view(args@)));
    }
    r
}

#[verifier::rlimit(30)]
fn stmt_tokens(s: &Statement, defs: &SortedMap) -> (r: Vec<Token>)
    requires
        defs.wf(),
        generatable(s@),
    ensures
        tviews(r@) == gen_stmt(s@, map_of(defs@)),
    decreases s, 0int,
{
    let ghost sv = s@;
    let ghost m = map_of(defs@);
    match s {
        Statement::Assign(a) => {
            let t = expr_tokens(&a.target, true);
            let v = arg_tokens(expr_tokens(&a.value, false));
            let mut r = method_call(t, string_of("assign"), v);
            push_token(&mut r, punct_token(';', false));
            r
        },
        Statement::Expression(e) => {
            let mut r = expr_tokens(e, false);
            push_token(&mut r, punct_token(';', false));
            r
        },
        Statement::If(x) => {
            proof {
                assert(views(x.body@) =~= sv->If_1);
                assert(views(x.orelse@) =~= sv->If_2);
                assert forall|i: int| 0 <= i < x.body.len() implies generatable(#[trigger] x.body@[i]@) by {
                    assert(sv->If_1[i] == x.body@[i]@);
                }
                assert forall|i: int| 0 <= i < x.orelse.len() implies generatable(#[trigger] x.orelse@[i]@) by {
                    assert(sv->If_2[i] == x.orelse@[i]@);
                }
            }
            let mut r = no_tokens();
            push_token(&mut r, ident_token("if"));
            append_tokens(&mut r, tested_tokens(&x.test));
            push_token(&mut r, group_token(Delimiter::Brace, block_tokens(&x.body, defs)));
            push_token(&mut r, ident_token("else"));
            push_token(&mut r, group_token(Delimiter::Brace, block_tokens(&x.orelse, defs)));
            proof {
                assert(tviews(r@) =~= gen_stmt(sv, m));
            }
            r
        },
        Statement::Func(f) => {
            proof {
                assert(views(f.body@) =~= sv->Func_2);
                assert forall|i: int| 0 <= i < f.body.len() implies generatable(#[trigger] f.body@[i]@) by {
                    assert(sv->Func_2[i] == f.body@[i]@);
                }
            }
            let mut r = no_tokens();
            push_token(&mut r, ident_token("fn"));
            push_token(&mut r, Token::Ident(copy_string(&f.name)));
            push_token(&mut r, group_token(Delimiter::Parenthesis, join_lists(param_lists(&f.args), &comma())));
            push_token(&mut r, punct_token('-', true));
            push_token(&mut r, punct_token('>', false));
            push_token(&mut r, ident_token("Value"));
            let mut body = body_tokens(&f.body, &f.name, defs);
            append_tokens(&mut body, return_default_tokens());
            push_token(&mut r, group_token(Delimiter::Brace, body));
            proof {
                assert(tviews(r@) =~= gen_stmt(sv, m));
            }
            r
        },
        Statement::Return(e) => match e {
            Some(x) => {
                let mut r = no_tokens();
                push_token(&mut r, ident_token("return"));
                append_tokens(&mut r, expr_tokens(x, false));
                push_token(&mut r, punct_token(';', false));
                proof {
                    assert(tviews(r@) =~= gen_stmt(sv, m));
                }
                r
            },
            None => return_default_tokens(),
        },
        Statement::While(w) => {
            proof {
                assert(views(w.body@) =~= sv->While_1);
                assert forall|i: int| 0 <= i < w.body.len() implies generatable(#[trigger] w.body@[i]@) by {
                    assert(sv->While_1[i] == w.body@[i]@);
                }
            }
            let mut r = no_tokens();
            push_token(&mut r, ident_token("while"));
            append_tokens(&mut r, tested_tokens(&w.test));
            push_token(&mut r, group_token(Delimiter::Brace, block_tokens(&w.body, defs)));
            proof {
                assert(tviews(r@) =~= gen_stmt(sv, m));
            }
            r
        },
        Statement::Break => {
            let mut r = no_tokens();
            push_token(&mut r, ident_token("break"));
            push_token(&mut r, punct_token(';', false));
            proof {
                assert(tviews(r@) =~= gen_stmt(sv, m));
            }
            r
        },
        Statement::Continue => {
            let mut r = no_tokens();
            push_token(&mut r, ident_token("continue"));
            push_token(&mut r, punct_token(';', false));
            proof {
                assert(tviews(r@) =~= gen_stmt(sv, m));
            }
            r
        },
        Statement::Import(_) => {
            proof {
                assert(false);
            }
            no_tokens()
        },
        Statement::FromImport(_) => {
            proof {
                assert(false);
            }
            no_tokens()
        },
    }
}

fn stmt_lists(v: &Vec<Statement>, defs: &SortedMap) -> (r: Vec<Vec<Token>>)
    requires
        defs.wf(),
        forall|i: int| 0 <= i < v.len() ==> generatable(#[trigger] v@[i]@),
    ensures
        lists_view(r@) == gen_stmts(views(v@), map_of(defs@)),
    decreases v, 0int,
{
    let ghost vs = views(v@);
    let ghost m = map_of(defs@);
    let mut r: Vec<Vec<Token>> = Vec::new();
    let mut i: usize = 0;
    proof {
        assert(vs.take(0) =~= Seq::<StmtV>::empty());
        assert(lists_view(r@) =~= Seq::<Seq<TokenV>>::empty());
    }
    while i < v.len()
        invariant
            i <= v.len(),
            vs == views(v@),
            m == map_of(defs@),
            defs.wf(),
            forall|j: int| 0 <= j < v.len() ==> generatable(#[trigger] v@[j]@),
            lists_view(r@) == gen_stmts(vs.take(i as int), m),
        decreases v.len() - i,
    {
        let x = stmt_tokens(&v[i], defs);
        let ghost before = lists_view(r@);
        let ghost xv = tviews(x@);
        r.push(x);
        proof {
            assert(lists_view(r@) =~= before.push(xv));
            assert(vs.take(i + 1).drop_last() =~= vs.take(i as int));
            assert(vs.take(i + 1).last() == v@[i as int]@);
        }
        i += 1;
    }
    proof {
        assert(vs.take(i as int) =~= vs);
    }
    r
}

fn block_tokens(v: &Vec<Statement>, defs: &SortedMap) -> (r: Vec<Token>)
    requires
        defs.wf(),
        forall|i: int| 0 <= i < v.len() ==> generatable(#[trigger] v@[i]@),
    ensures
        tviews(r@) == gen_block(views(v@), map_of(defs@)),
    decreases v, 1int,
{
    join_lists(stmt_lists(v, defs), &semicolon())
}

fn body_tokens(v: &Vec<Statement>, name: &String, defs: &SortedMap) -> (r: Vec<Token>)
    requires
        defs.wf(),
        forall|i: int| 0 <= i < v.len() ==> generatable(#[trigger] v@[i]@),
    ensures
        tviews(r@) == gen_body(views(v@), name@, map_of(defs@)),
    decreases v, 1int,
{
    let mut r = match defs.get(name) {
        Some(vs) => {
            proof {
                lemma_sorted_of(vs@);
            }
            declaration_tokens(&vs)
        },
        None => no_tokens(),
    };
    append_tokens(&mut r, join_lists(stmt_lists(v, defs), &no_tokens()));
    r
}

/// The generator of Rust code, with the formatting of each construct described above.
pub struct CodeGenerator;

impl Default for CodeGenerator {
    fn default() -> (r: Self)
        ensures
            r == CodeGenerator,
    {
        CodeGenerator
    }
}

impl CodeGenerator {
    /// The body of the function `function_name`: the declarations of its variables (those
    /// that `definitions` gives for it), then its statements.
    pub fn generate_function_body(&self, body: &Vec<Statement>, function_name: &String, definitions: &SortedMap) -> (r: Vec<Token>)
        requires
            definitions.wf(),
            forall|i: int| 0 <= i < body.len() ==> generatable(#[trigger] body@[i]@),
        ensures
            tviews(r@) == gen_body(views(body@), function_name@, map_of(definitions@)),
    {
        body_tokens(body, function_name, definitions)
    }
}

/// The Rust program of the resolved statements: `fn main() { .. }`, whose body declares the
/// top-level variables (those that `definitions` gives for the name `""`) and runs the
/// statements.
pub fn generate_code(statements: &Vec<Statement>, definitions: &SortedMap) -> (r: Vec<Token>)
    requires
        definitions.wf(),
        forall|i: int| 0 <= i < statements.len() ==> generatable(#[trigger] statements@[i]@),
    ensures
        tviews(r@) == gen_program(views(statements@), map_of(definitions@)),
{
    let generator = CodeGenerator::default();
    let mut r = no_tokens();
    push_token(&mut r, ident_token("fn"));
    push_token(&mut r, ident_token("main"));
    push_token(&mut r, group_token(Delimiter::Parenthesis, no_tokens()));
    let top = String::new();
    let body = generator.generate_function_body(statements, &top, definitions);
    push_token(&mut r, group_token(Delimiter::Brace, body));
    proof {
        assert(top@ =~= Seq::<char>::empty());
        assert(tviews(r@) =~= gen_program(views(statements@), map_of(definitions@)));
    }
    r
}

// ---------------------------------------------------------------------------
// What the generator takes
// ---------------------------------------------------------------------------

/// Every integer literal of the expression fits an `i64`.
pub fn expr_ints_fit(e: &Expr) -> (r: bool)
    ensures
        r == every_expr(e@, ints_fit()),
    decreases e,
{
    let ghost ev = e@;
    proof {
        let p = ints_fit();
        assert(p(ev) == (ev matches ExprV::ConstantNumber(NumberV::Int(s)) ==> parse_i64(s) is Some));
    }
    match e {
        Expr::CallFunction(c) => {
            proof {
                assert(ev->CallFunction_1 =~= views(c.args@));
            }
            exprs_ints_fit(&c.args)
        },
        Expr::CallMethod(c) => {
            proof {
                assert(ev->CallMethod_2 =~= views(c.args@));
            }
            expr_ints_fit(&c.value) && exprs_ints_fit(&c.args)
        },
        Expr::Tuple(t) => {
            proof {
                assert(ev->Tuple_0 =~= views(t@));
            }
            exprs_ints_fit(t)
        },
        Expr::BoolOperation(b) => {
            proof {
                assert(ev->BoolOperation_1 =~= views(b.conditions@));
            }
            exprs_ints_fit(&b.conditions)
        },
        Expr::Compare(c) => expr_ints_fit(&c.left) && expr_ints_fit(&c.right),
        Expr::UnaryOperation(u) => expr_ints_fit(&u.value),
        Expr::BinaryOperation(b) => expr_ints_fit(&b.left) && expr_ints_fit(&b.right),
        Expr::Index(x) => expr_ints_fit(&x.value) && expr_ints_fit(&x.index),
        Expr::ConstantNumber(n) => match n {
            Number::Int(s) => parse_int(s).is_some(),
            Number::Float(_) => true,
        },
        Expr::List(l) => {
            proof {
                assert(ev->List_0 =~= views(l@));
            }
            exprs_ints_fit(l)
        },
        Expr::Dict(d) => {
            proof {
                assert(ev->Dict_0 =~= pair_views(d.pairs@));
            }
            let r = pairs_ints_fit(&d.pairs);
            proof {
                assert forall|j: int| 0 <= j < ev->Dict_0.len() implies (every_expr(#[trigger] ev->Dict_0[j].0, ints_fit())
                    && every_expr(ev->Dict_0[j].1, ints_fit())) == pair_fits(d.pairs@[j]) by {
                    assert(ev->Dict_0[j] == (d.pairs@[j].0@, d.pairs@[j].1@));
                }
                if !r {
                    let j = choose|j: int| 0 <= j < d.pairs@.len() && !#[trigger] pair_fits(d.pairs@[j]);
                    assert(ev->Dict_0[j] == (d.pairs@[j].0@, d.pairs@[j].1@));
                    assert(!every_expr(ev->Dict_0[j].0, ints_fit()) || !every_expr(ev->Dict_0[j].1, ints_fit()));
                }
            }
            r
        },
        _ => true,
    }
}

fn pairs_ints_fit(v: &Vec<(Expr, Expr)>) -> (r: bool)
    ensures
        r == pairs_fit(v@),
    decreases v,
{
    let mut i: usize = 0;
    while i < v.len()
        invariant
            i <= v.len(),
            forall|j: int| 0 <= j < i ==> #[trigger] pair_fits(v@[j]),
        decreases v.len() - i,
    {
        let a = expr_ints_fit(&v[i].0);
        let b = expr_ints_fit(&v[i].1);
        if !(a && b) {
            assert(!pair_fits(v@[i as int]));
            return false;
        }
        assert(pair_fits(v@[i as int]));
        i += 1;
    }
    true
}

fn exprs_ints_fit(v: &Vec<Expr>) -> (r: bool)
    ensures
        r == forall|i: int| 0 <= i < views(v@).len() ==> every_expr(#[trigger] views(v@)[i], ints_fit()),
    decreases v,
{
    let mut i: usize = 0;
    while i < v.len()
        invariant
            i <= v.len(),
            forall|j: int| 0 <= j < i ==> every_expr(#[trigger] v@[j]@, ints_fit()),
        decreases v.len() - i,
    {
        if !expr_ints_fit(&v[i]) {
            proof {
                assert(views(v@)[i as int] == v@[i as int]@);
            }
            return false;
        }
        i += 1;
    }
    proof {
        assert forall|j: int| 0 <= j < views(v@).len() implies every_expr(#[trigger] views(v@)[j], ints_fit()) by {
            assert(views(v@)[j] == v@[j]@);
        }
    }
    true
}

/// The statement can be generated: see `generatable`.
pub fn statement_generatable(s: &Statement) -> (r: bool)
    ensures
        r == generatable(s@),
    decreases s, 0int,
{
    let ghost sv = s@;
    match s {
        Statement::Assign(a) => expr_ints_fit(&a.target) && expr_ints_fit(&a.value),
        Statement::Expression(e) => expr_ints_fit(e),
        Statement::If(x) => {
            proof {
                assert(views(x.body@) =~= sv->If_1);
                assert(views(x.orelse@) =~= sv->If_2);
            }
            let r = expr_ints_fit(&x.test) && statements_generatable(&x.body) && statements_generatable(&x.orelse);
            proof {
                lemma_generatable_block(sv->If_1);
                lemma_generatable_block(sv->If_2);
            }
            r
        },
        Statement::Func(f) => {
            proof {
                assert(views(f.body@) =~= sv->Func_2);
            }
            let r = statements_generatable(&f.body);
            proof {
                lemma_generatable_block(sv->Func_2);
            }
            r
        },
        Statement::Return(v) => match v {
            Some(e) => expr_ints_fit(e),
            None => true,
        },
        Statement::While(w) => {
            proof {
                assert(views(w.body@) =~= sv->While_1);
            }
            let r = expr_ints_fit(&w.test) && statements_generatable(&w.body);
            proof {
                lemma_generatable_block(sv->While_1);
            }
            r
        },
        Statement::Break => true,
        Statement::Continue => true,
        Statement::Import(_) => false,
        Statement::FromImport(_) => false,
    }
}

/// A block generates exactly when each of its statements does.
proof fn lemma_generatable_block(b: Seq<StmtV>)
    ensures
        ((forall|i: int| 0 <= i < b.len() ==> every_stmt(#[trigger] b[i], generated_kind()))
            && (forall|i: int| 0 <= i < b.len() ==> every_stmt_expr(#[trigger] b[i], ints_fit())))
            == (forall|i: int| 0 <= i < b.len() ==> generatable(#[trigger] b[i])),
{
}

/// Whether `generate_code` takes the statements: no import is left in them and every
/// integer fits an `i64`.
pub fn statements_generatable(v: &Vec<Statement>) -> (r: bool)
    ensures
        r == forall|i: int| 0 <= i < v.len() ==> generatable(#[trigger] v@[i]@),
        r == forall|i: int| 0 <= i < views(v@).len() ==> generatable(#[trigger] views(v@)[i]),
    decreases v, 1int,
{
    let mut i: usize = 0;
    while i < v.len()
        invariant
            i <= v.len(),
            forall|j: int| 0 <= j < i ==> generatable(#[trigger] v@[j]@),
        decreases v.len() - i,
    {
        if !statement_generatable(&v[i]) {
            proof {
                assert(views(v@)[i as int] == v@[i as int]@);
            }
            return false;
        }
        i += 1;
    }
    proof {
        assert forall|j: int| 0 <= j < views(v@).len() implies generatable(#[trigger] views(v@)[j]) by {
            assert(views(v@)[j] == v@[j]@);
        }
    }
    true
}


/// The runtime method that carries out each binary operator of Python, on the left operand.
pub open spec fn runtime_binary_method(op: BinaryOperator) -> Seq<char> {
    match op {
        BinaryOperator::Add => "__add"@,
        BinaryOperator::Sub => "__sub"@,
        BinaryOperator::Mul => "__mul"@,
        BinaryOperator::Div => "__div"@,
        BinaryOperator::Mod => "__rem"@,
        BinaryOperator::FloorDiv => "__floor_div"@,
        BinaryOperator::Pow => "__pow"@,
        BinaryOperator::BitAnd => "__bit_and"@,
        BinaryOperator::LeftShift => "__left_shift"@,
        BinaryOperator::RightShift => "__right_shift"@,
    }
}

/// Each binary operator has a runtime method of its own.
pub proof fn lemma_runtime_binary_methods_distinct(o1: BinaryOperator, o2: BinaryOperator)
    requires
        o1 != o2,
    ensures
        runtime_binary_method(o1) != runtime_binary_method(o2),
{
    reveal_strlit("__add");
    reveal_strlit("__sub");
    reveal_strlit("__mul");
    reveal_strlit("__div");
    reveal_strlit("__rem");
    reveal_strlit("__floor_div");
    reveal_strlit("__pow");
    reveal_strlit("__bit_and");
    reveal_strlit("__left_shift");
    reveal_strlit("__right_shift");
    let a = runtime_binary_method(o1);
    let b = runtime_binary_method(o2);
    if a.len() == b.len() && a.len() == 5 {
        assert(a[2] != b[2] || a[3] != b[3]);
    } else if a.len() == b.len() {
        assert(a[2] != b[2]);
    }
}

/// The code of a binary operation calls, on the code of the left operand, the runtime method
/// of that very operator (`%` gives `__rem`, `//` gives `__floor_div`), with the code of the
/// right operand as its argument.
pub proof fn law_binary_operation_method(l: ExprV, r: ExprV, op: BinaryOperator, lhs: bool)
    ensures
        gen_expr(ExprV::BinaryOperation(Box::new(l), Box::new(r), op), lhs)
            == gen_expr(l, false) + seq![punct('.'), ident(runtime_binary_method(op)), parens(arg(gen_expr(r, false)))],
{
}

/// Distinct binary operators give distinct code on the same operands.
pub proof fn law_binary_operations_apart(l: ExprV, r: ExprV, o1: BinaryOperator, o2: BinaryOperator, lhs: bool)
    requires
        o1 != o2,
    ensures
        gen_expr(ExprV::BinaryOperation(Box::new(l), Box::new(r), o1), lhs)
            != gen_expr(ExprV::BinaryOperation(Box::new(l), Box::new(r), o2), lhs),
{
    law_binary_operation_method(l, r, o1, lhs);
    law_binary_operation_method(l, r, o2, lhs);
    lemma_runtime_binary_methods_distinct(o1, o2);
    let k: int = gen_expr(l, false).len() as int + 1;
    let x = gen_expr(ExprV::BinaryOperation(Box::new(l), Box::new(r), o1), lhs);
    let y = gen_expr(ExprV::BinaryOperation(Box::new(l), Box::new(r), o2), lhs);
    assert(x[k] == ident(runtime_binary_method(o1)));
    assert(y[k] == ident(runtime_binary_method(o2)));
}


/// Two method calls on the same receiver with the same arguments but names that differ are
/// different code.
proof fn lemma_method_calls_apart(recv: Seq<TokenV>, n1: Seq<char>, n2: Seq<char>, a: TokenV)
    requires
        n1 != n2,
    ensures
        recv + seq![punct('.'), ident(n1), a] != recv + seq![punct('.'), ident(n2), a],
{
    let k: int = recv.len() as int + 1;
    assert((recv + seq![punct('.'), ident(n1), a])[k] == ident(n1));
    assert((recv + seq![punct('.'), ident(n2), a])[k] == ident(n2));
}

/// The runtime method that carries out each comparison of Python, on the left operand.
pub open spec fn runtime_compare_method(op: CompareOperator) -> Seq<char> {
    match op {
        CompareOperator::Less => "__lt"@,
        CompareOperator::LessOrEqual => "__le"@,
        CompareOperator::Greater => "__gt"@,
        CompareOperator::GreaterOrEqual => "__ge"@,
        CompareOperator::Equal => "__eq"@,
        CompareOperator::NotEqual => "__ne"@,
        CompareOperator::In => "__in"@,
        CompareOperator::NotIn => "__not_in"@,
    }
}

/// Each comparison has a runtime method of its own.
pub proof fn lemma_runtime_compare_methods_distinct(o1: CompareOperator, o2: CompareOperator)
    requires
        o1 != o2,
    ensures
        runtime_compare_method(o1) != runtime_compare_method(o2),
{
    reveal_strlit("__lt");
    reveal_strlit("__le");
    reveal_strlit("__gt");
    reveal_strlit("__ge");
    reveal_strlit("__eq");
    reveal_strlit("__ne");
    reveal_strlit("__in");
    reveal_strlit("__not_in");
    let a = runtime_compare_method(o1);
    let b = runtime_compare_method(o2);
    if a.len() == b.len() {
        assert(a[2] != b[2] || a[3] != b[3]);
    }
}

/// The code of a comparison calls, on the code of the left operand, the runtime method of
/// that very comparison (`<=` gives `__le`, `<` gives `__lt`), with the code of the right
/// operand as its argument; distinct comparisons give distinct code.
pub proof fn law_compare_method(l: ExprV, r: ExprV, op: CompareOperator, o2: CompareOperator, lhs: bool)
    ensures
        gen_expr(ExprV::Compare(Box::new(l), Box::new(r), op), lhs)
            == gen_expr(l, false) + seq![punct('.'), ident(runtime_compare_method(op)), parens(arg(gen_expr(r, false)))],
        op != o2 ==> gen_expr(ExprV::Compare(Box::new(l), Box::new(r), op), lhs)
            != gen_expr(ExprV::Compare(Box::new(l), Box::new(r), o2), lhs),
{
    if op != o2 {
        lemma_runtime_compare_methods_distinct(op, o2);
        lemma_method_calls_apart(gen_expr(l, false), runtime_compare_method(op), runtime_compare_method(o2),
            parens(arg(gen_expr(r, false))));
    }
}

/// The runtime method that carries out each unary operator of Python.
pub open spec fn runtime_unary_method(op: UnaryOperator) -> Seq<char> {
    match op {
        UnaryOperator::Add => "__unary_add"@,
        UnaryOperator::Sub => "__unary_sub"@,
        UnaryOperator::Not => "__unary_not"@,
    }
}

/// The code of a unary operation calls the runtime method of that very operator on the code
/// of its operand, with no argument; distinct operators give distinct code.
pub proof fn law_unary_method(v: ExprV, op: UnaryOperator, o2: UnaryOperator, lhs: bool)
    ensures
        gen_expr(ExprV::UnaryOperation(Box::new(v), op), lhs)
            == gen_expr(v, false) + seq![punct('.'), ident(runtime_unary_method(op)), parens(seq![])],
        op != o2 ==> gen_expr(ExprV::UnaryOperation(Box::new(v), op), lhs)
            != gen_expr(ExprV::UnaryOperation(Box::new(v), o2), lhs),
{
    if op != o2 {
        reveal_strlit("__unary_add");
        reveal_strlit("__unary_sub");
        reveal_strlit("__unary_not");
        assert(runtime_unary_method(op)[8] != runtime_unary_method(o2)[8]);
        lemma_method_calls_apart(gen_expr(v, false), runtime_unary_method(op), runtime_unary_method(o2), parens(seq![]));
    }
}

/// The code of `v[i]` calls, on the code of `v`, `__index_ref` where it is assigned to and
/// `__index_value` where it is read, with the code of `i` as its argument.
pub proof fn law_index_method(v: ExprV, i: ExprV, lhs: bool)
    ensures
        lhs ==> gen_expr(ExprV::Index(Box::new(v), Box::new(i)), lhs)
            == gen_expr(v, true) + seq![punct('.'), ident("__index_ref"@), parens(arg(gen_expr(i, false)))],
        !lhs ==> gen_expr(ExprV::Index(Box::new(v), Box::new(i)), lhs)
            == gen_expr(v, false) + seq![punct('.'), ident("__index_value"@), parens(arg(gen_expr(i, false)))],
{
}

/// The code of a call of `n` followed by `__macro__` is the macro `n!` of the runtime on the
/// arguments; the code of a call of a name without that ending is a call of that name.
pub proof fn law_call_code(n: Seq<char>, args: Seq<ExprV>, lhs: bool)
    ensures
        gen_expr(ExprV::CallFunction(n + "__macro__"@, args), lhs)
            == seq![ident(n), punct('!'), parens(comma_list(gen_args(args)))],
        !(n.len() >= 9 && n.skip(n.len() - 9) == "__macro__"@) ==>
            gen_expr(ExprV::CallFunction(n, args), lhs) == seq![ident(n), parens(comma_list(gen_args(args)))],
{
    reveal_strlit("__macro__");
    let m = n + "__macro__"@;
    assert("__macro__"@ =~= macro_suffix());
    assert(m.skip(m.len() - 9) =~= macro_suffix());
    assert(m.take(m.len() - 9) =~= n);
}


/// The code of `if t: b else: o` is `if`, the test, the body in braces, `else` and the `else`
/// branch in braces; that of `while t: b` is `while`, the test and the body in braces.
pub proof fn law_if_while_code(t: ExprV, b: Seq<StmtV>, o: Seq<StmtV>, defs: Definitions)
    ensures
        gen_stmt(StmtV::If(t, b, o), defs)
            == seq![ident("if"@)] + tested(t) + seq![braces(gen_block(b, defs)), ident("else"@), braces(gen_block(o, defs))],
        gen_stmt(StmtV::While(t, b), defs) == seq![ident("while"@)] + tested(t) + seq![braces(gen_block(b, defs))],
{
}

/// The code of `t = v` calls `assign` on the code of the target (read as a place) with the
/// code of the value as its argument.
pub proof fn law_assign_code(t: ExprV, v: ExprV, defs: Definitions)
    ensures
        gen_stmt(StmtV::Assign(t, v), defs)
            == gen_expr(t, true) + seq![punct('.'), ident("assign"@), parens(arg(gen_expr(v, false))), punct(';')],
{
    assert(method(gen_expr(t, true), "assign"@, arg(gen_expr(v, false))) + seq![punct(';')]
        =~= gen_expr(t, true) + seq![punct('.'), ident("assign"@), parens(arg(gen_expr(v, false))), punct(';')]);
}


/// The code of a chain of conditions tests each one and joins the tests with `&&` for `and`
/// and with `||` for `or`.
pub proof fn law_bool_code(op: BoolOperator, c: Seq<ExprV>, lhs: bool)
    ensures
        op == BoolOperator::And ==> gen_expr(ExprV::BoolOperation(op, c), lhs)
            == value_from(join_tokens(gen_tests(c), seq![joint('&'), punct('&')])),
        op == BoolOperator::Or ==> gen_expr(ExprV::BoolOperation(op, c), lhs)
            == value_from(join_tokens(gen_tests(c), seq![joint('|'), punct('|')])),
{
}

} // verus!
