//! Python source text, read with the parser of `rustpython_parser` into the syntax tree of
//! `python`.  What the reader makes of a text is named, not stated: `python_syntax`.
use vstd::prelude::*;
use vstd::string::StrSliceExecFns;
use rustpython_parser::ast::{
    BooleanOperator, Comparison, ComprehensionKind, ExpressionType, ImportSymbol, Located, Number, Operator,
    StatementType, StringGroup, UnaryOperator,
};
use rustpython_parser::error::ParseError;
use crate::parser::python::{
    PyAlias, PyBoolOp, PyCompareOp, PyComprehension, PyConstant, PyExpr, PyOperator, PyStmt, PyUnaryOp,
};

verus! {

#[verifier::external_type_specification]
#[verifier::external_body]
pub struct ExParseError(rustpython_parser::error::ParseError);

#[verifier::external_type_specification]
#[verifier::external_body]
#[verifier::reject_recursive_types(T)]
pub struct ExLocated<T>(rustpython_parser::ast::Located<T>);

#[verifier::external_type_specification]
#[verifier::external_body]
pub struct ExStatementType(rustpython_parser::ast::StatementType);

#[verifier::external_type_specification]
#[verifier::external_body]
pub struct ExExpressionType(rustpython_parser::ast::ExpressionType);

#[verifier::external_type_specification]
#[verifier::external_body]
pub struct ExBooleanOperator(rustpython_parser::ast::BooleanOperator);

#[verifier::external_type_specification]
#[verifier::external_body]
pub struct ExImportSymbol(rustpython_parser::ast::ImportSymbol);

/// The syntax tree that the reader of `rustpython_parser` makes of the text `code`, node
/// for node in the types of `python`; `None` where it reports a syntax error.
pub uninterp spec fn python_syntax(code: Seq<char>) -> Option<Seq<PyStmt>>;

/// An octal digit.
pub open spec fn is_octal(c: char) -> bool {
    '0' <= c && c <= '7'
}

/// A decimal digit.
pub open spec fn is_dec_digit(c: char) -> bool {
    '0' <= c && c <= '9'
}

/// A character of the digit runs of a decimal number: a digit or an underscore.
pub open spec fn is_run_char(c: char) -> bool {
    is_dec_digit(c) || c == '_'
}

/// The first position at `i` or after that does not hold a digit or an underscore.
pub open spec fn run_end(code: Seq<char>, i: int) -> int
    decreases code.len() - i,
{
    if 0 <= i < code.len() && is_run_char(code[i]) {
        run_end(code, i + 1)
    } else {
        i
    }
}

/// The point at `i` may be that of a decimal number: a digit stands next to it.
pub open spec fn number_point(code: Seq<char>, i: int) -> bool {
    &&& 0 <= i < code.len()
    &&& code[i] == '.'
    &&& ((i + 1 < code.len() && is_dec_digit(code[i + 1])) || (i > 0 && is_dec_digit(code[i - 1])))
}

/// After the point at `i` and its digits come an `e` or `E`, an optional sign, and then no
/// digit: an exponent without digits.
pub open spec fn empty_exponent_after(code: Seq<char>, i: int) -> bool {
    let j = run_end(code, i + 1);
    &&& j < code.len()
    &&& (code[j] == 'e' || code[j] == 'E')
    &&& {
        let k = if j + 1 < code.len() && (code[j + 1] == '+' || code[j + 1] == '-') { j + 2 } else { j + 1 };
        k >= code.len() || !is_dec_digit(code[k])
    }
}

/// The backslash at `i` starts an octal escape above 255: three octal digits, the first
/// of them 4 to 7.
pub open spec fn octal_escape_at(code: Seq<char>, i: int) -> bool {
    &&& 0 <= i && i + 3 < code.len()
    &&& code[i] == '\\'
    &&& '4' <= code[i + 1] && code[i + 1] <= '7'
    &&& is_octal(code[i + 2])
    &&& is_octal(code[i + 3])
}

/// An `f` string prefix letter.
pub open spec fn is_f(c: char) -> bool {
    c == 'f' || c == 'F'
}

/// An `r` string prefix letter.
pub open spec fn is_r(c: char) -> bool {
    c == 'r' || c == 'R'
}

/// The quote at `i` may open a formatted string: `f`, or `f` and then `r`, stands before it.
pub open spec fn f_prefix_before(code: Seq<char>, i: int) -> bool {
    ||| (i >= 1 && is_f(code[i - 1]))
    ||| (i >= 2 && is_r(code[i - 1]) && is_f(code[i - 2]))
}

/// A `b` string prefix letter.
pub open spec fn is_b(c: char) -> bool {
    c == 'b' || c == 'B'
}

/// Position `j` is before the text, or holds an ASCII character that no name or number
/// continues through: a token starts right after it.
pub open spec fn token_boundary(code: Seq<char>, j: int) -> bool {
    j < 0 || {
        let c = code[j];
        (c as u32) < 128 && !('a' <= c && c <= 'z') && !('A' <= c && c <= 'Z') && !is_dec_digit(c) && c != '_'
    }
}

/// The quote at `i` surely opens a raw string: the prefix `r`, `br` or `rb` (in either
/// case) stands right before it, and a token starts with that prefix.
pub open spec fn raw_prefix_before(code: Seq<char>, i: int) -> bool {
    ||| (i >= 1 && is_r(code[i - 1]) && token_boundary(code, i - 2))
    ||| (i >= 2 && ((is_r(code[i - 1]) && is_b(code[i - 2])) || (is_b(code[i - 1]) && is_r(code[i - 2])))
        && token_boundary(code, i - 3))
}

/// The character of the reader's input that the character at `i` becomes: the reader reads
/// a carriage return followed by a line feed as one line feed, and a lone carriage return
/// as a line feed.
pub open spec fn newline_piece(s: Seq<char>, i: int) -> Seq<char> {
    if s[i] == '\r' {
        if i + 1 < s.len() && s[i + 1] == '\n' { Seq::empty() } else { seq!['\n'] }
    } else {
        seq![s[i]]
    }
}

/// The first `k` characters of `s` with their line ends made line feeds.
pub open spec fn newlines_upto(s: Seq<char>, k: int) -> Seq<char>
    decreases k,
{
    if k <= 0 {
        Seq::empty()
    } else {
        newlines_upto(s, k - 1) + newline_piece(s, k - 1)
    }
}

/// `s` with its line ends made line feeds, as the reader's lexer sees it.
pub open spec fn unify_newlines(s: Seq<char>) -> Seq<char> {
    newlines_upto(s, s.len() as int)
}

/// Why the reader would panic on a text: an octal escape above 255 in a string literal, a
/// number with a point whose exponent has no digits, or a formatted string (whose parts
/// the reader reads again after decoding them).
#[derive(Clone, Copy, Debug)]
pub enum Refusal {
    OctalEscape,
    EmptyExponent,
    FormattedString,
}

/// Where the lexer stands: in code, in a comment, or in a string literal opened by the
/// given quote, triple or not, raw or (as far as this crate tells) not.
#[derive(Clone, Copy)]
pub enum LexState {
    Code,
    Comment,
    Str(char, bool, bool),
}

/// The first reason, from position `i` on in state `st`, for which the reader would panic
/// on `code` (the text with its line ends unified), following the lexer's comments and
/// string literals: `None` where there is none.
pub open spec fn refusal_from(code: Seq<char>, i: int, st: LexState) -> Option<Refusal>
    decreases code.len() + 3 - i,
{
    if i < 0 || i >= code.len() {
        None
    } else {
        let c = code[i];
        match st {
            LexState::Code => {
                if c == '#' {
                    refusal_from(code, i + 1, LexState::Comment)
                } else if c == '"' || c == '\'' {
                    if f_prefix_before(code, i) {
                        Some(Refusal::FormattedString)
                    } else if i + 2 < code.len() && code[i + 1] == c && code[i + 2] == c {
                        refusal_from(code, i + 3, LexState::Str(c, true, raw_prefix_before(code, i)))
                    } else {
                        refusal_from(code, i + 1, LexState::Str(c, false, raw_prefix_before(code, i)))
                    }
                } else if number_point(code, i) && empty_exponent_after(code, i) {
                    Some(Refusal::EmptyExponent)
                } else {
                    refusal_from(code, i + 1, LexState::Code)
                }
            },
            LexState::Comment => {
                if c == '\n' {
                    refusal_from(code, i + 1, LexState::Code)
                } else {
                    refusal_from(code, i + 1, LexState::Comment)
                }
            },
            LexState::Str(q, triple, raw) => {
                if c == '\\' {
                    if !raw && octal_escape_at(code, i) {
                        Some(Refusal::OctalEscape)
                    } else {
                        refusal_from(code, i + 2, st)
                    }
                } else if c == q {
                    if !triple {
                        refusal_from(code, i + 1, LexState::Code)
                    } else if i + 2 < code.len() && code[i + 1] == q && code[i + 2] == q {
                        refusal_from(code, i + 3, LexState::Code)
                    } else {
                        refusal_from(code, i + 1, st)
                    }
                } else {
                    refusal_from(code, i + 1, st)
                }
            },
        }
    }
}

/// The first reason for which the reader would panic on `code`, as far as this crate tells
/// them: `None` where there is none.
pub open spec fn reader_refusal(code: Seq<char>) -> Option<Refusal> {
    refusal_from(unify_newlines(code), 0, LexState::Code)
}

/// The texts that the reader takes without panicking, as far as this crate tells them.
pub open spec fn reader_takes(code: Seq<char>) -> bool {
    reader_refusal(code) is None
}

fn is_run(c: char) -> (r: bool)
    ensures
        r == is_run_char(c),
{
    ('0' <= c && c <= '9') || c == '_'
}

fn run_end_of(v: &Vec<char>, i: usize) -> (r: usize)
    requires
        i <= v.len(),
    ensures
        r == run_end(v@, i as int),
        i <= r <= v.len(),
{
    let mut j = i;
    while j < v.len() && is_run(v[j])
        invariant
            i <= j <= v.len(),
            run_end(v@, j as int) == run_end(v@, i as int),
        decreases v.len() - j,
    {
        j += 1;
    }
    j
}

/// Whether the point at `i` is that of a number whose exponent has no digits.
fn empty_float_at(v: &Vec<char>, i: usize) -> (r: bool)
    requires
        i < v.len(),
    ensures
        r == (number_point(v@, i as int) && empty_exponent_after(v@, i as int)),
{
    let n = v.len();
    if v[i] != '.' {
        return false;
    }
    let digit_after = i + 1 < n && '0' <= v[i + 1] && v[i + 1] <= '9';
    let digit_before = i > 0 && '0' <= v[i - 1] && v[i - 1] <= '9';
    if !(digit_after || digit_before) {
        return false;
    }
    let j = run_end_of(v, i + 1);
    if j < n && (v[j] == 'e' || v[j] == 'E') {
        let k = if j + 1 < n && (v[j + 1] == '+' || v[j + 1] == '-') { j + 2 } else { j + 1 };
        k >= n || !('0' <= v[k] && v[k] <= '9')
    } else {
        false
    }
}

/// Whether the backslash at `i` starts an octal escape above 255.
fn octal_escape_in(v: &Vec<char>, i: usize) -> (r: bool)
    requires
        i < v.len(),
    ensures
        r == octal_escape_at(v@, i as int),
{
    if v.len() - i <= 3 || v[i] != '\\' {
        return false;
    }
    let a = v[i + 1];
    let b = v[i + 2];
    let c = v[i + 3];
    '4' <= a && a <= '7' && '0' <= b && b <= '7' && '0' <= c && c <= '7'
}

/// Whether a token starts right after position `j` (`token_boundary`), for `j` below `i`.
fn boundary_in(v: &Vec<char>, i: usize, back: usize) -> (r: bool)
    requires
        i < v.len(),
        1 <= back,
    ensures
        r == token_boundary(v@, i - back),
{
    if back > i {
        return true;
    }
    let c = v[i - back];
    (c as u32) < 128 && !('a' <= c && c <= 'z') && !('A' <= c && c <= 'Z') && !('0' <= c && c <= '9') && c != '_'
}

/// Whether the quote at `i` surely opens a raw string (`raw_prefix_before`).
fn raw_prefix_in(v: &Vec<char>, i: usize) -> (r: bool)
    requires
        i < v.len(),
    ensures
        r == raw_prefix_before(v@, i as int),
{
    let one = i >= 1 && (v[i - 1] == 'r' || v[i - 1] == 'R') && boundary_in(v, i, 2);
    let two = i >= 2 && (((v[i - 1] == 'r' || v[i - 1] == 'R') && (v[i - 2] == 'b' || v[i - 2] == 'B'))
        || ((v[i - 1] == 'b' || v[i - 1] == 'B') && (v[i - 2] == 'r' || v[i - 2] == 'R')))
        && boundary_in(v, i, 3);
    one || two
}

/// `code` with its line ends made line feeds.
fn unified_newlines(code: &str) -> (r: Vec<char>)
    ensures
        r@ == unify_newlines(code@),
{
    let s = crate::text::chars_of(code);
    let mut r: Vec<char> = Vec::new();
    let mut i: usize = 0;
    while i < s.len()
        invariant
            s@ == code@,
            i <= s.len(),
            r@ == newlines_upto(s@, i as int),
        decreases s.len() - i,
    {
        let ghost before = r@;
        if s[i] == '\r' {
            if !(i + 1 < s.len() && s[i + 1] == '\n') {
                r.push('\n');
            }
        } else {
            r.push(s[i]);
        }
        proof {
            assert(r@ =~= before + newline_piece(s@, i as int));
        }
        i += 1;
    }
    r
}

/// The first reason for which the reader would panic on `code` (`reader_refusal`).
pub fn reader_refusal_of(code: &str) -> (r: Option<Refusal>)
    ensures
        r == reader_refusal(code@),
{
    let v = unified_newlines(code);
    let n = v.len();
    let mut i: usize = 0;
    let mut st = LexState::Code;
    while i < n
        invariant
            n == v.len(),
            i <= n,
            refusal_from(v@, i as int, st) == reader_refusal(code@),
        decreases n - i,
    {
        let c = v[i];
        let ghost i0 = i as int;
        let ghost st0 = st;
        match st {
            LexState::Code => {
                if c == '#' {
                    st = LexState::Comment;
                    i += 1;
                } else if c == '"' || c == '\'' {
                    if (i >= 1 && (v[i - 1] == 'f' || v[i - 1] == 'F'))
                        || (i >= 2 && (v[i - 1] == 'r' || v[i - 1] == 'R') && (v[i - 2] == 'f' || v[i - 2] == 'F')) {
                        return Some(Refusal::FormattedString);
                    } else if n - i > 2 && v[i + 1] == c && v[i + 2] == c {
                        st = LexState::Str(c, true, raw_prefix_in(&v, i));
                        i += 3;
                    } else {
                        st = LexState::Str(c, false, raw_prefix_in(&v, i));
                        i += 1;
                    }
                } else if empty_float_at(&v, i) {
                    return Some(Refusal::EmptyExponent);
                } else {
                    i += 1;
                }
            },
            LexState::Comment => {
                if c == '\n' {
                    st = LexState::Code;
                }
                i += 1;
            },
            LexState::Str(q, triple, raw) => {
                if c == '\\' {
                    if !raw && octal_escape_in(&v, i) {
                        return Some(Refusal::OctalEscape);
                    }
                    if n - i >= 2 {
                        i += 2;
                    } else {
                        i = n;
                        proof {
                            assert(refusal_from(v@, i0 + 2, st0) is None);
                        }
                    }
                } else if c == q {
                    if !triple {
                        st = LexState::Code;
                        i += 1;
                    } else if n - i > 2 && v[i + 1] == q && v[i + 2] == q {
                        st = LexState::Code;
                        i += 3;
                    } else {
                        i += 1;
                    }
                } else {
                    i += 1;
                }
            },
        }
    }
    None
}

/// Whether `code` meets `reader_takes`.
pub fn reader_takes_ok(code: &str) -> (r: bool)
    ensures
        r == reader_takes(code@),
{
    reader_refusal_of(code).is_none()
}

/// Reads `code` with `rustpython_parser::parser::parse_program` and gives its statements
/// node for node in the types of `python`, or the reader's error.  Claimed: the outcome is
/// `python_syntax(code@)`, a function of the text alone.  The reader panics on an octal
/// escape above 255 in a string literal, on a number with a point whose exponent has no
/// digits, and possibly inside a formatted string, whose parts it decodes and reads again;
/// `reader_takes` follows the reader's comments and string literals and leaves out every
/// such text, and a few that the reader would take: formatted strings, such escapes in a
/// raw string whose prefix follows a digit or a letter beyond ASCII, and forms such as
/// `x1.e` or `1.e_5` in code.
#[verifier::external_body]
pub(crate) fn read_python(code: &str) -> (r: Result<Vec<PyStmt>, ParseError>)
    requires
        reader_takes(code@),
    ensures
        r is Ok <==> python_syntax(code@) is Some,
        r matches Ok(v) ==> v@ == python_syntax(code@)->Some_0,
{
    match rustpython_parser::parser::parse_program(code) {
        Ok(program) => Ok(py_stmts(&program.statements)),
        Err(e) => Err(e),
    }
}

/// The statement nodes of `v`, node for node (used by `read_python` alone).
#[verifier::external_body]
fn py_stmts(v: &[Located<StatementType>]) -> Vec<PyStmt> {
    v.iter().map(|s| py_stmt(&s.node)).collect()
}

/// The statement nodes of an optional block; none where it is absent.
#[verifier::external_body]
fn py_suite(v: &Option<Vec<Located<StatementType>>>) -> Vec<PyStmt> {
    match v {
        Some(b) => py_stmts(b),
        None => Vec::new(),
    }
}

/// A compound statement node, node for node; the others go to `py_simple_stmt`.
#[verifier::external_body]
fn py_stmt(n: &StatementType) -> PyStmt {
    match n {
        StatementType::If { test, body, orelse } => PyStmt::If { test: py_expr(test), body: py_stmts(body), orelse: py_suite(orelse) },
        StatementType::FunctionDef { name, args, body, .. } => {
            PyStmt::FunctionDef { name: name.clone(), args: args.args.iter().map(|a| a.arg.clone()).collect(), body: py_stmts(body) }
        },
        StatementType::While { test, body, .. } => PyStmt::While { test: py_expr(test), body: py_stmts(body) },
        StatementType::For { target, iter, body, .. } => PyStmt::For { target: py_expr(target), iter: py_expr(iter), body: py_stmts(body) },
        other => py_simple_stmt(other),
    }
}

/// A simple statement node, node for node; `Unsupported` for the kinds `python` does not have.
#[verifier::external_body]
fn py_simple_stmt(n: &StatementType) -> PyStmt {
    match n {
        StatementType::Assign { targets, value } => PyStmt::Assign { targets: py_exprs(targets), value: py_expr(value) },
        StatementType::Expression { expression } => PyStmt::Expr(py_expr(expression)),
        StatementType::Return { value } => PyStmt::Return(value.as_ref().map(py_expr)),
        StatementType::Delete { targets } => PyStmt::Delete { targets: py_exprs(targets) },
        StatementType::AugAssign { .. } => py_aug_assign(n),
        StatementType::ImportFrom { .. } | StatementType::Import { .. } => py_import(n),
        StatementType::Break => PyStmt::Break,
        StatementType::Continue => PyStmt::Continue,
        StatementType::Pass => PyStmt::Pass,
        _ => PyStmt::Unsupported,
    }
}

/// An import node, node for node (called on such nodes alone).
#[verifier::external_body]
fn py_import(n: &StatementType) -> PyStmt {
    match n {
        StatementType::ImportFrom { module, names, .. } => PyStmt::ImportFrom { module: module.clone(), names: names.iter().map(py_alias).collect() },
        StatementType::Import { names } => PyStmt::Import { names: names.iter().map(py_alias).collect() },
        _ => PyStmt::Unsupported,
    }
}

/// A name of an import, node for node.
#[verifier::external_body]
fn py_alias(a: &ImportSymbol) -> PyAlias {
    PyAlias { name: a.symbol.clone(), asname: a.alias.clone() }
}

/// The expression nodes of `v`, node for node.
#[verifier::external_body]
fn py_exprs(v: &[Located<ExpressionType>]) -> Vec<PyExpr> {
    v.iter().map(py_expr).collect()
}

/// An expression node with operands, node for node; the others go to `py_leaf_expr`.
#[verifier::external_body]
fn py_expr(e: &Located<ExpressionType>) -> PyExpr {
    match &e.node {
        ExpressionType::Call { function, args, keywords } => PyExpr::Call { func: Box::new(py_expr(function)), args: py_exprs(args), keywords: keywords.len() },
        ExpressionType::Attribute { value, name } => PyExpr::Attribute { value: Box::new(py_expr(value)), attr: name.clone() },
        ExpressionType::Subscript { a, b } => PyExpr::Subscript { value: Box::new(py_expr(a)), slice: Box::new(py_expr(b)) },
        ExpressionType::BoolOp { .. } | ExpressionType::Unop { .. } => py_unop(&e.node),
        ExpressionType::Compare { .. } => py_compare(&e.node),
        ExpressionType::Binop { .. } => py_binop(&e.node),
        other => py_leaf_expr(other),
    }
}

/// A name, tuple, list or list comprehension node, node for node; literals go to
/// `py_literal`, and the kinds `python` does not have are `Unsupported`.
#[verifier::external_body]
fn py_leaf_expr(n: &ExpressionType) -> PyExpr {
    match n {
        ExpressionType::Identifier { name } => PyExpr::Name(name.clone()),
        ExpressionType::Tuple { elements } => PyExpr::Tuple(py_exprs(elements)),
        ExpressionType::List { elements } => PyExpr::List(py_exprs(elements)),
        ExpressionType::Comprehension { .. } => py_list_comp(n),
        ExpressionType::True | ExpressionType::False | ExpressionType::None => PyExpr::Constant(py_literal(n)),
        ExpressionType::String { .. } | ExpressionType::Number { .. } => PyExpr::Constant(py_literal(n)),
        _ => PyExpr::Unsupported,
    }
}

/// A literal node, node for node; `Unsupported` for `None`, complex numbers and formatted
/// strings.
#[verifier::external_body]
fn py_literal(n: &ExpressionType) -> PyConstant {
    match n {
        ExpressionType::True => PyConstant::Bool(true),
        ExpressionType::False => PyConstant::Bool(false),
        ExpressionType::String { value: StringGroup::Constant { value } } => PyConstant::Str(value.clone()),
        ExpressionType::Number { value: Number::Integer { value } } => PyConstant::Int(value.to_string()),
        ExpressionType::Number { value: Number::Float { value } } => PyConstant::Float(value.to_string()),
        _ => PyConstant::Unsupported,
    }
}

/// A list comprehension node, node for node; `Unsupported` for the other comprehensions.
#[verifier::external_body]
fn py_list_comp(n: &ExpressionType) -> PyExpr {
    match n {
        ExpressionType::Comprehension { kind, generators } => match &**kind {
            ComprehensionKind::List { element } => {
                let gens = generators.iter().map(|g| PyComprehension { target: py_expr(&g.target), iter: py_expr(&g.iter), ifs: py_exprs(&g.ifs) });
                PyExpr::ListComp { elt: Box::new(py_expr(element)), generators: gens.collect() }
            },
            _ => PyExpr::Unsupported,
        },
        _ => PyExpr::Unsupported,
    }
}

/// A binary operation node, node for node (called on such nodes alone).
#[verifier::external_body]
fn py_binop(n: &ExpressionType) -> PyExpr {
    match n {
        ExpressionType::Binop { a, op, b } => {
            let op = match op {
                Operator::Add => PyOperator::Add, Operator::Sub => PyOperator::Sub, Operator::Mult => PyOperator::Mult,
                Operator::MatMult => PyOperator::MatMult, Operator::Div => PyOperator::Div, Operator::Mod => PyOperator::Mod,
                Operator::Pow => PyOperator::Pow, Operator::LShift => PyOperator::LShift, Operator::RShift => PyOperator::RShift,
                Operator::BitOr => PyOperator::BitOr, Operator::BitXor => PyOperator::BitXor, Operator::BitAnd => PyOperator::BitAnd,
                Operator::FloorDiv => PyOperator::FloorDiv,
            };
            PyExpr::BinOp { left: Box::new(py_expr(a)), op, right: Box::new(py_expr(b)) }
        },
        _ => PyExpr::Unsupported,
    }
}

/// An augmented assignment node, node for node (called on such nodes alone).
#[verifier::external_body]
fn py_aug_assign(n: &StatementType) -> PyStmt {
    match n {
        StatementType::AugAssign { target, op, value } => {
            let op = match op {
                Operator::Add => PyOperator::Add, Operator::Sub => PyOperator::Sub, Operator::Mult => PyOperator::Mult,
                Operator::MatMult => PyOperator::MatMult, Operator::Div => PyOperator::Div, Operator::Mod => PyOperator::Mod,
                Operator::Pow => PyOperator::Pow, Operator::LShift => PyOperator::LShift, Operator::RShift => PyOperator::RShift,
                Operator::BitOr => PyOperator::BitOr, Operator::BitXor => PyOperator::BitXor, Operator::BitAnd => PyOperator::BitAnd,
                Operator::FloorDiv => PyOperator::FloorDiv,
            };
            PyStmt::AugAssign { target: py_expr(target), op, value: py_expr(value) }
        },
        _ => PyStmt::Unsupported,
    }
}

/// A comparison node, node for node (called on such nodes alone).
#[verifier::external_body]
fn py_compare(n: &ExpressionType) -> PyExpr {
    match n {
        ExpressionType::Compare { vals, ops } if !vals.is_empty() => {
            let ops = ops.iter().map(|c| match c {
                Comparison::Equal => PyCompareOp::Eq, Comparison::NotEqual => PyCompareOp::NotEq,
                Comparison::Less => PyCompareOp::Lt, Comparison::LessOrEqual => PyCompareOp::LtE,
                Comparison::Greater => PyCompareOp::Gt, Comparison::GreaterOrEqual => PyCompareOp::GtE,
                Comparison::Is => PyCompareOp::Is, Comparison::IsNot => PyCompareOp::IsNot,
                Comparison::In => PyCompareOp::In, Comparison::NotIn => PyCompareOp::NotIn,
            });
            PyExpr::Compare { left: Box::new(py_expr(&vals[0])), ops: ops.collect(), comparators: py_exprs(&vals[1..]) }
        },
        _ => PyExpr::Unsupported,
    }
}

/// A unary or boolean operation node, node for node (called on such nodes alone).
#[verifier::external_body]
fn py_unop(n: &ExpressionType) -> PyExpr {
    match n {
        ExpressionType::Unop { op, a } => {
            let op = match op {
                UnaryOperator::Inv => PyUnaryOp::Invert, UnaryOperator::Not => PyUnaryOp::Not,
                UnaryOperator::Pos => PyUnaryOp::UAdd, UnaryOperator::Neg => PyUnaryOp::USub,
            };
            PyExpr::UnaryOp { op, operand: Box::new(py_expr(a)) }
        },
        ExpressionType::BoolOp { op, values } => PyExpr::BoolOp { op: py_bool_op(op), values: py_exprs(values) },
        _ => PyExpr::Unsupported,
    }
}

/// A boolean operator, node for node.
#[verifier::external_body]
fn py_bool_op(op: &BooleanOperator) -> PyBoolOp {
    match op {
        BooleanOperator::And => PyBoolOp::And,
        BooleanOperator::Or => PyBoolOp::Or,
    }
}

} // verus!
