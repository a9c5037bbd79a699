//! Writes the resolved statements of the compiler as Rust tokens, and runs the whole
//! compilation: load, resolve, write.
use vstd::prelude::*;
use crate::ast::{copy_string, strings_view, NumberV};
use crate::compiler::context::{
    collected, empty_store, fetch_v, init_free_stmt, init_free_stmts, resolve_expr_v, resolve_exprs_v, resolve_stmt_v,
    resolve_stmts_v, resolve_variables, resolved_names_v, undeclared_view, CompileError, StoreV,
};
use crate::compiler::expression::{Comparison, LoadError, Number, OExprV, Operator, OptpyExpression, oviews};
use crate::compiler::statement::{load_statements, load_stmt, load_stmts, try_load_statements, OStmtV, OptpyStatement, sviews};
use crate::generator::{
    append_tokens, braces, comma, comma_list, group_token, ident, ident_token, join_lists, joint,
    lists_view, no_tokens, parens, parse_i64, parse_int, punct, punct_token, push_token, semicolon,
    tviews, value_call, value_fn, value_from, Delimiter, Token, TokenV,
};
use crate::compiler::bound::{lemma_stmts_count, stmts_sites, stmts_sites_capped};
use crate::parser::python::PyStmt;
use crate::parser::source::{python_syntax, read_python, reader_takes, reader_takes_ok};
use rustpython_parser::error::ParseError;

verus! {

// ---------------------------------------------------------------------------
// The tokens
// ---------------------------------------------------------------------------

/// The operators the writer knows: `+`, `-` and `*`.
pub open spec fn operator_written(op: Operator) -> bool {
    op == Operator::Add || op == Operator::Sub || op == Operator::Mult
}

pub open spec fn operator_tokens(op: Operator) -> Seq<TokenV> {
    match op {
        Operator::Add => seq![punct('+')],
        Operator::Sub => seq![punct('-')],
        _ => seq![punct('*')],
    }
}

/// The comparisons the writer knows: `<` and `<=`.
pub open spec fn comparison_written(c: Comparison) -> bool {
    c == Comparison::Less || c == Comparison::LessOrEqual
}

pub open spec fn comparison_tokens(c: Comparison) -> Seq<TokenV> {
    if c == Comparison::Less {
        seq![punct('<')]
    } else {
        seq![joint('<'), punct('=')]
    }
}

/// The expressions the writer does not panic on: no tuple, only the operators and
/// comparisons it knows, and one more operand than comparisons in a chain.
pub open spec fn expr_written(e: OExprV) -> bool
    decreases e,
{
    match e {
        OExprV::Identifier(_) => true,
        OExprV::Call(f, args) => expr_written(*f) && forall|i: int| 0 <= i < args.len() ==> expr_written(#[trigger] args[i]),
        OExprV::Binop(a, b, op) => expr_written(*a) && expr_written(*b) && operator_written(op),
        OExprV::Tuple(_) => false,
        OExprV::Attribute(v, _) => expr_written(*v),
        OExprV::Compare(vs, ops) => {
            &&& ops.len() + 1 == vs.len()
            &&& forall|i: int| 0 <= i < ops.len() ==> comparison_written(#[trigger] ops[i])
            &&& forall|i: int| 0 <= i < vs.len() ==> expr_written(#[trigger] vs[i])
        },
        OExprV::Number(_) => true,
        OExprV::Subscript(a, b) => expr_written(*a) && expr_written(*b),
    }
}

/// The tokens of an expression.  A name that ends in `!` is a macro.
pub open spec fn oexpr_tokens(e: OExprV) -> Seq<TokenV>
    decreases e,
{
    match e {
        OExprV::Identifier(n) => if n.len() > 0 && n.last() == '!' {
            seq![ident(n.drop_last()), punct('!')]
        } else {
            seq![ident(n)]
        },
        OExprV::Call(f, args) => oexpr_tokens(*f) + seq![parens(comma_list(oexpr_list(args)))],
        OExprV::Binop(a, b, op) => oexpr_tokens(*a) + operator_tokens(op) + oexpr_tokens(*b),
        OExprV::Attribute(v, n) => oexpr_tokens(*v) + seq![punct('.'), ident(n)],
        OExprV::Compare(vs, ops) => crate::generator::join_tokens(comparisons(vs, ops), seq![joint('&'), punct('&')]),
        OExprV::Number(n) => match n {
            NumberV::Int(s) => match parse_i64(s) {
                Some(v) => value_from(seq![TokenV::Int(v)]),
                None => value_fn("bigint"@, seq![TokenV::Str(s)]),
            },
            NumberV::Float(s) => value_fn("float"@, seq![TokenV::Float(s)]),
        },
        OExprV::Subscript(a, b) => oexpr_tokens(*a) + seq![punct('.'), ident("index"@), parens(oexpr_tokens(*b))],
        _ => seq![],
    }
}

/// The tokens of each expression.
pub open spec fn oexpr_list(es: Seq<OExprV>) -> Seq<Seq<TokenV>>
    decreases es,
{
    if es.len() == 0 {
        seq![]
    } else {
        oexpr_list(es.drop_last()).push(oexpr_tokens(es.last()))
    }
}

/// `left op right` for each comparison of a chain.
pub open spec fn comparisons(vs: Seq<OExprV>, ops: Seq<Comparison>) -> Seq<Seq<TokenV>>
    decreases vs,
{
    if ops.len() == 0 || vs.len() < ops.len() + 1 {
        seq![]
    } else {
        comparisons(vs.drop_last(), ops.drop_last())
            + seq![oexpr_tokens(vs[vs.len() - 2]) + comparison_tokens(ops.last()) + oexpr_tokens(vs.last())]
    }
}

/// The statements the writer does not panic on.
pub open spec fn stmt_written(s: OStmtV) -> bool
    decreases s,
{
    match s {
        OStmtV::Initialize(_) => true,
        OStmtV::Expression(e) => expr_written(e),
        OStmtV::Assign(t, v) => target_written(t) && expr_written(v),
        OStmtV::If(t, b, o) => expr_written(t) && stmts_written(b) && match o {
            Some(o) => stmts_written(o),
            None => true,
        },
        OStmtV::For(t, it, b) => target_written(t) && expr_written(it) && stmts_written(b),
        OStmtV::FunctionDef(_, b, _) => stmts_written(b),
        OStmtV::Return(v) => match v {
            Some(e) => expr_written(e),
            None => true,
        },
    }
}

pub open spec fn stmts_written(ss: Seq<OStmtV>) -> bool
    decreases ss,
{
    forall|i: int| 0 <= i < ss.len() ==> stmt_written(#[trigger] ss[i])
}

/// An assignment target: a tuple of written expressions, or a written expression.
pub open spec fn target_written(t: OExprV) -> bool {
    match t {
        OExprV::Tuple(es) => forall|i: int| 0 <= i < es.len() ==> expr_written(#[trigger] es[i]),
        _ => expr_written(t),
    }
}

/// `Value::None`.
pub open spec fn value_none() -> Seq<TokenV> {
    seq![ident("Value"@), joint(':'), punct(':'), ident("None"@)]
}

/// `name: Value,`.
pub open spec fn field_decl(n: Seq<char>) -> Seq<TokenV> {
    seq![ident(n), punct(':'), ident("Value"@), punct(',')]
}

/// `let mut name = Value::None;`.
pub open spec fn declaration(n: Seq<char>) -> Seq<TokenV> {
    seq![ident("let"@), ident("mut"@), ident(n), punct('=')] + value_none() + seq![punct(';')]
}

/// The parts one after the other.
pub open spec fn concat_all(parts: Seq<Seq<TokenV>>) -> Seq<TokenV>
    decreases parts.len(),
{
    if parts.len() == 0 {
        seq![]
    } else {
        concat_all(parts.drop_last()) + parts.last()
    }
}

/// `struct Context { fields } let mut ctx = Context { values };`.
pub open spec fn context_decl(fields: Seq<TokenV>, values: Seq<TokenV>) -> Seq<TokenV> {
    seq![
        ident("struct"@),
        ident("Context"@),
        braces(fields),
        ident("let"@),
        ident("mut"@),
        ident("ctx"@),
        punct('='),
        ident("Context"@),
        braces(values),
        punct(';'),
    ]
}

/// The tokens of an assignment; a tuple target takes the items of a temporary one by one.
pub open spec fn assign_tokens(t: OExprV, v: OExprV) -> Seq<TokenV> {
    match t {
        OExprV::Tuple(es) => seq![ident("let"@), ident("__tmp"@), punct('=')] + oexpr_tokens(v) + seq![punct(';')]
            + concat_all(Seq::new(es.len(), |i: int| oexpr_tokens(es[i]) + seq![
                punct('='),
                ident("__tmp"@),
                punct('.'),
                ident("index"@),
                parens(value_from(seq![TokenV::Usize(i as usize)])),
                punct(';'),
            ])),
        _ => oexpr_tokens(t) + seq![punct('=')] + oexpr_tokens(v) + seq![punct(';')],
    }
}

/// The statements of a block, separated by `;`.
pub open spec fn block_tokens(ss: Seq<OStmtV>) -> Seq<TokenV>
    decreases ss, 1int,
{
    crate::generator::join_tokens(ostmt_list(ss), seq![punct(';')])
}

pub open spec fn ostmt_list(ss: Seq<OStmtV>) -> Seq<Seq<TokenV>>
    decreases ss, 0int,
{
    if ss.len() == 0 {
        seq![]
    } else {
        ostmt_list(ss.drop_last()).push(ostmt_tokens(ss.last()))
    }
}

/// The tokens of a statement.
pub open spec fn ostmt_tokens(s: OStmtV) -> Seq<TokenV>
    decreases s, 0int,
{
    match s {
        OStmtV::Initialize(vs) => concat_all(Seq::new(vs.len(), |i: int| declaration(vs[i]))),
        OStmtV::Expression(e) => oexpr_tokens(e) + seq![punct(';')],
        OStmtV::Assign(t, v) => assign_tokens(t, v),
        OStmtV::If(t, b, o) => seq![ident("if"@)] + oexpr_tokens(t) + seq![braces(block_tokens(b))] + match o {
            Some(o) => seq![ident("else"@), braces(block_tokens(o))],
            None => seq![],
        },
        OStmtV::For(t, it, b) => seq![ident("for"@), ident("__for_tmp_v"@), ident("in"@)] + oexpr_tokens(it) + seq![braces(
            seq![ident("let"@), ident("__for_tmp_v"@), punct('=')] + value_from(seq![ident("__for_tmp_v"@)]) + seq![punct(';')]
                + assign_tokens(t, OExprV::Identifier("__for_tmp_v"@)) + block_tokens(b),
        )],
        OStmtV::FunctionDef(n, b, a) => seq![
            ident("fn"@),
            ident(n),
            parens(concat_all(Seq::new(a.len(), |i: int| field_decl(a[i])))),
            joint('-'),
            punct('>'),
            ident("Value"@),
            braces(
                context_decl(
                    concat_all(Seq::new(a.len(), |i: int| field_decl(a[i]))),
                    comma_list(Seq::new(a.len(), |i: int| seq![ident(a[i])])),
                ) + block_tokens(b),
            ),
        ],
        OStmtV::Return(v) => match v {
            Some(e) => seq![ident("return"@)] + oexpr_tokens(e) + seq![punct(';')],
            None => seq![ident("return"@)] + value_none() + seq![punct(';')],
        },
    }
}

/// The whole program: `fn main() { .. }` around the tokens of the statements.
pub open spec fn main_tokens(ss: Seq<OStmtV>) -> Seq<TokenV> {
    seq![ident("fn"@), ident("main"@), parens(seq![]), braces(concat_all(ostmt_list(ss)))]
}

// ---------------------------------------------------------------------------
// Writing the tokens
// ---------------------------------------------------------------------------

/// The name without its final `!`, if it ends in one.
fn strip_bang(name: &String) -> (r: Option<String>)
    ensures
        match r {
            Some(m) => name@.len() > 0 && name@.last() == '!' && m@ == name@.drop_last(),
            None => !(name@.len() > 0 && name@.last() == '!'),
        },
{
    let cs = crate::text::chars_of(name.as_str());
    let n = cs.len();
    if n > 0 && cs[n - 1] == '!' {
        Some(crate::text::string_from(&cs, 0, n - 1))
    } else {
        None
    }
}

impl Operator {
    /// The token of the operator.
    pub fn to_tokens(&self) -> (r: Vec<Token>)
        requires
            operator_written(*self),
        ensures
            tviews(r@) == operator_tokens(*self),
    {
        let op = *self;
        let mut r = no_tokens();
        let c = match op {
            Operator::Add => '+',
            Operator::Sub => '-',
            _ => '*',
        };
        push_token(&mut r, punct_token(c, false));
        proof {
            assert(tviews(r@) =~= operator_tokens(op));
        }
        r
    }
}

impl Comparison {
    /// The tokens of the comparison.
    pub fn to_tokens(&self) -> (r: Vec<Token>)
        requires
            comparison_written(*self),
        ensures
            tviews(r@) == comparison_tokens(*self),
    {
        let c = *self;
        let mut r = no_tokens();
        if c == Comparison::Less {
            push_token(&mut r, punct_token('<', false));
        } else {
            push_token(&mut r, punct_token('<', true));
            push_token(&mut r, punct_token('=', false));
        }
        proof {
            assert(tviews(r@) =~= comparison_tokens(c));
        }
        r
    }
}

impl OptpyExpression {
    /// The tokens of the expression.
    pub fn to_tokens(&self) -> (r: Vec<Token>)
        requires
            expr_written(self@),
        ensures
            tviews(r@) == oexpr_tokens(self@),
        decreases self,
    {
        let e = self;
        let ghost ev = e@;
        match e {
            OptpyExpression::Identifier { name } => {
                let mut r = no_tokens();
                match strip_bang(name) {
                    Some(m) => {
                        push_token(&mut r, Token::Ident(m));
                        push_token(&mut r, punct_token('!', false));
                    },
                    None => {
                        push_token(&mut r, Token::Ident(copy_string(name)));
                    },
                }
                proof {
                    assert(tviews(r@) =~= oexpr_tokens(ev));
                }
                r
            },
            OptpyExpression::Call { function, args } => {
                proof {
                    assert(ev->Call_1 =~= oviews(args@));
                    assert forall|i: int| 0 <= i < args.len() implies expr_written(#[trigger] args@[i]@) by {
                        assert(ev->Call_1[i] == args@[i]@);
                    }
                }
                let mut r = OptpyExpression::to_tokens(function);
                let inner = join_lists(expr_lists(args), &comma());
                push_token(&mut r, group_token(Delimiter::Parenthesis, inner));
                r
            },
            OptpyExpression::Binop { a, b, op } => {
                let mut r = OptpyExpression::to_tokens(a);
                append_tokens(&mut r, op.to_tokens());
                append_tokens(&mut r, OptpyExpression::to_tokens(b));
                r
            },
            OptpyExpression::Tuple { .. } => {
                proof {
                    assert(false);
                }
                no_tokens()
            },
            OptpyExpression::Attribute { value, name } => {
                let mut r = OptpyExpression::to_tokens(value);
                let ghost start = tviews(r@);
                push_token(&mut r, punct_token('.', false));
                push_token(&mut r, Token::Ident(copy_string(name)));
                proof {
                    assert(tviews(r@) =~= start + seq![punct('.'), ident(name@)]);
                }
                r
            },
            OptpyExpression::Compare { values, ops } => {
                proof {
                    assert(ev->Compare_0 =~= oviews(values@));
                    assert forall|i: int| 0 <= i < values.len() implies expr_written(#[trigger] values@[i]@) by {
                        assert(ev->Compare_0[i] == values@[i]@);
                    }
                }
                let mut sep = no_tokens();
                push_token(&mut sep, punct_token('&', true));
                push_token(&mut sep, punct_token('&', false));
                proof {
                    assert(tviews(sep@) =~= seq![joint('&'), punct('&')]);
                }
                join_lists(comparison_lists(values, ops), &sep)
            },
            OptpyExpression::Number { value } => match value {
                Number::Integer { value: s } => match parse_int(s) {
                    Some(v) => {
                        let mut inner = no_tokens();
                        push_token(&mut inner, Token::Int(v));
                        proof {
                            assert(tviews(inner@) =~= seq![TokenV::Int(v)]);
                        }
                        value_call("from", inner)
                    },
                    None => {
                        let mut inner = no_tokens();
                        push_token(&mut inner, Token::Str(copy_string(s)));
                        proof {
                            assert(tviews(inner@) =~= seq![TokenV::Str(s@)]);
                        }
                        value_call("bigint", inner)
                    },
                },
                Number::Float { value: s } => {
                    let mut inner = no_tokens();
                    push_token(&mut inner, Token::Float(copy_string(s)));
                    proof {
                        assert(tviews(inner@) =~= seq![TokenV::Float(s@)]);
                    }
                    value_call("float", inner)
                },
            },
            OptpyExpression::Subscript { a, b } => {
                let mut r = OptpyExpression::to_tokens(a);
                let ghost start = tviews(r@);
                push_token(&mut r, punct_token('.', false));
                push_token(&mut r, ident_token("index"));
                let inner = OptpyExpression::to_tokens(b);
                let ghost iv = tviews(inner@);
                push_token(&mut r, group_token(Delimiter::Parenthesis, inner));
                proof {
                    assert(tviews(r@) =~= start + seq![punct('.'), ident("index"@), parens(iv)]);
                }
                r
            },
        }
    }
}

fn expr_lists(v: &Vec<OptpyExpression>) -> (r: Vec<Vec<Token>>)
    requires
        forall|i: int| 0 <= i < v.len() ==> expr_written(#[trigger] v@[i]@),
    ensures
        lists_view(r@) == oexpr_list(oviews(v@)),
    decreases v,
{
    let ghost vs = oviews(v@);
    let mut r: Vec<Vec<Token>> = Vec::new();
    let mut i: usize = 0;
    proof {
        assert(vs.take(0) =~= Seq::<OExprV>::empty());
        assert(lists_view(r@) =~= Seq::<Seq<TokenV>>::empty());
    }
    while i < v.len()
        invariant
            i <= v.len(),
            vs == oviews(v@),
            forall|j: int| 0 <= j < v.len() ==> expr_written(#[trigger] v@[j]@),
            lists_view(r@) == oexpr_list(vs.take(i as int)),
        decreases v.len() - i,
    {
        let x = OptpyExpression::to_tokens(&v[i]);
        let ghost before = lists_view(r@);
        let ghost xv = tviews(x@);
        r.push(x);
        proof {
            assert(lists_view(r@) =~= before.push(xv));
            assert(vs.take(i + 1).drop_last() =~= vs.take(i as int));
            assert(vs.take(i + 1).last() == v@[i as int]@);
        }
        i += 1;
    }
    proof {
        assert(vs.take(i as int) =~= vs);
    }
    r
}

fn comparison_lists(values: &Vec<OptpyExpression>, ops: &Vec<Comparison>) -> (r: Vec<Vec<Token>>)
    requires
        ops.len() + 1 == values.len(),
        forall|i: int| 0 <= i < ops.len() ==> comparison_written(#[trigger] ops@[i]),
        forall|i: int| 0 <= i < values.len() ==> expr_written(#[trigger] values@[i]@),
    ensures
        lists_view(r@) == comparisons(oviews(values@), ops@),
    decreases values,
{
    let ghost vs = oviews(values@);
    let mut r: Vec<Vec<Token>> = Vec::new();
    let mut i: usize = 0;
    proof {
        assert(lists_view(r@) =~= Seq::<Seq<TokenV>>::empty());
        assert(ops@.take(0).len() == 0);
    }
    while i < ops.len()
        invariant
            i <= ops.len(),
            ops.len() + 1 == values.len(),
            vs == oviews(values@),
            forall|j: int| 0 <= j < ops.len() ==> comparison_written(#[trigger] ops@[j]),
            forall|j: int| 0 <= j < values.len() ==> expr_written(#[trigger] values@[j]@),
            lists_view(r@) == comparisons(vs.take(i + 1), ops@.take(i as int)),
        decreases ops.len() - i,
    {
        let mut part = OptpyExpression::to_tokens(&values[i]);
        append_tokens(&mut part, ops[i].to_tokens());
        append_tokens(&mut part, OptpyExpression::to_tokens(&values[i + 1]));
        let ghost before = lists_view(r@);
        let ghost pv = tviews(part@);
        r.push(part);
        proof {
            assert(lists_view(r@) =~= before + seq![pv]);
            let vt = vs.take(i + 2);
            let ot = ops@.take(i + 1);
            assert(vt.drop_last() =~= vs.take(i + 1));
            assert(ot.drop_last() =~= ops@.take(i as int));
            assert(vt[vt.len() - 2] == values@[i as int]@);
            assert(vt.last() == values@[i + 1]@);
            assert(ot.last() == ops@[i as int]);
        }
        i += 1;
    }
    proof {
        assert(vs.take(i + 1) =~= vs);
        assert(ops@.take(i as int) =~= ops@);
    }
    r
}

/// `name: Value,` for each name.
fn field_decls(vs: &Vec<String>) -> (r: Vec<Token>)
    ensures
        tviews(r@) == concat_all(Seq::new(strings_view(vs@).len(), |i: int| field_decl(strings_view(vs@)[i]))),
{
    let ghost parts = Seq::new(strings_view(vs@).len(), |i: int| field_decl(strings_view(vs@)[i]));
    let mut r = no_tokens();
    let mut i: usize = 0;
    proof {
        assert(parts.take(0) =~= Seq::<Seq<TokenV>>::empty());
    }
    while i < vs.len()
        invariant
            i <= vs.len(),
            parts == Seq::new(strings_view(vs@).len(), |i: int| field_decl(strings_view(vs@)[i])),
            tviews(r@) == concat_all(parts.take(i as int)),
        decreases vs.len() - i,
    {
        let ghost before = tviews(r@);
        push_token(&mut r, Token::Ident(copy_string(&vs[i])));
        push_token(&mut r, punct_token(':', false));
        push_token(&mut r, ident_token("Value"));
        push_token(&mut r, punct_token(',', false));
        proof {
            assert(parts.take(i + 1).drop_last() =~= parts.take(i as int));
            assert(tviews(r@) =~= before + field_decl(vs@[i as int]@));
        }
        i += 1;
    }
    proof {
        assert(parts.take(i as int) =~= parts);
    }
    r
}

/// `let mut name = Value::None;` for each name.
fn declarations(vs: &Vec<String>) -> (r: Vec<Token>)
    ensures
        tviews(r@) == concat_all(Seq::new(strings_view(vs@).len(), |i: int| declaration(strings_view(vs@)[i]))),
{
    let ghost parts = Seq::new(strings_view(vs@).len(), |i: int| declaration(strings_view(vs@)[i]));
    let mut r = no_tokens();
    let mut i: usize = 0;
    proof {
        assert(parts.take(0) =~= Seq::<Seq<TokenV>>::empty());
    }
    while i < vs.len()
        invariant
            i <= vs.len(),
            parts == Seq::new(strings_view(vs@).len(), |i: int| declaration(strings_view(vs@)[i])),
            tviews(r@) == concat_all(parts.take(i as int)),
        decreases vs.len() - i,
    {
        let ghost before = tviews(r@);
        push_token(&mut r, ident_token("let"));
        push_token(&mut r, ident_token("mut"));
        push_token(&mut r, Token::Ident(copy_string(&vs[i])));
        push_token(&mut r, punct_token('=', false));
        append_tokens(&mut r, value_none_tokens());
        push_token(&mut r, punct_token(';', false));
        proof {
            assert(parts.take(i + 1).drop_last() =~= parts.take(i as int));
            assert(tviews(r@) =~= before + declaration(vs@[i as int]@));
        }
        i += 1;
    }
    proof {
        assert(parts.take(i as int) =~= parts);
    }
    r
}

fn value_none_tokens() -> (r: Vec<Token>)
    ensures
        tviews(r@) == value_none(),
{
    let mut r = no_tokens();
    push_token(&mut r, ident_token("Value"));
    push_token(&mut r, punct_token(':', true));
    push_token(&mut r, punct_token(':', false));
    push_token(&mut r, ident_token("None"));
    proof {
        assert(tviews(r@) =~= value_none());
    }
    r
}

fn context_decl_tokens(fields: Vec<Token>, values: Vec<Token>) -> (r: Vec<Token>)
    ensures
        tviews(r@) == context_decl(tviews(fields@), tviews(values@)),
{
    let ghost fv = tviews(fields@);
    let ghost vv = tviews(values@);
    let mut r = no_tokens();
    push_token(&mut r, ident_token("struct"));
    push_token(&mut r, ident_token("Context"));
    push_token(&mut r, group_token(Delimiter::Brace, fields));
    push_token(&mut r, ident_token("let"));
    push_token(&mut r, ident_token("mut"));
    push_token(&mut r, ident_token("ctx"));
    push_token(&mut r, punct_token('=', false));
    push_token(&mut r, ident_token("Context"));
    push_token(&mut r, group_token(Delimiter::Brace, values));
    push_token(&mut r, punct_token(';', false));
    proof {
        assert(tviews(r@) =~= context_decl(fv, vv));
    }
    r
}

/// The `k`-th item of a tuple assignment: `target = __tmp.index(Value::from(k));`.
pub open spec fn tuple_item(e: OExprV, k: int) -> Seq<TokenV> {
    oexpr_tokens(e) + seq![
        punct('='),
        ident("__tmp"@),
        punct('.'),
        ident("index"@),
        parens(value_from(seq![TokenV::Usize(k as usize)])),
        punct(';'),
    ]
}

fn assign_to_tokens(target: &OptpyExpression, value: &OptpyExpression) -> (r: Vec<Token>)
    requires
        target_written(target@),
        expr_written(value@),
    ensures
        tviews(r@) == assign_tokens(target@, value@),
{
    let ghost tv = target@;
    match target {
        OptpyExpression::Tuple { elements } => {
            let ghost es = oviews(elements@);
            let ghost parts = Seq::new(es.len(), |i: int| tuple_item(es[i], i));
            proof {
                assert(tv->Tuple_0 =~= es);
                assert(parts =~= Seq::new(es.len(), |i: int| oexpr_tokens(es[i]) + seq![
                    punct('='),
                    ident("__tmp"@),
                    punct('.'),
                    ident("index"@),
                    parens(value_from(seq![TokenV::Usize(i as usize)])),
                    punct(';'),
                ]));
            }
            let mut r = no_tokens();
            push_token(&mut r, ident_token("let"));
            push_token(&mut r, ident_token("__tmp"));
            push_token(&mut r, punct_token('=', false));
            append_tokens(&mut r, OptpyExpression::to_tokens(value));
            push_token(&mut r, punct_token(';', false));
            let ghost head = tviews(r@);
            proof {
                assert(head =~= seq![ident("let"@), ident("__tmp"@), punct('=')] + oexpr_tokens(value@) + seq![punct(';')]);
                assert(parts.take(0) =~= Seq::<Seq<TokenV>>::empty());
            }
            let mut i: usize = 0;
            while i < elements.len()
                invariant
                    i <= elements.len(),
                    es == oviews(elements@),
                    parts == Seq::new(es.len(), |i: int| tuple_item(es[i], i)),
                    forall|j: int| 0 <= j < es.len() ==> expr_written(#[trigger] es[j]),
                    tviews(r@) == head + concat_all(parts.take(i as int)),
                decreases elements.len() - i,
            {
                let ghost before = tviews(r@);
                proof {
                    assert(expr_written(es[i as int]));
                }
                append_tokens(&mut r, OptpyExpression::to_tokens(&elements[i]));
                push_token(&mut r, punct_token('=', false));
                push_token(&mut r, ident_token("__tmp"));
                push_token(&mut r, punct_token('.', false));
                push_token(&mut r, ident_token("index"));
                let mut idx = no_tokens();
                push_token(&mut idx, Token::Usize(i));
                proof {
                    assert(tviews(idx@) =~= seq![TokenV::Usize(i)]);
                }
                push_token(&mut r, group_token(Delimiter::Parenthesis, value_call("from", idx)));
                push_token(&mut r, punct_token(';', false));
                proof {
                    assert(parts.take(i + 1).drop_last() =~= parts.take(i as int));
                    assert((i as int) as usize == i);
                    assert(tviews(r@) =~= before + tuple_item(es[i as int], i as int));
                }
                i += 1;
            }
            proof {
                assert(parts.take(i as int) =~= parts);
            }
            r
        },
        _ => {
            let mut r = OptpyExpression::to_tokens(target);
            push_token(&mut r, punct_token('=', false));
            append_tokens(&mut r, OptpyExpression::to_tokens(value));
            push_token(&mut r, punct_token(';', false));
            proof {
                assert(tviews(r@) =~= assign_tokens(tv, value@));
            }
            r
        },
    }
}

impl OptpyStatement {
    /// The tokens of the statement.
    pub fn to_tokens(&self) -> (r: Vec<Token>)
        requires
            stmt_written(self@),
        ensures
            tviews(r@) == ostmt_tokens(self@),
        decreases self, 0int,
    {
        let s = self;
        let ghost sv = s@;
        match s {
            OptpyStatement::Initialize { variables } => declarations(variables),
            OptpyStatement::Expression { inner } => {
                let mut r = OptpyExpression::to_tokens(inner);
                push_token(&mut r, punct_token(';', false));
                r
            },
            OptpyStatement::Assign { target, value } => assign_to_tokens(target, value),
            OptpyStatement::If { test, body, orelse } => {
                proof {
                    assert(sv->If_1 =~= sviews(body@));
                    if orelse is Some {
                        assert(sv->If_2->Some_0 =~= sviews(orelse->Some_0@));
                    }
                }
                let mut r = no_tokens();
                push_token(&mut r, ident_token("if"));
                append_tokens(&mut r, OptpyExpression::to_tokens(test));
                push_token(&mut r, group_token(Delimiter::Brace, stmt_block(body)));
                match orelse {
                    Some(o) => {
                        push_token(&mut r, ident_token("else"));
                        push_token(&mut r, group_token(Delimiter::Brace, stmt_block(o)));
                    },
                    None => {},
                }
                proof {
                    assert(tviews(r@) =~= ostmt_tokens(sv));
                }
                r
            },
            OptpyStatement::For { target, iter, body } => {
                proof {
                    assert(sv->For_2 =~= sviews(body@));
                }
                let tmp = OptpyExpression::Identifier { name: crate::text::string_of("__for_tmp_v") };
                let mut inner = no_tokens();
                push_token(&mut inner, ident_token("let"));
                push_token(&mut inner, ident_token("__for_tmp_v"));
                push_token(&mut inner, punct_token('=', false));
                let mut tmp_ident = no_tokens();
                push_token(&mut tmp_ident, ident_token("__for_tmp_v"));
                append_tokens(&mut inner, value_call("from", tmp_ident));
                push_token(&mut inner, punct_token(';', false));
                append_tokens(&mut inner, assign_to_tokens(target, &tmp));
                append_tokens(&mut inner, stmt_block(body));
                let ghost iv = tviews(inner@);
                let mut r = no_tokens();
                push_token(&mut r, ident_token("for"));
                push_token(&mut r, ident_token("__for_tmp_v"));
                push_token(&mut r, ident_token("in"));
                append_tokens(&mut r, OptpyExpression::to_tokens(iter));
                push_token(&mut r, group_token(Delimiter::Brace, inner));
                proof {
                    assert(tmp@ == OExprV::Identifier("__for_tmp_v"@));
                    assert(iv =~= seq![ident("let"@), ident("__for_tmp_v"@), punct('=')] + value_from(seq![ident("__for_tmp_v"@)])
                        + seq![punct(';')] + assign_tokens(sv->For_0, OExprV::Identifier("__for_tmp_v"@)) + block_tokens(sv->For_2));
                    assert(tviews(r@) =~= ostmt_tokens(sv));
                }
                r
            },
            OptpyStatement::FunctionDef { name, body, args } => {
                proof {
                    assert(sv->FunctionDef_1 =~= sviews(body@));
                }
                let params = field_decls(args);
                let fields = field_decls(args);
                let mut names: Vec<Vec<Token>> = Vec::new();
                let mut i: usize = 0;
                while i < args.len()
                    invariant
                        i <= args.len(),
                        names.len() == i,
                        forall|j: int| 0 <= j < i ==> tviews(#[trigger] names@[j]@) == seq![ident(args@[j]@)],
                    decreases args.len() - i,
                {
                    let mut one = no_tokens();
                    push_token(&mut one, Token::Ident(copy_string(&args[i])));
                    proof {
                        assert(tviews(one@) =~= seq![ident(args@[i as int]@)]);
                    }
                    names.push(one);
                    i += 1;
                }
                proof {
                    let a = strings_view(args@);
                    assert(lists_view(names@) =~= Seq::new(a.len(), |i: int| seq![ident(a[i])]));
                }
                let values = join_lists(names, &comma());
                let mut inner = context_decl_tokens(fields, values);
                append_tokens(&mut inner, stmt_block(body));
                let mut r = no_tokens();
                push_token(&mut r, ident_token("fn"));
                push_token(&mut r, Token::Ident(copy_string(name)));
                push_token(&mut r, group_token(Delimiter::Parenthesis, params));
                push_token(&mut r, punct_token('-', true));
                push_token(&mut r, punct_token('>', false));
                push_token(&mut r, ident_token("Value"));
                push_token(&mut r, group_token(Delimiter::Brace, inner));
                proof {
                    assert(tviews(r@) =~= ostmt_tokens(sv));
                }
                r
            },
            OptpyStatement::Return { value } => {
                let mut r = no_tokens();
                push_token(&mut r, ident_token("return"));
                match value {
                    Some(v) => {
                        append_tokens(&mut r, OptpyExpression::to_tokens(v));
                    },
                    None => {
                        append_tokens(&mut r, value_none_tokens());
                    },
                }
                push_token(&mut r, punct_token(';', false));
                proof {
                    assert(tviews(r@) =~= ostmt_tokens(sv));
                }
                r
            },
        }
    }
}

fn stmt_lists(v: &Vec<OptpyStatement>) -> (r: Vec<Vec<Token>>)
    requires
        stmts_written(sviews(v@)),
    ensures
        lists_view(r@) == ostmt_list(sviews(v@)),
    decreases v, 0int,
{
    let ghost vs = sviews(v@);
    let mut r: Vec<Vec<Token>> = Vec::new();
    let mut i: usize = 0;
    proof {
        assert(vs.take(0) =~= Seq::<OStmtV>::empty());
        assert(lists_view(r@) =~= Seq::<Seq<TokenV>>::empty());
    }
    while i < v.len()
        invariant
            i <= v.len(),
            vs == sviews(v@),
            stmts_written(vs),
            lists_view(r@) == ostmt_list(vs.take(i as int)),
        decreases v.len() - i,
    {
        proof {
            assert(vs[i as int] == v@[i as int]@);
        }
        let x = OptpyStatement::to_tokens(&v[i]);
        let ghost before = lists_view(r@);
        let ghost xv = tviews(x@);
        r.push(x);
        proof {
            assert(lists_view(r@) =~= before.push(xv));
            assert(vs.take(i + 1).drop_last() =~= vs.take(i as int));
            assert(vs.take(i + 1).last() == v@[i as int]@);
        }
        i += 1;
    }
    proof {
        assert(vs.take(i as int) =~= vs);
    }
    r
}

fn stmt_block(v: &Vec<OptpyStatement>) -> (r: Vec<Token>)
    requires
        stmts_written(sviews(v@)),
    ensures
        tviews(r@) == block_tokens(sviews(v@)),
    decreases v, 1int,
{
    join_lists(stmt_lists(v), &semicolon())
}

/// The parts one after the other.
fn concat_lists(parts: Vec<Vec<Token>>) -> (r: Vec<Token>)
    ensures
        tviews(r@) == concat_all(lists_view(parts@)),
{
    let r = join_lists(parts, &no_tokens());
    proof {
        lemma_join_empty_is_concat(lists_view(parts@));
    }
    r
}

proof fn lemma_join_empty_is_concat(parts: Seq<Seq<TokenV>>)
    ensures
        crate::generator::join_tokens(parts, seq![]) == concat_all(parts),
    decreases parts.len(),
{
    let e: Seq<TokenV> = seq![];
    if parts.len() > 1 {
        lemma_join_empty_is_concat(parts.drop_last());
        let j = crate::generator::join_tokens(parts.drop_last(), e);
        assert(j + e =~= j);
        assert(crate::generator::join_tokens(parts, e) == j + e + parts.last());
        assert(concat_all(parts) == concat_all(parts.drop_last()) + parts.last());
    } else if parts.len() == 1 {
        assert(parts.drop_last().len() == 0);
        assert(concat_all(parts.drop_last()) == e);
        assert(e + parts[0] =~= parts[0]);
        assert(concat_all(parts) == concat_all(parts.drop_last()) + parts.last());
    }
}

// ---------------------------------------------------------------------------
// The whole compilation
// ---------------------------------------------------------------------------

/// The loader never makes a declaration of the variables.
proof fn lemma_loaded_init_free(p: PyStmt)
    ensures
        load_stmt(p) matches Some(Ok(s)) ==> init_free_stmt(s),
    decreases p,
{
    match p {
        PyStmt::If { test: _, body, orelse } => {
            lemma_loaded_init_free_all(body@);
            lemma_loaded_init_free_all(orelse@);
        },
        PyStmt::For { target: _, iter: _, body } => lemma_loaded_init_free_all(body@),
        PyStmt::FunctionDef { name: _, args: _, body } => lemma_loaded_init_free_all(body@),
        _ => {},
    }
}

proof fn lemma_loaded_init_free_all(ps: Seq<PyStmt>)
    ensures
        load_stmts(ps) matches Some(Ok(v)) ==> init_free_stmts(v),
    decreases ps,
{
    if ps.len() > 0 {
        lemma_loaded_init_free_all(ps.drop_last());
        lemma_loaded_init_free(ps.last());
        match load_stmts(ps) {
            Some(Ok(v)) => {
                let prev = load_stmts(ps.drop_last())->Some_0->Ok_0;
                assert forall|i: int| 0 <= i < v.len() implies init_free_stmt(#[trigger] v[i]) by {
                    if i < v.len() - 1 {
                        assert(v[i] == prev[i]);
                    }
                }
            },
            _ => {},
        }
    }
}

/// Resolving keeps an expression writable.
proof fn lemma_resolved_written(e: OExprV, c: Seq<Seq<char>>, st: StoreV)
    requires
        expr_written(e),
    ensures
        resolve_expr_v(e, c, st) matches Ok(e2) ==> expr_written(e2) && (e2 is Tuple ==> e is Tuple),
    decreases e,
{
    match e {
        OExprV::Call(f, args) => {
            lemma_resolved_written(*f, c, st);
            lemma_resolved_written_all(args, c, st);
            match resolve_expr_v(e, c, st) {
                Ok(e2) => {
                    let f2 = resolve_expr_v(*f, c, st)->Ok_0;
                    let a2 = resolve_exprs_v(args, c, st)->Ok_0;
                    assert(e2 == OExprV::Call(Box::new(f2), a2));
                    assert(expr_written(f2));
                    assert(forall|i: int| 0 <= i < a2.len() ==> expr_written(#[trigger] a2[i]));
                    assert(expr_written(e2));
                    assert(!(e2 is Tuple));
                },
                _ => {},
            }
        },
        OExprV::Binop(a, b, _) => {
            lemma_resolved_written(*a, c, st);
            lemma_resolved_written(*b, c, st);
        },
        OExprV::Attribute(v, _) => lemma_resolved_written(*v, c, st),
        OExprV::Compare(vs, _) => lemma_resolved_written_all(vs, c, st),
        OExprV::Subscript(a, b) => {
            lemma_resolved_written(*a, c, st);
            lemma_resolved_written(*b, c, st);
        },
        _ => {},
    }
}

proof fn lemma_resolved_written_all(es: Seq<OExprV>, c: Seq<Seq<char>>, st: StoreV)
    requires
        forall|i: int| 0 <= i < es.len() ==> expr_written(#[trigger] es[i]),
    ensures
        resolve_exprs_v(es, c, st) matches Ok(v) ==> v.len() == es.len()
            && forall|i: int| 0 <= i < v.len() ==> expr_written(#[trigger] v[i]),
    decreases es,
{
    if es.len() > 0 {
        assert forall|i: int| 0 <= i < es.drop_last().len() implies expr_written(#[trigger] es.drop_last()[i]) by {
            assert(es.drop_last()[i] == es[i]);
        }
        lemma_resolved_written_all(es.drop_last(), c, st);
        assert(expr_written(es[es.len() - 1]));
        lemma_resolved_written(es.last(), c, st);
        match resolve_exprs_v(es, c, st) {
            Ok(v) => {
                let prev = resolve_exprs_v(es.drop_last(), c, st)->Ok_0;
                assert forall|i: int| 0 <= i < v.len() implies expr_written(#[trigger] v[i]) by {
                    if i < v.len() - 1 {
                        assert(v[i] == prev[i]);
                    }
                }
            },
            _ => {},
        }
    }
}

proof fn lemma_resolved_target_written(t: OExprV, c: Seq<Seq<char>>, st: StoreV)
    requires
        target_written(t),
    ensures
        resolve_expr_v(t, c, st) matches Ok(t2) ==> target_written(t2),
{
    match t {
        OExprV::Tuple(es) => {
            lemma_resolved_written_all(es, c, st);
        },
        _ => {
            lemma_resolved_written(t, c, st);
        },
    }
}

proof fn lemma_resolved_stmt_written(s: OStmtV, c: Seq<Seq<char>>, st: StoreV)
    requires
        stmt_written(s),
    ensures
        resolve_stmt_v(s, c, st) matches Some(Ok(s2)) ==> stmt_written(s2),
    decreases s,
{
    match s {
        OStmtV::Expression(e) => lemma_resolved_written(e, c, st),
        OStmtV::Assign(t, v) => {
            lemma_resolved_target_written(t, c, st);
            lemma_resolved_written(v, c, st);
        },
        OStmtV::If(t, b, o) => {
            lemma_resolved_written(t, c, st);
            lemma_resolved_stmts_written(b, c, st);
            match o {
                Some(o) => lemma_resolved_stmts_written(o, c, st),
                None => {},
            }
        },
        OStmtV::For(t, it, b) => {
            lemma_resolved_target_written(t, c, st);
            lemma_resolved_written(it, c, st);
            lemma_resolved_stmts_written(b, c, st);
        },
        OStmtV::FunctionDef(n, b, a) => {
            match fetch_v(st, c, n) {
                Ok((m, _)) => lemma_resolved_stmts_written(b, c.push(m), st),
                Err(_) => {},
            }
        },
        OStmtV::Return(v) => match v {
            Some(e) => lemma_resolved_written(e, c, st),
            None => {},
        },
        _ => {},
    }
}

proof fn lemma_resolved_stmts_written(ss: Seq<OStmtV>, c: Seq<Seq<char>>, st: StoreV)
    requires
        stmts_written(ss),
    ensures
        resolve_stmts_v(ss, c, st) matches Some(Ok(v)) ==> stmts_written(v),
    decreases ss,
{
    if ss.len() > 0 {
        assert forall|i: int| 0 <= i < ss.drop_last().len() implies stmt_written(#[trigger] ss.drop_last()[i]) by {
            assert(ss.drop_last()[i] == ss[i]);
        }
        lemma_resolved_stmts_written(ss.drop_last(), c, st);
        assert(stmt_written(ss[ss.len() - 1]));
        lemma_resolved_stmt_written(ss.last(), c, st);
        match resolve_stmts_v(ss, c, st) {
            Some(Ok(v)) => {
                let prev = resolve_stmts_v(ss.drop_last(), c, st)->Some_0->Ok_0;
                assert forall|i: int| 0 <= i < v.len() implies stmt_written(#[trigger] v[i]) by {
                    if i < v.len() - 1 {
                        assert(v[i] == prev[i]);
                    }
                }
            },
            _ => {},
        }
    }
}

/// What went wrong, as a value.
pub enum FailureV {
    Load(LoadError),
    Undeclared(Seq<Seq<char>>, Seq<char>),
}

pub open spec fn failure_view(e: CompileError) -> FailureV {
    match e {
        CompileError::Load(x) => FailureV::Load(x),
        CompileError::Undeclared { ctx, name } => FailureV::Undeclared(strings_view(ctx@), name@),
    }
}

/// The programs the compiler does not panic on: loading reaches no assignment to several
/// targets, and what it loads has only the expressions the writer knows.
pub open spec fn loads_written(p: Seq<PyStmt>) -> bool {
    match load_stmts(p) {
        None => false,
        Some(Err(_)) => true,
        Some(Ok(v)) => stmts_written(v),
    }
}

/// The programs the compiler takes: those it does not panic on, with fewer declarations
/// than `usize::MAX`.
pub open spec fn compilable(p: Seq<PyStmt>) -> bool {
    &&& loads_written(p)
    &&& load_stmts(p) matches Some(Ok(v)) ==> collected(v).count < usize::MAX
}

/// The compilation of a program: its tokens, or the first failure of loading or resolving.
pub open spec fn compile_v(p: Seq<PyStmt>) -> Result<Seq<TokenV>, FailureV> {
    match load_stmts(p) {
        Some(Ok(v)) => match resolved_names_v(v, seq![], collected(v)) {
            Some(Ok(w)) => Ok(main_tokens(w)),
            Some(Err((c, n))) => Err(FailureV::Undeclared(c, n)),
            None => Err(FailureV::Load(LoadError::Statement)),
        },
        Some(Err(x)) => Err(FailureV::Load(x)),
        None => Err(FailureV::Load(LoadError::Statement)),
    }
}

/// Compiles the syntax tree of a program: loads its statements, names the variables of each
/// function, and writes `fn main() { .. }`.
pub fn compile_program(program: &Vec<PyStmt>) -> (r: Result<Vec<Token>, CompileError>)
    requires
        compilable(program@),
    ensures
        match r {
            Ok(ts) => compile_v(program@) == Ok::<Seq<TokenV>, FailureV>(tviews(ts@)),
            Err(e) => compile_v(program@) == Err::<Seq<TokenV>, FailureV>(failure_view(e)),
        },
{
    let statements = match load_statements(program) {
        Ok(v) => v,
        Err(x) => return Err(CompileError::Load(x)),
    };
    proof {
        lemma_loaded_init_free_all(program@);
    }
    let resolved = match resolve_variables(&statements) {
        Ok(v) => v,
        Err(e) => return Err(e),
    };
    proof {
        let v = sviews(statements@);
        lemma_resolved_stmts_written(v, seq![], collected(v));
        let w = sviews(resolved@);
        assert forall|i: int| 0 <= i < w.len() implies stmt_written(#[trigger] w[i]) by {
            if i > 0 {
                let tail = resolve_stmts_v(v, seq![], collected(v))->Some_0->Ok_0;
                assert(w[i] == tail[i - 1]);
            }
        }
    }
    let body = concat_lists(stmt_lists(&resolved));
    let mut r = no_tokens();
    push_token(&mut r, ident_token("fn"));
    push_token(&mut r, ident_token("main"));
    push_token(&mut r, group_token(Delimiter::Parenthesis, no_tokens()));
    push_token(&mut r, group_token(Delimiter::Brace, body));
    proof {
        assert(tviews(r@) =~= main_tokens(sviews(resolved@)));
    }
    Ok(r)
}

// ---------------------------------------------------------------------------
// What the compiler takes
// ---------------------------------------------------------------------------

/// Whether the writer takes the expression: see `expr_written`.
pub fn expression_written(e: &OptpyExpression) -> (r: bool)
    ensures
        r == expr_written(e@),
    decreases e,
{
    let ghost ev = e@;
    match e {
        OptpyExpression::Identifier { .. } => true,
        OptpyExpression::Call { function, args } => {
            proof {
                assert(ev->Call_1 =~= oviews(args@));
            }
            expression_written(function) && expressions_written(args)
        },
        OptpyExpression::Binop { a, b, op } => {
            let w = *op == Operator::Add || *op == Operator::Sub || *op == Operator::Mult;
            w && expression_written(a) && expression_written(b)
        },
        OptpyExpression::Tuple { .. } => false,
        OptpyExpression::Attribute { value, .. } => expression_written(value),
        OptpyExpression::Compare { values, ops } => {
            proof {
                assert(ev->Compare_0 =~= oviews(values@));
            }
            if values.len() == 0 || ops.len() != values.len() - 1 {
                return false;
            }
            if !comparisons_written(ops) {
                return false;
            }
            expressions_written(values)
        },
        OptpyExpression::Number { .. } => true,
        OptpyExpression::Subscript { a, b } => expression_written(a) && expression_written(b),
    }
}

fn comparisons_written(ops: &Vec<Comparison>) -> (r: bool)
    ensures
        r == forall|i: int| 0 <= i < ops.len() ==> comparison_written(#[trigger] ops@[i]),
{
    let mut i: usize = 0;
    while i < ops.len()
        invariant
            i <= ops.len(),
            forall|j: int| 0 <= j < i ==> comparison_written(#[trigger] ops@[j]),
        decreases ops.len() - i,
    {
        if !(ops[i] == Comparison::Less || ops[i] == Comparison::LessOrEqual) {
            proof {
                assert(!comparison_written(ops@[i as int]));
            }
            return false;
        }
        i += 1;
    }
    true
}

fn expressions_written(v: &Vec<OptpyExpression>) -> (r: bool)
    ensures
        r == forall|i: int| 0 <= i < oviews(v@).len() ==> expr_written(#[trigger] oviews(v@)[i]),
    decreases v,
{
    let mut i: usize = 0;
    while i < v.len()
        invariant
            i <= v.len(),
            forall|j: int| 0 <= j < i ==> expr_written(#[trigger] v@[j]@),
        decreases v.len() - i,
    {
        if !expression_written(&v[i]) {
            proof {
                assert(oviews(v@)[i as int] == v@[i as int]@);
            }
            return false;
        }
        i += 1;
    }
    proof {
        assert forall|j: int| 0 <= j < oviews(v@).len() implies expr_written(#[trigger] oviews(v@)[j]) by {
            assert(oviews(v@)[j] == v@[j]@);
        }
    }
    true
}

fn target_written_check(t: &OptpyExpression) -> (r: bool)
    ensures
        r == target_written(t@),
{
    let ghost tv = t@;
    match t {
        OptpyExpression::Tuple { elements } => {
            proof {
                assert(tv->Tuple_0 =~= oviews(elements@));
            }
            expressions_written(elements)
        },
        _ => expression_written(t),
    }
}

/// Whether the writer takes the statement: see `stmt_written`.
pub fn statement_written(s: &OptpyStatement) -> (r: bool)
    ensures
        r == stmt_written(s@),
    decreases s, 0int,
{
    let ghost sv = s@;
    match s {
        OptpyStatement::Initialize { .. } => true,
        OptpyStatement::Expression { inner } => expression_written(inner),
        OptpyStatement::Assign { target, value } => target_written_check(target) && expression_written(value),
        OptpyStatement::If { test, body, orelse } => {
            proof {
                assert(sv->If_1 =~= sviews(body@));
                if orelse is Some {
                    assert(sv->If_2->Some_0 =~= sviews(orelse->Some_0@));
                }
            }
            expression_written(test) && statements_written(body) && match orelse {
                Some(o) => statements_written(o),
                None => true,
            }
        },
        OptpyStatement::For { target, iter, body } => {
            proof {
                assert(sv->For_2 =~= sviews(body@));
            }
            target_written_check(target) && expression_written(iter) && statements_written(body)
        },
        OptpyStatement::FunctionDef { body, .. } => {
            proof {
                assert(sv->FunctionDef_1 =~= sviews(body@));
            }
            statements_written(body)
        },
        OptpyStatement::Return { value } => match value {
            Some(e) => expression_written(e),
            None => true,
        },
    }
}

/// Whether the writer takes the statements.
pub fn statements_written(v: &Vec<OptpyStatement>) -> (r: bool)
    ensures
        r == stmts_written(sviews(v@)),
    decreases v, 1int,
{
    let mut i: usize = 0;
    while i < v.len()
        invariant
            i <= v.len(),
            forall|j: int| 0 <= j < i ==> stmt_written(#[trigger] v@[j]@),
        decreases v.len() - i,
    {
        if !statement_written(&v[i]) {
            proof {
                assert(sviews(v@)[i as int] == v@[i as int]@);
            }
            return false;
        }
        i += 1;
    }
    proof {
        assert forall|j: int| 0 <= j < sviews(v@).len() implies stmt_written(#[trigger] sviews(v@)[j]) by {
            assert(sviews(v@)[j] == v@[j]@);
        }
    }
    true
}

/// Whether the compiler takes the program without panicking: loading reaches no assignment
/// to several targets, and what it loads has only what the writer knows.
pub fn can_compile(program: &Vec<PyStmt>) -> (r: bool)
    ensures
        r == loads_written(program@),
{
    match try_load_statements(program) {
        None => false,
        Some(Err(_)) => true,
        Some(Ok(v)) => statements_written(&v),
    }
}

/// Why source text was not compiled: the reader's syntax error, or a failure of loading or
/// resolving.
#[derive(Debug, PartialEq)]
pub enum CodeError {
    Syntax(ParseError),
    Compile(CompileError),
}

/// What `compile_code` gives for the text `code`.
pub open spec fn code_result(code: Seq<char>, r: Result<Vec<Token>, CodeError>) -> bool {
    match python_syntax(code) {
        None => r matches Err(CodeError::Syntax(_)),
        Some(p) => match r {
            Ok(ts) => compile_v(p) == Ok::<Seq<TokenV>, FailureV>(tviews(ts@)),
            Err(CodeError::Compile(e)) => compile_v(p) == Err::<Seq<TokenV>, FailureV>(failure_view(e)),
            Err(CodeError::Syntax(_)) => false,
        },
    }
}

/// Compiles Python source text: reads it, then compiles its syntax tree.
pub fn compile_code(code: &str) -> (r: Result<Vec<Token>, CodeError>)
    requires
        reader_takes(code@),
        python_syntax(code@) matches Some(p) ==> compilable(p),
    ensures
        code_result(code@, r),
{
    match read_python(code) {
        Ok(program) => match compile_program(&program) {
            Ok(ts) => Ok(ts),
            Err(e) => Err(CodeError::Compile(e)),
        },
        Err(e) => Err(CodeError::Syntax(e)),
    }
}

/// The programs that `try_compile_code` hands on: those the compiler does not panic on,
/// with fewer places that declare a variable than `usize::MAX`.
pub open spec fn compiles_within(p: Seq<PyStmt>) -> bool {
    &&& loads_written(p)
    &&& load_stmts(p) matches Some(Ok(v)) ==> stmts_sites(v) < usize::MAX
}

/// Compiles source text as `compile_code` does, and gives `None` where it would panic: on
/// text the reader cannot take (`reader_takes`), or on a program the compiler does not take.
pub fn try_compile_code(code: &str) -> (r: Option<Result<Vec<Token>, CodeError>>)
    ensures
        r is None <==> (!reader_takes(code@) || (python_syntax(code@) matches Some(p) && !compiles_within(p))),
        r matches Some(x) ==> code_result(code@, x),
{
    if !reader_takes_ok(code) {
        return None;
    }
    match read_python(code) {
        Ok(program) => {
            let fits = match try_load_statements(&program) {
                None => false,
                Some(Err(_)) => true,
                Some(Ok(v)) => statements_written(&v) && stmts_sites_capped(&v) < usize::MAX,
            };
            if !fits {
                return None;
            }
            proof {
                match load_stmts(program@) {
                    Some(Ok(v)) => lemma_stmts_count(v, seq![], empty_store()),
                    _ => {},
                }
            }
            Some(compile_code(code))
        },
        Err(e) => Some(Err(CodeError::Syntax(e))),
    }
}


/// The tokens of a subscript `a[b]`: the tokens of the subscripted value `a`, then `.index(`,
/// the tokens of the index `b`, and `)`; the value is the receiver, the index the argument.
pub proof fn law_subscript_tokens(a: OExprV, b: OExprV)
    ensures
        oexpr_tokens(OExprV::Subscript(Box::new(a), Box::new(b)))
            == oexpr_tokens(a) + seq![punct('.'), ident("index"@), parens(oexpr_tokens(b))],
{
}

/// Swapping the value and the index changes the tokens, unless the two have the same tokens.
pub proof fn law_subscript_order_matters(a: OExprV, b: OExprV)
    requires
        oexpr_tokens(a) != oexpr_tokens(b),
    ensures
        oexpr_tokens(OExprV::Subscript(Box::new(a), Box::new(b)))
            != oexpr_tokens(OExprV::Subscript(Box::new(b), Box::new(a))),
{
    law_subscript_tokens(a, b);
    law_subscript_tokens(b, a);
    let x = oexpr_tokens(OExprV::Subscript(Box::new(a), Box::new(b)));
    let y = oexpr_tokens(OExprV::Subscript(Box::new(b), Box::new(a)));
    if x == y {
        assert(x.last() == parens(oexpr_tokens(b)));
        assert(y.last() == parens(oexpr_tokens(a)));
    }
}


/// The Rust symbol of each operator that the writer knows.
pub open spec fn rust_operator_symbol(op: Operator) -> char {
    match op {
        Operator::Add => '+',
        Operator::Sub => '-',
        _ => '*',
    }
}

/// The tokens of `a op b`, for an operator the writer knows: the tokens of `a`, the Rust
/// symbol of that very operator, the tokens of `b`; distinct operators give distinct tokens.
pub proof fn law_binop_tokens(a: OExprV, b: OExprV, op: Operator, o2: Operator)
    requires
        operator_written(op),
    ensures
        op == Operator::Add ==> oexpr_tokens(OExprV::Binop(Box::new(a), Box::new(b), op)) == oexpr_tokens(a) + seq![punct('+')] + oexpr_tokens(b),
        op == Operator::Sub ==> oexpr_tokens(OExprV::Binop(Box::new(a), Box::new(b), op)) == oexpr_tokens(a) + seq![punct('-')] + oexpr_tokens(b),
        op == Operator::Mult ==> oexpr_tokens(OExprV::Binop(Box::new(a), Box::new(b), op)) == oexpr_tokens(a) + seq![punct('*')] + oexpr_tokens(b),
        operator_written(o2) && op != o2 ==> oexpr_tokens(OExprV::Binop(Box::new(a), Box::new(b), op))
            != oexpr_tokens(OExprV::Binop(Box::new(a), Box::new(b), o2)),
{
    if operator_written(o2) && op != o2 {
        let k: int = oexpr_tokens(a).len() as int;
        assert(oexpr_tokens(OExprV::Binop(Box::new(a), Box::new(b), op))[k] == punct(rust_operator_symbol(op)));
        assert(oexpr_tokens(OExprV::Binop(Box::new(a), Box::new(b), o2))[k] == punct(rust_operator_symbol(o2)));
    }
}

/// The tokens of each comparison the writer knows: `<` for `Less`, `<=` for `LessOrEqual`.
pub open spec fn rust_comparison_tokens(c: Comparison) -> Seq<TokenV> {
    if c == Comparison::Less {
        seq![punct('<')]
    } else {
        seq![joint('<'), punct('=')]
    }
}

/// In a chain of comparisons the writer knows, the `i`-th comparison is written as the tokens
/// of the `i`-th operand, the tokens of the `i`-th comparison and the tokens of the next
/// operand, in that order; the comparisons are joined with `&&`.
pub proof fn law_comparison_chain(vs: Seq<OExprV>, ops: Seq<Comparison>)
    requires
        ops.len() + 1 == vs.len(),
        forall|i: int| 0 <= i < ops.len() ==> comparison_written(#[trigger] ops[i]),
    ensures
        comparisons(vs, ops).len() == ops.len(),
        forall|i: int| 0 <= i < ops.len() ==> #[trigger] comparisons(vs, ops)[i]
            == oexpr_tokens(vs[i]) + rust_comparison_tokens(ops[i]) + oexpr_tokens(vs[i + 1]),
        oexpr_tokens(OExprV::Compare(vs, ops)) == crate::generator::join_tokens(comparisons(vs, ops), seq![joint('&'), punct('&')]),
    decreases ops.len(),
{
    if ops.len() > 0 {
        let v2 = vs.drop_last();
        let o2 = ops.drop_last();
        assert forall|i: int| 0 <= i < o2.len() implies comparison_written(#[trigger] o2[i]) by {
            assert(o2[i] == ops[i]);
        }
        law_comparison_chain(v2, o2);
        assert forall|i: int| 0 <= i < ops.len() implies #[trigger] comparisons(vs, ops)[i]
            == oexpr_tokens(vs[i]) + rust_comparison_tokens(ops[i]) + oexpr_tokens(vs[i + 1]) by {
            if i < o2.len() {
                assert(comparisons(vs, ops)[i] == comparisons(v2, o2)[i]);
                assert(v2[i] == vs[i] && v2[i + 1] == vs[i + 1] && o2[i] == ops[i]);
            }
        }
    }
}

/// The tokens of an `if`: `if`, the tokens of the test, the body in braces, then, where there
/// is one, `else` and the `else` branch in braces.
pub proof fn law_if_tokens(t: OExprV, b: Seq<OStmtV>, o: Option<Seq<OStmtV>>)
    ensures
        o is None ==> ostmt_tokens(OStmtV::If(t, b, o)) == seq![ident("if"@)] + oexpr_tokens(t) + seq![braces(block_tokens(b))],
        o matches Some(e) ==> ostmt_tokens(OStmtV::If(t, b, o))
            == seq![ident("if"@)] + oexpr_tokens(t) + seq![braces(block_tokens(b)), ident("else"@), braces(block_tokens(e))],
{
    if let Some(e) = o {
        assert(seq![ident("if"@)] + oexpr_tokens(t) + seq![braces(block_tokens(b))] + seq![ident("else"@), braces(block_tokens(e))]
            =~= seq![ident("if"@)] + oexpr_tokens(t) + seq![braces(block_tokens(b)), ident("else"@), braces(block_tokens(e))]);
    } else {
        assert(seq![ident("if"@)] + oexpr_tokens(t) + seq![braces(block_tokens(b))] + seq![]
            =~= seq![ident("if"@)] + oexpr_tokens(t) + seq![braces(block_tokens(b))]);
    }
}

} // verus!
