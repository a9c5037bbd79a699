//! From the Python syntax tree to the statements that the resolver and generator read:
//! reading, then lowering list comprehensions, `for` loops and tuple assignments in turn.
pub mod expression;
pub mod for_loop;
pub mod fresh;
pub mod list_comprehension;
pub mod python;
pub mod ready;
pub mod source;
pub mod statement;
pub mod tuple_assign;

use vstd::prelude::*;
use crate::ast::{every_stmt, views, Statement, StmtV};
use crate::parser::for_loop::{lemma_lower_stmts_no_for, lower_stmts, not_for, simplify_for_loops};
use crate::parser::list_comprehension::{lc_stmt_ready, lc_stmts, simplify_list_comprehensions};
use crate::parser::python::PyStmt;
use crate::parser::statement::{parse_program, parse_stmts, stmt_supported};
use crate::parser::tuple_assign::{lemma_tuple_stmts_no_for, simplify_tuple_assignments, tuple_stmts};
use crate::parser::ready::{block_ready, lemma_ready_any_stamps, py_stmts_supported, raw_stmts_lc_ready};
use crate::parser::source::{python_syntax, read_python, reader_refusal, reader_refusal_of, reader_takes, Refusal};
use rustpython_parser::error::ParseError;

verus! {

/// The programs that `parse` takes without panicking: every statement is supported, and
/// no list comprehension stands where a lowered one could not (a `for` target, the target
/// or a filter of a comprehension).  The stamps do not bear on the second condition.
pub open spec fn program_ready(p: Seq<PyStmt>) -> bool {
    &&& forall|i: int| 0 <= i < p.len() ==> stmt_supported(#[trigger] p[i])
    &&& forall|st: Seq<u128>, i: int| 0 <= i < parse_stmts(p, st).0.len()
        ==> lc_stmt_ready(#[trigger] parse_stmts(p, st).0[i])
}

/// The program that the passes make of `p` with the stamps `s1`, `s2` and `s3` (reading,
/// list comprehensions, `for` loops), and whether each pass uses up its stamps.
pub open spec fn passes(p: Seq<PyStmt>, s1: Seq<u128>, s2: Seq<u128>, s3: Seq<u128>) -> (Seq<StmtV>, bool) {
    let (raw, r1) = parse_stmts(p, s1);
    let (lowered, r2) = lc_stmts(raw, s2);
    let (looped, r3) = lower_stmts(lowered, s3);
    (tuple_stmts(looped), r1.len() == 0 && r2.len() == 0 && r3.len() == 0)
}

/// No `for` loop is left, at any depth, in the program that the passes make: each one is
/// rewritten into a `while` loop over an iterator, whatever the program and the stamps.
pub proof fn law_no_for_loop_left(p: Seq<PyStmt>, s1: Seq<u128>, s2: Seq<u128>, s3: Seq<u128>)
    ensures
        forall|i: int| 0 <= i < passes(p, s1, s2, s3).0.len()
            ==> every_stmt(#[trigger] passes(p, s1, s2, s3).0[i], not_for()),
{
    let (raw, r1) = parse_stmts(p, s1);
    let (lowered, r2) = lc_stmts(raw, s2);
    let (looped, r3) = lower_stmts(lowered, s3);
    lemma_lower_stmts_no_for(lowered, s3);
    lemma_tuple_stmts_no_for(looped);
}

/// Lowers the syntax tree of a program to the statements of the resolver.
pub fn parse_syntax(program: &Vec<PyStmt>) -> (r: Vec<Statement>)
    requires
        program_ready(program@),
    ensures
        exists|s1: Seq<u128>, s2: Seq<u128>, s3: Seq<u128>| #[trigger] passes(program@, s1, s2, s3) == (views(r@), true),
{
    let (raw, u1) = parse_program(program);
    proof {
        assert(u1@ + Seq::<u128>::empty() =~= u1@);
        assert(parse_stmts(program@, u1@ + Seq::<u128>::empty()) == (views(raw@), Seq::<u128>::empty()));
        assert forall|i: int| 0 <= i < raw@.len() implies lc_stmt_ready(#[trigger] raw@[i]@) by {
            assert(views(raw@)[i] == raw@[i]@);
            assert(parse_stmts(program@, u1@).0[i] == raw@[i]@);
        }
    }
    let lowered = simplify_list_comprehensions(raw);
    let looped = simplify_for_loops(lowered);
    let r = simplify_tuple_assignments(looped);
    proof {
        let s2 = choose|s2: Seq<u128>| #[trigger] lc_stmts(views(raw@), s2) == (views(lowered@), Seq::<u128>::empty());
        let s3 = choose|s3: Seq<u128>| #[trigger] lower_stmts(views(lowered@), s3) == (views(looped@), Seq::<u128>::empty());
        assert(passes(program@, u1@, s2, s3) == (views(r@), true));
    }
    r
}

/// Lowers a syntax tree as `parse_syntax` does, and gives `None` where it would panic: on a
/// statement or expression that the reader does not know, or on a list comprehension read
/// where a lowered one could not stand.
pub fn try_parse_syntax(program: &Vec<PyStmt>) -> (r: Option<Vec<Statement>>)
    ensures
        r is Some <==> program_ready(program@),
        match r {
            Some(v) => exists|s1: Seq<u128>, s2: Seq<u128>, s3: Seq<u128>| #[trigger] passes(program@, s1, s2, s3) == (views(v@), true),
            None => !program_ready(program@),
        },
{
    if !py_stmts_supported(program) {
        return None;
    }
    let (raw, u1) = parse_program(program);
    proof {
        assert(u1@ + Seq::<u128>::empty() =~= u1@);
        assert(parse_stmts(program@, u1@ + Seq::<u128>::empty()) == (views(raw@), Seq::<u128>::empty()));
    }
    if !raw_stmts_lc_ready(&raw) {
        proof {
            let i = choose|i: int| 0 <= i < raw@.len() && !lc_stmt_ready(#[trigger] raw@[i]@);
            assert(views(raw@)[i] == raw@[i]@);
            assert(parse_stmts(program@, u1@).0[i] == raw@[i]@);
            assert(!lc_stmt_ready(parse_stmts(program@, u1@).0[i]));
        }
        return None;
    }
    proof {
        assert(block_ready(parse_stmts(program@, u1@).0));
        lemma_ready_any_stamps(program@, u1@);
    }
    let lowered = simplify_list_comprehensions(raw);
    let looped = simplify_for_loops(lowered);
    let r = simplify_tuple_assignments(looped);
    proof {
        let s2 = choose|s2: Seq<u128>| #[trigger] lc_stmts(views(raw@), s2) == (views(lowered@), Seq::<u128>::empty());
        let s3 = choose|s3: Seq<u128>| #[trigger] lower_stmts(views(lowered@), s3) == (views(looped@), Seq::<u128>::empty());
        assert(passes(program@, u1@, s2, s3) == (views(r@), true));
    }
    Some(r)
}

/// Why a source text was not read: the reader's syntax error, a node that the passes do not
/// take, or a text on which the reader would panic: an octal escape above 255, a number
/// whose exponent has no digits, or a formatted string.
#[derive(Debug)]
pub enum SourceError {
    Syntax(ParseError),
    Unsupported,
    OctalEscape,
    EmptyExponent,
    FormattedString,
}

/// Reads Python source text and lowers it to the statements of the resolver; the reader's
/// error where the text is not Python.
pub fn parse(code: &str) -> (r: Result<Vec<Statement>, SourceError>)
    requires
        reader_takes(code@),
        python_syntax(code@) matches Some(p) ==> program_ready(p),
    ensures
        match python_syntax(code@) {
            None => r matches Err(SourceError::Syntax(_)),
            Some(p) => r matches Ok(v) && exists|s1: Seq<u128>, s2: Seq<u128>, s3: Seq<u128>|
                #[trigger] passes(p, s1, s2, s3) == (views(v@), true),
        },
{
    match read_python(code) {
        Ok(program) => Ok(parse_syntax(&program)),
        Err(e) => Err(SourceError::Syntax(e)),
    }
}

/// Reads source text as `parse` does, and gives an error where `parse` would panic: on a
/// text that the reader cannot take (`reader_refusal`), or on a program whose nodes the
/// passes do not take.
pub fn try_parse(code: &str) -> (r: Result<Vec<Statement>, SourceError>)
    ensures
        reader_refusal(code@) == Some(Refusal::OctalEscape) ==> r matches Err(SourceError::OctalEscape),
        reader_refusal(code@) == Some(Refusal::EmptyExponent) ==> r matches Err(SourceError::EmptyExponent),
        reader_refusal(code@) == Some(Refusal::FormattedString) ==> r matches Err(SourceError::FormattedString),
        reader_takes(code@) ==> match python_syntax(code@) {
            None => r matches Err(SourceError::Syntax(_)),
            Some(p) => if program_ready(p) {
                r matches Ok(v) && exists|s1: Seq<u128>, s2: Seq<u128>, s3: Seq<u128>|
                    #[trigger] passes(p, s1, s2, s3) == (views(v@), true)
            } else {
                r matches Err(SourceError::Unsupported)
            },
        },
{
    match reader_refusal_of(code) {
        Some(Refusal::OctalEscape) => {
            return Err(SourceError::OctalEscape);
        },
        Some(Refusal::EmptyExponent) => {
            return Err(SourceError::EmptyExponent);
        },
        Some(Refusal::FormattedString) => {
            return Err(SourceError::FormattedString);
        },
        None => {},
    }
    match read_python(code) {
        Ok(program) => {
            match try_parse_syntax(&program) {
                Some(_) => parse(code),
                None => Err(SourceError::Unsupported),
            }
        },
        Err(e) => Err(SourceError::Syntax(e)),
    }
}

} // verus!
