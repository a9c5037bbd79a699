//! The statements of the compiler, loaded from the Python syntax tree.
use vstd::prelude::*;
use crate::ast::{copy_string, copy_strings, strings_view};
use crate::compiler::expression::{load_expr, LoadError, OExprV, OptpyExpression};
use crate::parser::python::PyStmt;

verus! {

#[derive(Debug, PartialEq, Eq)]
pub enum OptpyStatement {
    /// The declaration of the variables of the top level.
    Initialize { variables: Vec<String> },
    Expression { inner: OptpyExpression },
    Assign { target: OptpyExpression, value: OptpyExpression },
    If { test: OptpyExpression, body: Vec<OptpyStatement>, orelse: Option<Vec<OptpyStatement>> },
    For { target: OptpyExpression, iter: OptpyExpression, body: Vec<OptpyStatement> },
    FunctionDef { name: String, body: Vec<OptpyStatement>, args: Vec<String> },
    Return { value: Option<OptpyExpression> },
}

/// What a statement is, as a mathematical value.
pub enum OStmtV {
    Initialize(Seq<Seq<char>>),
    Expression(OExprV),
    Assign(OExprV, OExprV),
    If(OExprV, Seq<OStmtV>, Option<Seq<OStmtV>>),
    For(OExprV, OExprV, Seq<OStmtV>),
    FunctionDef(Seq<char>, Seq<OStmtV>, Seq<Seq<char>>),
    Return(Option<OExprV>),
}

pub open spec fn no_ostmt() -> OStmtV {
    OStmtV::Return(None)
}

pub open spec fn ostmt_view(s: OptpyStatement) -> OStmtV
    decreases s,
{
    match s {
        OptpyStatement::Initialize { variables } => OStmtV::Initialize(strings_view(variables@)),
        OptpyStatement::Expression { inner } => OStmtV::Expression(inner@),
        OptpyStatement::Assign { target, value } => OStmtV::Assign(target@, value@),
        OptpyStatement::If { test, body, orelse } => OStmtV::If(
            test@,
            Seq::new(body@.len(), |i: int| if 0 <= i < body@.len() { ostmt_view(body@[i]) } else { no_ostmt() }),
            match orelse {
                Some(o) => Some(Seq::new(o@.len(), |i: int| if 0 <= i < o@.len() { ostmt_view(o@[i]) } else { no_ostmt() })),
                None => None,
            },
        ),
        OptpyStatement::For { target, iter, body } => OStmtV::For(
            target@,
            iter@,
            Seq::new(body@.len(), |i: int| if 0 <= i < body@.len() { ostmt_view(body@[i]) } else { no_ostmt() }),
        ),
        OptpyStatement::FunctionDef { name, body, args } => OStmtV::FunctionDef(
            name@,
            Seq::new(body@.len(), |i: int| if 0 <= i < body@.len() { ostmt_view(body@[i]) } else { no_ostmt() }),
            strings_view(args@),
        ),
        OptpyStatement::Return { value } => OStmtV::Return(
            match value {
                Some(v) => Some(v@),
                None => None,
            },
        ),
    }
}

impl View for OptpyStatement {
    type V = OStmtV;

    open spec fn view(&self) -> OStmtV {
        ostmt_view(*self)
    }
}

/// The views of a sequence of statements.
pub open spec fn sviews(s: Seq<OptpyStatement>) -> Seq<OStmtV> {
    Seq::new(s.len(), |i: int| s[i]@)
}

/// The statement that `load` reads from `s`: `None` where loading panics (an assignment to
/// more than one target is reached), otherwise the statement or the first node it does not
/// know.  An `if` without `else` has no `orelse`.
pub open spec fn load_stmt(s: PyStmt) -> Option<Result<OStmtV, LoadError>>
    decreases s,
{
    match s {
        PyStmt::Expr(e) => Some(
            match load_expr(e) {
                Err(x) => Err(x),
                Ok(v) => Ok(OStmtV::Expression(v)),
            },
        ),
        PyStmt::Assign { targets, value } => {
            if targets@.len() != 1 {
                None
            } else {
                Some(
                    match load_expr(value) {
                        Err(x) => Err(x),
                        Ok(v) => match load_expr(targets@[0]) {
                            Err(x) => Err(x),
                            Ok(t) => Ok(OStmtV::Assign(t, v)),
                        },
                    },
                )
            }
        },
        PyStmt::If { test, body, orelse } => match load_expr(test) {
            Err(x) => Some(Err(x)),
            Ok(t) => match load_stmts(body@) {
                None => None,
                Some(Err(x)) => Some(Err(x)),
                Some(Ok(b)) => if orelse@.len() == 0 {
                    Some(Ok(OStmtV::If(t, b, None)))
                } else {
                    match load_stmts(orelse@) {
                        None => None,
                        Some(Err(x)) => Some(Err(x)),
                        Some(Ok(o)) => Some(Ok(OStmtV::If(t, b, Some(o)))),
                    }
                },
            },
        },
        PyStmt::For { target, iter, body } => match load_expr(iter) {
            Err(x) => Some(Err(x)),
            Ok(it) => match load_stmts(body@) {
                None => None,
                Some(Err(x)) => Some(Err(x)),
                Some(Ok(b)) => match load_expr(target) {
                    Err(x) => Some(Err(x)),
                    Ok(t) => Some(Ok(OStmtV::For(t, it, b))),
                },
            },
        },
        PyStmt::FunctionDef { name, args, body } => match load_stmts(body@) {
            None => None,
            Some(Err(x)) => Some(Err(x)),
            Some(Ok(b)) => Some(Ok(OStmtV::FunctionDef(name@, b, strings_view(args@)))),
        },
        PyStmt::Return(v) => match v {
            None => Some(Ok(OStmtV::Return(None))),
            Some(e) => Some(
                match load_expr(e) {
                    Err(x) => Err(x),
                    Ok(x) => Ok(OStmtV::Return(Some(x))),
                },
            ),
        },
        _ => Some(Err(LoadError::Statement)),
    }
}

/// The statements loaded in order: the first panic or failure reached, or all of them.
pub open spec fn load_stmts(ss: Seq<PyStmt>) -> Option<Result<Seq<OStmtV>, LoadError>>
    decreases ss,
{
    if ss.len() == 0 {
        Some(Ok(seq![]))
    } else {
        match load_stmts(ss.drop_last()) {
            None => None,
            Some(Err(x)) => Some(Err(x)),
            Some(Ok(v)) => match load_stmt(ss.last()) {
                None => None,
                Some(Err(x)) => Some(Err(x)),
                Some(Ok(s)) => Some(Ok(v.push(s))),
            },
        }
    }
}

/// Once a prefix fails, every longer prefix fails the same way.
proof fn lemma_load_stmts_stops(v: Seq<PyStmt>, k: int)
    requires
        0 < k <= v.len(),
        load_stmts(v.take(k)) matches Some(Err(_)),
    ensures
        load_stmts(v) == load_stmts(v.take(k)),
    decreases v.len() - k,
{
    if k < v.len() {
        assert(v.take(k + 1).drop_last() =~= v.take(k));
        lemma_load_stmts_stops(v, k + 1);
    } else {
        assert(v.take(k) =~= v);
    }
}

/// A prefix that loads without panic is reached whenever the whole does not panic.
proof fn lemma_load_stmts_prefix(v: Seq<PyStmt>, k: int)
    requires
        0 <= k <= v.len(),
        load_stmts(v) is Some,
    ensures
        load_stmts(v.take(k)) is Some,
    decreases v.len() - k,
{
    if k < v.len() {
        lemma_load_stmts_prefix(v, k + 1);
        assert(v.take(k + 1).drop_last() =~= v.take(k));
    } else {
        assert(v.take(k) =~= v);
    }
}

/// Loads a statement, or tells that loading it panics (`None`).
fn try_load(statement: &PyStmt) -> (r: Option<Result<OptpyStatement, LoadError>>)
    ensures
        match r {
            None => load_stmt(*statement) is None,
            Some(Ok(s)) => load_stmt(*statement) == Some(Ok::<OStmtV, LoadError>(s@)),
            Some(Err(x)) => load_stmt(*statement) == Some(Err::<OStmtV, LoadError>(x)),
        },
    decreases statement, 0int,
{
    match statement {
        PyStmt::Expr(e) => match OptpyExpression::load(e) {
            Ok(x) => Some(Ok(OptpyStatement::Expression { inner: x })),
            Err(x) => Some(Err(x)),
        },
        PyStmt::Assign { targets, value } => {
            if targets.len() != 1 {
                return None;
            }
            let value = match OptpyExpression::load(value) {
                Ok(x) => x,
                Err(x) => return Some(Err(x)),
            };
            let target = match OptpyExpression::load(&targets[0]) {
                Ok(x) => x,
                Err(x) => return Some(Err(x)),
            };
            Some(Ok(OptpyStatement::Assign { target, value }))
        },
        PyStmt::If { test, body, orelse } => {
            let test = match OptpyExpression::load(test) {
                Ok(x) => x,
                Err(x) => return Some(Err(x)),
            };
            let body = match try_load_statements(body) {
                Some(Ok(x)) => x,
                Some(Err(x)) => return Some(Err(x)),
                None => return None,
            };
            let orelse = if orelse.len() == 0 {
                None
            } else {
                match try_load_statements(orelse) {
                    Some(Ok(x)) => Some(x),
                    Some(Err(x)) => return Some(Err(x)),
                    None => return None,
                }
            };
            let ghost ov = if orelse is Some { Some(sviews(orelse->Some_0@)) } else { None };
            let r = OptpyStatement::If { test, body, orelse };
            proof {
                assert(r@->If_1 =~= sviews(body@));
                if ov is Some {
                    assert(r@->If_2->Some_0 =~= ov->Some_0);
                }
            }
            Some(Ok(r))
        },
        PyStmt::For { target, iter, body } => {
            let iter = match OptpyExpression::load(iter) {
                Ok(x) => x,
                Err(x) => return Some(Err(x)),
            };
            let body = match try_load_statements(body) {
                Some(Ok(x)) => x,
                Some(Err(x)) => return Some(Err(x)),
                None => return None,
            };
            let target = match OptpyExpression::load(target) {
                Ok(x) => x,
                Err(x) => return Some(Err(x)),
            };
            let r = OptpyStatement::For { target, iter, body };
            proof {
                assert(r@->For_2 =~= sviews(body@));
            }
            Some(Ok(r))
        },
        PyStmt::FunctionDef { name, args, body } => {
            let body = match try_load_statements(body) {
                Some(Ok(x)) => x,
                Some(Err(x)) => return Some(Err(x)),
                None => return None,
            };
            let r = OptpyStatement::FunctionDef { name: copy_string(name), body, args: copy_strings(args) };
            proof {
                assert(r@->FunctionDef_1 =~= sviews(body@));
            }
            Some(Ok(r))
        },
        PyStmt::Return(v) => match v {
            None => Some(Ok(OptpyStatement::Return { value: None })),
            Some(e) => match OptpyExpression::load(e) {
                Ok(x) => Some(Ok(OptpyStatement::Return { value: Some(x) })),
                Err(x) => Some(Err(x)),
            },
        },
        _ => Some(Err(LoadError::Statement)),
    }
}

/// Loads the statements in order: the first failure, or `None` where loading panics
/// first.
pub fn try_load_statements(v: &Vec<PyStmt>) -> (r: Option<Result<Vec<OptpyStatement>, LoadError>>)
    ensures
        match r {
            None => load_stmts(v@) is None,
            Some(Ok(ss)) => load_stmts(v@) == Some(Ok::<Seq<OStmtV>, LoadError>(sviews(ss@))),
            Some(Err(x)) => load_stmts(v@) == Some(Err::<Seq<OStmtV>, LoadError>(x)),
        },
    decreases v, 1int,
{
    let mut r: Vec<OptpyStatement> = Vec::new();
    let mut i: usize = 0;
    proof {
        assert(v@.take(0) =~= Seq::<PyStmt>::empty());
        assert(sviews(r@) =~= Seq::<OStmtV>::empty());
    }
    while i < v.len()
        invariant
            i <= v.len(),
            load_stmts(v@.take(i as int)) == Some(Ok::<Seq<OStmtV>, LoadError>(sviews(r@))),
        decreases v.len() - i,
    {
        proof {
            assert(v@.take(i + 1).drop_last() =~= v@.take(i as int));
            assert(v@.take(i + 1).last() == v@[i as int]);
        }
        let s = match try_load(&v[i]) {
            Some(Ok(s)) => s,
            Some(Err(x)) => {
                proof {
                    lemma_load_stmts_stops(v@, i as int + 1);
                }
                return Some(Err(x));
            },
            None => {
                proof {
                    if load_stmts(v@) is Some {
                        lemma_load_stmts_prefix(v@, i as int + 1);
                    }
                }
                return None;
            },
        };
        let ghost before = sviews(r@);
        let ghost sv = s@;
        r.push(s);
        proof {
            assert(sviews(r@) =~= before.push(sv));
        }
        i += 1;
    }
    proof {
        assert(v@.take(i as int) =~= v@);
    }
    Some(Ok(r))
}

impl OptpyStatement {
    /// Loads a statement of the syntax tree, as a list of one statement.
    pub fn load(statement: &PyStmt) -> (r: Result<Vec<OptpyStatement>, LoadError>)
        requires
            load_stmt(*statement) is Some,
        ensures
            match r {
                Ok(v) => v.len() == 1 && load_stmt(*statement) == Some(Ok::<OStmtV, LoadError>(v@[0]@)),
                Err(x) => load_stmt(*statement) == Some(Err::<OStmtV, LoadError>(x)),
            },
    {
        match try_load(statement) {
            Some(Ok(s)) => {
                let mut v: Vec<OptpyStatement> = Vec::new();
                v.push(s);
                Ok(v)
            },
            Some(Err(x)) => Err(x),
            None => {
                proof {
                    assert(false);
                }
                Err(LoadError::Statement)
            },
        }
    }
}

/// Loads the statements in order, stopping at the first failure.
pub fn load_statements(v: &Vec<PyStmt>) -> (r: Result<Vec<OptpyStatement>, LoadError>)
    requires
        load_stmts(v@) is Some,
    ensures
        match r {
            Ok(ss) => load_stmts(v@) == Some(Ok::<Seq<OStmtV>, LoadError>(sviews(ss@))),
            Err(x) => load_stmts(v@) == Some(Err::<Seq<OStmtV>, LoadError>(x)),
        },
{
    match try_load_statements(v) {
        Some(Ok(ss)) => Ok(ss),
        Some(Err(x)) => Err(x),
        None => {
            proof {
                assert(false);
            }
            Err(LoadError::Statement)
        },
    }
}


/// An `if` is loaded with its test, its body as body and its `else` branch (where it has
/// one) as `else` branch; an assignment keeps its target as target and its value as value.
pub proof fn law_if_assign_loaded(s: PyStmt)
    ensures
        s matches PyStmt::If { test, body, orelse } ==> (load_expr(test) matches Ok(t) ==> (load_stmts(body@) matches Some(Ok(b)) ==> {
            &&& orelse@.len() == 0 ==> load_stmt(s) == Some(Ok::<OStmtV, LoadError>(OStmtV::If(t, b, None)))
            &&& orelse@.len() > 0 ==> (load_stmts(orelse@) matches Some(Ok(o))
                ==> load_stmt(s) == Some(Ok::<OStmtV, LoadError>(OStmtV::If(t, b, Some(o)))))
        })),
        s matches PyStmt::Assign { targets, value } ==> (targets@.len() == 1 ==> (load_expr(targets@[0]) matches Ok(t)
            ==> (load_expr(value) matches Ok(v) ==> load_stmt(s) == Some(Ok::<OStmtV, LoadError>(OStmtV::Assign(t, v)))))),
{
}

} // verus!
