//! Name resolution: unique names, built-in calls, and the variables passed between
//! functions, repeated until nothing changes.
pub mod builtin;
pub mod error;
pub mod call;
pub mod name;
pub mod sorted;

use vstd::prelude::*;
use crate::ast::{every_stmt, every_stmt_expr, stmts_eq, views, Statement, StmtV};
use crate::resolver::builtin::{builtin_ready, builtin_stmts, resolve_builtin_functions};
use crate::resolver::call::{call_stmt, calls_model, calls_ready, resolve_function_calls, root_vars};
use crate::resolver::name::{names_ready, names_stmts, program_functions, program_variables, resolve_names};
use crate::resolver::sorted::{map_of, SortedMap};

verus! {

/// The renaming pass on a program.
pub open spec fn names_pass(s: Seq<StmtV>) -> Seq<StmtV> {
    names_stmts(s, program_variables(s), "__v"@, program_functions(s), "__f"@, Seq::empty())
}

/// The pass that passes shared variables.
pub open spec fn calls_pass(s: Seq<StmtV>) -> Seq<StmtV> {
    Seq::new(s.len(), |i: int| call_stmt(s[i], calls_model(s).exts))
}

/// One round of the three passes.
#[verifier::opaque]
pub open spec fn round(s: Seq<StmtV>) -> Seq<StmtV> {
    calls_pass(builtin_stmts(names_pass(s)))
}

/// The three passes of a round do not fail on `s`.
#[verifier::opaque]
pub open spec fn round_ready(s: Seq<StmtV>) -> bool {
    &&& forall|i: int| 0 <= i < s.len() ==> every_stmt(#[trigger] s[i], names_ready())
    &&& forall|i: int| 0 <= i < names_pass(s).len() ==> every_stmt_expr(#[trigger] names_pass(s)[i], builtin_ready())
    &&& calls_ready(builtin_stmts(names_pass(s)))
}

/// The program after `k` rounds.
pub open spec fn rounds(s: Seq<StmtV>, k: nat) -> Seq<StmtV>
    decreases k,
{
    if k == 0 {
        s
    } else {
        round(rounds(s, (k - 1) as nat))
    }
}

/// The rounds reach a program that a further round leaves as it is, and none fails on the
/// way.
pub open spec fn resolve_ready(s: Seq<StmtV>) -> bool {
    exists|k: nat| #[trigger] round(rounds(s, k)) == rounds(s, k)
        && forall|j: nat| j <= k ==> round_ready(#[trigger] rounds(s, j))
}

/// The definitions that the last round reports for the program `s` it starts from.
#[verifier::opaque]
pub open spec fn round_definitions(s: Seq<StmtV>) -> Map<Seq<char>, Set<Seq<char>>> {
    let c = calls_model(builtin_stmts(names_pass(s)));
    c.defs.insert(Seq::<char>::empty(), root_vars(c.refs))
}

/// `r` is what the rounds make of `s`: the first program on the way that a further round
/// leaves as it is.
pub open spec fn resolution_of(s: Seq<StmtV>, r: Seq<StmtV>) -> bool {
    exists|k: nat| {
        &&& #[trigger] rounds(s, k) == r
        &&& round(r) == r
        &&& forall|j: nat| j < k ==> round(#[trigger] rounds(s, j)) != rounds(s, j)
    }
}

/// Resolving a resolved program gives it back: a second `resolve` changes nothing.
pub proof fn law_resolve_idempotent(s: Seq<StmtV>, r: Seq<StmtV>, again: Seq<StmtV>)
    requires
        resolution_of(s, r),
        resolution_of(r, again),
    ensures
        again == r,
{
    let k = choose|k: nat| {
        &&& #[trigger] rounds(r, k) == again
        &&& round(again) == again
        &&& forall|j: nat| j < k ==> round(#[trigger] rounds(r, j)) != rounds(r, j)
    };
    if k > 0 {
        assert(rounds(r, 0) == r);
        assert(round(rounds(r, 0)) != rounds(r, 0));
    }
}

/// One round of the three passes.
fn one_round(current: &Vec<Statement>) -> (r: (Vec<Statement>, SortedMap))
    requires
        round_ready(views(current@)),
    ensures
        views(r.0@) == round(views(current@)),
        map_of(r.1@) == round_definitions(views(current@)),
        r.1.wf(),
{
    let ghost cv = views(current@);
    proof {
        reveal(round_ready);
        assert forall|i: int| 0 <= i < current@.len() implies every_stmt(#[trigger] current@[i]@, names_ready()) by {
            assert(cv[i] == current@[i]@);
        }
    }
    let named = resolve_names(current);
    proof {
        assert(views(named@) == names_pass(cv));
        assert forall|i: int| 0 <= i < named@.len() implies every_stmt_expr(#[trigger] named@[i]@, builtin_ready()) by {
            assert(names_pass(cv)[i] == named@[i]@);
        }
    }
    let built = resolve_builtin_functions(named.as_slice());
    proof {
        assert(views(built@) =~= builtin_stmts(names_pass(cv)));
    }
    let (resolved, definitions) = resolve_function_calls(&built);
    proof {
        reveal(round);
        reveal(round_definitions);
        assert(views(resolved@) =~= round(cv));
    }
    (resolved, definitions)
}

/// Repeats the renaming, built-in and shared-variable passes until a round changes
/// nothing; returns the program and the variables each function defines.
pub fn resolve(statements: &Vec<Statement>) -> (r: (Vec<Statement>, SortedMap))
    requires
        resolve_ready(views(statements@)),
    ensures
        resolution_of(views(statements@), views(r.0@)),
        map_of(r.1@) == round_definitions(views(r.0@)),
        r.1.wf(),
{
    let ghost s0 = views(statements@);
    let ghost bound = choose|k: nat| #[trigger] round(rounds(s0, k)) == rounds(s0, k)
        && forall|j: nat| j <= k ==> round_ready(#[trigger] rounds(s0, j));
    let mut current: Vec<Statement> = crate::ast::copy_stmts(statements);
    let ghost mut n: nat = 0;
    proof {
        assert(views(current@) =~= s0);
    }
    loop
        invariant
            n <= bound,
            s0 == views(statements@),
            views(current@) == rounds(s0, n),
            round(rounds(s0, bound)) == rounds(s0, bound),
            forall|j: nat| j <= bound ==> round_ready(#[trigger] rounds(s0, j)),
            forall|j: nat| j < n ==> round(#[trigger] rounds(s0, j)) != rounds(s0, j),
        decreases bound - n,
    {
        proof {
            assert(round_ready(rounds(s0, n)));
        }
        let (resolved, definitions) = one_round(&current);
        proof {
            assert(rounds(s0, n + 1) == round(rounds(s0, n)));
        }
        if stmts_eq(&resolved, &current) {
            proof {
                assert(views(resolved@) == views(current@));
                assert(rounds(s0, n) == views(resolved@));
                assert(round(views(resolved@)) == views(resolved@));
            }
            return (resolved, definitions);
        }
        proof {
            if n == bound {
                assert(round(rounds(s0, n)) == rounds(s0, n));
            }
            n = n + 1;
        }
        current = resolved;
    }
}

} // verus!
pub mod module;
