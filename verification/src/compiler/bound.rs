//! A bound on the number of variables that the compiler names: one per place that declares
//! one (an assigned name, a function, an argument), which a capped count measures.
use vstd::prelude::*;
use crate::compiler::context::{collect_stmt, collect_stmts, collect_target, collect_targets, declare_all, declare_v, StoreV};
use crate::compiler::expression::{oviews, OExprV, OptpyExpression};
use crate::compiler::statement::{sviews, OStmtV, OptpyStatement};

verus! {

/// The places in an assignment target that declare a name.
pub open spec fn target_sites(e: OExprV) -> nat
    decreases e,
{
    match e {
        OExprV::Identifier(_) => 1,
        OExprV::Tuple(es) => targets_sites(es),
        _ => 0,
    }
}

pub open spec fn targets_sites(es: Seq<OExprV>) -> nat
    decreases es,
{
    if es.len() == 0 {
        0
    } else {
        targets_sites(es.drop_last()) + target_sites(es.last())
    }
}

/// The places in a statement that declare a name: assigned names, loop variables, and each
/// function with its arguments.
pub open spec fn stmt_sites(s: OStmtV) -> nat
    decreases s,
{
    match s {
        OStmtV::Assign(t, _) => target_sites(t),
        OStmtV::If(_, b, o) => stmts_sites(b) + match o {
            Some(o) => stmts_sites(o),
            None => 0,
        },
        OStmtV::For(t, _, b) => target_sites(t) + stmts_sites(b),
        OStmtV::FunctionDef(_, b, a) => 1 + a.len() + stmts_sites(b),
        _ => 0,
    }
}

pub open spec fn stmts_sites(ss: Seq<OStmtV>) -> nat
    decreases ss,
{
    if ss.len() == 0 {
        0
    } else {
        stmts_sites(ss.drop_last()) + stmt_sites(ss.last())
    }
}

/// `n`, or `usize::MAX` where it is larger.
pub open spec fn capped(n: nat) -> usize {
    if n >= usize::MAX {
        usize::MAX
    } else {
        n as usize
    }
}

proof fn lemma_target_count(e: OExprV, c: Seq<Seq<char>>, st: StoreV)
    ensures
        collect_target(e, c, st).count <= st.count + target_sites(e),
    decreases e,
{
    match e {
        OExprV::Tuple(es) => lemma_targets_count(es, c, st),
        _ => {},
    }
}

proof fn lemma_targets_count(es: Seq<OExprV>, c: Seq<Seq<char>>, st: StoreV)
    ensures
        collect_targets(es, c, st).count <= st.count + targets_sites(es),
    decreases es,
{
    if es.len() > 0 {
        lemma_targets_count(es.drop_last(), c, st);
        lemma_target_count(es.last(), c, collect_targets(es.drop_last(), c, st));
    }
}

proof fn lemma_declare_all_count(ns: Seq<Seq<char>>, c: Seq<Seq<char>>, st: StoreV)
    ensures
        declare_all(ns, c, st).count <= st.count + ns.len(),
    decreases ns.len(),
{
    if ns.len() > 0 {
        lemma_declare_all_count(ns.drop_last(), c, st);
    }
}

/// Collecting a statement names at most one new variable per place that declares one.
pub proof fn lemma_stmt_count(s: OStmtV, c: Seq<Seq<char>>, st: StoreV)
    ensures
        collect_stmt(s, c, st).count <= st.count + stmt_sites(s),
    decreases s,
{
    match s {
        OStmtV::Assign(t, _) => lemma_target_count(t, c, st),
        OStmtV::If(_, b, o) => {
            lemma_stmts_count(b, c, st);
            match o {
                Some(o) => lemma_stmts_count(o, c, collect_stmts(b, c, st)),
                None => {},
            }
        },
        OStmtV::For(t, _, b) => {
            lemma_target_count(t, c, st);
            lemma_stmts_count(b, c, collect_target(t, c, st));
        },
        OStmtV::FunctionDef(n, b, a) => {
            let (st1, m) = declare_v(st, c, n);
            lemma_declare_all_count(a, c.push(m), st1);
            lemma_stmts_count(b, c.push(m), declare_all(a, c.push(m), st1));
        },
        _ => {},
    }
}

/// Collecting statements names at most one new variable per place that declares one.
pub proof fn lemma_stmts_count(ss: Seq<OStmtV>, c: Seq<Seq<char>>, st: StoreV)
    ensures
        collect_stmts(ss, c, st).count <= st.count + stmts_sites(ss),
    decreases ss,
{
    if ss.len() > 0 {
        lemma_stmts_count(ss.drop_last(), c, st);
        lemma_stmt_count(ss.last(), c, collect_stmts(ss.drop_last(), c, st));
    }
}

fn capped_add(x: usize, y: usize, Ghost(a): Ghost<nat>, Ghost(b): Ghost<nat>) -> (r: usize)
    requires
        x == capped(a),
        y == capped(b),
    ensures
        r == capped(a + b),
{
    x.saturating_add(y)
}

fn target_sites_capped(e: &OptpyExpression) -> (r: usize)
    ensures
        r == capped(target_sites(e@)),
    decreases e, 0int,
{
    match e {
        OptpyExpression::Identifier { .. } => 1,
        OptpyExpression::Tuple { elements } => {
            proof {
                assert(e@->Tuple_0 =~= oviews(elements@));
            }
            targets_sites_capped(elements)
        },
        _ => 0,
    }
}

fn targets_sites_capped(es: &Vec<OptpyExpression>) -> (r: usize)
    ensures
        r == capped(targets_sites(oviews(es@))),
    decreases es, 1int,
{
    let ghost all = oviews(es@);
    let mut acc: usize = 0;
    let mut i: usize = 0;
    proof {
        assert(all.take(0) =~= Seq::<OExprV>::empty());
    }
    while i < es.len()
        invariant
            i <= es.len(),
            all == oviews(es@),
            all.len() == es.len(),
            acc == capped(targets_sites(all.take(i as int))),
        decreases es.len() - i,
    {
        let n = target_sites_capped(&es[i]);
        proof {
            assert(all.take(i + 1).drop_last() =~= all.take(i as int));
            assert(all.take(i + 1).last() == es@[i as int]@);
        }
        acc = capped_add(acc, n, Ghost(targets_sites(all.take(i as int))), Ghost(target_sites(es@[i as int]@)));
        i += 1;
    }
    proof {
        assert(all.take(i as int) =~= all);
    }
    acc
}

fn stmt_sites_capped(s: &OptpyStatement) -> (r: usize)
    ensures
        r == capped(stmt_sites(s@)),
    decreases s, 0int,
{
    let ghost sv = s@;
    match s {
        OptpyStatement::Assign { target, .. } => target_sites_capped(target),
        OptpyStatement::If { body, orelse, .. } => {
            proof {
                assert(sv->If_1 =~= sviews(body@));
                if orelse is Some {
                    assert(sv->If_2->Some_0 =~= sviews(orelse->Some_0@));
                }
            }
            let b = stmts_sites_capped(body);
            let o = match orelse {
                Some(o) => stmts_sites_capped(o),
                None => 0,
            };
            capped_add(b, o, Ghost(stmts_sites(sv->If_1)), Ghost(match sv->If_2 {
                Some(o) => stmts_sites(o),
                None => 0,
            }))
        },
        OptpyStatement::For { target, body, .. } => {
            proof {
                assert(sv->For_2 =~= sviews(body@));
            }
            let t = target_sites_capped(target);
            let b = stmts_sites_capped(body);
            capped_add(t, b, Ghost(target_sites(target@)), Ghost(stmts_sites(sviews(body@))))
        },
        OptpyStatement::FunctionDef { body, args, .. } => {
            proof {
                assert(sv->FunctionDef_1 =~= sviews(body@));
            }
            let head = capped_add(1, args.len(), Ghost(1), Ghost(args@.len()));
            let b = stmts_sites_capped(body);
            capped_add(head, b, Ghost(1 + args@.len()), Ghost(stmts_sites(sviews(body@))))
        },
        _ => 0,
    }
}

/// The places in the statements that declare a name, or `usize::MAX` where there are more.
pub fn stmts_sites_capped(v: &Vec<OptpyStatement>) -> (r: usize)
    ensures
        r == capped(stmts_sites(sviews(v@))),
    decreases v, 1int,
{
    let ghost all = sviews(v@);
    let mut acc: usize = 0;
    let mut i: usize = 0;
    proof {
        assert(all.take(0) =~= Seq::<OStmtV>::empty());
    }
    while i < v.len()
        invariant
            i <= v.len(),
            all == sviews(v@),
            all.len() == v.len(),
            acc == capped(stmts_sites(all.take(i as int))),
        decreases v.len() - i,
    {
        let n = stmt_sites_capped(&v[i]);
        proof {
            assert(all.take(i + 1).drop_last() =~= all.take(i as int));
            assert(all.take(i + 1).last() == v@[i as int]@);
        }
        acc = capped_add(acc, n, Ghost(stmts_sites(all.take(i as int))), Ghost(stmt_sites(v@[i as int]@)));
        i += 1;
    }
    proof {
        assert(all.take(i as int) =~= all);
    }
    acc
}

} // verus!
