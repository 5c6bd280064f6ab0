//! What the two sides of an equivalence check are.

use vstd::prelude::*;
use crate::ast::helpers::{param_binding, query_exprs, ComponentV};
use crate::ast::{ExprV, FuncV, ItemV, MemberV, ParamV};
use crate::checker::query::{
    both_runs, end_states, member_called, most_fresh, prepared, query_head, runs_of, side_roots,
    QueryCheckV,
};
use crate::checker::symbolic::block_laws::{functions_have_their_paths, is_path};
use crate::checker::symbolic::context::{lookup, ContextV};
use crate::checker::symbolic::extension::extends;
use crate::checker::symbolic::growth::functions_only_add;
use crate::checker::symbolic::results::OutcomeV;
use crate::checker::symbolic::semantics::{interp, run_of, Flow};
use crate::checker::symbolic::state::{initial_state, StateV};
use crate::checker::task::CheckFault;

verus! {

/// The function of a member.
pub open spec fn func_in(m: MemberV) -> FuncV {
    match m {
        MemberV::Computation(f) => f,
        MemberV::Constraint(f) => f,
    }
}

/// A function is that of the first member of a name.
pub open spec fn is_first_called(members: Seq<MemberV>, name: Seq<char>, f: FuncV) -> bool {
    exists|j: int|
        0 <= j < members.len() && func_in(#[trigger] members[j]) == f && f.name == name
            && forall|k: int| 0 <= k < j ==> func_in(#[trigger] members[k]).name != name
}

proof fn lemma_member_called(members: Seq<MemberV>, i: int, name: Seq<char>)
    requires
        0 <= i,
        forall|k: int| 0 <= k < i && k < members.len() ==> func_in(#[trigger] members[k]).name != name,
    ensures
        match member_called(members, i, name) {
            Some(m) => is_first_called(members, name, func_in(m)),
            None => forall|k: int|
                0 <= k < members.len() ==> func_in(#[trigger] members[k]).name != name,
        },
    decreases members.len() - i,
{
    if i < members.len() {
        if func_in(members[i]).name != name {
            lemma_member_called(members, i + 1, name);
        }
    }
}

/// A parameter goes by a name: `self` by that, another by its own.
pub open spec fn goes_by(p: ParamV, name: Seq<char>) -> bool {
    match p {
        ParamV::SelfParam { .. } => name == "self"@,
        ParamV::Typed { name: n, .. } => name != "self"@ && n == name,
    }
}

/// A variable is that of the first parameter that goes by a name and has one.
pub open spec fn is_variable_of(params: Seq<ParamV>, name: Seq<char>, vid: i64) -> bool {
    exists|j: int|
        0 <= j < params.len() && goes_by(#[trigger] params[j], name) && has_variable(params[j])
            == Some(vid) && forall|k: int|
            0 <= k < j && goes_by(#[trigger] params[k], name) ==> has_variable(params[k]) is None
}

/// The variable of a parameter.
pub open spec fn has_variable(p: ParamV) -> Option<i64> {
    match p {
        ParamV::SelfParam { id } => id,
        ParamV::Typed { id, .. } => id,
    }
}

proof fn lemma_binding(params: Seq<ParamV>, name: Seq<char>)
    ensures
        match param_binding(params, name) {
            Some(vid) => is_variable_of(params, name, vid),
            None => true,
        },
    decreases params.len(),
{
    if params.len() > 0 {
        let rest = params.skip(1);
        lemma_binding(rest, name);
        if let Some(vid) = param_binding(params, name) {
            let p = params[0];
            if goes_by(p, name) && has_variable(p) is Some {
                assert(params[0] == p);
            } else {
                let j = choose|j: int|
                    0 <= j < rest.len() && goes_by(#[trigger] rest[j], name) && has_variable(rest[j])
                        == Some(vid) && forall|k: int|
                        0 <= k < j && goes_by(#[trigger] rest[k], name) ==> has_variable(
                            rest[k],
                        ) is None;
                assert(params[j + 1] == rest[j]);
                assert forall|k: int| 0 <= k < j + 1 && goes_by(#[trigger] params[k], name) implies
                    has_variable(params[k]) is None by {
                    if k > 0 {
                        assert(params[k] == rest[k - 1]);
                    }
                }
            }
        }
    }
}

/// An expression is the variable that a query path names.
pub open spec fn is_root(params: Seq<ParamV>, path: Seq<Seq<char>>, e: ExprV) -> bool {
    match e {
        ExprV::Path { segments, ref_id: Some(vid) } => path.len() == 1 && segments == path
            && is_variable_of(params, path[0], vid),
        _ => false,
    }
}

proof fn lemma_roots(params: Seq<ParamV>, paths: Seq<Seq<Seq<char>>>, k: int)
    requires
        query_exprs(params, paths) is Ok,
    ensures
        query_exprs(params, paths)->Ok_0.len() == paths.len(),
        0 <= k < paths.len() ==> is_root(
            params,
            paths[k],
            query_exprs(params, paths)->Ok_0[k],
        ),
    decreases paths.len(),
{
    if paths.len() > 0 {
        lemma_roots(params, paths.drop_last(), k);
        let last = paths.last();
        lemma_binding(params, last[0]);
        assert(seq![last[0]] =~= last);
    }
}

/// The sides of an equivalence check are the members that the query names, the left one first, and
/// its roots are the parameters that the query names, in order.
pub proof fn sides_are_what_the_query_names(
    items: Seq<ItemV>,
    ctx: ContextV,
    comp: ComponentV,
    q: QueryCheckV,
    k: int,
)
    requires
        prepared(items, ctx, comp) == Ok::<QueryCheckV, CheckFault>(q),
    ensures
        comp.3 is Some,
        ({
            let query = comp.3->0;
            &&& query.lhs.len() == query.rhs.len()
            &&& query.lhs.len() >= 2
            &&& is_first_called(comp.2, query.lhs[0].last(), q.lhs)
            &&& is_first_called(comp.2, query.rhs[0].last(), q.rhs)
            &&& q.lhs_paths == query.lhs
            &&& q.rhs_paths == query.rhs
            &&& q.lhs_roots.len() == query.lhs.len() - 1
            &&& q.rhs_roots.len() == query.rhs.len() - 1
            &&& 0 <= k < q.lhs_roots.len() ==> is_root(
                q.lhs.params,
                query.lhs[k + 1],
                q.lhs_roots[k],
            ) && is_root(q.rhs.params, query.rhs[k + 1], q.rhs_roots[k])
            &&& q.items == items
            &&& q.ctx == ctx
        }),
{
    reveal(prepared);
    let query = comp.3->0;
    let lh = query_head(query.lhs)->Ok_0;
    let rh = query_head(query.rhs)->Ok_0;
    lemma_member_called(comp.2, 0, lh);
    lemma_member_called(comp.2, 0, rh);
    let n = query.lhs.len() as int;
    lemma_roots(q.lhs.params, query.lhs.subrange(1, n), k);
    lemma_roots(q.rhs.params, query.rhs.subrange(1, n), k);
    assert(side_roots(q.lhs, query.lhs) is Ok);
    assert(side_roots(q.rhs, query.rhs) is Ok);
    if 0 <= k < n - 1 {
        assert(query.lhs.subrange(1, n)[k] == query.lhs[k + 1]);
        assert(query.rhs.subrange(1, n)[k] == query.rhs[k + 1]);
    }
}

proof fn lemma_most_fresh(states: Seq<StateV>, i: int)
    requires
        0 <= i < states.len(),
    ensures
        states[i].fresh <= most_fresh(states),
    decreases states.len(),
{
    if i < states.len() - 1 {
        lemma_most_fresh(states.drop_last(), i);
        assert(states.drop_last()[i] == states[i]);
    }
}

/// The numbers of the symbols of the right side are beyond all those of the left side, so that the
/// sides share no symbol: it starts from a number that no path of the left side has reached.
pub proof fn sides_share_no_symbols(q: QueryCheckV, depth: nat, i: int)
    requires
        both_runs(q, depth) is Ok,
    ensures
        q.lhs.id is Some,
        ({
            let (ls, rs) = both_runs(q, depth)->Ok_0;
            let owner = lookup(q.ctx.func_owner, q.lhs.id->0);
            &&& ls.len() > 0
            &&& rs.len() > 0
            &&& runs_of(q.lhs, q.ctx, 0, owner, depth) == Ok::<
                Seq<StateV>,
                crate::checker::symbolic::error::ExecError,
            >(ls)
            &&& exists|start: usize| #[trigger]
                runs_of(q.rhs, q.ctx, start, owner, depth) == Ok::<
                    Seq<StateV>,
                    crate::checker::symbolic::error::ExecError,
                >(rs) && (0 <= i < ls.len() ==> ls[i].fresh <= start)
        }),
{
    reveal(both_runs);
    let (ls, rs) = both_runs(q, depth)->Ok_0;
    let owner = lookup(q.ctx.func_owner, q.lhs.id->0);
    let start = most_fresh(ls);
    assert(runs_of(q.rhs, q.ctx, start, owner, depth) is Ok);
    if 0 <= i < ls.len() {
        lemma_most_fresh(ls, i);
    }
}

/// A state at the end of a path through a function whose parameters are fresh.
pub open spec fn is_end_of(f: FuncV, start: StateV, depth: nat, s: StateV) -> bool {
    exists|o: OutcomeV| #[trigger]
        is_path(interp(depth), Flow::Function, f.body, start, o) && o.1 == s
}

/// The runs of a side are the ends of all paths through its function, from a state in which nothing
/// but its parameters is bound, each to a fresh node; and they follow from that state.
pub proof fn runs_are_the_paths(
    f: FuncV,
    ctx: ContextV,
    from: usize,
    owner: Option<i64>,
    depth: nat,
    s: StateV,
)
    requires
        runs_of(f, ctx, from, owner, depth) is Ok,
    ensures
        ({
            let clean = StateV { fresh: from, ..initial_state(ctx) };
            let start = clean.with_fresh_params(f.params, 0, owner);
            &&& clean.store == Map::<int, crate::checker::symbolic::store::NodeV>::empty()
            &&& clean.path_cond.len() == 0
            &&& clean.events.len() == 0
            &&& start is Ok
            &&& runs_of(f, ctx, from, owner, depth)->Ok_0.contains(s) <==> is_end_of(
                f,
                start->Ok_0,
                depth,
                s,
            )
            &&& runs_of(f, ctx, from, owner, depth)->Ok_0.contains(s) ==> extends(start->Ok_0, s)
        }),
{
    reveal(runs_of);
    let clean = StateV { fresh: from, ..initial_state(ctx) };
    let start = clean.with_fresh_params(f.params, 0, owner)->Ok_0;
    let rs = run_of(f, start, interp(depth))->Ok_0;
    let ss = end_states(rs);
    if ss.contains(s) {
        let i = choose|i: int| 0 <= i < ss.len() && ss[i] == s;
        assert(rs.contains(rs[i]));
        functions_have_their_paths(interp(depth), f, start, rs[i]);
        functions_only_add(f, start, depth);
    }
    if is_end_of(f, start, depth, s) {
        let o = choose|o: OutcomeV| #[trigger]
            is_path(interp(depth), Flow::Function, f.body, start, o) && o.1 == s;
        functions_have_their_paths(interp(depth), f, start, o);
        let i = choose|i: int| 0 <= i < rs.len() && rs[i] == o;
        assert(ss[i] == s);
    }
}

} // verus!
