//! What a passing check says of the components and the workspace.

use vstd::prelude::*;
use crate::ast::helpers::{components_of, ComponentV};
use crate::ast::{FileV, ItemV};
use crate::checker::drive::{follows, passing_means_decided};
use crate::checker::query::{
    both_runs, component_tasks, counterexample, counterexample_is_exact, equivalence_plan,
    event_pairs, plan_from, prepared, PairsV, QueryCheckV,
};
use crate::checker::solver::model_laws::{solves, steady, verdict_is_right};
use crate::checker::solver::smt_laws::sorts_respected;
use crate::checker::solver::BackendV;
use crate::checker::symbolic::context::ContextV;
use crate::checker::symbolic::expr::Formula;
use crate::checker::symbolic::meaning::{all_hold, value};
use crate::checker::symbolic::state::StateV;
use crate::checker::task::{failed, failing, CheckErrorV, Spot, TaskV};

verus! {

/// Of a check that passes, every formula that should have no solution has none, and every formula
/// that should have one has one, provided that its divisors are numbers other than zero.
pub proof fn passing_is_right(
    backend: BackendV,
    tasks: Seq<TaskV>,
    passed: Seq<Seq<char>>,
    j: int,
)
    requires
        follows(backend, tasks, Ok::<Seq<Seq<char>>, CheckErrorV>(passed)),
        0 <= j < tasks.len(),
        tasks[j] is Solve,
    ensures
        !tasks[j]->wanted ==> forall|env: spec_fn(Seq<char>) -> int|
            !#[trigger] solves(tasks[j]->phi, env),
        tasks[j]->wanted && steady(tasks[j]->phi) ==> exists|env: spec_fn(Seq<char>) -> int|
            #[trigger] solves(tasks[j]->phi, env),
{
    passing_means_decided(backend, tasks, passed, j);
    verdict_is_right(tasks[j]->phi);
}

/// None of the steps fails.
pub open spec fn no_failure(tasks: Seq<TaskV>) -> bool {
    forall|i: int| 0 <= i < tasks.len() ==> !((#[trigger] tasks[i]) is Fail)
}

/// Every step of `a` is one of `b`.
pub open spec fn part_of(a: Seq<TaskV>, b: Seq<TaskV>) -> bool {
    forall|i: int| 0 <= i < a.len() ==> b.contains(#[trigger] a[i])
}

pub proof fn lemma_part_chain(a: Seq<TaskV>, b: Seq<TaskV>, c: Seq<TaskV>)
    requires
        part_of(a, b),
        part_of(b, c),
    ensures
        part_of(a, c),
{
    assert forall|i: int| 0 <= i < a.len() implies c.contains(#[trigger] a[i]) by {
        assert(b.contains(a[i]));
        let j = choose|j: int| 0 <= j < b.len() && b[j] == a[i];
        assert(c.contains(b[j]));
    }
}

pub proof fn lemma_part_no_failure(a: Seq<TaskV>, b: Seq<TaskV>)
    requires
        part_of(a, b),
        no_failure(b),
    ensures
        no_failure(a),
{
    assert forall|i: int| 0 <= i < a.len() implies !((#[trigger] a[i]) is Fail) by {
        assert(b.contains(a[i]));
        let j = choose|j: int| 0 <= j < b.len() && b[j] == a[i];
        assert(!(b[j] is Fail));
    }
}

proof fn lemma_part_add(a: Seq<TaskV>, b: Seq<TaskV>)
    ensures
        part_of(a, a + b),
        part_of(b, a + b),
{
    assert forall|i: int| 0 <= i < a.len() implies (a + b).contains(#[trigger] a[i]) by {
        assert((a + b)[i] == a[i]);
    }
    assert forall|i: int| 0 <= i < b.len() implies (a + b).contains(#[trigger] b[i]) by {
        assert((a + b)[a.len() + i] == b[i]);
    }
}

pub proof fn lemma_part_push(a: Seq<TaskV>, t: TaskV)
    ensures
        part_of(a, a.push(t)),
        a.push(t).contains(t),
{
    assert forall|i: int| 0 <= i < a.len() implies a.push(t).contains(#[trigger] a[i]) by {
        assert(a.push(t)[i] == a[i]);
    }
    assert(a.push(t)[a.len() as int] == t);
}

/// A plan without a failing step has the steps of every component.
proof fn lemma_plan_has(
    items: Seq<ItemV>,
    ctx: ContextV,
    comps: Seq<ComponentV>,
    i: int,
    depth: nat,
    acc: Seq<TaskV>,
    k: int,
)
    requires
        0 <= i,
        no_failure(plan_from(items, ctx, comps, i, depth, acc)),
    ensures
        part_of(acc, plan_from(items, ctx, comps, i, depth, acc)),
        i <= k < comps.len() ==> part_of(
            component_tasks(items, ctx, comps[k], depth),
            plan_from(items, ctx, comps, i, depth, acc),
        ),
    decreases comps.len() - i,
{
    if i >= comps.len() {
        assert(part_of(acc, acc));
    } else {
        let ts = component_tasks(items, ctx, comps[i], depth);
        let plan = plan_from(items, ctx, comps, i, depth, acc);
        lemma_part_add(acc, ts);
        if failed(ts) {
            let last = acc.len() + ts.len() - 1;
            assert(plan[last] == ts.last());
        } else {
            lemma_plan_has(items, ctx, comps, i + 1, depth, acc + ts, k);
            lemma_part_chain(acc, acc + ts, plan);
            lemma_part_chain(ts, acc + ts, plan);
        }
    }
}

/// The step that decides a path pair.
spec fn step_of(name: Seq<char>, i: int, j: int, phi: Formula) -> TaskV {
    TaskV::Solve {
        component: name,
        spot: Spot { first: i as usize, second: j as usize, third: 0 },
        phi,
        wanted: false,
    }
}

/// Steps without a failing one decide every path pair.
proof fn lemma_pairs_have(
    q: QueryCheckV,
    name: Seq<char>,
    ls: Seq<StateV>,
    rs: Seq<StateV>,
    i: int,
    j: int,
    acc: Seq<TaskV>,
    a: int,
    b: int,
)
    requires
        0 <= i,
        0 <= j,
        no_failure(q.pair_tasks(name, ls, rs, i, j, acc)),
    ensures
        part_of(acc, q.pair_tasks(name, ls, rs, i, j, acc)),
        0 <= a < ls.len() && 0 <= b < rs.len() && (i < a || (i == a && j <= b)) ==> match q.obligation(
            ls[a],
            rs[b],
        ) {
            Ok(phi) => q.pair_tasks(name, ls, rs, i, j, acc).contains(step_of(name, a, b, phi)),
            Err(_) => false,
        },
    decreases ls.len() - i, rs.len() - j,
{
    let all = q.pair_tasks(name, ls, rs, i, j, acc);
    if i >= ls.len() {
        lemma_part_push(acc, TaskV::Passed { component: name });
    } else if j >= rs.len() {
        lemma_pairs_have(q, name, ls, rs, i + 1, 0, acc, a, b);
    } else {
        match q.obligation(ls[i], rs[j]) {
            Err(x) => {
                let t = failing(name, Spot { first: i as usize, second: j as usize, third: 0 }, x);
                assert(all[acc.len() as int] == t);
            },
            Ok(phi) => {
                let t = step_of(name, i, j, phi);
                lemma_part_push(acc, t);
                lemma_pairs_have(q, name, ls, rs, i, j + 1, acc.push(t), a, b);
                lemma_part_chain(acc, acc.push(t), all);
                assert(acc.push(t)[acc.len() as int] == t);
                assert(all.contains(t));
            },
        }
    }
}

/// Under `env` both paths are taken, the inputs agree and some outputs differ.
pub open spec fn tells_apart(
    l: StateV,
    r: StateV,
    ins: PairsV,
    outs: PairsV,
    env: spec_fn(Seq<char>) -> int,
) -> bool {
    &&& all_hold(l.path_cond, env)
    &&& all_hold(r.path_cond, env)
    &&& forall|i: int|
        0 <= i < ins.len() ==> value((#[trigger] ins[i]).0, env) == value(ins[i].1, env)
    &&& exists|i: int|
        0 <= i < outs.len() && value((#[trigger] outs[i]).0, env) != value(outs[i].1, env)
}

/// A path pair has a counterexample: values of the sorts of the variables that take both paths,
/// with equal inputs and different outputs or memory traces.
pub open spec fn has_counterexample(q: QueryCheckV, l: StateV, r: StateV) -> bool {
    let (ins, fields) = q.all_pairs(0, l, r, seq![], seq![])->Ok_0;
    let outs = event_pairs(l.events, r.events, 0, fields)->Ok_0;
    exists|env: spec_fn(Seq<char>) -> int|
        sorts_respected(counterexample(l, r, ins, outs), env) && #[trigger] tells_apart(
            l,
            r,
            ins,
            outs,
            env,
        )
}

/// Where the equivalence check of a file passes, every component has a query whose sides can be
/// executed, and the formula of every pair of their paths has no solution.
pub proof fn passing_refutes_every_pair(
    backend: BackendV,
    file: FileV,
    ctx: ContextV,
    depth: nat,
    passed: Seq<Seq<char>>,
    k: int,
)
    requires
        follows(
            backend,
            equivalence_plan(file, ctx, depth),
            Ok::<Seq<Seq<char>>, CheckErrorV>(passed),
        ),
        0 <= k < components_of(file.items).len(),
    ensures
        match prepared(file.items, ctx, components_of(file.items)[k]) {
            Ok(q) => match both_runs(q, depth) {
                Ok((ls, rs)) => forall|a: int, b: int|
                    0 <= a < ls.len() && 0 <= b < rs.len() ==> is_refuted(
                        q,
                        #[trigger] ls[a],
                        #[trigger] rs[b],
                    ),
                Err(_) => false,
            },
            Err(_) => false,
        },
{
    let plan = equivalence_plan(file, ctx, depth);
    let comps = components_of(file.items);
    let comp = comps[k];
    assert forall|i: int| 0 <= i < plan.len() implies !((#[trigger] plan[i]) is Fail) by {
        passing_means_decided(backend, plan, passed, i);
    }
    lemma_plan_has(file.items, ctx, comps, 0, depth, seq![], k);
    let ts = component_tasks(file.items, ctx, comp, depth);
    lemma_part_no_failure(ts, plan);
    if prepared(file.items, ctx, comp) is Err || both_runs(
        prepared(file.items, ctx, comp)->Ok_0,
        depth,
    ) is Err {
        assert(ts[0] is Fail);
    }
    let q = prepared(file.items, ctx, comp)->Ok_0;
    let (ls, rs) = both_runs(q, depth)->Ok_0;
    assert forall|a: int, b: int| 0 <= a < ls.len() && 0 <= b < rs.len() implies is_refuted(
        q,
        #[trigger] ls[a],
        #[trigger] rs[b],
    ) by {
        lemma_pairs_have(q, comp.1, ls, rs, 0, 0, seq![], a, b);
        let phi = q.obligation(ls[a], rs[b])->Ok_0;
        let t = step_of(comp.1, a, b, phi);
        let m = choose|m: int| 0 <= m < ts.len() && ts[m] == t;
        assert(plan.contains(ts[m]));
        let n = choose|n: int| 0 <= n < plan.len() && plan[n] == t;
        passing_is_right(backend, plan, passed, n);
    }
}

/// A path pair has a formula, and nothing solves it.
pub open spec fn is_refuted(q: QueryCheckV, l: StateV, r: StateV) -> bool {
    match q.obligation(l, r) {
        Ok(phi) => forall|env: spec_fn(Seq<char>) -> int| !#[trigger] solves(phi, env),
        Err(_) => false,
    }
}

/// Where the equivalence check of a file passes, every component has a query whose sides can be
/// executed, and no pair of their paths has a counterexample.
pub proof fn passing_has_no_counterexample(
    backend: BackendV,
    file: FileV,
    ctx: ContextV,
    depth: nat,
    passed: Seq<Seq<char>>,
    k: int,
)
    requires
        follows(
            backend,
            equivalence_plan(file, ctx, depth),
            Ok::<Seq<Seq<char>>, CheckErrorV>(passed),
        ),
        0 <= k < components_of(file.items).len(),
    ensures
        match prepared(file.items, ctx, components_of(file.items)[k]) {
            Ok(q) => match both_runs(q, depth) {
                Ok((ls, rs)) => forall|a: int, b: int|
                    0 <= a < ls.len() && 0 <= b < rs.len() ==> !has_counterexample(
                        q,
                        #[trigger] ls[a],
                        #[trigger] rs[b],
                    ),
                Err(_) => false,
            },
            Err(_) => false,
        },
{
    passing_refutes_every_pair(backend, file, ctx, depth, passed, k);
    let q = prepared(file.items, ctx, components_of(file.items)[k])->Ok_0;
    let (ls, rs) = both_runs(q, depth)->Ok_0;
    assert forall|a: int, b: int| 0 <= a < ls.len() && 0 <= b < rs.len() implies
        !has_counterexample(q, #[trigger] ls[a], #[trigger] rs[b]) by {
        assert(is_refuted(q, ls[a], rs[b]));
        lemma_obligation_refuted(q, ls[a], rs[b], q.obligation(ls[a], rs[b])->Ok_0);
    }
}

proof fn lemma_obligation_refuted(q: QueryCheckV, l: StateV, r: StateV, phi: Formula)
    requires
        q.obligation(l, r) == Ok::<Formula, crate::checker::task::CheckFault>(phi),
        forall|env: spec_fn(Seq<char>) -> int| !#[trigger] solves(phi, env),
    ensures
        !has_counterexample(q, l, r),
{
    reveal(QueryCheckV::obligation);
    let (ins, fields) = q.all_pairs(0, l, r, seq![], seq![])->Ok_0;
    let outs = event_pairs(l.events, r.events, 0, fields)->Ok_0;
    assert forall|env: spec_fn(Seq<char>) -> int|
        sorts_respected(counterexample(l, r, ins, outs), env) implies !#[trigger] tells_apart(
        l,
        r,
        ins,
        outs,
        env,
    ) by {
        counterexample_is_exact(l, r, ins, outs, env);
        assert(!solves(phi, env));
    }
}

} // verus!
