//! What a passing check says of the chips of a workspace.

use vstd::prelude::*;
use crate::ast::FuncV;
use crate::checker::drive::{follows, passing_means_decided};
use crate::checker::query::end_states;
use crate::checker::solver::model_laws::{solves, steady};
use crate::checker::solver::smt_laws::sorts_respected;
use crate::checker::solver::BackendV;
use crate::checker::symbolic::context::{ContextV, MemoryEventKind};
use crate::checker::symbolic::error::ExecError;
use crate::checker::symbolic::expr::Formula;
use crate::checker::symbolic::meaning::all_hold;
use crate::checker::symbolic::semantics::{interp, run_of};
use crate::checker::symbolic::state::{initial_state, StateV};
use crate::checker::symbolic::state_nodes::param_node_from;
use crate::checker::symbolic::store::NodeV;
use crate::checker::task::{failed, CheckErrorV, CheckFault, Spot, TaskV};
use crate::checker::verdict_laws::{
    lemma_part_chain, lemma_part_push, no_failure, part_of, passing_is_right,
};
use crate::checker::vm::{
    bound_runs, chip_tasks, chips_among, eval_bindings, eval_tasks, event_of, event_type_of,
    events_agree, executor_among, executor_plan, executor_tasks, inputs_from, of_kind, owner_of,
    populate_bindings, populate_tasks, satisfiability, satisfiability_is_exact, vm_plan, ChipSpecV,
    VmV,
};
use crate::utils::module_resolver::ModuleV;

verus! {

/// The runs of the populate function of a chip after an executor path with an event.
pub open spec fn populate_runs(vm: VmV, chip: ChipSpecV, st: StateV, event: NodeV) -> Result<
    Seq<StateV>,
    ExecError,
> {
    bound_runs(
        vm,
        chip.populate,
        st,
        populate_bindings(vm, event, chip.populate.params, 0, Map::empty()),
    )
}

/// The runs of the eval function of a chip after a populate path.
pub open spec fn eval_runs(vm: VmV, chip: ChipSpecV, pop: StateV, event: NodeV) -> Result<
    Seq<StateV>,
    ExecError,
> {
    bound_runs(
        vm,
        chip.eval,
        pop,
        eval_bindings(
            vm,
            event,
            owner_of(vm.ctx, chip.populate.id),
            param_node_from(pop.store, chip.populate.params, 0, "self"@),
            chip.eval.params,
            0,
            Map::empty(),
        ),
    )
}

/// The constraints of a path can be met: values of the sorts of the variables take the path, and
/// on them every send agrees with the receive at the same position.
pub open spec fn can_be_met(st: StateV, phi: Formula) -> bool {
    exists|env: spec_fn(Seq<char>) -> int|
        #![trigger sorts_respected(phi, env)]
        sorts_respected(phi, env) && all_hold(st.path_cond, env) && (forall|i: int|
            0 <= i < of_kind(st.events, MemoryEventKind::Send).len() ==> events_agree(
                #[trigger] of_kind(st.events, MemoryEventKind::Send)[i],
                of_kind(st.events, MemoryEventKind::Receive)[i],
                env,
            ))
}

/// Sends and receives of a path match in number, and the constraints of the path can be met where
/// its divisors are numbers other than zero.
pub open spec fn path_is_sound(st: StateV) -> bool {
    match satisfiability(st) {
        Err(_) => false,
        Ok(phi) => steady(phi) ==> can_be_met(st, phi),
    }
}

/// There is an eval path after a populate path, and every one is sound.
pub open spec fn populate_is_sound(vm: VmV, chip: ChipSpecV, pop: StateV, event: NodeV) -> bool {
    match eval_runs(vm, chip, pop, event) {
        Err(_) => false,
        Ok(evals) => evals.len() > 0 && forall|i: int|
            0 <= i < evals.len() ==> path_is_sound(#[trigger] evals[i]),
    }
}

/// There is a populate path of a chip after an executor path, and every one is sound.
pub open spec fn chip_is_sound(vm: VmV, chip: ChipSpecV, st: StateV, event: NodeV) -> bool {
    match populate_runs(vm, chip, st, event) {
        Err(_) => false,
        Ok(pops) => pops.len() > 0 && forall|i: int|
            0 <= i < pops.len() ==> populate_is_sound(vm, chip, #[trigger] pops[i], event),
    }
}

/// An executor path ends with an event, and every chip is sound after it.
pub open spec fn executor_path_is_sound(
    vm: VmV,
    executor: FuncV,
    chips: Seq<ChipSpecV>,
    st: StateV,
) -> bool {
    match event_of(executor, st, vm.event_type) {
        None => false,
        Some(event) => forall|i: int|
            0 <= i < chips.len() ==> chip_is_sound(vm, #[trigger] chips[i], st, event),
    }
}

/// What a solver has decided: the formula has a solution where its divisors are numbers other than
/// zero.
spec fn settled(t: TaskV) -> bool {
    match t {
        TaskV::Fail(_) => false,
        TaskV::Passed { .. } => true,
        TaskV::Solve { phi, wanted, .. } => wanted && steady(phi) ==> exists|
            env: spec_fn(Seq<char>) -> int,
        | #[trigger] solves(phi, env),
    }
}

/// Every step is settled.
spec fn all_settled(tasks: Seq<TaskV>) -> bool {
    forall|i: int| 0 <= i < tasks.len() ==> settled(#[trigger] tasks[i])
}

proof fn lemma_settled_part(a: Seq<TaskV>, b: Seq<TaskV>)
    requires
        part_of(a, b),
        all_settled(b),
    ensures
        all_settled(a),
        no_failure(a),
{
    assert forall|i: int| 0 <= i < a.len() implies settled(#[trigger] a[i]) by {
        assert(b.contains(a[i]));
        let j = choose|j: int| 0 <= j < b.len() && b[j] == a[i];
        assert(settled(b[j]));
    }
    assert forall|i: int| 0 <= i < a.len() implies !((#[trigger] a[i]) is Fail) by {
        assert(settled(a[i]));
    }
}

proof fn lemma_path_sound(st: StateV, phi: Formula)
    requires
        satisfiability(st) == Ok::<Formula, CheckFault>(phi),
        steady(phi) ==> exists|env: spec_fn(Seq<char>) -> int| #[trigger] solves(phi, env),
    ensures
        path_is_sound(st),
{
    if steady(phi) {
        let env = choose|env: spec_fn(Seq<char>) -> int| #[trigger] solves(phi, env);
        satisfiability_is_exact(st, phi, env);
        assert(sorts_respected(phi, env));
    }
}

proof fn lemma_evals(
    name: Seq<char>,
    ti: usize,
    pi: usize,
    evals: Seq<StateV>,
    i: int,
    acc: Seq<TaskV>,
)
    requires
        0 <= i,
        all_settled(eval_tasks(name, ti, pi, evals, i, acc)),
    ensures
        part_of(acc, eval_tasks(name, ti, pi, evals, i, acc)),
        forall|k: int| i <= k < evals.len() ==> path_is_sound(#[trigger] evals[k]),
    decreases evals.len() - i,
{
    let all = eval_tasks(name, ti, pi, evals, i, acc);
    if i >= evals.len() {
        assert(part_of(acc, acc));
    } else {
        let spot = Spot { first: ti, second: pi, third: i as usize };
        match satisfiability(evals[i]) {
            Err(x) => {
                assert(!settled(all[acc.len() as int]));
            },
            Ok(phi) => {
                let t = TaskV::Solve { component: name, spot, phi, wanted: true };
                lemma_part_push(acc, t);
                lemma_evals(name, ti, pi, evals, i + 1, acc.push(t));
                lemma_part_chain(acc, acc.push(t), all);
                assert(acc.push(t)[acc.len() as int] == t);
                assert(all.contains(t));
                let n = choose|n: int| 0 <= n < all.len() && all[n] == t;
                assert(settled(all[n]));
                lemma_path_sound(evals[i], phi);
            },
        }
    }
}

proof fn lemma_populates(
    vm: VmV,
    chip: ChipSpecV,
    event: NodeV,
    ti: usize,
    pops: Seq<StateV>,
    i: int,
    acc: Seq<TaskV>,
)
    requires
        0 <= i,
        all_settled(populate_tasks(vm, chip, event, ti, pops, i, acc)),
    ensures
        part_of(acc, populate_tasks(vm, chip, event, ti, pops, i, acc)),
        forall|k: int|
            i <= k < pops.len() ==> populate_is_sound(vm, chip, #[trigger] pops[k], event),
    decreases pops.len() - i,
{
    let all = populate_tasks(vm, chip, event, ti, pops, i, acc);
    if i >= pops.len() {
        assert(part_of(acc, acc));
    } else {
        match eval_runs(vm, chip, pops[i], event) {
            Err(x) => {
                assert(!settled(all[acc.len() as int]));
            },
            Ok(evals) => if evals.len() == 0 {
                assert(!settled(all[acc.len() as int]));
            } else {
                let next = eval_tasks(chip.name, ti, i as usize, evals, 0, acc);
                if failed(next) {
                    assert(all == next);
                    assert(!settled(all[all.len() - 1]));
                } else {
                    lemma_populates(vm, chip, event, ti, pops, i + 1, next);
                    lemma_settled_part(next, all);
                    lemma_evals(chip.name, ti, i as usize, evals, 0, acc);
                    lemma_part_chain(acc, next, all);
                }
            },
        }
    }
}

proof fn lemma_chips(
    vm: VmV,
    chips: Seq<ChipSpecV>,
    i: int,
    event: NodeV,
    ti: usize,
    st: StateV,
    acc: Seq<TaskV>,
)
    requires
        0 <= i,
        all_settled(chip_tasks(vm, chips, i, event, ti, st, acc)),
    ensures
        part_of(acc, chip_tasks(vm, chips, i, event, ti, st, acc)),
        forall|k: int| i <= k < chips.len() ==> chip_is_sound(vm, #[trigger] chips[k], st, event),
    decreases chips.len() - i,
{
    let all = chip_tasks(vm, chips, i, event, ti, st, acc);
    if i >= chips.len() {
        assert(part_of(acc, acc));
    } else {
        let chip = chips[i];
        match populate_runs(vm, chip, st, event) {
            Err(x) => {
                assert(!settled(all[acc.len() as int]));
            },
            Ok(pops) => if pops.len() == 0 {
                assert(!settled(all[acc.len() as int]));
            } else {
                let next = populate_tasks(vm, chip, event, ti, pops, 0, acc);
                if failed(next) {
                    assert(all == next);
                    assert(!settled(all[all.len() - 1]));
                } else {
                    lemma_chips(vm, chips, i + 1, event, ti, st, next);
                    lemma_settled_part(next, all);
                    lemma_populates(vm, chip, event, ti, pops, 0, acc);
                    lemma_part_chain(acc, next, all);
                }
            },
        }
    }
}

proof fn lemma_executors(
    vm: VmV,
    executor: FuncV,
    chips: Seq<ChipSpecV>,
    ends: Seq<StateV>,
    i: int,
    acc: Seq<TaskV>,
)
    requires
        0 <= i,
        all_settled(executor_tasks(vm, executor, chips, ends, i, acc)),
    ensures
        part_of(acc, executor_tasks(vm, executor, chips, ends, i, acc)),
        forall|k: int|
            i <= k < ends.len() ==> executor_path_is_sound(vm, executor, chips, #[trigger] ends[k]),
    decreases ends.len() - i,
{
    let all = executor_tasks(vm, executor, chips, ends, i, acc);
    if i >= ends.len() {
        assert(part_of(acc, acc));
    } else {
        match event_of(executor, ends[i], vm.event_type) {
            None => {
                assert(!settled(all[acc.len() as int]));
            },
            Some(event) => {
                let next = chip_tasks(vm, chips, 0, event, i as usize, ends[i], acc);
                if failed(next) {
                    assert(all == next);
                    assert(!settled(all[all.len() - 1]));
                } else {
                    lemma_executors(vm, executor, chips, ends, i + 1, next);
                    lemma_settled_part(next, all);
                    lemma_chips(vm, chips, 0, event, i as usize, ends[i], acc);
                    lemma_part_chain(acc, next, all);
                }
            },
        }
    }
}

/// A workspace is sound: it has an executor that returns an event and chips, the executor has a
/// path to its end, and every such path is sound.
pub open spec fn workspace_is_sound(mods: Seq<ModuleV>, ctx: ContextV, depth: nat) -> bool {
    match executor_among(mods, 0) {
        None => false,
        Some(executor) => {
            let chips = chips_among(mods, 0, executor.name, seq![]);
            let start = initial_state(ctx).with_fresh_params(
                executor.params,
                0,
                owner_of(ctx, executor.id),
            );
            &&& chips.len() > 0
            &&& event_type_of(executor) is Some
            &&& start is Ok
            &&& run_of(executor, start->Ok_0, interp(depth)) is Ok
            &&& {
                let ends = end_states(run_of(executor, start->Ok_0, interp(depth))->Ok_0);
                let vm = VmV {
                    ctx,
                    event_type: event_type_of(executor)->0,
                    inputs: inputs_from(start->Ok_0.store, executor.params, 0, Map::empty()),
                    depth,
                };
                ends.len() > 0 && forall|i: int|
                    0 <= i < ends.len() ==> executor_path_is_sound(
                        vm,
                        executor,
                        chips,
                        #[trigger] ends[i],
                    )
            }
        },
    }
}

/// Where the check of a workspace passes, the workspace is sound: after every path of the executor
/// every chip has paths, and on each the constraints of the chip can be met.
pub proof fn passing_workspace_is_sound(
    backend: BackendV,
    mods: Seq<ModuleV>,
    ctx: ContextV,
    depth: nat,
    passed: Seq<Seq<char>>,
)
    requires
        follows(backend, vm_plan(mods, ctx, depth), Ok::<Seq<Seq<char>>, CheckErrorV>(passed)),
    ensures
        workspace_is_sound(mods, ctx, depth),
{
    let plan = vm_plan(mods, ctx, depth);
    assert forall|i: int| 0 <= i < plan.len() implies settled(#[trigger] plan[i]) by {
        passing_means_decided(backend, plan, passed, i);
        if plan[i] is Solve {
            passing_is_right(backend, plan, passed, i);
        }
    }
    if mods.len() == 0 || executor_among(mods, 0) is None {
        assert(!settled(plan[0]));
    } else {
        let executor = executor_among(mods, 0)->0;
        let chips = chips_among(mods, 0, executor.name, seq![]);
        let start = initial_state(ctx).with_fresh_params(
            executor.params,
            0,
            owner_of(ctx, executor.id),
        );
        assert(plan == executor_plan(mods, ctx, executor, depth));
        if chips.len() == 0 || event_type_of(executor) is None || start is Err || run_of(
            executor,
            start->Ok_0,
            interp(depth),
        ) is Err || run_of(executor, start->Ok_0, interp(depth))->Ok_0.len() == 0 {
            assert(!settled(plan[0]));
        } else {
            let ends = end_states(run_of(executor, start->Ok_0, interp(depth))->Ok_0);
            let vm = VmV {
                ctx,
                event_type: event_type_of(executor)->0,
                inputs: inputs_from(start->Ok_0.store, executor.params, 0, Map::empty()),
                depth,
            };
            lemma_executors(vm, executor, chips, ends, 0, seq![]);
        }
    }
}

} // verus!
