//! VM workspaces: an executor and the chips that record what it does.

use std::collections::HashMap;
use std::rc::Rc;
use vstd::prelude::*;
use crate::ast::{
    items_of, members_of, params_of, stmts_of, Func, FuncV, Item, ItemV, Member, MemberV, Param,
    ParamV, Stmt, StmtV, Type, TypeV,
};
use crate::checker::drive::{follows, run_tasks};
use crate::checker::query::{end_states, states_at_end, NESTING};
use crate::checker::solver::{backend_from_config, selected, BackendV};
use crate::checker::symbolic::context::{lookup, Context, ContextV, MemoryEventKind};
use crate::checker::symbolic::error::ExecError;
use crate::checker::symbolic::execute::SymbolicExecutor;
use crate::checker::symbolic::expr::{conj, formulas_of, BoolExpr, Formula};
use crate::checker::symbolic::meaning::{all_hold, conj_keeps_truth, holds, lemma_all_index, value};
use crate::checker::symbolic::semantics::{interp, run_of};
use crate::checker::symbolic::state::{
    initial_state, share, views, EventV, MemoryEvent, StateV, SymState,
};
use crate::checker::symbolic::state_nodes::{bound_nodes, param_node_from};
use crate::checker::symbolic::store::{node_at, NodeV, StoreNode};
use crate::checker::task::{
    ends_in_failure, fail, failed, failing, no_spot, start_spot, tasks_of, CheckError, CheckErrorV,
    CheckFault, Spot, Task, TaskV,
};
use crate::name_map::NameMap;
use crate::text::{contains_text, has_text, lower, lower_text, same_text, texts};
use crate::utils::module_resolver::{modules_of, Module, ModuleV, VmWorkspace};
use crate::utils::SetConfig;
use crate::view::{ok_view, some_view};

verus! {

broadcast use {
    crate::ast::lists::group_lists,
    crate::checker::symbolic::expr_lists::group_lists,
    crate::checker::task::lemma_tasks_push,
};

/// The type that a type path refers to.
pub open spec fn type_ref(ty: TypeV) -> Option<i64> {
    match ty {
        TypeV::Path { ref_id, .. } => ref_id,
        _ => None,
    }
}

fn type_ref_id(ty: &Type) -> (r: Option<i64>)
    ensures
        r == type_ref(ty@),
{
    match ty {
        Type::Path { ref_id, .. } => *ref_id,
        _ => None,
    }
}

/// The first computation among the members from `i` on.
pub open spec fn first_computation(members: Seq<MemberV>, i: int) -> Option<FuncV>
    decreases members.len() - i,
{
    if i < 0 || i >= members.len() {
        None
    } else {
        match members[i] {
            MemberV::Computation(f) => Some(f),
            _ => first_computation(members, i + 1),
        }
    }
}

/// The first constraint among the members from `i` on.
pub open spec fn first_constraint(members: Seq<MemberV>, i: int) -> Option<FuncV>
    decreases members.len() - i,
{
    if i < 0 || i >= members.len() {
        None
    } else {
        match members[i] {
            MemberV::Constraint(f) => Some(f),
            _ => first_constraint(members, i + 1),
        }
    }
}

fn computation_in(members: &Vec<Member>) -> (r: Option<&Func>)
    ensures
        match r {
            Some(f) => first_computation(members_of(members@), 0) == Some(f@),
            None => first_computation(members_of(members@), 0) is None,
        },
{
    let ghost ms = members_of(members@);
    #[verifier::loop_isolation(false)]
    for i in 0..members.len()
        invariant
            first_computation(ms, 0) == first_computation(ms, i as int),
    {
        proof {
            assert(ms[i as int] == members@[i as int]@);
        }
        if let Member::Computation(f) = &members[i] {
            return Some(f);
        }
    }
    None
}

fn constraint_in(members: &Vec<Member>) -> (r: Option<&Func>)
    ensures
        match r {
            Some(f) => first_constraint(members_of(members@), 0) == Some(f@),
            None => first_constraint(members_of(members@), 0) is None,
        },
{
    let ghost ms = members_of(members@);
    #[verifier::loop_isolation(false)]
    for i in 0..members.len()
        invariant
            first_constraint(ms, 0) == first_constraint(ms, i as int),
    {
        proof {
            assert(ms[i as int] == members@[i as int]@);
        }
        if let Member::Constraint(f) = &members[i] {
            return Some(f);
        }
    }
    None
}

/// A component name that an executor has.
pub open spec fn names_executor(name: Seq<char>) -> bool {
    has_text(lower(name), "executor"@) || has_text(lower(name), "builder"@)
}

/// The executor among the items from `i` on.
pub open spec fn executor_in(items: Seq<ItemV>, i: int) -> Option<FuncV>
    decreases items.len() - i,
{
    if i < 0 || i >= items.len() {
        None
    } else {
        match items[i] {
            ItemV::Component { name, members, .. } => if names_executor(name)
                && first_computation(members, 0) is Some {
                first_computation(members, 0)
            } else {
                executor_in(items, i + 1)
            },
            _ => executor_in(items, i + 1),
        }
    }
}

/// The executor among the modules from `i` on.
pub open spec fn executor_among(mods: Seq<ModuleV>, i: int) -> Option<FuncV>
    decreases mods.len() - i,
{
    if i < 0 || i >= mods.len() {
        None
    } else if executor_in(mods[i].file.items, 0) is Some {
        executor_in(mods[i].file.items, 0)
    } else {
        executor_among(mods, i + 1)
    }
}

fn pick_in_items(items: &Vec<Item>) -> (r: Option<Func>)
    ensures
        some_view(r) == executor_in(items_of(items@), 0),
{
    let ghost all = items_of(items@);
    #[verifier::loop_isolation(false)]
    for i in 0..items.len()
        invariant
            executor_in(all, 0) == executor_in(all, i as int),
    {
        proof {
            assert(all[i as int] == items@[i as int]@);
        }
        if let Item::Component { name, members, .. } = &items[i] {
            let lname = lower_text(name.as_str());
            if contains_text(lname.as_str(), "executor") || contains_text(
                lname.as_str(),
                "builder",
            ) {
                if let Some(f) = computation_in(members) {
                    return Some(f.clone());
                }
            }
        }
    }
    None
}

/// The executor of a workspace: the first computation of a component that is named as one.
pub fn pick_executor(mods: &Vec<Module>) -> (r: Option<Func>)
    ensures
        some_view(r) == executor_among(modules_of(mods@), 0),
{
    let ghost ms = modules_of(mods@);
    #[verifier::loop_isolation(false)]
    for i in 0..mods.len()
        invariant
            executor_among(ms, 0) == executor_among(ms, i as int),
    {
        proof {
            assert(ms[i as int] == mods@[i as int]@);
        }
        let found = pick_in_items(&mods[i].file.items);
        if found.is_some() {
            return found;
        }
    }
    None
}

/// A component with a computation that fills its rows and a constraint that checks them.
#[derive(Debug)]
pub struct ChipSpec {
    pub name: String,
    pub populate: Func,
    pub eval: Func,
}

/// Mathematical model of [`ChipSpec`].
pub struct ChipSpecV {
    pub name: Seq<char>,
    pub populate: FuncV,
    pub eval: FuncV,
}

impl View for ChipSpec {
    type V = ChipSpecV;

    open spec fn view(&self) -> ChipSpecV {
        ChipSpecV { name: self.name@, populate: self.populate@, eval: self.eval@ }
    }
}

/// The chip that an item is.
pub open spec fn chip_of(item: ItemV, executor_name: Seq<char>) -> Option<ChipSpecV> {
    match item {
        ItemV::Component { name, members, .. } => if name == executor_name {
            None
        } else {
            match (first_computation(members, 0), first_constraint(members, 0)) {
                (Some(populate), Some(eval)) => Some(ChipSpecV { name, populate, eval }),
                _ => None,
            }
        },
        _ => None,
    }
}

/// The chips among the items from `i` on, behind `acc`.
pub open spec fn chips_in(items: Seq<ItemV>, i: int, executor_name: Seq<char>, acc: Seq<ChipSpecV>) -> Seq<
    ChipSpecV,
>
    decreases items.len() - i,
{
    if i < 0 || i >= items.len() {
        acc
    } else {
        match chip_of(items[i], executor_name) {
            Some(c) => chips_in(items, i + 1, executor_name, acc.push(c)),
            None => chips_in(items, i + 1, executor_name, acc),
        }
    }
}

/// The chips among the modules from `i` on, behind `acc`.
pub open spec fn chips_among(
    mods: Seq<ModuleV>,
    i: int,
    executor_name: Seq<char>,
    acc: Seq<ChipSpecV>,
) -> Seq<ChipSpecV>
    decreases mods.len() - i,
{
    if i < 0 || i >= mods.len() {
        acc
    } else {
        chips_among(
            mods,
            i + 1,
            executor_name,
            chips_in(mods[i].file.items, 0, executor_name, acc),
        )
    }
}

fn chip_from(item: &Item, executor_name: &str) -> (r: Option<ChipSpec>)
    ensures
        some_view(r) == chip_of(item@, executor_name@),
{
    if let Item::Component { name, members, .. } = item {
        if same_text(name.as_str(), executor_name) {
            return None;
        }
        match (computation_in(members), constraint_in(members)) {
            (Some(p), Some(e)) => Some(
                ChipSpec { name: name.clone(), populate: p.clone(), eval: e.clone() },
            ),
            _ => None,
        }
    } else {
        None
    }
}

fn collect_in_items(items: &Vec<Item>, executor_name: &str, acc: Vec<ChipSpec>) -> (r: Vec<ChipSpec>)
    ensures
        views(r@) == chips_in(items_of(items@), 0, executor_name@, views(acc@)),
{
    let ghost all = items_of(items@);
    let ghost start = views(acc@);
    let mut out = acc;
    #[verifier::loop_isolation(false)]
    for i in 0..items.len()
        invariant
            chips_in(all, 0, executor_name@, start) == chips_in(
                all,
                i as int,
                executor_name@,
                views(out@),
            ),
    {
        proof {
            assert(all[i as int] == items@[i as int]@);
        }
        if let Some(c) = chip_from(&items[i], executor_name) {
            let ghost before = out@;
            out.push(c);
            proof {
                assert(views(out@) =~= views(before).push(c@));
            }
        }
    }
    out
}

/// The chips of a workspace.
pub fn collect_chips(mods: &Vec<Module>, executor_name: &str) -> (r: Vec<ChipSpec>)
    ensures
        views(r@) == chips_among(modules_of(mods@), 0, executor_name@, seq![]),
{
    let ghost ms = modules_of(mods@);
    let mut out: Vec<ChipSpec> = Vec::new();
    proof {
        assert(views(out@) =~= seq![]);
    }
    #[verifier::loop_isolation(false)]
    for i in 0..mods.len()
        invariant
            chips_among(ms, 0, executor_name@, seq![]) == chips_among(
                ms,
                i as int,
                executor_name@,
                views(out@),
            ),
    {
        proof {
            assert(ms[i as int] == mods@[i as int]@);
        }
        out = collect_in_items(&mods[i].file.items, executor_name, out);
    }
    out
}

/// The nodes of the parameters from `i` on, by the types they refer to, besides those in `acc`.
pub open spec fn inputs_from(
    store: Map<int, NodeV>,
    params: Seq<ParamV>,
    i: int,
    acc: Map<i64, NodeV>,
) -> Map<i64, NodeV>
    decreases params.len() - i,
{
    if i < 0 || i >= params.len() {
        acc
    } else {
        match params[i] {
            ParamV::Typed { id, ty, .. } => match (node_at(store, id), type_ref(ty)) {
                (Some(n), Some(tid)) => inputs_from(store, params, i + 1, acc.insert(tid, n)),
                _ => inputs_from(store, params, i + 1, acc),
            },
            _ => inputs_from(store, params, i + 1, acc),
        }
    }
}

/// The nodes in a map.
pub open spec fn nodes_by_type(m: HashMap<i64, StoreNode>) -> Map<i64, NodeV> {
    m@.map_values(|n: StoreNode| n@)
}

/// The nodes of the parameters of a function, by the types they refer to.
pub fn collect_param_nodes_by_type(state: &SymState, func: &Func) -> (r: HashMap<i64, StoreNode>)
    ensures
        nodes_by_type(r) == inputs_from(state@.store, func@.params, 0, Map::empty()),
{
    let ghost ps = params_of(func.params@);
    let mut out: HashMap<i64, StoreNode> = HashMap::new();
    proof {
        assert(nodes_by_type(out) =~= Map::empty());
    }
    #[verifier::loop_isolation(false)]
    for i in 0..func.params.len()
        invariant
            inputs_from(state@.store, ps, 0, Map::empty()) == inputs_from(
                state@.store,
                ps,
                i as int,
                nodes_by_type(out),
            ),
    {
        proof {
            assert(ps[i as int] == func.params@[i as int]@);
        }
        if let Param::Typed { id, ty, .. } = &func.params[i] {
            if let Some(vid) = *id {
                if let Some(tid) = type_ref_id(ty) {
                    if let Some(node) = state.store.get(vid) {
                        let ghost before = nodes_by_type(out);
                        let n = node.clone();
                        out.insert(tid, n);
                        proof {
                            assert(nodes_by_type(out) =~= before.insert(tid, n@));
                        }
                    }
                }
            }
        }
    }
    out
}

/// The node of the first bound parameter of a type, from `i` on.
pub open spec fn event_param(store: Map<int, NodeV>, params: Seq<ParamV>, i: int, tid: i64) -> Option<
    NodeV,
>
    decreases params.len() - i,
{
    if i < 0 || i >= params.len() {
        None
    } else {
        match params[i] {
            ParamV::Typed { id, ty, .. } => if type_ref(ty) == Some(tid) && node_at(
                store,
                id,
            ) is Some {
                node_at(store, id)
            } else {
                event_param(store, params, i + 1, tid)
            },
            _ => event_param(store, params, i + 1, tid),
        }
    }
}

/// The node of the first bound variable of a type that the statements from `i` on declare.
pub open spec fn event_local(store: Map<int, NodeV>, body: Seq<StmtV>, i: int, tid: i64) -> Option<NodeV>
    decreases body.len() - i,
{
    if i < 0 || i >= body.len() {
        None
    } else {
        match body[i] {
            StmtV::VarDecl { id, ty, .. } => if type_ref(ty) == Some(tid) && node_at(
                store,
                id,
            ) is Some {
                node_at(store, id)
            } else {
                event_local(store, body, i + 1, tid)
            },
            _ => event_local(store, body, i + 1, tid),
        }
    }
}

/// The event that a function holds at its end: a parameter or a variable of the event type.
pub open spec fn event_of(f: FuncV, st: StateV, tid: i64) -> Option<NodeV> {
    match event_param(st.store, f.params, 0, tid) {
        Some(n) => Some(n),
        None => event_local(st.store, f.body, 0, tid),
    }
}

fn same_type(ty: &Type, tid: i64) -> (r: bool)
    ensures
        r == (type_ref(ty@) == Some(tid)),
{
    match type_ref_id(ty) {
        Some(t) => t == tid,
        None => false,
    }
}

/// The event that a function holds at its end: a parameter or a variable of the event type.
pub fn find_event_node(func: &Func, st: &SymState, ty_id: i64) -> (r: Option<StoreNode>)
    ensures
        some_view(r) == event_of(func@, st@, ty_id),
{
    let ghost ps = params_of(func.params@);
    let ghost ss = stmts_of(func.body@);
    #[verifier::loop_isolation(false)]
    for i in 0..func.params.len()
        invariant
            event_param(st@.store, ps, 0, ty_id) == event_param(st@.store, ps, i as int, ty_id),
    {
        proof {
            assert(ps[i as int] == func.params@[i as int]@);
        }
        if let Param::Typed { id, ty, .. } = &func.params[i] {
            if same_type(ty, ty_id) {
                if let Some(vid) = *id {
                    if let Some(node) = st.store.get(vid) {
                        return Some(node.clone());
                    }
                }
            }
        }
    }
    #[verifier::loop_isolation(false)]
    for i in 0..func.body.len()
        invariant
            event_local(st@.store, ss, 0, ty_id) == event_local(st@.store, ss, i as int, ty_id),
    {
        proof {
            assert(ss[i as int] == func.body@[i as int]@);
        }
        if let Stmt::VarDecl { id, ty, .. } = &func.body[i] {
            if same_type(ty, ty_id) {
                if let Some(vid) = *id {
                    if let Some(node) = st.store.get(vid) {
                        return Some(node.clone());
                    }
                }
            }
        }
    }
    None
}

/// The events of a kind.
pub open spec fn of_kind(events: Seq<EventV>, kind: MemoryEventKind) -> Seq<EventV>
    decreases events.len(),
{
    if events.len() == 0 {
        seq![]
    } else if events.last().kind == kind {
        of_kind(events.drop_last(), kind).push(events.last())
    } else {
        of_kind(events.drop_last(), kind)
    }
}

/// Two events agree.
pub open spec fn matches_event(a: EventV, b: EventV) -> Seq<Formula> {
    seq![Formula::Eq(a.clk, b.clk), Formula::Eq(a.addr, b.addr), Formula::Eq(a.value, b.value)]
}

/// The events from `i` on agree, behind `acc`.
pub open spec fn matched_from(sends: Seq<EventV>, recvs: Seq<EventV>, i: int, acc: Seq<Formula>) -> Seq<
    Formula,
>
    decreases sends.len() - i,
{
    if i < 0 || i >= sends.len() || i >= recvs.len() {
        acc
    } else {
        matched_from(sends, recvs, i + 1, acc + matches_event(sends[i], recvs[i]))
    }
}

/// Sends and receives agree, one by one.
pub open spec fn matched(events: Seq<EventV>) -> Result<Seq<Formula>, CheckFault> {
    let sends = of_kind(events, MemoryEventKind::Send);
    let recvs = of_kind(events, MemoryEventKind::Receive);
    if sends.len() != recvs.len() {
        Err(CheckFault::SendReceive)
    } else {
        Ok(matched_from(sends, recvs, 0, seq![]))
    }
}

fn pick_kind(events: &[MemoryEvent], kind: MemoryEventKind) -> (r: Vec<MemoryEvent>)
    ensures
        views(r@) == of_kind(views(events@), kind),
{
    let ghost all = views(events@);
    let mut out: Vec<MemoryEvent> = Vec::new();
    proof {
        assert(views(out@) =~= of_kind(all.take(0), kind));
    }
    #[verifier::loop_isolation(false)]
    for i in 0..events.len()
        invariant
            views(out@) == of_kind(all.take(i as int), kind),
    {
        proof {
            assert(all.take(i + 1).drop_last() =~= all.take(i as int));
            assert(all.take(i + 1).last() == events@[i as int]@);
        }
        if events[i].kind == kind {
            let ghost before = out@;
            let e = events[i].clone();
            out.push(e);
            proof {
                assert(views(out@) =~= views(before).push(e@));
            }
        }
    }
    proof {
        assert(all.take(all.len() as int) =~= all);
    }
    out
}

/// The equations of sends and receives.
pub fn build_send_receive_equalities(events: &[MemoryEvent]) -> (r: Result<Vec<BoolExpr>, CheckFault>)
    ensures
        match r {
            Ok(v) => matched(views(events@)) == Ok::<Seq<Formula>, CheckFault>(formulas_of(v@)),
            Err(x) => matched(views(events@)) == Err::<Seq<Formula>, CheckFault>(x),
        },
{
    let sends = pick_kind(events, MemoryEventKind::Send);
    let recvs = pick_kind(events, MemoryEventKind::Receive);
    if sends.len() != recvs.len() {
        return Err(CheckFault::SendReceive);
    }
    let ghost ss = views(sends@);
    let ghost rs = views(recvs@);
    let mut out: Vec<BoolExpr> = Vec::new();
    #[verifier::loop_isolation(false)]
    for i in 0..sends.len()
        invariant
            matched_from(ss, rs, 0, seq![]) == matched_from(
                ss,
                rs,
                i as int,
                formulas_of(out@),
            ),
    {
        let a = &sends[i];
        let b = &recvs[i];
        proof {
            assert(ss[i as int] == a@);
            assert(rs[i as int] == b@);
        }
        let ghost before = out@;
        out.push(a.clk.clone().eq_to(b.clk.clone()));
        out.push(a.addr.clone().eq_to(b.addr.clone()));
        out.push(a.value.clone().eq_to(b.value.clone()));
        proof {
            assert(formulas_of(out@) =~= formulas_of(before) + matches_event(a@, b@));
        }
    }
    Ok(out)
}

/// The struct that owns a function.
pub open spec fn owner_of(ctx: ContextV, id: Option<i64>) -> Option<i64> {
    match id {
        Some(fid) => lookup(ctx.func_owner, fid),
        None => None,
    }
}

fn owner(ctx: &Context, id: Option<i64>) -> (r: Option<i64>)
    ensures
        r == owner_of(ctx@, id),
{
    match id {
        Some(fid) => ctx.method_owner(fid),
        None => None,
    }
}

/// What stays the same while the chips of a workspace are checked.
pub struct VmV {
    pub ctx: ContextV,
    pub event_type: i64,
    pub inputs: Map<i64, NodeV>,
    pub depth: nat,
}

/// The nodes for the parameters of a populate function from `i` on, besides those in `acc`: the
/// event, or else the executor's parameter of the same type.
pub open spec fn populate_bindings(
    vm: VmV,
    event: NodeV,
    params: Seq<ParamV>,
    i: int,
    acc: Map<Seq<char>, NodeV>,
) -> Map<Seq<char>, NodeV>
    decreases params.len() - i,
{
    if i < 0 || i >= params.len() {
        acc
    } else {
        match params[i] {
            ParamV::SelfParam { .. } => populate_bindings(vm, event, params, i + 1, acc),
            ParamV::Typed { name, ty, .. } => if type_ref(ty) == Some(vm.event_type) {
                populate_bindings(vm, event, params, i + 1, acc.insert(name, event))
            } else if type_ref(ty) is Some && lookup(vm.inputs, type_ref(ty)->0) is Some {
                populate_bindings(
                    vm,
                    event,
                    params,
                    i + 1,
                    acc.insert(name, vm.inputs[type_ref(ty)->0]),
                )
            } else {
                populate_bindings(vm, event, params, i + 1, acc)
            },
        }
    }
}

/// The node for a parameter of an eval function: the populated row for the chip's own struct, or
/// else the executor's parameter of the same type, or else the event.
pub open spec fn eval_binding(
    vm: VmV,
    event: NodeV,
    chip_struct: Option<i64>,
    cols: Option<NodeV>,
    p: ParamV,
) -> Option<NodeV> {
    match p {
        ParamV::SelfParam { .. } => cols,
        ParamV::Typed { ty, .. } => if type_ref(ty) != Some(vm.event_type) && chip_struct is Some
            && type_ref(ty) == chip_struct && cols is Some {
            cols
        } else if type_ref(ty) is Some && lookup(vm.inputs, type_ref(ty)->0) is Some {
            lookup(vm.inputs, type_ref(ty)->0)
        } else if type_ref(ty) == Some(vm.event_type) {
            Some(event)
        } else {
            None
        },
    }
}

/// The nodes for the parameters of an eval function from `i` on, besides those in `acc`.
pub open spec fn eval_bindings(
    vm: VmV,
    event: NodeV,
    chip_struct: Option<i64>,
    cols: Option<NodeV>,
    params: Seq<ParamV>,
    i: int,
    acc: Map<Seq<char>, NodeV>,
) -> Map<Seq<char>, NodeV>
    decreases params.len() - i,
{
    if i < 0 || i >= params.len() {
        acc
    } else {
        let name = crate::checker::symbolic::state_nodes::param_name(params[i]);
        match eval_binding(vm, event, chip_struct, cols, params[i]) {
            Some(n) => eval_bindings(
                vm,
                event,
                chip_struct,
                cols,
                params,
                i + 1,
                acc.insert(name, n),
            ),
            None => eval_bindings(vm, event, chip_struct, cols, params, i + 1, acc),
        }
    }
}

/// The states at the ends of a function whose parameters are bound.
#[verifier::opaque]
pub open spec fn bound_runs(
    vm: VmV,
    f: FuncV,
    st: StateV,
    bindings: Map<Seq<char>, NodeV>,
) -> Result<Seq<StateV>, ExecError> {
    match st.with_bound_params(f.params, 0, bindings, owner_of(vm.ctx, f.id)) {
        Err(x) => Err(x),
        Ok(s) => match run_of(f, s, interp(vm.depth)) {
            Err(x) => Err(x),
            Ok(rs) => Ok(end_states(rs)),
        },
    }
}

/// The formula that the constraints of a chip can be met on a path.
pub open spec fn satisfiability(st: StateV) -> Result<Formula, CheckFault> {
    match matched(st.events) {
        Err(x) => Err(x),
        Ok(eqs) => Ok(conj(seq![conj(st.path_cond)] + eqs)),
    }
}

/// The steps for the eval paths from `i` on, behind `acc`.
pub open spec fn eval_tasks(
    name: Seq<char>,
    ti: usize,
    pi: usize,
    evals: Seq<StateV>,
    i: int,
    acc: Seq<TaskV>,
) -> Seq<TaskV>
    decreases evals.len() - i,
{
    if i < 0 || i >= evals.len() {
        acc
    } else {
        let spot = Spot { first: ti, second: pi, third: i as usize };
        match satisfiability(evals[i]) {
            Err(x) => acc.push(failing(name, spot, x)),
            Ok(phi) => eval_tasks(
                name,
                ti,
                pi,
                evals,
                i + 1,
                acc.push(TaskV::Solve { component: name, spot, phi, wanted: true }),
            ),
        }
    }
}

/// The steps for the populate paths from `i` on, behind `acc`.
pub open spec fn populate_tasks(
    vm: VmV,
    chip: ChipSpecV,
    event: NodeV,
    ti: usize,
    pops: Seq<StateV>,
    i: int,
    acc: Seq<TaskV>,
) -> Seq<TaskV>
    decreases pops.len() - i,
{
    if i < 0 || i >= pops.len() {
        acc
    } else {
        let spot = Spot { first: ti, second: i as usize, third: 0 };
        let cols = param_node_from(pops[i].store, chip.populate.params, 0, "self"@);
        let bindings = eval_bindings(
            vm,
            event,
            owner_of(vm.ctx, chip.populate.id),
            cols,
            chip.eval.params,
            0,
            Map::empty(),
        );
        match bound_runs(vm, chip.eval, pops[i], bindings) {
            Err(x) => acc.push(failing(chip.name, spot, CheckFault::Exec(x))),
            Ok(evals) => if evals.len() == 0 {
                acc.push(failing(chip.name, spot, CheckFault::NoEvalPaths))
            } else {
                let next = eval_tasks(chip.name, ti, i as usize, evals, 0, acc);
                if failed(next) {
                    next
                } else {
                    populate_tasks(vm, chip, event, ti, pops, i + 1, next)
                }
            },
        }
    }
}

/// The steps for the chips from `i` on after an executor path, behind `acc`.
pub open spec fn chip_tasks(
    vm: VmV,
    chips: Seq<ChipSpecV>,
    i: int,
    event: NodeV,
    ti: usize,
    st: StateV,
    acc: Seq<TaskV>,
) -> Seq<TaskV>
    decreases chips.len() - i,
{
    if i < 0 || i >= chips.len() {
        acc
    } else {
        let chip = chips[i];
        let spot = Spot { first: ti, second: 0, third: 0 };
        let bindings = populate_bindings(vm, event, chip.populate.params, 0, Map::empty());
        match bound_runs(vm, chip.populate, st, bindings) {
            Err(x) => acc.push(failing(chip.name, spot, CheckFault::Exec(x))),
            Ok(pops) => if pops.len() == 0 {
                acc.push(failing(chip.name, spot, CheckFault::NoPopulatePaths))
            } else {
                let next = populate_tasks(vm, chip, event, ti, pops, 0, acc);
                if failed(next) {
                    next
                } else {
                    chip_tasks(vm, chips, i + 1, event, ti, st, next)
                }
            },
        }
    }
}

/// The steps for the executor paths from `i` on, behind `acc`.
pub open spec fn executor_tasks(
    vm: VmV,
    executor: FuncV,
    chips: Seq<ChipSpecV>,
    ends: Seq<StateV>,
    i: int,
    acc: Seq<TaskV>,
) -> Seq<TaskV>
    decreases ends.len() - i,
{
    if i < 0 || i >= ends.len() {
        acc
    } else {
        let spot = Spot { first: i as usize, second: 0, third: 0 };
        match event_of(executor, ends[i], vm.event_type) {
            None => acc.push(failing(executor.name, spot, CheckFault::NoEvent)),
            Some(event) => {
                let next = chip_tasks(vm, chips, 0, event, i as usize, ends[i], acc);
                if failed(next) {
                    next
                } else {
                    executor_tasks(vm, executor, chips, ends, i + 1, next)
                }
            },
        }
    }
}

/// The event type of an executor.
pub open spec fn event_type_of(executor: FuncV) -> Option<i64> {
    match executor.ret {
        Some(ty) => type_ref(ty),
        None => None,
    }
}

/// The steps for a workspace with an executor.
pub open spec fn executor_plan(mods: Seq<ModuleV>, ctx: ContextV, executor: FuncV, depth: nat) -> Seq<
    TaskV,
> {
    let chips = chips_among(mods, 0, executor.name, seq![]);
    if chips.len() == 0 {
        seq![failing(executor.name, no_spot(), CheckFault::NoChips)]
    } else {
        match event_type_of(executor) {
            None => seq![failing(executor.name, no_spot(), CheckFault::NoEventType)],
            Some(tid) => match initial_state(ctx).with_fresh_params(
                executor.params,
                0,
                owner_of(ctx, executor.id),
            ) {
                Err(x) => seq![failing(executor.name, no_spot(), CheckFault::Exec(x))],
                Ok(st) => match run_of(executor, st, interp(depth)) {
                    Err(x) => seq![failing(executor.name, no_spot(), CheckFault::Exec(x))],
                    Ok(rs) => if rs.len() == 0 {
                        seq![failing(executor.name, no_spot(), CheckFault::NoExecutorPaths)]
                    } else {
                        let vm = VmV {
                            ctx,
                            event_type: tid,
                            inputs: inputs_from(st.store, executor.params, 0, Map::empty()),
                            depth,
                        };
                        executor_tasks(vm, executor, chips, end_states(rs), 0, seq![])
                    },
                },
            },
        }
    }
}

/// The steps of the check of a workspace.
pub open spec fn vm_plan(mods: Seq<ModuleV>, ctx: ContextV, depth: nat) -> Seq<TaskV> {
    if mods.len() == 0 {
        seq![failing(""@, no_spot(), CheckFault::EmptyWorkspace)]
    } else {
        match executor_among(mods, 0) {
            None => seq![failing(""@, no_spot(), CheckFault::NoExecutor)],
            Some(executor) => executor_plan(mods, ctx, executor, depth),
        }
    }
}

/// Two events agree on clock, address and value.
pub open spec fn events_agree(a: EventV, b: EventV, env: spec_fn(Seq<char>) -> int) -> bool {
    &&& value(a.clk, env) == value(b.clk, env)
    &&& value(a.addr, env) == value(b.addr, env)
    &&& value(a.value, env) == value(b.value, env)
}

proof fn lemma_all_add(a: Seq<Formula>, b: Seq<Formula>, env: spec_fn(Seq<char>) -> int)
    ensures
        all_hold(a + b, env) == (all_hold(a, env) && all_hold(b, env)),
    decreases b.len(),
{
    if b.len() == 0 {
        assert(a + b =~= a);
    } else {
        lemma_all_add(a, b.drop_last(), env);
        assert((a + b).drop_last() =~= a + b.drop_last());
        assert((a + b).last() == b.last());
    }
}

proof fn lemma_matched(
    sends: Seq<EventV>,
    recvs: Seq<EventV>,
    i: int,
    acc: Seq<Formula>,
    env: spec_fn(Seq<char>) -> int,
)
    requires
        0 <= i <= sends.len(),
        sends.len() == recvs.len(),
    ensures
        all_hold(matched_from(sends, recvs, i, acc), env) == (all_hold(acc, env) && (forall|j: int|
            i <= j < sends.len() ==> events_agree(#[trigger] sends[j], recvs[j], env))),
    decreases sends.len() - i,
{
    if i < sends.len() {
        let eqs = matches_event(sends[i], recvs[i]);
        lemma_matched(sends, recvs, i + 1, acc + eqs, env);
        lemma_all_add(acc, eqs, env);
        lemma_all_index(eqs, env);
        assert(all_hold(eqs, env) == (holds(eqs[0], env) && holds(eqs[1], env) && holds(
            eqs[2],
            env,
        )));
        assert(all_hold(eqs, env) == events_agree(sends[i], recvs[i], env));
        assert((forall|j: int|
            i <= j < sends.len() ==> events_agree(#[trigger] sends[j], recvs[j], env)) == (
        events_agree(sends[i], recvs[i], env) && (forall|j: int|
            i + 1 <= j < sends.len() ==> events_agree(#[trigger] sends[j], recvs[j], env))));
    }
}

/// The formula of a chip path holds of exactly those inputs that take the path and on which every
/// send agrees with the receive at the same position.
pub proof fn satisfiability_is_exact(st: StateV, phi: Formula, env: spec_fn(Seq<char>) -> int)
    requires
        satisfiability(st) == Ok::<Formula, CheckFault>(phi),
    ensures
        holds(phi, env) == (all_hold(st.path_cond, env) && (forall|i: int|
            0 <= i < of_kind(st.events, MemoryEventKind::Send).len() ==> events_agree(
                #[trigger] of_kind(st.events, MemoryEventKind::Send)[i],
                of_kind(st.events, MemoryEventKind::Receive)[i],
                env,
            ))),
{
    let sends = of_kind(st.events, MemoryEventKind::Send);
    let recvs = of_kind(st.events, MemoryEventKind::Receive);
    let eqs = matched_from(sends, recvs, 0, seq![]);
    let first = seq![conj(st.path_cond)];
    conj_keeps_truth(first + eqs, env);
    conj_keeps_truth(st.path_cond, env);
    lemma_all_add(first, eqs, env);
    lemma_all_index(first, env);
    lemma_all_index(seq![], env);
    lemma_matched(sends, recvs, 0, seq![], env);
    assert(all_hold(first, env) == holds(first[0], env));
}

/// What stays the same while the chips of a workspace are checked.
struct VmRun<'a> {
    ctx: &'a Rc<Context>,
    event_type: i64,
    inputs: HashMap<i64, StoreNode>,
    depth: usize,
}

impl<'a> View for VmRun<'a> {
    type V = VmV;

    closed spec fn view(&self) -> VmV {
        VmV {
            ctx: self.ctx@,
            event_type: self.event_type,
            inputs: nodes_by_type(self.inputs),
            depth: self.depth as nat,
        }
    }
}

fn bind_node(bindings: &mut NameMap<StoreNode>, name: String, node: StoreNode)
    ensures
        bound_nodes(*final(bindings)) == bound_nodes(*old(bindings)).insert(name@, node@),
{
    let ghost before = bound_nodes(*bindings);
    bindings.set(name, node);
    proof {
        assert(bound_nodes(*bindings) =~= before.insert(name@, node@));
    }
}

impl<'a> VmRun<'a> {
    /// The executor's parameter of a type.
    fn input_of(&self, ty: &Type) -> (r: Option<StoreNode>)
        ensures
            some_view(r) == (match type_ref(ty@) {
                Some(t) => lookup(self@.inputs, t),
                None => None,
            }),
    {
        match type_ref_id(ty) {
            Some(t) => match self.inputs.get(&t) {
                Some(n) => Some(n.clone()),
                None => None,
            },
            None => None,
        }
    }

    fn bindings_for_populate(&self, event: &StoreNode, func: &Func) -> (r: NameMap<StoreNode>)
        ensures
            bound_nodes(r) == populate_bindings(
                self@,
                event@,
                func@.params,
                0,
                Map::empty(),
            ),
    {
        let ghost ps = params_of(func.params@);
        let mut out: NameMap<StoreNode> = NameMap::new();
        proof {
            assert(bound_nodes(out) =~= Map::empty());
        }
        #[verifier::loop_isolation(false)]
        for i in 0..func.params.len()
            invariant
                populate_bindings(self@, event@, ps, 0, Map::empty()) == populate_bindings(
                    self@,
                    event@,
                    ps,
                    i as int,
                    bound_nodes(out),
                ),
        {
            proof {
                assert(ps[i as int] == func.params@[i as int]@);
            }
            if let Param::Typed { name, ty, .. } = &func.params[i] {
                if same_type(ty, self.event_type) {
                    bind_node(&mut out, name.clone(), event.clone());
                } else if let Some(src) = self.input_of(ty) {
                    bind_node(&mut out, name.clone(), src);
                }
            }
        }
        out
    }

    fn eval_node(
        &self,
        event: &StoreNode,
        chip_struct: Option<i64>,
        cols: &Option<StoreNode>,
        p: &Param,
    ) -> (r: Option<StoreNode>)
        ensures
            some_view(r) == eval_binding(self@, event@, chip_struct, some_view(*cols), p@),
    {
        match p {
            Param::SelfParam { .. } => match cols {
                Some(n) => Some(n.clone()),
                None => None,
            },
            Param::Typed { ty, .. } => {
                let is_event = same_type(ty, self.event_type);
                if !is_event {
                    if let Some(cid) = chip_struct {
                        if same_type(ty, cid) {
                            if let Some(n) = cols {
                                return Some(n.clone());
                            }
                        }
                    }
                }
                match self.input_of(ty) {
                    Some(src) => Some(src),
                    None => if is_event {
                        Some(event.clone())
                    } else {
                        None
                    },
                }
            },
        }
    }

    fn bindings_for_eval(
        &self,
        event: &StoreNode,
        chip_struct: Option<i64>,
        cols: &Option<StoreNode>,
        func: &Func,
    ) -> (r: NameMap<StoreNode>)
        ensures
            bound_nodes(r) == eval_bindings(
                self@,
                event@,
                chip_struct,
                some_view(*cols),
                func@.params,
                0,
                Map::empty(),
            ),
    {
        let ghost ps = params_of(func.params@);
        let ghost cs = some_view(*cols);
        let mut out: NameMap<StoreNode> = NameMap::new();
        proof {
            assert(bound_nodes(out) =~= Map::empty());
        }
        #[verifier::loop_isolation(false)]
        for i in 0..func.params.len()
            invariant
                eval_bindings(self@, event@, chip_struct, cs, ps, 0, Map::empty())
                    == eval_bindings(
                    self@,
                    event@,
                    chip_struct,
                    cs,
                    ps,
                    i as int,
                    bound_nodes(out),
                ),
        {
            let p = &func.params[i];
            proof {
                assert(ps[i as int] == p@);
            }
            if let Some(n) = self.eval_node(event, chip_struct, cols, p) {
                let name = match p {
                    Param::SelfParam { .. } => "self".to_string(),
                    Param::Typed { name, .. } => name.clone(),
                };
                bind_node(&mut out, name, n);
            }
        }
        out
    }

    fn run_bound(&self, func: &Func, st: &SymState, bindings: &NameMap<StoreNode>) -> (r: Result<
        Vec<SymState>,
        ExecError,
    >)
        ensures
            match r {
                Ok(v) => bound_runs(self@, func@, st@, bound_nodes(*bindings)) == Ok::<
                    Seq<StateV>,
                    ExecError,
                >(views(v@)),
                Err(x) => bound_runs(self@, func@, st@, bound_nodes(*bindings)) == Err::<
                    Seq<StateV>,
                    ExecError,
                >(x),
            },
    {
        proof {
            reveal(bound_runs);
        }
        let start = st.clone().bind_params_for_func(func, bindings, owner(self.ctx, func.id))?;
        let rs = func.clone().execute(start, self.depth)?;
        Ok(states_at_end(rs))
    }

    fn plan_populate(
        &self,
        chip: &ChipSpec,
        event: &StoreNode,
        ti: usize,
        pops: &Vec<SymState>,
        acc: Vec<Task>,
    ) -> (r: Vec<Task>)
        ensures
            tasks_of(r@) == populate_tasks(
                self@,
                chip@,
                event@,
                ti,
                views(pops@),
                0,
                tasks_of(acc@),
            ),
    {
        let ghost all = views(pops@);
        let ghost total = populate_tasks(self@, chip@, event@, ti, all, 0, tasks_of(acc@));
        let chip_struct = owner(self.ctx, chip.populate.id);
        let name = chip.name.as_str();
        let mut out = acc;
        #[verifier::loop_isolation(false)]
        for i in 0..pops.len()
            invariant
                total == populate_tasks(
                    self@,
                    chip@,
                    event@,
                    ti,
                    all,
                    i as int,
                    tasks_of(out@),
                ),
        {
            proof {
                assert(all[i as int] == pops@[i as int]@);
            }
            let spot = Spot { first: ti, second: i, third: 0 };
            let cols = match pops[i].param_node(&chip.populate, "self") {
                Some(n) => Some(n.clone()),
                None => None,
            };
            let bindings = self.bindings_for_eval(event, chip_struct, &cols, &chip.eval);
            match self.run_bound(&chip.eval, &pops[i], &bindings) {
                Err(x) => {
                    out.push(fail(name, spot, CheckFault::Exec(x)));
                    return out;
                },
                Ok(evals) => {
                    if evals.len() == 0 {
                        out.push(fail(name, spot, CheckFault::NoEvalPaths));
                        return out;
                    }
                    out = plan_eval(name, ti, i, &evals, out);
                    if ends_in_failure(&out) {
                        return out;
                    }
                },
            }
        }
        out
    }

    fn plan_chips(
        &self,
        chips: &Vec<ChipSpec>,
        event: &StoreNode,
        ti: usize,
        st: &SymState,
        acc: Vec<Task>,
    ) -> (r: Vec<Task>)
        ensures
            tasks_of(r@) == chip_tasks(
                self@,
                views(chips@),
                0,
                event@,
                ti,
                st@,
                tasks_of(acc@),
            ),
    {
        let ghost all = views(chips@);
        let ghost total = chip_tasks(self@, all, 0, event@, ti, st@, tasks_of(acc@));
        let spot = Spot { first: ti, second: 0, third: 0 };
        let mut out = acc;
        #[verifier::loop_isolation(false)]
        for i in 0..chips.len()
            invariant
                total == chip_tasks(self@, all, i as int, event@, ti, st@, tasks_of(out@)),
        {
            let chip = &chips[i];
            proof {
                assert(all[i as int] == chip@);
            }
            let name = chip.name.as_str();
            let bindings = self.bindings_for_populate(event, &chip.populate);
            match self.run_bound(&chip.populate, st, &bindings) {
                Err(x) => {
                    out.push(fail(name, spot, CheckFault::Exec(x)));
                    return out;
                },
                Ok(pops) => {
                    if pops.len() == 0 {
                        out.push(fail(name, spot, CheckFault::NoPopulatePaths));
                        return out;
                    }
                    out = self.plan_populate(chip, event, ti, &pops, out);
                    if ends_in_failure(&out) {
                        return out;
                    }
                },
            }
        }
        out
    }

    fn plan_paths(&self, executor: &Func, chips: &Vec<ChipSpec>, ends: &Vec<SymState>) -> (r: Vec<
        Task,
    >)
        ensures
            tasks_of(r@) == executor_tasks(
                self@,
                executor@,
                views(chips@),
                views(ends@),
                0,
                seq![],
            ),
    {
        let ghost all = views(ends@);
        let ghost cs = views(chips@);
        let ghost total = executor_tasks(self@, executor@, cs, all, 0, seq![]);
        let mut out: Vec<Task> = Vec::new();
        proof {
            assert(tasks_of(out@) =~= seq![]);
        }
        #[verifier::loop_isolation(false)]
        for i in 0..ends.len()
            invariant
                total == executor_tasks(self@, executor@, cs, all, i as int, tasks_of(out@)),
        {
            proof {
                assert(all[i as int] == ends@[i as int]@);
            }
            match find_event_node(executor, &ends[i], self.event_type) {
                None => {
                    let spot = Spot { first: i, second: 0, third: 0 };
                    out.push(fail(executor.name.as_str(), spot, CheckFault::NoEvent));
                    return out;
                },
                Some(event) => {
                    out = self.plan_chips(chips, &event, i, &ends[i], out);
                    if ends_in_failure(&out) {
                        return out;
                    }
                },
            }
        }
        out
    }
}

fn satisfiability_of(st: &SymState) -> (r: Result<BoolExpr, CheckFault>)
    ensures
        ok_view(r) == satisfiability(st@),
{
    let extra = build_send_receive_equalities(st.memory_trace())?;
    let mut constraints: Vec<BoolExpr> = Vec::new();
    constraints.push(st.pc());
    let ghost before = constraints@;
    let mut rest = extra;
    let ghost eqs = rest@;
    constraints.append(&mut rest);
    proof {
        assert(formulas_of(constraints@) =~= seq![conj(st@.path_cond)] + formulas_of(eqs));
    }
    Ok(BoolExpr::and(constraints))
}

fn plan_eval(name: &str, ti: usize, pi: usize, evals: &Vec<SymState>, acc: Vec<Task>) -> (r: Vec<
    Task,
>)
    ensures
        tasks_of(r@) == eval_tasks(name@, ti, pi, views(evals@), 0, tasks_of(acc@)),
{
    let ghost all = views(evals@);
    let ghost total = eval_tasks(name@, ti, pi, all, 0, tasks_of(acc@));
    let mut out = acc;
    #[verifier::loop_isolation(false)]
    for i in 0..evals.len()
        invariant
            total == eval_tasks(name@, ti, pi, all, i as int, tasks_of(out@)),
    {
        proof {
            assert(all[i as int] == evals@[i as int]@);
        }
        let spot = Spot { first: ti, second: pi, third: i };
        match satisfiability_of(&evals[i]) {
            Err(x) => {
                out.push(fail(name, spot, x));
                return out;
            },
            Ok(phi) => {
                out.push(Task::Solve { component: name.to_string(), spot, phi, wanted: true });
            },
        }
    }
    out
}

fn only_failure(component: &str, fault: CheckFault) -> (r: Vec<Task>)
    ensures
        tasks_of(r@) == seq![failing(component@, no_spot(), fault)],
{
    let mut out: Vec<Task> = Vec::new();
    out.push(fail(component, start_spot(), fault));
    proof {
        assert(tasks_of(out@) =~= seq![failing(component@, no_spot(), fault)]);
    }
    out
}

fn plan_executor(mods: &Vec<Module>, ctx: &Rc<Context>, executor: &Func, depth: usize) -> (r: Vec<
    Task,
>)
    ensures
        tasks_of(r@) == executor_plan(modules_of(mods@), ctx@, executor@, depth as nat),
{
    let name = executor.name.as_str();
    let chips = collect_chips(mods, name);
    if chips.len() == 0 {
        return only_failure(name, CheckFault::NoChips);
    }
    let event_type = match &executor.ret {
        Some(ty) => type_ref_id(ty),
        None => None,
    };
    let event_type: i64 = match event_type {
        Some(t) => t,
        None => return only_failure(name, CheckFault::NoEventType),
    };
    let mut st = SymState::new(share(ctx));
    if let Err(x) = st.init_params_for_func(executor, owner(ctx, executor.id)) {
        return only_failure(name, CheckFault::Exec(x));
    }
    let inputs = collect_param_nodes_by_type(&st, executor);
    let vm = VmRun { ctx, event_type, inputs, depth };
    let rs = match executor.clone().execute(st, depth) {
        Ok(rs) => rs,
        Err(x) => return only_failure(name, CheckFault::Exec(x)),
    };
    let ends = states_at_end(rs);
    if ends.len() == 0 {
        return only_failure(name, CheckFault::NoExecutorPaths);
    }
    vm.plan_paths(executor, &chips, &ends)
}

/// The steps of the check of a workspace, up to the first failure that needs no solver.
pub fn plan_vm_workspace(ws: &VmWorkspace, ctx: &Rc<Context>, depth: usize) -> (r: Vec<Task>)
    ensures
        tasks_of(r@) == vm_plan(modules_of(ws.modules@), ctx@, depth as nat),
{
    if ws.modules.len() == 0 {
        return only_failure("", CheckFault::EmptyWorkspace);
    }
    match pick_executor(&ws.modules) {
        None => only_failure("", CheckFault::NoExecutor),
        Some(executor) => plan_executor(&ws.modules, ctx, &executor, depth),
    }
}

/// A check that passes on answers that the back end can give.
pub open spec fn can_pass(backend: BackendV, tasks: Seq<TaskV>) -> bool {
    exists|passed: Seq<Seq<char>>| #[trigger]
        follows(backend, tasks, Ok::<Seq<Seq<char>>, CheckErrorV>(passed))
}

/// Checks the chips of a workspace against its executor, with the solver that is configured: on
/// every path the constraints of each chip can be met.
pub fn check_vm_workspace(ws: &VmWorkspace, ctx: &Rc<Context>, config: &SetConfig) -> (r: Result<
    (),
    CheckError,
>)
    ensures
        match r {
            Ok(_) => can_pass(
                selected(config@),
                vm_plan(modules_of(ws.modules@), ctx@, NESTING as nat),
            ),
            Err(e) => follows(
                selected(config@),
                vm_plan(modules_of(ws.modules@), ctx@, NESTING as nat),
                Err::<Seq<Seq<char>>, CheckErrorV>(e@),
            ),
        },
{
    let backend = backend_from_config(config);
    let tasks = plan_vm_workspace(ws, ctx, NESTING);
    match run_tasks(&tasks, &backend) {
        Ok(passed) => {
            proof {
                assert(follows(
                    backend@,
                    tasks_of(tasks@),
                    Ok::<Seq<Seq<char>>, CheckErrorV>(texts(passed@)),
                ));
            }
            Ok(())
        },
        Err(e) => Err(e),
    }
}

} // verus!
