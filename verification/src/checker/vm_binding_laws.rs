//! What the functions of a workspace are given.

use vstd::prelude::*;
use crate::ast::{FuncV, ParamV, StmtV, TypeV};
use crate::checker::symbolic::context::MemoryEventKind;
use crate::checker::symbolic::state::{EventV, StateV};
use crate::checker::symbolic::state_nodes::param_name;
use crate::checker::symbolic::store::NodeV;
use crate::checker::vm::{
    eval_bindings, event_local, event_of, event_param, inputs_from, of_kind, populate_bindings, VmV,
};

verus! {

/// A type is the one with an id.
pub open spec fn is_type(ty: TypeV, tid: i64) -> bool {
    match ty {
        TypeV::Path { ref_id, .. } => ref_id == Some(tid),
        _ => false,
    }
}

/// A parameter of a type that a store binds.
pub open spec fn is_bound_as(store: Map<int, NodeV>, p: ParamV, tid: i64) -> bool {
    match p {
        ParamV::Typed { id: Some(vid), ty, .. } => is_type(ty, tid) && store.contains_key(
            vid as int,
        ),
        _ => false,
    }
}

/// The node of a parameter in a store.
pub open spec fn node_of_param(store: Map<int, NodeV>, p: ParamV) -> NodeV {
    match p {
        ParamV::Typed { id: Some(vid), .. } => store[vid as int],
        ParamV::SelfParam { id: Some(vid) } => store[vid as int],
        _ => arbitrary(),
    }
}

/// The last parameter of a type that a store binds, from `i` on.
pub open spec fn is_last_bound(
    store: Map<int, NodeV>,
    params: Seq<ParamV>,
    i: int,
    tid: i64,
    j: int,
) -> bool {
    &&& i <= j < params.len()
    &&& is_bound_as(store, params[j], tid)
    &&& forall|k: int| j < k < params.len() ==> !is_bound_as(store, #[trigger] params[k], tid)
}

proof fn lemma_inputs(
    store: Map<int, NodeV>,
    params: Seq<ParamV>,
    i: int,
    acc: Map<i64, NodeV>,
    tid: i64,
)
    requires
        0 <= i,
    ensures
        ({
            let m = inputs_from(store, params, i, acc);
            ||| exists|j: int| #[trigger]
                is_last_bound(store, params, i, tid, j) && m.contains_key(tid) && m[tid]
                    == node_of_param(store, params[j])
            ||| (forall|j: int|
                i <= j < params.len() ==> !is_bound_as(store, #[trigger] params[j], tid)) && (
            m.contains_key(tid) <==> acc.contains_key(tid)) && (acc.contains_key(tid) ==> m[tid]
                == acc[tid])
        }),
    decreases params.len() - i,
{
    if i < params.len() {
        let p = params[i];
        let next = match p {
            ParamV::Typed { id: Some(vid), ty: TypeV::Path { ref_id: Some(t), .. }, .. } => if store.contains_key(
                vid as int,
            ) {
                acc.insert(t, store[vid as int])
            } else {
                acc
            },
            _ => acc,
        };
        assert(inputs_from(store, params, i, acc) == inputs_from(store, params, i + 1, next));
        lemma_inputs(store, params, i + 1, next, tid);
        let m = inputs_from(store, params, i, acc);
        if exists|j: int| #[trigger] is_last_bound(store, params, i + 1, tid, j) {
            let j = choose|j: int| #[trigger]
                is_last_bound(store, params, i + 1, tid, j) && m.contains_key(tid) && m[tid]
                    == node_of_param(store, params[j]);
            if is_last_bound(store, params, i + 1, tid, j) {
                assert(is_last_bound(store, params, i, tid, j));
            } else {
                let q = choose|j: int| #[trigger] is_last_bound(store, params, i + 1, tid, j);
                assert(is_bound_as(store, params[q], tid));
            }
        } else if is_bound_as(store, p, tid) {
            assert(is_last_bound(store, params, i, tid, i));
        }
    }
}

/// The inputs of a workspace are, for each type, the node of the last parameter of the executor of
/// that type that is bound; types of which none is bound have none.
pub proof fn inputs_are_by_type(store: Map<int, NodeV>, params: Seq<ParamV>, tid: i64)
    ensures
        inputs_from(store, params, 0, Map::empty()).contains_key(tid) <==> exists|j: int|
            0 <= j < params.len() && is_bound_as(store, #[trigger] params[j], tid),
        inputs_from(store, params, 0, Map::empty()).contains_key(tid) ==> exists|j: int| #[trigger]
            is_last_bound(store, params, 0, tid, j) && inputs_from(
                store,
                params,
                0,
                Map::empty(),
            )[tid] == node_of_param(store, params[j]),
{
    lemma_inputs(store, params, 0, Map::empty(), tid);
}

/// A declaration of a variable of a type that a store binds.
pub open spec fn declares_bound(store: Map<int, NodeV>, s: StmtV, tid: i64) -> bool {
    match s {
        StmtV::VarDecl { id: Some(vid), ty, .. } => is_type(ty, tid) && store.contains_key(
            vid as int,
        ),
        _ => false,
    }
}

/// The first parameter of a type that a store binds, from `i` on.
pub open spec fn is_first_bound(
    store: Map<int, NodeV>,
    params: Seq<ParamV>,
    i: int,
    tid: i64,
    j: int,
) -> bool {
    &&& i <= j < params.len()
    &&& is_bound_as(store, params[j], tid)
    &&& forall|k: int| i <= k < j ==> !is_bound_as(store, #[trigger] params[k], tid)
}

/// The first statement from `i` on that declares a variable of a type that a store binds.
pub open spec fn is_first_declared(
    store: Map<int, NodeV>,
    body: Seq<StmtV>,
    i: int,
    tid: i64,
    j: int,
) -> bool {
    &&& i <= j < body.len()
    &&& declares_bound(store, body[j], tid)
    &&& forall|k: int| i <= k < j ==> !declares_bound(store, #[trigger] body[k], tid)
}

proof fn lemma_event_param(store: Map<int, NodeV>, params: Seq<ParamV>, i: int, tid: i64)
    requires
        0 <= i,
    ensures
        match event_param(store, params, i, tid) {
            Some(n) => exists|j: int| #[trigger]
                is_first_bound(store, params, i, tid, j) && n == node_of_param(store, params[j]),
            None => forall|j: int|
                i <= j < params.len() ==> !is_bound_as(store, #[trigger] params[j], tid),
        },
    decreases params.len() - i,
{
    if i < params.len() {
        if is_bound_as(store, params[i], tid) {
            assert(is_first_bound(store, params, i, tid, i));
        } else {
            lemma_event_param(store, params, i + 1, tid);
            if let Some(n) = event_param(store, params, i + 1, tid) {
                let j = choose|j: int| #[trigger]
                    is_first_bound(store, params, i + 1, tid, j) && n == node_of_param(
                        store,
                        params[j],
                    );
                assert(is_first_bound(store, params, i, tid, j));
            }
        }
    }
}

proof fn lemma_event_local(store: Map<int, NodeV>, body: Seq<StmtV>, i: int, tid: i64)
    requires
        0 <= i,
    ensures
        match event_local(store, body, i, tid) {
            Some(n) => exists|j: int| #[trigger]
                is_first_declared(store, body, i, tid, j) && n
                    == store[body[j]->VarDecl_id->0 as int],
            None => forall|j: int|
                i <= j < body.len() ==> !declares_bound(store, #[trigger] body[j], tid),
        },
    decreases body.len() - i,
{
    if i < body.len() {
        if declares_bound(store, body[i], tid) {
            assert(is_first_declared(store, body, i, tid, i));
        } else {
            lemma_event_local(store, body, i + 1, tid);
            if let Some(n) = event_local(store, body, i + 1, tid) {
                let j = choose|j: int| #[trigger]
                    is_first_declared(store, body, i + 1, tid, j) && n
                        == store[body[j]->VarDecl_id->0 as int];
                assert(is_first_declared(store, body, i, tid, j));
            }
        }
    }
}

/// The event of an executor path is what the first parameter of the event type holds at its end,
/// or, if none is bound, the first variable of that type that the executor declares.
pub proof fn event_is_of_its_type(f: FuncV, st: StateV, tid: i64)
    ensures
        match event_of(f, st, tid) {
            Some(n) => (exists|j: int| #[trigger]
                is_first_bound(st.store, f.params, 0, tid, j) && n == node_of_param(
                    st.store,
                    f.params[j],
                )) || ((forall|j: int|
                0 <= j < f.params.len() ==> !is_bound_as(st.store, #[trigger] f.params[j], tid))
                && exists|j: int| #[trigger]
                is_first_declared(st.store, f.body, 0, tid, j) && n
                    == st.store[f.body[j]->VarDecl_id->0 as int]),
            None => (forall|j: int|
                0 <= j < f.params.len() ==> !is_bound_as(st.store, #[trigger] f.params[j], tid)) && (
            forall|j: int|
                0 <= j < f.body.len() ==> !declares_bound(st.store, #[trigger] f.body[j], tid)),
        },
{
    lemma_event_param(st.store, f.params, 0, tid);
    lemma_event_local(st.store, f.body, 0, tid);
}

/// Every event of a kind is among those of the kind, behind all the earlier ones of that kind.
pub proof fn every_event_is_sorted(events: Seq<EventV>, kind: MemoryEventKind, i: int)
    requires
        0 <= i < events.len(),
        events[i].kind == kind,
    ensures
        of_kind(events.take(i), kind).len() < of_kind(events, kind).len(),
        of_kind(events, kind)[of_kind(events.take(i), kind).len() as int] == events[i],
    decreases events.len(),
{
    let front = events.drop_last();
    if i == events.len() - 1 {
        assert(events.take(i) =~= front);
    } else {
        every_event_is_sorted(front, kind, i);
        assert(front.take(i) =~= events.take(i));
        assert(front[i] == events[i]);
    }
}

/// Only events of a kind are among those of the kind.
pub proof fn only_events_of_the_kind(events: Seq<EventV>, kind: MemoryEventKind, k: int)
    requires
        0 <= k < of_kind(events, kind).len(),
    ensures
        of_kind(events, kind)[k].kind == kind,
        exists|i: int|
            0 <= i < events.len() && #[trigger] events[i] == of_kind(events, kind)[k] && of_kind(
                events.take(i),
                kind,
            ).len() == k,
    decreases events.len(),
{
    let front = events.drop_last();
    if k < of_kind(front, kind).len() {
        only_events_of_the_kind(front, kind, k);
        let i = choose|i: int|
            0 <= i < front.len() && #[trigger] front[i] == of_kind(front, kind)[k] && of_kind(
                front.take(i),
                kind,
            ).len() == k;
        assert(events[i] == front[i]);
        assert(front.take(i) =~= events.take(i));
    } else {
        let i = events.len() - 1;
        assert(events.take(i) =~= front);
        assert(events[i] == of_kind(events, kind)[k]);
    }
}

/// A parameter of a populate function is given a node under its name: the event, if it is of the
/// event type, and otherwise the executor's input of its type.
pub open spec fn is_given(vm: VmV, event: NodeV, p: ParamV, name: Seq<char>, node: NodeV) -> bool {
    match p {
        ParamV::Typed { name: n, ty: TypeV::Path { ref_id: Some(t), .. }, .. } => n == name && if t
            == vm.event_type {
            node == event
        } else {
            vm.inputs.contains_key(t) && node == vm.inputs[t]
        },
        _ => false,
    }
}

/// The last of the parameters from `i` on that is given a node under a name.
pub open spec fn is_last_given(
    vm: VmV,
    event: NodeV,
    params: Seq<ParamV>,
    i: int,
    name: Seq<char>,
    node: NodeV,
    j: int,
) -> bool {
    &&& i <= j < params.len()
    &&& is_given(vm, event, params[j], name, node)
    &&& forall|k: int, other: NodeV|
        j < k < params.len() ==> !#[trigger] is_given(vm, event, params[k], name, other)
}

proof fn lemma_populate(
    vm: VmV,
    event: NodeV,
    params: Seq<ParamV>,
    i: int,
    acc: Map<Seq<char>, NodeV>,
    name: Seq<char>,
)
    requires
        0 <= i,
    ensures
        ({
            let m = populate_bindings(vm, event, params, i, acc);
            ||| m.contains_key(name) && exists|j: int| #[trigger]
                is_last_given(vm, event, params, i, name, m[name], j)
            ||| (forall|j: int, node: NodeV|
                i <= j < params.len() ==> !#[trigger] is_given(vm, event, params[j], name, node))
                && (m.contains_key(name) <==> acc.contains_key(name)) && (acc.contains_key(name)
                ==> m[name] == acc[name])
        }),
    decreases params.len() - i,
{
    if i < params.len() {
        let p = params[i];
        let m = populate_bindings(vm, event, params, i, acc);
        let next = match p {
            ParamV::Typed { name: n, ty: TypeV::Path { ref_id: Some(t), .. }, .. } => if t
                == vm.event_type {
                acc.insert(n, event)
            } else if vm.inputs.contains_key(t) {
                acc.insert(n, vm.inputs[t])
            } else {
                acc
            },
            _ => acc,
        };
        assert(m == populate_bindings(vm, event, params, i + 1, next));
        lemma_populate(vm, event, params, i + 1, next, name);
        if exists|j: int| #[trigger] is_last_given(vm, event, params, i + 1, name, m[name], j) {
            let j = choose|j: int| #[trigger]
                is_last_given(vm, event, params, i + 1, name, m[name], j);
            assert(is_given(vm, event, params[j], name, m[name]));
            assert(is_last_given(vm, event, params, i, name, m[name], j));
        } else if exists|node: NodeV| #[trigger] is_given(vm, event, p, name, node) {
            let node = choose|node: NodeV| #[trigger] is_given(vm, event, p, name, node);
            assert(next.contains_key(name) && next[name] == node);
            assert(is_last_given(vm, event, params, i, name, m[name], i));
        } else {
            assert forall|j: int, node: NodeV| i <= j < params.len() implies !#[trigger] is_given(
                vm,
                event,
                params[j],
                name,
                node,
            ) by {}
        }
    }
}

/// A populate function is given the event for parameters of the event type and the executor's
/// inputs for the others, by their types; the last parameter of a name counts.
pub proof fn populate_is_given_event_and_inputs(
    vm: VmV,
    event: NodeV,
    params: Seq<ParamV>,
    name: Seq<char>,
)
    ensures
        populate_bindings(vm, event, params, 0, Map::empty()).contains_key(name) ==> exists|j: int|
            #[trigger]
            is_last_given(
                vm,
                event,
                params,
                0,
                name,
                populate_bindings(vm, event, params, 0, Map::empty())[name],
                j,
            ),
        forall|j: int, node: NodeV|
            0 <= j < params.len() && #[trigger] is_given(vm, event, params[j], name, node)
                ==> populate_bindings(vm, event, params, 0, Map::empty()).contains_key(name),
{
    lemma_populate(vm, event, params, 0, Map::empty(), name);
}

/// A parameter of an eval function is given a node under its name: the populated row, if it is
/// `self` or of the chip's own struct; otherwise the executor's input of its type; otherwise the
/// event, if it is of the event type.
pub open spec fn is_shown(
    vm: VmV,
    event: NodeV,
    own: Option<i64>,
    row: Option<NodeV>,
    p: ParamV,
    name: Seq<char>,
    node: NodeV,
) -> bool {
    match p {
        ParamV::SelfParam { .. } => name == "self"@ && row == Some(node),
        ParamV::Typed { name: n, ty: TypeV::Path { ref_id: Some(t), .. }, .. } => n == name && if own
            == Some(t) && t != vm.event_type && row is Some {
            row == Some(node)
        } else if vm.inputs.contains_key(t) {
            node == vm.inputs[t]
        } else {
            t == vm.event_type && node == event
        },
        _ => false,
    }
}

/// The last of the parameters from `i` on that is given a node under a name.
pub open spec fn is_last_shown(
    vm: VmV,
    event: NodeV,
    own: Option<i64>,
    row: Option<NodeV>,
    params: Seq<ParamV>,
    i: int,
    name: Seq<char>,
    node: NodeV,
    j: int,
) -> bool {
    &&& i <= j < params.len()
    &&& is_shown(vm, event, own, row, params[j], name, node)
    &&& forall|k: int, other: NodeV|
        j < k < params.len() ==> !#[trigger] is_shown(vm, event, own, row, params[k], name, other)
}

proof fn lemma_eval(
    vm: VmV,
    event: NodeV,
    own: Option<i64>,
    row: Option<NodeV>,
    params: Seq<ParamV>,
    i: int,
    acc: Map<Seq<char>, NodeV>,
    name: Seq<char>,
)
    requires
        0 <= i,
    ensures
        ({
            let m = eval_bindings(vm, event, own, row, params, i, acc);
            ||| m.contains_key(name) && exists|j: int| #[trigger]
                is_last_shown(vm, event, own, row, params, i, name, m[name], j)
            ||| (forall|j: int, node: NodeV|
                i <= j < params.len() ==> !#[trigger] is_shown(
                    vm,
                    event,
                    own,
                    row,
                    params[j],
                    name,
                    node,
                )) && (m.contains_key(name) <==> acc.contains_key(name)) && (acc.contains_key(name)
                ==> m[name] == acc[name])
        }),
    decreases params.len() - i,
{
    if i < params.len() {
        let p = params[i];
        let m = eval_bindings(vm, event, own, row, params, i, acc);
        let given = crate::checker::vm::eval_binding(vm, event, own, row, p);
        let next = match given {
            Some(n) => acc.insert(param_name(p), n),
            None => acc,
        };
        assert(m == eval_bindings(vm, event, own, row, params, i + 1, next));
        lemma_eval(vm, event, own, row, params, i + 1, next, name);
        assert forall|node: NodeV| #[trigger]
            is_shown(vm, event, own, row, p, name, node) <==> (given == Some(node) && param_name(p)
                == name) by {}
        if exists|j: int| #[trigger]
            is_last_shown(vm, event, own, row, params, i + 1, name, m[name], j) {
            let j = choose|j: int| #[trigger]
                is_last_shown(vm, event, own, row, params, i + 1, name, m[name], j);
            assert(is_shown(vm, event, own, row, params[j], name, m[name]));
            assert(is_last_shown(vm, event, own, row, params, i, name, m[name], j));
        } else if given is Some && param_name(p) == name {
            assert(is_shown(vm, event, own, row, p, name, given->0));
            assert(is_last_shown(vm, event, own, row, params, i, name, m[name], i));
        } else {
            assert forall|j: int, node: NodeV| i <= j < params.len() implies !#[trigger] is_shown(
                vm,
                event,
                own,
                row,
                params[j],
                name,
                node,
            ) by {}
        }
    }
}

/// An eval function is given the populated row, the executor's inputs and the event, by the types
/// of its parameters; the last parameter of a name counts.
pub proof fn eval_is_given_row_inputs_and_event(
    vm: VmV,
    event: NodeV,
    own: Option<i64>,
    row: Option<NodeV>,
    params: Seq<ParamV>,
    name: Seq<char>,
)
    ensures
        eval_bindings(vm, event, own, row, params, 0, Map::empty()).contains_key(name) ==> exists|
            j: int,
        | #[trigger]
            is_last_shown(
                vm,
                event,
                own,
                row,
                params,
                0,
                name,
                eval_bindings(vm, event, own, row, params, 0, Map::empty())[name],
                j,
            ),
        forall|j: int, node: NodeV|
            0 <= j < params.len() && #[trigger] is_shown(
                vm,
                event,
                own,
                row,
                params[j],
                name,
                node,
            ) ==> eval_bindings(vm, event, own, row, params, 0, Map::empty()).contains_key(name),
{
    lemma_eval(vm, event, own, row, params, 0, Map::empty(), name);
}

} // verus!
