//! What the equivalence check compares.

use vstd::prelude::*;
use crate::ast::helpers::{components_of, param_io, ComponentV};
use crate::ast::{FieldV, FileV, IOType, ItemV, ParamV};
use crate::checker::drive::follows;
use crate::checker::query::{
    both_runs, counterexample_is_exact, equivalence_plan, event_pairs, field_pairs, prepared,
    roles_from, sorted_in, struct_roles, PairsV, QueryCheckV,
};
use crate::checker::solver::model_laws::solves;
use crate::checker::solver::smt_laws::sorts_respected;
use crate::checker::solver::BackendV;
use crate::checker::symbolic::context::{ContextV, PathKind};
use crate::checker::symbolic::expr::{Formula, Term};
use crate::checker::symbolic::leaf_laws::{
    child, has_finite_keys, is_finite, leaf_pair, lemma_child, lemma_child_finite, lemma_keys,
    pairs_are_of_leaves, under,
};
use crate::checker::symbolic::meaning::{all_hold, holds, value};
use crate::checker::symbolic::state::{EventV, StateV};
use crate::checker::symbolic::store::{key_list, node_pairs, NodeV};
use crate::checker::task::{CheckErrorV, CheckFault};
use crate::checker::verdict_laws::{is_refuted, passing_refutes_every_pair};

verus! {

/// A field of the struct with an id has a role: the first struct item with the id declares it, and
/// no later field of that struct has the same id.
pub open spec fn field_has_role(items: Seq<ItemV>, sid: i64, fid: i64, role: IOType) -> bool {
    exists|i: int, j: int| #[trigger] declares_role(items, sid, fid, role, i, j)
}

/// Field `j` of item `i` declares the role of a field.
pub open spec fn declares_role(
    items: Seq<ItemV>,
    sid: i64,
    fid: i64,
    role: IOType,
    i: int,
    j: int,
) -> bool {
    &&& 0 <= i < items.len()
    &&& is_struct(items[i], sid)
    &&& forall|k: int| 0 <= k < i ==> !is_struct(#[trigger] items[k], sid)
    &&& 0 <= j < items[i]->Struct_fields.len()
    &&& items[i]->Struct_fields[j].id == Some(fid)
    &&& items[i]->Struct_fields[j].io == role
    &&& forall|k: int|
        j < k < items[i]->Struct_fields.len() ==> (#[trigger] items[i]->Struct_fields[k]).id != Some(
            fid,
        )
}

/// An item is the struct with an id.
pub open spec fn is_struct(item: ItemV, sid: i64) -> bool {
    item is Struct && item->Struct_id == Some(sid)
}

/// A parameter of a name has a role: it is the first that answers to the name.
pub open spec fn param_has_role(params: Seq<ParamV>, name: Seq<char>, role: IOType) -> bool {
    exists|j: int|
        0 <= j < params.len() && #[trigger] params[j] is Typed && params[j]->Typed_name == name
            && params[j]->io == role && forall|k: int|
            0 <= k < j ==> !answers_to(#[trigger] params[k], name)
}

/// A parameter answers to a name.
pub open spec fn answers_to(p: ParamV, name: Seq<char>) -> bool {
    match p {
        ParamV::SelfParam { .. } => name == "self"@,
        ParamV::Typed { name: n, .. } => n == name,
    }
}

/// The struct that both sides of a root are, if both are structs.
pub open spec fn root_struct(q: QueryCheckV, k: int) -> Option<i64> {
    match (q.ctx.infer(q.lhs_roots[k]), q.ctx.infer(q.rhs_roots[k])) {
        (Some(lt), Some(rt)) => match (q.ctx.classify(lt), q.ctx.classify(rt)) {
            (Ok(PathKind::Struct(a)), Ok(PathKind::Struct(_))) => Some(a),
            _ => None,
        },
        _ => None,
    }
}

/// What stands at a path below a root has a role: that of the field for a struct, and that of the
/// parameter, on both sides, otherwise.
pub open spec fn place_has_role(q: QueryCheckV, k: int, path: Seq<int>, role: IOType) -> bool {
    match root_struct(q, k) {
        Some(sid) => path.len() > 0 && field_has_role(q.items, sid, path[0] as i64, role),
        None => q.lhs_paths[k + 1].len() > 0 && q.rhs_paths[k + 1].len() > 0 && param_has_role(
            q.lhs.params,
            q.lhs_paths[k + 1][0],
            role,
        ) && param_has_role(q.rhs.params, q.rhs_paths[k + 1][0], role),
    }
}

/// The node of a root at the end of a path of the left side.
pub open spec fn left_node(q: QueryCheckV, k: int, l: StateV) -> NodeV {
    l.expr_node(q.lhs_roots[k])->Ok_0->0
}

/// The node of a root at the end of a path of the right side.
pub open spec fn right_node(q: QueryCheckV, k: int, r: StateV) -> NodeV {
    r.expr_node(q.rhs_roots[k])->Ok_0->0
}

/// A pair of a role: it stands at a place of that role below a root.
pub open spec fn is_pair(
    q: QueryCheckV,
    k: int,
    l: StateV,
    r: StateV,
    role: IOType,
    p: (Term, Term),
) -> bool {
    0 <= k < q.lhs_roots.len() && exists|path: Seq<int>| #[trigger]
        leaf_pair(left_node(q, k, l), right_node(q, k, r), path, p) && place_has_role(
            q,
            k,
            path,
            role,
        )
}

/// Every root of the left side is a finite node.
pub open spec fn roots_finite(q: QueryCheckV, l: StateV) -> bool {
    forall|k: int|
        0 <= k < q.lhs_roots.len() && l.expr_node(#[trigger] q.lhs_roots[k]) is Ok && l.expr_node(
            q.lhs_roots[k],
        )->Ok_0 is Some ==> is_finite(left_node(q, k, l))
}

proof fn lemma_roles_from(fields: Seq<FieldV>, i: int, acc: Map<i64, IOType>, fid: i64)
    requires
        0 <= i,
        roles_from(fields, i, acc) is Ok,
    ensures
        ({
            let roles = roles_from(fields, i, acc)->Ok_0;
            &&& roles.contains_key(fid) ==> (exists|j: int|
                i <= j < fields.len() && (#[trigger] fields[j]).id == Some(fid) && fields[j].io
                    == roles[fid] && forall|k: int|
                    j < k < fields.len() ==> (#[trigger] fields[k]).id != Some(fid)) || (
            acc.contains_key(fid) && acc[fid] == roles[fid] && forall|k: int|
                i <= k < fields.len() ==> (#[trigger] fields[k]).id != Some(fid))
            &&& acc.contains_key(fid) ==> roles.contains_key(fid)
        }),
    decreases fields.len() - i,
{
    if i < fields.len() {
        let f = fields[i].id->0;
        let acc2 = acc.insert(f, fields[i].io);
        lemma_roles_from(fields, i + 1, acc2, fid);
        let roles = roles_from(fields, i, acc)->Ok_0;
        if roles.contains_key(fid) {
            if forall|k: int| i + 1 <= k < fields.len() ==> (#[trigger] fields[k]).id != Some(fid) {
                if f == fid {
                    assert(fields[i].id == Some(fid));
                }
            }
        }
    }
}

proof fn lemma_struct_roles(items: Seq<ItemV>, i: int, sid: i64, fid: i64)
    requires
        0 <= i,
        struct_roles(items, i, sid) is Ok,
        forall|k: int| 0 <= k < i && k < items.len() ==> !is_struct(#[trigger] items[k], sid),
    ensures
        struct_roles(items, i, sid)->Ok_0.contains_key(fid) ==> field_has_role(
            items,
            sid,
            fid,
            struct_roles(items, i, sid)->Ok_0[fid],
        ),
    decreases items.len() - i,
{
    if i < items.len() {
        match items[i] {
            ItemV::Struct { id, fields, .. } => if id == Some(sid) {
                lemma_roles_from(fields, 0, Map::empty(), fid);
                let roles = struct_roles(items, i, sid)->Ok_0;
                if roles.contains_key(fid) {
                    let j = choose|j: int|
                        0 <= j < fields.len() && (#[trigger] fields[j]).id == Some(fid)
                            && fields[j].io == roles[fid] && forall|k: int|
                            j < k < fields.len() ==> (#[trigger] fields[k]).id != Some(fid);
                    assert(declares_role(items, sid, fid, roles[fid], i, j));
                }
            } else {
                lemma_struct_roles(items, i + 1, sid, fid);
            },
            _ => lemma_struct_roles(items, i + 1, sid, fid),
        }
    }
}

/// A field has one role.
proof fn lemma_one_role(items: Seq<ItemV>, sid: i64, fid: i64, a: IOType, b: IOType)
    requires
        field_has_role(items, sid, fid, a),
        field_has_role(items, sid, fid, b),
    ensures
        a == b,
{
    let (i, j) = choose|i: int, j: int| #[trigger] declares_role(items, sid, fid, a, i, j);
    let (m, n) = choose|m: int, n: int| #[trigger] declares_role(items, sid, fid, b, m, n);
    if i < m {
        assert(!is_struct(items[i], sid));
    } else if m < i {
        assert(!is_struct(items[m], sid));
    }
    let fields = items[i]->Struct_fields;
    if j < n {
        assert(fields[n].id != Some(fid));
    } else if n < j {
        assert(fields[j].id != Some(fid));
    }
}

proof fn lemma_param_io(params: Seq<ParamV>, path: Seq<Seq<char>>)
    ensures
        match param_io(params, path) {
            Some(io) => path.len() > 0 && param_has_role(params, path[0], io),
            None => true,
        },
    decreases params.len(),
{
    if path.len() > 0 && params.len() > 0 {
        let rest = params.skip(1);
        lemma_param_io(rest, path);
        if let Some(io) = param_io(params, path) {
            if answers_to(params[0], path[0]) {
                assert(params[0] is Typed);
            } else {
                let j = choose|j: int|
                    0 <= j < rest.len() && #[trigger] rest[j] is Typed && rest[j]->Typed_name
                        == path[0] && rest[j]->io == io && forall|k: int|
                        0 <= k < j ==> !answers_to(#[trigger] rest[k], path[0]);
                assert(params[j + 1] == rest[j]);
                assert forall|k: int| 0 <= k < j + 1 implies !answers_to(
                    #[trigger] params[k],
                    path[0],
                ) by {
                    if k > 0 {
                        assert(params[k] == rest[k - 1]);
                    }
                }
            }
        }
    }
}

proof fn lemma_one_param_role(params: Seq<ParamV>, name: Seq<char>, a: IOType, b: IOType)
    requires
        param_has_role(params, name, a),
        param_has_role(params, name, b),
    ensures
        a == b,
{
    let i = choose|j: int|
        0 <= j < params.len() && #[trigger] params[j] is Typed && params[j]->Typed_name == name
            && params[j]->io == a && forall|k: int|
            0 <= k < j ==> !answers_to(#[trigger] params[k], name);
    let j = choose|j: int|
        0 <= j < params.len() && #[trigger] params[j] is Typed && params[j]->Typed_name == name
            && params[j]->io == b && forall|k: int|
            0 <= k < j ==> !answers_to(#[trigger] params[k], name);
    if i < j {
        assert(!answers_to(params[i], name));
    } else if j < i {
        assert(!answers_to(params[j], name));
    }
}

/// The pairs of a role, among input and output pairs.
spec fn of_role(ins: PairsV, outs: PairsV, role: IOType) -> PairsV {
    match role {
        IOType::Input => ins,
        IOType::Output => outs,
    }
}

proof fn lemma_sorted(ins: PairsV, outs: PairsV, role: IOType, ps: PairsV, which: IOType, p: (Term, Term))
    ensures
        ({
            let (ins2, outs2) = sorted_in(ins, outs, role, ps);
            of_role(ins2, outs2, which).contains(p) <==> of_role(ins, outs, which).contains(p) || (
            which == role && ps.contains(p))
        }),
{
    let base = of_role(ins, outs, role);
    let all = base + ps;
    if all.contains(p) {
        let j = choose|j: int| 0 <= j < all.len() && all[j] == p;
        if j < base.len() {
            assert(base[j] == p);
        } else {
            assert(ps[j - base.len()] == p);
        }
    }
    if base.contains(p) {
        let j = choose|j: int| 0 <= j < base.len() && base[j] == p;
        assert(all[j] == p);
    }
    if ps.contains(p) {
        let j = choose|j: int| 0 <= j < ps.len() && ps[j] == p;
        assert(all[base.len() + j] == p);
    }
}

/// A pair of a role below one of the keys from `i` on.
spec fn key_pair(
    keys: Seq<int>,
    i: int,
    lf: Map<int, NodeV>,
    rf: Map<int, NodeV>,
    roles: Map<i64, IOType>,
    role: IOType,
    p: (Term, Term),
) -> bool {
    exists|j: int, path: Seq<int>|
        i <= j < keys.len() && #[trigger] leaf_pair(lf[keys[j]], rf[keys[j]], path, p)
            && roles.contains_key(keys[j] as i64) && roles[keys[j] as i64] == role
}

proof fn lemma_field_pairs(
    a: NodeV,
    keys: Seq<int>,
    i: int,
    lf: Map<int, NodeV>,
    rf: Map<int, NodeV>,
    roles: Map<i64, IOType>,
    ins: PairsV,
    outs: PairsV,
)
    requires
        0 <= i,
        is_finite(a),
        forall|k: int| lf.contains_key(k) ==> #[trigger] child(a, k) == Some(lf[k]),
        field_pairs(keys, i, lf, rf, roles, ins, outs) is Ok,
    ensures
        forall|role: IOType, p: (Term, Term)| #[trigger]
            of_role(
                field_pairs(keys, i, lf, rf, roles, ins, outs)->Ok_0.0,
                field_pairs(keys, i, lf, rf, roles, ins, outs)->Ok_0.1,
                role,
            ).contains(p) <==> of_role(ins, outs, role).contains(p) || key_pair(
                keys,
                i,
                lf,
                rf,
                roles,
                role,
                p,
            ),
        forall|j: int|
            i <= j < keys.len() ==> rf.contains_key(#[trigger] keys[j]) && roles.contains_key(
                keys[j] as i64,
            ),
    decreases keys.len() - i,
{
    if i < keys.len() {
        let k = keys[i];
        let fr = roles[k as i64];
        let ps = node_pairs(lf[k], rf[k])->Ok_0;
        assert(child(a, k) == Some(lf[k]));
        lemma_child_finite(a, k);
        pairs_are_of_leaves(lf[k], rf[k]);
        let (ins1, outs1) = sorted_in(ins, outs, fr, ps);
        lemma_field_pairs(a, keys, i + 1, lf, rf, roles, ins1, outs1);
        let (ins2, outs2) = field_pairs(keys, i, lf, rf, roles, ins, outs)->Ok_0;
        assert forall|role: IOType, p: (Term, Term)| #[trigger]
            of_role(ins2, outs2, role).contains(p) <==> of_role(ins, outs, role).contains(p)
                || key_pair(keys, i, lf, rf, roles, role, p) by {
            lemma_sorted(ins, outs, fr, ps, role, p);
            if key_pair(keys, i, lf, rf, roles, role, p) {
                let (j, path) = choose|j: int, path: Seq<int>|
                    i <= j < keys.len() && #[trigger] leaf_pair(lf[keys[j]], rf[keys[j]], path, p)
                        && roles.contains_key(keys[j] as i64) && roles[keys[j] as i64] == role;
                if j == i {
                    assert(ps.contains(p));
                } else {
                    assert(key_pair(keys, i + 1, lf, rf, roles, role, p));
                }
            }
            if key_pair(keys, i + 1, lf, rf, roles, role, p) {
                let (j, path) = choose|j: int, path: Seq<int>|
                    i + 1 <= j < keys.len() && #[trigger] leaf_pair(
                        lf[keys[j]],
                        rf[keys[j]],
                        path,
                        p,
                    ) && roles.contains_key(keys[j] as i64) && roles[keys[j] as i64] == role;
                assert(leaf_pair(lf[keys[j]], rf[keys[j]], path, p));
            }
            if role == fr && ps.contains(p) {
                let path = choose|path: Seq<int>| #[trigger] leaf_pair(lf[k], rf[k], path, p);
                assert(leaf_pair(lf[keys[i]], rf[keys[i]], path, p));
            }
        }
    }
}

proof fn lemma_struct_pairs(
    q: QueryCheckV,
    k: int,
    sid: i64,
    l: StateV,
    r: StateV,
    ins: PairsV,
    outs: PairsV,
    role: IOType,
    p: (Term, Term),
)
    requires
        0 <= k < q.lhs_roots.len(),
        roots_finite(q, l),
        root_struct(q, k) == Some(sid),
        q.struct_pairs(k, sid, l, r, ins, outs) is Ok,
    ensures
        ({
            let (ins2, outs2) = q.struct_pairs(k, sid, l, r, ins, outs)->Ok_0;
            of_role(ins2, outs2, role).contains(p) <==> of_role(ins, outs, role).contains(p)
                || is_pair(q, k, l, r, role, p)
        }),
{
    reveal(QueryCheckV::struct_pairs);
    let roles = struct_roles(q.items, 0, sid)->Ok_0;
    let ln = left_node(q, k, l);
    let rn = right_node(q, k, r);
    assert(l.expr_node(q.lhs_roots[k]) is Ok);
    let lf = ln->Struct_fields;
    let rf = rn->Struct_fields;
    let keys = key_list(lf.dom());
    assert(under(ln, seq![]) == Some(ln));
    assert(has_finite_keys(ln));
    lemma_keys(lf.dom());
    lemma_field_pairs(ln, keys, 0, lf, rf, roles, ins, outs);
    let (ins2, outs2) = q.struct_pairs(k, sid, l, r, ins, outs)->Ok_0;
    assert(of_role(ins2, outs2, role).contains(p) <==> of_role(ins, outs, role).contains(p)
        || key_pair(keys, 0, lf, rf, roles, role, p));
    if key_pair(keys, 0, lf, rf, roles, role, p) {
        let (j, path) = choose|j: int, path: Seq<int>|
            0 <= j < keys.len() && #[trigger] leaf_pair(lf[keys[j]], rf[keys[j]], path, p)
                && roles.contains_key(keys[j] as i64) && roles[keys[j] as i64] == role;
        assert(keys.contains(keys[j]));
        assert(lf.dom().contains(keys[j]));
        let full = seq![keys[j]] + path;
        lemma_child(ln, keys[j], path);
        lemma_child(rn, keys[j], path);
        lemma_struct_roles(q.items, 0, sid, keys[j] as i64);
        assert(full[0] == keys[j]);
        assert(leaf_pair(ln, rn, full, p));
        assert(place_has_role(q, k, full, role));
    }
    if is_pair(q, k, l, r, role, p) {
        let path = choose|path: Seq<int>| #[trigger]
            leaf_pair(ln, rn, path, p) && place_has_role(q, k, path, role);
        let key = path[0];
        assert(lf.dom().contains(key));
        let j = choose|j: int| 0 <= j < keys.len() && keys[j] == key;
        assert(roles.contains_key(keys[j] as i64));
        lemma_struct_roles(q.items, 0, sid, key as i64);
        lemma_one_role(q.items, sid, key as i64, role, roles[key as i64]);
        assert(leaf_pair(lf[keys[j]], rf[keys[j]], path.drop_first(), p));
    }
}

proof fn lemma_param_pairs(
    q: QueryCheckV,
    k: int,
    l: StateV,
    r: StateV,
    ins: PairsV,
    outs: PairsV,
    role: IOType,
    p: (Term, Term),
)
    requires
        0 <= k < q.lhs_roots.len(),
        roots_finite(q, l),
        root_struct(q, k) is None,
        q.param_pairs(k, l, r, ins, outs) is Ok,
    ensures
        ({
            let (ins2, outs2) = q.param_pairs(k, l, r, ins, outs)->Ok_0;
            of_role(ins2, outs2, role).contains(p) <==> of_role(ins, outs, role).contains(p)
                || is_pair(q, k, l, r, role, p)
        }),
{
    reveal(QueryCheckV::param_pairs);
    let io = param_io(q.lhs.params, q.lhs_paths[k + 1])->0;
    lemma_param_io(q.lhs.params, q.lhs_paths[k + 1]);
    lemma_param_io(q.rhs.params, q.rhs_paths[k + 1]);
    let ln = left_node(q, k, l);
    let rn = right_node(q, k, r);
    assert(l.expr_node(q.lhs_roots[k]) is Ok);
    let ps = node_pairs(ln, rn)->Ok_0;
    pairs_are_of_leaves(ln, rn);
    lemma_sorted(ins, outs, io, ps, role, p);
    if role == io && ps.contains(p) {
        let path = choose|path: Seq<int>| #[trigger] leaf_pair(ln, rn, path, p);
        assert(place_has_role(q, k, path, role));
    }
    if is_pair(q, k, l, r, role, p) {
        let path = choose|path: Seq<int>| #[trigger]
            leaf_pair(ln, rn, path, p) && place_has_role(q, k, path, role);
        lemma_one_param_role(q.lhs.params, q.lhs_paths[k + 1][0], role, io);
        assert(ps.contains(p));
    }
}

proof fn lemma_all_pairs(
    q: QueryCheckV,
    k: int,
    l: StateV,
    r: StateV,
    ins: PairsV,
    outs: PairsV,
    role: IOType,
    p: (Term, Term),
)
    requires
        0 <= k,
        roots_finite(q, l),
        q.all_pairs(k, l, r, ins, outs) is Ok,
    ensures
        ({
            let (ins2, outs2) = q.all_pairs(k, l, r, ins, outs)->Ok_0;
            of_role(ins2, outs2, role).contains(p) <==> of_role(ins, outs, role).contains(p)
                || exists|j: int| k <= j && #[trigger] is_pair(q, j, l, r, role, p)
        }),
    decreases q.lhs_roots.len() - k,
{
    if k < q.lhs_roots.len() {
        reveal(QueryCheckV::root_pairs);
        let (ins1, outs1) = q.root_pairs(k, l, r, ins, outs)->Ok_0;
        match root_struct(q, k) {
            Some(sid) => lemma_struct_pairs(q, k, sid, l, r, ins, outs, role, p),
            None => lemma_param_pairs(q, k, l, r, ins, outs, role, p),
        }
        lemma_all_pairs(q, k + 1, l, r, ins1, outs1, role, p);
        if is_pair(q, k, l, r, role, p) {
            assert(exists|j: int| k <= j && #[trigger] is_pair(q, j, l, r, role, p));
        }
    }
}

/// Two events agree on clock, address and value, up to the values of their terms.
pub open spec fn same_event(a: EventV, b: EventV, env: spec_fn(Seq<char>) -> int) -> bool {
    &&& value(a.clk, env) == value(b.clk, env)
    &&& value(a.addr, env) == value(b.addr, env)
    &&& value(a.value, env) == value(b.value, env)
}

proof fn lemma_event_pairs(ls: Seq<EventV>, rs: Seq<EventV>, i: int, outs: PairsV)
    requires
        0 <= i,
        ls.len() == rs.len(),
        event_pairs(ls, rs, i, outs) is Ok,
    ensures
        forall|p: (Term, Term)| #[trigger]
            event_pairs(ls, rs, i, outs)->Ok_0.contains(p) <==> outs.contains(p) || exists|j: int|
                i <= j < ls.len() && is_event_pair(#[trigger] ls[j], rs[j], p),
        forall|j: int| i <= j < ls.len() ==> (#[trigger] ls[j]).kind == rs[j].kind,
    decreases ls.len() - i,
{
    if i < ls.len() {
        let a = outs.push((ls[i].clk, rs[i].clk));
        let b = a.push((ls[i].addr, rs[i].addr));
        let c = b.push((ls[i].value, rs[i].value));
        lemma_event_pairs(ls, rs, i + 1, c);
        let all = event_pairs(ls, rs, i, outs)->Ok_0;
        assert forall|p: (Term, Term)| #[trigger] all.contains(p) <==> outs.contains(p) || exists|
            j: int,
        | i <= j < ls.len() && is_event_pair(#[trigger] ls[j], rs[j], p) by {
            let n = outs.len() as int;
            assert(c[n] == (ls[i].clk, rs[i].clk));
            assert(c[n + 1] == (ls[i].addr, rs[i].addr));
            assert(c[n + 2] == (ls[i].value, rs[i].value));
            if c.contains(p) {
                let j = choose|j: int| 0 <= j < c.len() && c[j] == p;
                if j < n {
                    assert(outs[j] == p);
                } else {
                    assert(is_event_pair(ls[i], rs[i], p));
                }
            }
            if outs.contains(p) {
                let j = choose|j: int| 0 <= j < outs.len() && outs[j] == p;
                assert(c[j] == p);
            }
            if is_event_pair(ls[i], rs[i], p) {
                assert(c.contains(p));
            }
        }
    }
}

/// The clocks, the addresses or the values of two events.
pub open spec fn is_event_pair(a: EventV, b: EventV, p: (Term, Term)) -> bool {
    p == (a.clk, b.clk) || p == (a.addr, b.addr) || p == (a.value, b.value)
}

/// Two path pairs agree on everything of a role.
pub open spec fn agree_on(
    q: QueryCheckV,
    l: StateV,
    r: StateV,
    role: IOType,
    env: spec_fn(Seq<char>) -> int,
) -> bool {
    forall|k: int, p: (Term, Term)| #[trigger]
        is_pair(q, k, l, r, role, p) ==> value(p.0, env) == value(p.1, env)
}

/// Two traces agree: at every position the events agree on clock, address and value.
pub open spec fn traces_agree(l: StateV, r: StateV, env: spec_fn(Seq<char>) -> int) -> bool {
    forall|i: int| 0 <= i < l.events.len() ==> same_event(#[trigger] l.events[i], r.events[i], env)
}

/// The formula that decides a path pair holds of exactly those values that take both paths, agree
/// on all inputs, and tell some output, or the clock, the address or the value of some memory
/// event, apart. There is such a formula only where the traces are of the same length and kinds.
pub proof fn obligation_is_exact(
    q: QueryCheckV,
    l: StateV,
    r: StateV,
    phi: Formula,
    env: spec_fn(Seq<char>) -> int,
)
    requires
        roots_finite(q, l),
        q.obligation(l, r) == Ok::<Formula, CheckFault>(phi),
    ensures
        l.events.len() == r.events.len(),
        forall|i: int| 0 <= i < l.events.len() ==> (#[trigger] l.events[i]).kind == r.events[i].kind,
        holds(phi, env) <==> all_hold(l.path_cond, env) && all_hold(r.path_cond, env) && agree_on(
            q,
            l,
            r,
            IOType::Input,
            env,
        ) && !(agree_on(q, l, r, IOType::Output, env) && traces_agree(l, r, env)),
{
    reveal(QueryCheckV::obligation);
    let (ins, fields) = q.all_pairs(0, l, r, seq![], seq![])->Ok_0;
    let outs = event_pairs(l.events, r.events, 0, fields)->Ok_0;
    counterexample_is_exact(l, r, ins, outs, env);
    lemma_event_pairs(l.events, r.events, 0, fields);
    let same_ins = forall|i: int|
        0 <= i < ins.len() ==> value((#[trigger] ins[i]).0, env) == value(ins[i].1, env);
    let differ = exists|i: int|
        0 <= i < outs.len() && value((#[trigger] outs[i]).0, env) != value(outs[i].1, env);
    if same_ins {
        assert forall|k: int, p: (Term, Term)| #[trigger]
            is_pair(q, k, l, r, IOType::Input, p) implies value(p.0, env) == value(p.1, env) by {
            lemma_all_pairs(q, 0, l, r, seq![], seq![], IOType::Input, p);
            assert(ins.contains(p));
            let i = choose|i: int| 0 <= i < ins.len() && ins[i] == p;
            assert(value(ins[i].0, env) == value(ins[i].1, env));
        }
    }
    if agree_on(q, l, r, IOType::Input, env) {
        assert forall|i: int| 0 <= i < ins.len() implies value((#[trigger] ins[i]).0, env) == value(
            ins[i].1,
            env,
        ) by {
            let p = ins[i];
            assert(ins.contains(p));
            lemma_all_pairs(q, 0, l, r, seq![], seq![], IOType::Input, p);
            let k = choose|k: int| 0 <= k && #[trigger] is_pair(q, k, l, r, IOType::Input, p);
        }
    }
    if !differ {
        assert forall|p: (Term, Term)| #[trigger] outs.contains(p) implies value(p.0, env) == value(
            p.1,
            env,
        ) by {
            let i = choose|i: int| 0 <= i < outs.len() && outs[i] == p;
            assert(value(outs[i].0, env) == value(outs[i].1, env));
        }
        assert forall|k: int, p: (Term, Term)| #[trigger]
            is_pair(q, k, l, r, IOType::Output, p) implies value(p.0, env) == value(p.1, env) by {
            lemma_all_pairs(q, 0, l, r, seq![], seq![], IOType::Output, p);
            assert(fields.contains(p));
            assert(outs.contains(p));
        }
        assert forall|i: int| 0 <= i < l.events.len() implies same_event(
            #[trigger] l.events[i],
            r.events[i],
            env,
        ) by {
            let a = l.events[i];
            let b = r.events[i];
            assert(is_event_pair(a, b, (a.clk, b.clk)));
            assert(is_event_pair(a, b, (a.addr, b.addr)));
            assert(is_event_pair(a, b, (a.value, b.value)));
            assert(outs.contains((a.clk, b.clk)));
            assert(outs.contains((a.addr, b.addr)));
            assert(outs.contains((a.value, b.value)));
        }
    } else {
        let i = choose|i: int|
            0 <= i < outs.len() && value((#[trigger] outs[i]).0, env) != value(outs[i].1, env);
        let p = outs[i];
        assert(outs.contains(p));
        if fields.contains(p) {
            lemma_all_pairs(q, 0, l, r, seq![], seq![], IOType::Output, p);
            let k = choose|k: int| 0 <= k && #[trigger] is_pair(q, k, l, r, IOType::Output, p);
            assert(!agree_on(q, l, r, IOType::Output, env));
        } else {
            let j = choose|j: int|
                0 <= j < l.events.len() && is_event_pair(#[trigger] l.events[j], r.events[j], p);
            assert(!same_event(l.events[j], r.events[j], env));
        }
    }
}

/// Where the equivalence check of a file passes, then for every component, every pair of paths of
/// its two sides and all values of the sorts of their variables that take both paths and agree on
/// the inputs: the outputs agree, and the memory traces are of the same length and kinds and agree
/// on every clock, address and value.
pub proof fn passing_means_equivalent(
    backend: BackendV,
    file: FileV,
    ctx: ContextV,
    depth: nat,
    passed: Seq<Seq<char>>,
    k: int,
    a: int,
    b: int,
    env: spec_fn(Seq<char>) -> int,
)
    requires
        follows(
            backend,
            equivalence_plan(file, ctx, depth),
            Ok::<Seq<Seq<char>>, CheckErrorV>(passed),
        ),
        0 <= k < components_of(file.items).len(),
    ensures
        match prepared(file.items, ctx, components_of(file.items)[k]) {
            Ok(q) => match both_runs(q, depth) {
                Ok((ls, rs)) => 0 <= a < ls.len() && 0 <= b < rs.len() && roots_finite(q, ls[a])
                    && sorts_respected(q.obligation(ls[a], rs[b])->Ok_0, env) && all_hold(
                    ls[a].path_cond,
                    env,
                ) && all_hold(rs[b].path_cond, env) && agree_on(q, ls[a], rs[b], IOType::Input, env)
                    ==> {
                    &&& agree_on(q, ls[a], rs[b], IOType::Output, env)
                    &&& ls[a].events.len() == rs[b].events.len()
                    &&& forall|i: int|
                        0 <= i < ls[a].events.len() ==> (#[trigger] ls[a].events[i]).kind
                            == rs[b].events[i].kind
                    &&& traces_agree(ls[a], rs[b], env)
                },
                Err(_) => false,
            },
            Err(_) => false,
        },
{
    passing_refutes_every_pair(backend, file, ctx, depth, passed, k);
    let q = prepared(file.items, ctx, components_of(file.items)[k])->Ok_0;
    let (ls, rs) = both_runs(q, depth)->Ok_0;
    if 0 <= a < ls.len() && 0 <= b < rs.len() && roots_finite(q, ls[a]) {
        assert(is_refuted(q, ls[a], rs[b]));
        let phi = q.obligation(ls[a], rs[b])->Ok_0;
        obligation_is_exact(q, ls[a], rs[b], phi, env);
        assert(!solves(phi, env));
    }
}

/// The component that an item is.
pub open spec fn is_component(item: ItemV, c: ComponentV) -> bool {
    match item {
        ItemV::Component { id, name, members, query } => c == (id, name, members, query),
        _ => false,
    }
}

/// Every component of a file is among its components, at a position that tells how many components
/// stand before it.
pub proof fn every_component_is_listed(items: Seq<ItemV>, i: int)
    requires
        0 <= i < items.len(),
    ensures
        items[i] is Component ==> components_of(items.take(i)).len() < components_of(items).len()
            && is_component(items[i], components_of(items)[components_of(items.take(i)).len() as int]),
    decreases items.len(),
{
    let front = items.drop_last();
    if i == items.len() - 1 {
        assert(items.take(i) =~= front);
    } else {
        every_component_is_listed(front, i);
        assert(front.take(i) =~= items.take(i));
        assert(front[i] == items[i]);
    }
}

/// What is listed as a component of a file is one.
pub proof fn only_components_are_listed(items: Seq<ItemV>, k: int)
    requires
        0 <= k < components_of(items).len(),
    ensures
        exists|i: int|
            0 <= i < items.len() && is_component(#[trigger] items[i], components_of(items)[k]),
    decreases items.len(),
{
    let front = items.drop_last();
    if k < components_of(front).len() {
        only_components_are_listed(front, k);
        let i = choose|i: int|
            0 <= i < front.len() && is_component(#[trigger] front[i], components_of(front)[k]);
        assert(is_component(items[i], components_of(items)[k]));
    } else {
        assert(is_component(items[items.len() - 1], components_of(items)[k]));
    }
}

} // verus!
