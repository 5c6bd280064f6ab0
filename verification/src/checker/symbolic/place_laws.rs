//! What is assigned to a place is read back from it.

use vstd::prelude::*;
use crate::ast::{ExprV, LValueV, LvTailV, TypeV};
use crate::checker::symbolic::context::ContextV;
use crate::checker::symbolic::error::ExecError;
use crate::checker::symbolic::expr::Term;
use crate::checker::symbolic::index::index_of;
use crate::checker::symbolic::leaf_laws::{child, leaf, under};
use crate::checker::symbolic::place::{assigned, written};
use crate::checker::symbolic::state::StateV;
use crate::checker::symbolic::store::{node_at, NodeV};

verus! {

/// The state with another store.
pub open spec fn with_store(st: StateV, store: Map<int, NodeV>) -> StateV {
    StateV { store, ..st }
}

/// The value of a place as an expression reads it: a variable, a field of a variable or an element
/// of a variable.
pub open spec fn place_value(st: StateV, lv: LValueV) -> Result<Term, ExecError> {
    let base = ExprV::Path { segments: lv.head, ref_id: lv.ref_id };
    if lv.tails.len() == 0 {
        st.path_value(lv.head, lv.ref_id)
    } else {
        match lv.tails[0] {
            LvTailV::Field { name } => st.field_value(base, name),
            LvTailV::Index(idx) => st.index_value(base, idx),
            LvTailV::MapIndex(_, _) => Err(ExecError::MapNeedsProjection),
        }
    }
}

/// An assignment changes no other variable.
pub proof fn assignment_keeps_others(st: StateV, lv: LValueV, val: Term, other: i64)
    requires
        assigned(st.ctx, st.store, lv, val) is Ok,
        lv.ref_id != Some(other),
    ensures
        node_at(assigned(st.ctx, st.store, lv, val)->Ok_0, Some(other)) == node_at(
            st.store,
            Some(other),
        ),
{
    reveal(assigned);
}

/// A concrete index means the same in a store in which another node stands for a variable that is
/// not a scalar.
proof fn lemma_index_kept(st: StateV, id: i64, node: NodeV, e: ExprV)
    requires
        st.store.contains_key(id as int),
        st.store[id as int] is Array,
        node is Array,
        index_of(st.ctx, Some(st.store), e) is Ok,
    ensures
        index_of(st.ctx, Some(st.store.insert(id as int, node)), e) == index_of(
            st.ctx,
            Some(st.store),
            e,
        ),
    decreases e,
{
    if let ExprV::Paren(inner) = e {
        lemma_index_kept(st, id, node, *inner);
    }
}

/// What is assigned to a scalar variable, to a scalar field of a variable or to an element of a
/// variable is read back.
pub proof fn assignment_is_read_back(st: StateV, lv: LValueV, val: Term)
    requires
        assigned(st.ctx, st.store, lv, val) is Ok,
        lv.ref_id is Some,
        st.ctx.var_types.contains_key(lv.ref_id->0),
        lv.tails.len() <= 1,
        place_value(st, lv) is Ok,
    ensures
        place_value(with_store(st, assigned(st.ctx, st.store, lv, val)->Ok_0), lv) == Ok::<
            Term,
            ExecError,
        >(val),
{
    reveal(assigned);
    reveal(StateV::path_value);
    reveal(StateV::field_value);
    reveal(StateV::index_value);
    let id = lv.ref_id->0;
    let root = st.store[id as int];
    let ty = st.ctx.declared(id)->0;
    let store = assigned(st.ctx, st.store, lv, val)->Ok_0;
    let st2 = with_store(st, store);
    let base = ExprV::Path { segments: lv.head, ref_id: lv.ref_id };
    reveal_with_fuel(written, 2);
    if lv.tails.len() == 1 {
        assert(st.expr_node(base) == Ok::<Option<NodeV>, ExecError>(Some(root)));
        assert(st2.expr_node(base) == Ok::<Option<NodeV>, ExecError>(Some(store[id as int])));
        match lv.tails[0] {
            LvTailV::Field { name } => {
                assert(st.ctx.infer(base) == Some(ty));
                assert(st2.expr_type(base) == st.expr_type(base));
            },
            LvTailV::Index(idx) => {
                lemma_index_kept(st, id, store[id as int], idx);
            },
            _ => {},
        }
    }
}

/// A step of a place leads to a key below a node: the identifier of a field of that name, or the
/// index.
pub open spec fn leads_to(ctx: ContextV, store: Map<int, NodeV>, t: LvTailV, key: int) -> bool {
    match t {
        LvTailV::Field { name } => exists|sid: i64|
            (#[trigger] ctx.field(sid, name)) is Some && key == ctx.field(sid, name)->0,
        LvTailV::Index(idx) => exists|k: usize|
            #[trigger] index_is(ctx, store, idx, k) && key == k,
        LvTailV::MapIndex(_, _) => false,
    }
}

/// An expression denotes an index.
pub open spec fn index_is(ctx: ContextV, store: Map<int, NodeV>, e: ExprV, k: usize) -> bool {
    index_of(ctx, Some(store), e) == Ok::<Option<usize>, ExecError>(Some(k))
}

/// A path of keys follows the steps of a place from `i` on.
pub open spec fn follows_tails(
    ctx: ContextV,
    store: Map<int, NodeV>,
    tails: Seq<LvTailV>,
    i: int,
    path: Seq<int>,
) -> bool {
    path.len() == tails.len() - i && forall|j: int|
        0 <= j < path.len() ==> leads_to(ctx, store, tails[i + j], #[trigger] path[j])
}

/// A node with everything at and below a path set to a term, and everything else as before.
pub open spec fn changes_at(before: NodeV, after: NodeV, path: Seq<int>, val: Term) -> bool {
    &&& forall|q: Seq<int>|
        !path.is_prefix_of(q) ==> #[trigger] leaf(after, q) == leaf(before, q)
    &&& forall|q: Seq<int>|
        path.is_prefix_of(q) && (#[trigger] leaf(after, q)) is Some ==> leaf(after, q)->0.surface
            == val
    &&& leaf(before, path) is Some ==> leaf(after, path) is Some
}

proof fn lemma_below(before: NodeV, after: NodeV, key: int, path: Seq<int>, val: Term)
    requires
        child(before, key) is Some,
        child(after, key) is Some,
        changes_at(child(before, key)->0, child(after, key)->0, path, val),
        before is Struct,
        after is Struct,
        forall|k: int| k != key ==> #[trigger] child(after, k) == child(before, k),
    ensures
        changes_at(before, after, seq![key] + path, val),
{
    let full = seq![key] + path;
    let b = child(before, key)->0;
    let a = child(after, key)->0;
    assert forall|q: Seq<int>| !full.is_prefix_of(q) implies #[trigger] leaf(after, q) == leaf(
        before,
        q,
    ) by {
        if q.len() > 0 {
            let rest = q.drop_first();
            if q[0] == key {
                if path.is_prefix_of(rest) {
                    assert(q =~= seq![key] + rest);
                    assert(full =~= q.take(full.len() as int)) by {
                        assert(path =~= rest.take(path.len() as int));
                    }
                }
                assert(leaf(a, rest) == leaf(b, rest));
            } else {
                assert(child(after, q[0]) == child(before, q[0]));
            }
        }
    }
    assert forall|q: Seq<int>|
        full.is_prefix_of(q) && (#[trigger] leaf(after, q)) is Some implies leaf(after, q)->0.surface
        == val by {
        assert(q.take(full.len() as int)[0] == full[0]);
        assert(q[0] == key);
        let rest = q.drop_first();
        assert(path =~= rest.take(path.len() as int)) by {
            assert(full =~= q.take(full.len() as int));
            assert forall|j: int| 0 <= j < path.len() implies path[j] == rest[j] by {
                assert(full[j + 1] == q.take(full.len() as int)[j + 1]);
            }
        }
        assert(path.is_prefix_of(rest));
        assert(leaf(a, rest) is Some);
    }
    assert(full.drop_first() =~= path);
    assert(full[0] == key);
}

proof fn lemma_written(
    ctx: ContextV,
    store: Map<int, NodeV>,
    node: NodeV,
    ty: TypeV,
    tails: Seq<LvTailV>,
    i: int,
    val: Term,
) -> (path: Seq<int>)
    requires
        0 <= i <= tails.len(),
        written(ctx, store, node, ty, tails, i, val) is Ok,
    ensures
        follows_tails(ctx, store, tails, i, path),
        changes_at(node, written(ctx, store, node, ty, tails, i, val)->Ok_0, path, val),
    decreases tails.len() - i,
{
    let after = written(ctx, store, node, ty, tails, i, val)->Ok_0;
    if i >= tails.len() {
        let path = Seq::<int>::empty();
        assert forall|q: Seq<int>| #[trigger] path.is_prefix_of(q) by {
            assert(path =~= q.take(0));
        }
        assert forall|q: Seq<int>|
            path.is_prefix_of(q) && (#[trigger] leaf(after, q)) is Some implies leaf(
            after,
            q,
        )->0.surface == val by {
            if q.len() > 0 {
                assert(under(after, q) == under(child(after, q[0])->0, q.drop_first()));
            }
        }
        assert(changes_at(node, after, path, val));
        path
    } else {
        match (node, tails[i]) {
            (NodeV::Struct { fields }, LvTailV::Field { name }) => {
                let sid = ty->Path_ref_id->0;
                let fid = ctx.field(sid, name)->0;
                let fty = ctx.declared(fid)->0;
                let below = fields[fid as int];
                let rest = lemma_written(ctx, store, below, fty, tails, i + 1, val);
                let path = seq![fid as int] + rest;
                lemma_below(node, after, fid as int, rest, val);
                assert(changes_at(node, after, path, val));
                assert forall|j: int| 0 <= j < path.len() implies leads_to(
                    ctx,
                    store,
                    tails[i + j],
                    #[trigger] path[j],
                ) by {
                    if j > 0 {
                        assert(path[j] == rest[j - 1]);
                        assert(leads_to(ctx, store, tails[i + 1 + (j - 1)], rest[j - 1]));
                    }
                }
                path
            },
            (NodeV::Array { len, elems }, LvTailV::Index(idx)) => {
                let k = index_of(ctx, Some(store), idx)->Ok_0->0;
                let path = seq![k as int];
                assert(index_is(ctx, store, idx, k));
                assert forall|q: Seq<int>| !path.is_prefix_of(q) implies #[trigger] leaf(after, q)
                    == leaf(node, q) by {
                    if q.len() > 0 && q[0] == k {
                        assert(path =~= q.take(1));
                    }
                }
                assert forall|q: Seq<int>|
                    path.is_prefix_of(q) && (#[trigger] leaf(after, q)) is Some implies leaf(
                    after,
                    q,
                )->0.surface == val by {
                    assert(q.take(1)[0] == path[0]);
                    assert(under(after, q) == under(child(after, q[0])->0, q.drop_first()));
                }
                assert(leaf(after, path) is Some) by {
                    assert(path.drop_first() =~= seq![]);
                    assert(child(after, path[0]) is Some);
                    assert(under(after, path) == under(child(after, path[0])->0, path.drop_first()));
                }
                assert(changes_at(node, after, path, val));
                path
            },
            _ => arbitrary(),
        }
    }
}

/// An assignment sets what stands at its place, however deep, and nothing else: there is a path of
/// keys that follows the steps of the place such that all scalars at or below it have the value,
/// and all others of the variable are as before.
pub proof fn assignments_change_only_their_place(st: StateV, lv: LValueV, val: Term)
    requires
        assigned(st.ctx, st.store, lv, val) is Ok,
    ensures
        lv.ref_id is Some,
        st.store.contains_key(lv.ref_id->0 as int),
        assigned(st.ctx, st.store, lv, val)->Ok_0.contains_key(lv.ref_id->0 as int),
        exists|path: Seq<int>| #[trigger]
            follows_tails(st.ctx, st.store, lv.tails, 0, path) && changes_at(
                st.store[lv.ref_id->0 as int],
                assigned(st.ctx, st.store, lv, val)->Ok_0[lv.ref_id->0 as int],
                path,
                val,
            ),
{
    reveal(assigned);
    let id = lv.ref_id->0;
    let root = st.store[id as int];
    let ty = st.ctx.declared(id)->0;
    let path = lemma_written(st.ctx, st.store, root, ty, lv.tails, 0, val);
    assert(follows_tails(st.ctx, st.store, lv.tails, 0, path));
}

} // verus!
