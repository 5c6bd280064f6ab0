//! What fresh parameters look like.

use vstd::prelude::*;
use crate::ast::{ParamV, TypeV};
use crate::checker::symbolic::context::{field_id_in, lookup, ContextV, MembersV, PathKind};
use crate::checker::symbolic::expr::{Formula, SymType, Term};
use crate::checker::symbolic::index::index_of;
use crate::checker::symbolic::leaf_laws::leaf;
use crate::checker::symbolic::state::StateV;
use crate::checker::symbolic::state_nodes::{field_shapes, param_id, param_name, FieldShapeV};
use crate::checker::symbolic::state_ops::{in_range, lemma_cond_keeps, little_endian};
use crate::checker::symbolic::store::{no_nodes, NodeV};
use crate::text::{decimal, decimal_is_injective, decimal_round_trip, is_digit};

verus! {

/// The name of the symbol with a number.
pub open spec fn symbol_name(hint: Seq<char>, k: nat) -> Seq<char> {
    hint + "_"@ + decimal(k)
}

/// A term is the symbol with a number.
pub open spec fn is_symbol(t: Term, k: nat) -> bool {
    t is Var && exists|hint: Seq<char>| t->Var_0 == #[trigger] symbol_name(hint, k)
}

/// Every scalar of a node is a symbol with a number from `lo` up to but not including `hi`.
pub open spec fn numbered_within(node: NodeV, lo: nat, hi: nat) -> bool {
    forall|path: Seq<int>|
        (#[trigger] leaf(node, path)) is Some ==> exists|k: nat|
            lo <= k < hi && #[trigger] is_symbol(leaf(node, path)->0.surface, k)
}

/// No two scalars of a node are the same symbol.
pub open spec fn all_different(node: NodeV) -> bool {
    forall|p: Seq<int>, q: Seq<int>|
        p != q && (#[trigger] leaf(node, p)) is Some && (#[trigger] leaf(node, q)) is Some ==> leaf(
            node,
            p,
        )->0.surface->Var_0 != leaf(node, q)->0.surface->Var_0
}

/// A node is a symbol of a sort.
pub open spec fn is_symbol_of(node: NodeV, sty: SymType) -> bool {
    node is Scalar && node->Scalar_0.surface is Var && node->Scalar_0.surface->Var_1 == sty
}

/// A node has the shape of a type: a symbol of its sort for a scalar type, an element for each index
/// of an array or a tuple, and a field for each declared field of a struct.
pub open spec fn shaped(ctx: ContextV, ty: TypeV, node: NodeV, depth: nat) -> bool
    decreases depth, ty,
{
    match ty {
        TypeV::Path { .. } => match ctx.classify(ty) {
            Err(_) => false,
            Ok(PathKind::Builtin) => ctx.sort_of(ty) is Some && is_symbol_of(
                node,
                ctx.sort_of(ty)->0,
            ),
            Ok(PathKind::Enum(eid)) => is_symbol_of(node, ctx.enum_sort(eid)),
            Ok(PathKind::Struct(sid)) => depth > 0 && node is Struct && {
                let fs = declared_fields(ctx, sid);
                &&& forall|i: int|
                    0 <= i < fs.len() && is_last_id(fs, i) ==> node->Struct_fields.contains_key(
                        (#[trigger] fs[i]).0 as int,
                    ) && shaped(
                        ctx,
                        fs[i].2,
                        node->Struct_fields[fs[i].0 as int],
                        (depth - 1) as nat,
                    )
                &&& forall|k: int| #[trigger]
                    node->Struct_fields.contains_key(k) ==> exists|i: int|
                        0 <= i < fs.len() && (#[trigger] fs[i]).0 == k
            },
        },
        TypeV::Array(inner, len) => node is Array && match index_of(ctx, None, len) {
            Err(_) => false,
            Ok(None) => node->Array_len is None && node->Array_elems == no_nodes(),
            Ok(Some(n)) => {
                &&& node->Array_len == Some(n)
                &&& has_keys_below(node->Array_elems, n as int)
                &&& forall|i: int|
                    0 <= i < n ==> shaped(ctx, *inner, #[trigger] node->Array_elems[i], depth)
            },
        },
        TypeV::Mapping { .. } => is_symbol_of(node, SymType::F),
        TypeV::Tuple(tys) => {
            &&& node is Array
            &&& has_keys_below(node->Array_elems, tys.len() as int)
            &&& forall|i: int|
                0 <= i < tys.len() ==> shaped(ctx, tys[i], #[trigger] node->Array_elems[i], depth)
        },
        TypeV::Function { .. } => false,
    }
}

/// The keys are the numbers from zero up to but not including `n`.
pub open spec fn has_keys_below(elems: Map<int, NodeV>, n: int) -> bool {
    forall|i: int| #[trigger] elems.contains_key(i) <==> 0 <= i < n
}

/// The fields of a struct with their declared types.
pub open spec fn declared_fields(ctx: ContextV, sid: i64) -> Seq<FieldShapeV> {
    match lookup(ctx.struct_fields, sid) {
        Some(members) => match field_shapes(ctx, members, 0, seq![]) {
            Ok(fs) => fs,
            Err(_) => seq![],
        },
        None => seq![],
    }
}

/// No field behind `i` has the same id.
pub open spec fn is_last_id(fs: Seq<FieldShapeV>, i: int) -> bool {
    forall|j: int| i < j < fs.len() ==> (#[trigger] fs[j]).0 != fs[i].0
}

/// The declared fields of a struct are its members that are fields, in order, with their names and
/// declared types.
pub proof fn every_field_is_declared(ctx: ContextV, members: MembersV, k: int)
    requires
        field_shapes(ctx, members, 0, seq![]) is Ok,
        0 <= k < members.len(),
        field_id_in(members[k].1) is Some,
    ensures
        exists|i: int|
            0 <= i < field_shapes(ctx, members, 0, seq![])->Ok_0.len() && (#[trigger] field_shapes(
                ctx,
                members,
                0,
                seq![],
            )->Ok_0[i]).0 == field_id_in(members[k].1)->0 && field_shapes(
                ctx,
                members,
                0,
                seq![],
            )->Ok_0[i].1 == members[k].0 && ctx.declared(field_id_in(members[k].1)->0) == Some(
                field_shapes(ctx, members, 0, seq![])->Ok_0[i].2,
            ),
{
    lemma_shapes(ctx, members, 0, seq![], k);
}

proof fn lemma_shapes(ctx: ContextV, members: MembersV, i: int, acc: Seq<FieldShapeV>, k: int)
    requires
        0 <= i,
        field_shapes(ctx, members, i, acc) is Ok,
    ensures
        acc.is_prefix_of(field_shapes(ctx, members, i, acc)->Ok_0),
        i <= k < members.len() && field_id_in(members[k].1) is Some ==> exists|j: int|
            0 <= j < field_shapes(ctx, members, i, acc)->Ok_0.len() && (#[trigger] field_shapes(
                ctx,
                members,
                i,
                acc,
            )->Ok_0[j]).0 == field_id_in(members[k].1)->0 && field_shapes(
                ctx,
                members,
                i,
                acc,
            )->Ok_0[j].1 == members[k].0 && ctx.declared(field_id_in(members[k].1)->0) == Some(
                field_shapes(ctx, members, i, acc)->Ok_0[j].2,
            ),
    decreases members.len() - i,
{
    let fs = field_shapes(ctx, members, i, acc)->Ok_0;
    if i < members.len() {
        match field_id_in(members[i].1) {
            Some(fid) => {
                let next = acc.push((fid, members[i].0, ctx.declared(fid)->0));
                lemma_shapes(ctx, members, i + 1, next, k);
                assert(acc =~= fs.take(acc.len() as int)) by {
                    assert(next =~= fs.take(next.len() as int));
                    assert(next.take(acc.len() as int) =~= acc);
                }
                if k == i {
                    let j = acc.len() as int;
                    assert(next =~= fs.take(next.len() as int));
                    assert(fs[j] == next[j]);
                }
            },
            None => {
                lemma_shapes(ctx, members, i + 1, acc, k);
            },
        }
    } else {
        assert(acc =~= acc.take(acc.len() as int));
    }
}

proof fn lemma_no_underscore(k: nat, i: int)
    requires
        0 <= i < decimal(k).len(),
    ensures
        decimal(k)[i] != '_',
{
    decimal_round_trip(k);
    assert(is_digit(decimal(k)[i]));
}

/// Symbols with different numbers have different names.
pub proof fn numbers_tell_symbols_apart(a: Term, b: Term, j: nat, k: nat)
    requires
        is_symbol(a, j),
        is_symbol(b, k),
        j != k,
    ensures
        a->Var_0 != b->Var_0,
{
    let ha = choose|h: Seq<char>| a->Var_0 == #[trigger] symbol_name(h, j);
    let hb = choose|h: Seq<char>| b->Var_0 == #[trigger] symbol_name(h, k);
    decimal_is_injective(j, k);
    let da = decimal(j);
    let db = decimal(k);
    reveal_strlit("_");
    let x = symbol_name(ha, j);
    let y = symbol_name(hb, k);
    if x == y {
        if da.len() == db.len() {
            assert(da =~= x.skip(x.len() - da.len()));
            assert(db =~= y.skip(y.len() - db.len()));
        } else if da.len() < db.len() {
            let at = x.len() - da.len() - 1;
            assert(x[at] == '_');
            let i = at - (y.len() - db.len());
            assert(y[at] == db[i]);
            lemma_no_underscore(k, i);
        } else {
            let at = y.len() - db.len() - 1;
            assert(y[at] == '_');
            let i = at - (x.len() - da.len());
            assert(x[at] == da[i]);
            lemma_no_underscore(j, i);
        }
    }
}

/// What an allocation leaves as it was.
pub open spec fn only_numbers_change(a: StateV, b: StateV) -> bool {
    &&& b.store == a.store
    &&& b.events == a.events
    &&& b.ctx == a.ctx
    &&& b.status == a.status
    &&& a.fresh <= b.fresh
}

proof fn lemma_bytes_keep(st: StateV, hint: Seq<char>, i: int, bytes: Seq<Term>)
    requires
        st.bytes_from(hint, i, bytes) is Ok,
    ensures
        only_numbers_change(st, st.bytes_from(hint, i, bytes)->Ok_0.1),
    decreases crate::checker::symbolic::expr::WORD_BYTES - i,
{
    if 0 <= i < crate::checker::symbolic::expr::WORD_BYTES {
        let (b, s) = st.fresh_var(hint + "_b"@ + decimal(i as nat), SymType::Uint(8))->Ok_0;
        let f = in_range(b, 0, 255, 8);
        let lo = Formula::Ge(b, Term::Int(0));
        let hi = Formula::Le(b, Term::Int(255));
        lemma_cond_keeps(s, f);
        let s1 = s.with_cond(f);
        lemma_cond_keeps(s1, lo);
        let s2 = s1.with_cond(lo);
        lemma_cond_keeps(s2, hi);
        lemma_bytes_keep(s2.with_cond(hi), hint, i + 1, bytes.push(b));
    }
}

proof fn lemma_scalar(st: StateV, name: Seq<char>, hint: Seq<char>, sty: SymType)
    requires
        st.alloc_scalar(name, hint, sty) is Ok,
    ensures
        ({
            let (node, s) = st.alloc_scalar(name, hint, sty)->Ok_0;
            &&& only_numbers_change(st, s)
            &&& is_symbol_of(node, sty)
            &&& numbered_within(node, st.fresh as nat, s.fresh as nat)
            &&& all_different(node)
        }),
{
    let (t, s1) = st.fresh_var(name, sty)->Ok_0;
    let (node, s) = st.alloc_scalar(name, hint, sty)->Ok_0;
    let k = st.fresh as nat;
    assert(t->Var_0 == symbol_name(name, k));
    assert(is_symbol(t, k));
    lemma_cond_keeps(
        s1,
        in_range(t, 0, crate::checker::symbolic::expr::FIELD_MODULUS - 1, 32),
    );
    if sty is Uint && s1.bytes_from(hint, 0, seq![]) is Ok {
        lemma_bytes_keep(s1, hint, 0, seq![]);
        let (bytes, s2) = s1.bytes_from(hint, 0, seq![])->Ok_0;
        if little_endian(bytes, bytes.len() - 1, bytes.last()) is Ok {
            let acc = little_endian(bytes, bytes.len() - 1, bytes.last())->Ok_0;
            lemma_cond_keeps(s2, Formula::Eq(acc, t));
        }
    }
    assert(node->Scalar_0.surface == t);
    assert forall|path: Seq<int>| (#[trigger] leaf(node, path)) is Some implies path.len() == 0
        && leaf(node, path)->0.surface == t by {}
    assert forall|p: Seq<int>, q: Seq<int>|
        p != q && (#[trigger] leaf(node, p)) is Some && (#[trigger] leaf(node, q)) is Some implies leaf(
        node,
        p,
    )->0.surface->Var_0 != leaf(node, q)->0.surface->Var_0 by {
        assert(p =~= q);
    }
}

/// Nodes under keys, each with symbols of a range of its own.
spec fn children_fresh(elems: Map<int, NodeV>, lo: nat, hi: nat) -> bool {
    &&& forall|key: int, path: Seq<int>|
        elems.contains_key(key) && (#[trigger] leaf(elems[key], path)) is Some ==> exists|k: nat|
            lo <= k < hi && #[trigger] is_symbol(leaf(elems[key], path)->0.surface, k)
    &&& forall|a: int, b: int, p: Seq<int>, q: Seq<int>|
        #![trigger leaf(elems[a], p), leaf(elems[b], q)]
        elems.contains_key(a) && elems.contains_key(b) && (a != b || p != q) && leaf(
            elems[a],
            p,
        ) is Some && leaf(elems[b], q) is Some ==> leaf(elems[a], p)->0.surface->Var_0 != leaf(
            elems[b],
            q,
        )->0.surface->Var_0
}

proof fn lemma_child_inserted(
    elems: Map<int, NodeV>,
    key: int,
    node: NodeV,
    lo: nat,
    mid: nat,
    hi: nat,
)
    requires
        children_fresh(elems, lo, mid),
        numbered_within(node, mid, hi),
        all_different(node),
        lo <= mid <= hi,
    ensures
        children_fresh(elems.insert(key, node), lo, hi),
{
    let next = elems.insert(key, node);
    assert forall|c: int, path: Seq<int>|
        next.contains_key(c) && (#[trigger] leaf(next[c], path)) is Some implies exists|k: nat|
        lo <= k < hi && #[trigger] is_symbol(leaf(next[c], path)->0.surface, k) by {
        if c != key {
            assert(leaf(elems[c], path) is Some);
        } else {
            assert(leaf(node, path) is Some);
        }
    }
    assert forall|a: int, b: int, p: Seq<int>, q: Seq<int>|
        #![trigger leaf(next[a], p), leaf(next[b], q)]
        next.contains_key(a) && next.contains_key(b) && (a != b || p != q) && leaf(
            next[a],
            p,
        ) is Some && leaf(next[b], q) is Some implies leaf(next[a], p)->0.surface->Var_0 != leaf(
        next[b],
        q,
    )->0.surface->Var_0 by {
        if a == key && b == key {
            assert(leaf(node, p) is Some && leaf(node, q) is Some);
        } else if a != key && b != key {
            assert(leaf(elems[a], p) is Some && leaf(elems[b], q) is Some);
        } else {
            let (x, y) = if a == key {
                (leaf(next[b], q)->0.surface, leaf(next[a], p)->0.surface)
            } else {
                (leaf(next[a], p)->0.surface, leaf(next[b], q)->0.surface)
            };
            if a == key {
                assert(leaf(elems[b], q) is Some && leaf(node, p) is Some);
            } else {
                assert(leaf(elems[a], p) is Some && leaf(node, q) is Some);
            }
            let j = choose|k: nat| lo <= k < mid && #[trigger] is_symbol(x, k);
            let k = choose|k: nat| mid <= k < hi && #[trigger] is_symbol(y, k);
            numbers_tell_symbols_apart(x, y, j, k);
        }
    }
}

proof fn lemma_parent(node: NodeV, elems: Map<int, NodeV>, lo: nat, hi: nat)
    requires
        node == (NodeV::Struct { fields: elems }) || (node is Array && node->Array_elems == elems),
        children_fresh(elems, lo, hi),
    ensures
        numbered_within(node, lo, hi),
        all_different(node),
{
    assert forall|path: Seq<int>| (#[trigger] leaf(node, path)) is Some implies path.len() > 0
        && elems.contains_key(path[0]) && leaf(elems[path[0]], path.drop_first()) == leaf(
        node,
        path,
    ) by {}
    assert forall|path: Seq<int>| (#[trigger] leaf(node, path)) is Some implies exists|k: nat|
        lo <= k < hi && #[trigger] is_symbol(leaf(node, path)->0.surface, k) by {
        assert(leaf(elems[path[0]], path.drop_first()) is Some);
    }
    assert forall|p: Seq<int>, q: Seq<int>|
        p != q && (#[trigger] leaf(node, p)) is Some && (#[trigger] leaf(node, q)) is Some implies leaf(
        node,
        p,
    )->0.surface->Var_0 != leaf(node, q)->0.surface->Var_0 by {
        let pr = p.drop_first();
        let qr = q.drop_first();
        if p[0] == q[0] && pr == qr {
            assert(p =~= seq![p[0]] + pr);
            assert(q =~= seq![q[0]] + qr);
        }
        assert(leaf(elems[p[0]], pr) is Some && leaf(elems[q[0]], qr) is Some);
    }
}

/// What is claimed of an allocated node.
spec fn is_fresh(st: StateV, ty: TypeV, node: NodeV, s: StateV, depth: nat) -> bool {
    &&& only_numbers_change(st, s)
    &&& shaped(st.ctx, ty, node, depth)
    &&& numbered_within(node, st.fresh as nat, s.fresh as nat)
    &&& all_different(node)
}

proof fn lemma_node(st: StateV, hint: Seq<char>, ty: TypeV, depth: nat)
    requires
        st.alloc_node(hint, ty, depth) is Ok,
    ensures
        is_fresh(
            st,
            ty,
            st.alloc_node(hint, ty, depth)->Ok_0.0,
            st.alloc_node(hint, ty, depth)->Ok_0.1,
            depth,
        ),
    decreases 2 * depth, ty, 0int,
{
    let (node, s) = st.alloc_node(hint, ty, depth)->Ok_0;
    match ty {
        TypeV::Path { .. } => match st.ctx.classify(ty) {
            Err(_) => {},
            Ok(PathKind::Builtin) => {
                lemma_scalar(st, hint, hint, st.ctx.sort_of(ty)->0);
            },
            Ok(PathKind::Enum(eid)) => {
                lemma_scalar(st, hint, hint, st.ctx.enum_sort(eid));
            },
            Ok(PathKind::Struct(sid)) => {
                let d = (depth - 1) as nat;
                lemma_struct(st, sid, hint, d);
                let fs = declared_fields(st.ctx, sid);
                let fields = node->Struct_fields;
                assert forall|i: int| 0 <= i < fs.len() && is_last_id(fs, i) implies fields.contains_key(
                    (#[trigger] fs[i]).0 as int,
                ) && shaped(st.ctx, fs[i].2, fields[fs[i].0 as int], d) by {
                    assert(forall|j: int|
                        i < j < fs.len() && j < fs.len() ==> (#[trigger] fs[j]).0 != fs[i].0);
                }
                assert(shaped(st.ctx, ty, node, depth));
            },
        },
        TypeV::Array(inner, len) => match index_of(st.ctx, None, len) {
            Err(_) => {},
            Ok(None) => {
                lemma_parent(node, no_nodes(), st.fresh as nat, st.fresh as nat);
            },
            Ok(Some(n)) => {
                lemma_elems(st, hint, *inner, 0, n as int, no_nodes(), depth, st.fresh as nat);
                lemma_parent(node, node->Array_elems, st.fresh as nat, s.fresh as nat);
            },
        },
        TypeV::Mapping { .. } => {
            lemma_scalar(st, hint + "_map"@, hint, SymType::F);
        },
        TypeV::Tuple(tys) => {
            lemma_tuple(st, hint, tys, 0, no_nodes(), depth, st.fresh as nat);
            lemma_parent(node, node->Array_elems, st.fresh as nat, s.fresh as nat);
        },
        TypeV::Function { .. } => {},
    }
}

proof fn lemma_elems(
    st: StateV,
    hint: Seq<char>,
    ty: TypeV,
    i: int,
    n: int,
    elems: Map<int, NodeV>,
    depth: nat,
    lo: nat,
)
    requires
        0 <= i <= n,
        lo <= st.fresh,
        st.alloc_elems(hint, ty, i, n, elems, depth) is Ok,
        children_fresh(elems, lo, st.fresh as nat),
        has_keys_below(elems, i),
        forall|k: int| 0 <= k < i ==> shaped(st.ctx, ty, #[trigger] elems[k], depth),
    ensures
        ({
            let (es, s) = st.alloc_elems(hint, ty, i, n, elems, depth)->Ok_0;
            &&& only_numbers_change(st, s)
            &&& children_fresh(es, lo, s.fresh as nat)
            &&& has_keys_below(es, n)
            &&& forall|k: int| 0 <= k < n ==> shaped(st.ctx, ty, #[trigger] es[k], depth)
        }),
    decreases 2 * depth, ty, n - i + 1,
{
    if i < n {
        let h = hint + "_"@ + decimal(i as nat);
        lemma_node(st, h, ty, depth);
        let (node, s) = st.alloc_node(h, ty, depth)->Ok_0;
        lemma_child_inserted(elems, i, node, lo, st.fresh as nat, s.fresh as nat);
        lemma_elems(s, hint, ty, i + 1, n, elems.insert(i, node), depth, lo);
    }
}

proof fn lemma_tuple(
    st: StateV,
    hint: Seq<char>,
    tys: Seq<TypeV>,
    i: int,
    elems: Map<int, NodeV>,
    depth: nat,
    lo: nat,
)
    requires
        0 <= i <= tys.len(),
        lo <= st.fresh,
        st.alloc_tuple(hint, tys, i, elems, depth) is Ok,
        children_fresh(elems, lo, st.fresh as nat),
        has_keys_below(elems, i),
        forall|k: int| 0 <= k < i ==> shaped(st.ctx, tys[k], #[trigger] elems[k], depth),
    ensures
        ({
            let (es, s) = st.alloc_tuple(hint, tys, i, elems, depth)->Ok_0;
            &&& only_numbers_change(st, s)
            &&& children_fresh(es, lo, s.fresh as nat)
            &&& has_keys_below(es, tys.len() as int)
            &&& forall|k: int|
                0 <= k < tys.len() ==> shaped(st.ctx, tys[k], #[trigger] es[k], depth)
        }),
    decreases 2 * depth, tys, tys.len() - i + 1,
{
    if i < tys.len() {
        let h = hint + "_"@ + decimal(i as nat);
        lemma_node(st, h, tys[i], depth);
        let (node, s) = st.alloc_node(h, tys[i], depth)->Ok_0;
        lemma_child_inserted(elems, i, node, lo, st.fresh as nat, s.fresh as nat);
        lemma_tuple(s, hint, tys, i + 1, elems.insert(i, node), depth, lo);
    }
}

/// The fields before `i` have been allocated.
spec fn fields_done(
    ctx: ContextV,
    fs: Seq<FieldShapeV>,
    i: int,
    fields: Map<int, NodeV>,
    depth: nat,
) -> bool {
    &&& forall|k: int|
        0 <= k < i && k < fs.len() && (forall|j: int|
            k < j < i && j < fs.len() ==> (#[trigger] fs[j]).0 != fs[k].0) ==> fields.contains_key(
            (#[trigger] fs[k]).0 as int,
        ) && shaped(ctx, fs[k].2, fields[fs[k].0 as int], depth)
    &&& forall|key: int| #[trigger]
        fields.contains_key(key) ==> exists|k: int|
            0 <= k < i && k < fs.len() && (#[trigger] fs[k]).0 == key
}

proof fn lemma_fields(
    st: StateV,
    prefix: Seq<char>,
    fs: Seq<FieldShapeV>,
    i: int,
    fields: Map<int, NodeV>,
    depth: nat,
    lo: nat,
)
    requires
        0 <= i <= fs.len(),
        lo <= st.fresh,
        st.alloc_fields(prefix, fs, i, fields, depth) is Ok,
        children_fresh(fields, lo, st.fresh as nat),
        fields_done(st.ctx, fs, i, fields, depth),
    ensures
        ({
            let (es, s) = st.alloc_fields(prefix, fs, i, fields, depth)->Ok_0;
            &&& only_numbers_change(st, s)
            &&& children_fresh(es, lo, s.fresh as nat)
            &&& fields_done(st.ctx, fs, fs.len() as int, es, depth)
        }),
    decreases 2 * depth, fs, fs.len() - i + 1,
{
    if i < fs.len() {
        let h = prefix + "_"@ + fs[i].1;
        lemma_node(st, h, fs[i].2, depth);
        let (node, s) = st.alloc_node(h, fs[i].2, depth)->Ok_0;
        let key = fs[i].0 as int;
        let next = fields.insert(key, node);
        lemma_child_inserted(fields, key, node, lo, st.fresh as nat, s.fresh as nat);
        assert(fields_done(st.ctx, fs, i + 1, next, depth)) by {
            assert forall|k: int|
                0 <= k < i + 1 && k < fs.len() && (forall|j: int|
                    k < j < i + 1 && j < fs.len() ==> (#[trigger] fs[j]).0 != fs[k].0) implies next.contains_key(
            (#[trigger] fs[k]).0 as int) && shaped(
                st.ctx,
                fs[k].2,
                next[fs[k].0 as int],
                depth,
            ) by {
                if k < i {
                    assert(fs[i].0 != fs[k].0);
                    assert(forall|j: int|
                        k < j < i && j < fs.len() ==> (#[trigger] fs[j]).0 != fs[k].0);
                }
            }
            assert forall|q: int| #[trigger] next.contains_key(q) implies exists|k: int|
                0 <= k < i + 1 && k < fs.len() && (#[trigger] fs[k]).0 == q by {
                if q == key {
                    assert(fs[i].0 == q);
                } else {
                    assert(fields.contains_key(q));
                }
            }
        }
        lemma_fields(s, prefix, fs, i + 1, next, depth, lo);
    }
}

proof fn lemma_struct(st: StateV, sid: i64, prefix: Seq<char>, depth: nat)
    requires
        st.alloc_struct(sid, prefix, depth) is Ok,
    ensures
        ({
            let (node, s) = st.alloc_struct(sid, prefix, depth)->Ok_0;
            let fs = declared_fields(st.ctx, sid);
            &&& only_numbers_change(st, s)
            &&& node is Struct
            &&& fields_done(st.ctx, fs, fs.len() as int, node->Struct_fields, depth)
            &&& numbered_within(node, st.fresh as nat, s.fresh as nat)
            &&& all_different(node)
        }),
    decreases 2 * depth + 1, Some(0int), 0int,
{
    let (node, s) = st.alloc_struct(sid, prefix, depth)->Ok_0;
    let fs = declared_fields(st.ctx, sid);
    lemma_fields(st, prefix, fs, 0, no_nodes(), depth, st.fresh as nat);
    lemma_parent(node, node->Struct_fields, st.fresh as nat, s.fresh as nat);
}

/// A fresh node has the shape of its type; its scalars are symbols of the sorts of their types with
/// numbers that were not used before, no two of them the same.
pub proof fn fresh_nodes_have_shape_and_symbols(
    st: StateV,
    hint: Seq<char>,
    ty: TypeV,
    depth: nat,
)
    requires
        st.alloc_node(hint, ty, depth) is Ok,
    ensures
        ({
            let (node, s) = st.alloc_node(hint, ty, depth)->Ok_0;
            &&& shaped(st.ctx, ty, node, depth)
            &&& numbered_within(node, st.fresh as nat, s.fresh as nat)
            &&& all_different(node)
            &&& only_numbers_change(st, s)
        }),
{
    lemma_node(st, hint, ty, depth);
}

proof fn lemma_param(st: StateV, p: ParamV, sid: Option<i64>)
    requires
        st.alloc_param(p, sid) is Ok,
    ensures
        ({
            let (node, s) = st.alloc_param(p, sid)->Ok_0;
            &&& only_numbers_change(st, s)
            &&& numbered_within(node, st.fresh as nat, s.fresh as nat)
            &&& all_different(node)
            &&& p matches ParamV::Typed { ty, .. } ==> shaped(st.ctx, ty, node, st.nesting())
        }),
{
    match p {
        ParamV::SelfParam { .. } => match sid {
            Some(id) => lemma_struct(st, id, "self"@, st.nesting()),
            None => {
                let (node, s) = st.alloc_param(p, sid)->Ok_0;
                lemma_parent(node, no_nodes(), st.fresh as nat, s.fresh as nat);
            },
        },
        ParamV::Typed { name, ty, .. } => lemma_node(st, name, ty, st.nesting()),
    }
}

/// No parameter from `i` on has an id.
pub open spec fn not_an_id(params: Seq<ParamV>, i: int, id: int) -> bool {
    forall|k: int| i <= k < params.len() ==> param_id(#[trigger] params[k]) is None || param_id(
        params[k],
    )->0 != id
}

proof fn lemma_fresh_others(st: StateV, params: Seq<ParamV>, i: int, sid: Option<i64>, id: int)
    requires
        0 <= i,
        st.with_fresh_params(params, i, sid) is Ok,
        not_an_id(params, i, id),
    ensures
        ({
            let s = st.with_fresh_params(params, i, sid)->Ok_0;
            &&& s.store.contains_key(id) <==> st.store.contains_key(id)
            &&& st.store.contains_key(id) ==> s.store[id] == st.store[id]
            &&& s.ctx == st.ctx
            &&& s.events == st.events
            &&& s.status == st.status
            &&& st.fresh <= s.fresh
        }),
    decreases params.len() - i,
{
    if i < params.len() {
        match param_id(params[i]) {
            None => lemma_fresh_others(st, params, i + 1, sid, id),
            Some(vid) => {
                lemma_param(st, params[i], sid);
                let (node, s) = st.alloc_param(params[i], sid)->Ok_0;
                assert(param_id(params[i])->0 != id);
                lemma_fresh_others(s.with_binding(vid, node), params, i + 1, sid, id);
            },
        }
    }
}

/// Fresh parameters are bound, each to a node of its own symbols in the shape of its type: the
/// variable of parameter `j`, unless a later one has the same variable.
pub proof fn fresh_parameters_are_fresh(
    st: StateV,
    params: Seq<ParamV>,
    i: int,
    sid: Option<i64>,
    j: int,
)
    requires
        0 <= i <= j < params.len(),
        st.with_fresh_params(params, i, sid) is Ok,
        param_id(params[j]) is Some,
        not_an_id(params, j + 1, param_id(params[j])->0 as int),
    ensures
        ({
            let s = st.with_fresh_params(params, i, sid)->Ok_0;
            let id = param_id(params[j])->0 as int;
            &&& s.store.contains_key(id)
            &&& numbered_within(s.store[id], st.fresh as nat, s.fresh as nat)
            &&& all_different(s.store[id])
            &&& params[j] matches ParamV::Typed { ty, .. } ==> shaped(
                st.ctx,
                ty,
                s.store[id],
                st.nesting(),
            )
        }),
    decreases params.len() - i,
{
    match param_id(params[i]) {
        None => fresh_parameters_are_fresh(st, params, i + 1, sid, j),
        Some(vid) => {
            lemma_param(st, params[i], sid);
            let (node, s) = st.alloc_param(params[i], sid)->Ok_0;
            let b = s.with_binding(vid, node);
            if j == i {
                lemma_fresh_others(b, params, i + 1, sid, vid as int);
                let end = st.with_fresh_params(params, i, sid)->Ok_0;
                lemma_wider(node, st.fresh as nat, s.fresh as nat, st.fresh as nat, end.fresh as nat);
            } else {
                fresh_parameters_are_fresh(b, params, i + 1, sid, j);
                let end = st.with_fresh_params(params, i, sid)->Ok_0;
                let id = param_id(params[j])->0 as int;
                lemma_wider(
                    end.store[id],
                    b.fresh as nat,
                    end.fresh as nat,
                    st.fresh as nat,
                    end.fresh as nat,
                );
            }
        },
    }
}

proof fn lemma_wider(node: NodeV, lo: nat, hi: nat, low: nat, high: nat)
    requires
        numbered_within(node, lo, hi),
        low <= lo,
        hi <= high,
    ensures
        numbered_within(node, low, high),
{
    assert forall|path: Seq<int>| (#[trigger] leaf(node, path)) is Some implies exists|k: nat|
        low <= k < high && #[trigger] is_symbol(leaf(node, path)->0.surface, k) by {
        let k = choose|k: nat| lo <= k < hi && #[trigger] is_symbol(leaf(node, path)->0.surface, k);
        assert(is_symbol(leaf(node, path)->0.surface, k));
    }
}

proof fn lemma_bound_others(
    st: StateV,
    params: Seq<ParamV>,
    i: int,
    bindings: Map<Seq<char>, NodeV>,
    sid: Option<i64>,
    id: int,
)
    requires
        0 <= i,
        st.with_bound_params(params, i, bindings, sid) is Ok,
        not_an_id(params, i, id),
    ensures
        ({
            let s = st.with_bound_params(params, i, bindings, sid)->Ok_0;
            &&& s.store.contains_key(id) <==> st.store.contains_key(id)
            &&& st.store.contains_key(id) ==> s.store[id] == st.store[id]
            &&& s.events == st.events
        }),
    decreases params.len() - i,
{
    if i < params.len() {
        match param_id(params[i]) {
            None => lemma_bound_others(st, params, i + 1, bindings, sid, id),
            Some(vid) => {
                assert(param_id(params[i])->0 != id);
                if bindings.contains_key(param_name(params[i])) {
                    lemma_bound_others(
                        st.with_binding(vid, bindings[param_name(params[i])]),
                        params,
                        i + 1,
                        bindings,
                        sid,
                        id,
                    );
                } else if st.store.contains_key(vid as int) {
                    lemma_bound_others(st, params, i + 1, bindings, sid, id);
                } else {
                    lemma_param(st, params[i], sid);
                    let (node, s) = st.alloc_param(params[i], sid)->Ok_0;
                    lemma_bound_others(
                        s.with_binding(vid, node),
                        params,
                        i + 1,
                        bindings,
                        sid,
                        id,
                    );
                }
            },
        }
    }
}

/// Parameters whose names are given a node are bound to it; others keep the node that they had. No
/// other variable changes, and no memory event is recorded.
pub proof fn bound_parameters_have_their_nodes(
    st: StateV,
    params: Seq<ParamV>,
    i: int,
    bindings: Map<Seq<char>, NodeV>,
    sid: Option<i64>,
    j: int,
)
    requires
        0 <= i <= j < params.len(),
        st.with_bound_params(params, i, bindings, sid) is Ok,
        param_id(params[j]) is Some,
        not_an_id(params, j + 1, param_id(params[j])->0 as int),
        forall|k: int|
            i <= k < j ==> param_id(#[trigger] params[k]) is None || param_id(params[k])->0
                != param_id(params[j])->0,
    ensures
        ({
            let s = st.with_bound_params(params, i, bindings, sid)->Ok_0;
            let id = param_id(params[j])->0 as int;
            let given = bindings.contains_key(param_name(params[j]));
            &&& s.store.contains_key(id)
            &&& given ==> s.store[id] == bindings[param_name(params[j])]
            &&& !given && st.store.contains_key(id) ==> s.store[id] == st.store[id]
            &&& s.events == st.events
        }),
    decreases params.len() - i,
{
    let id = param_id(params[j])->0 as int;
    match param_id(params[i]) {
        None => bound_parameters_have_their_nodes(st, params, i + 1, bindings, sid, j),
        Some(vid) => {
            let name = param_name(params[i]);
            if bindings.contains_key(name) {
                let b = st.with_binding(vid, bindings[name]);
                if i == j {
                    lemma_bound_others(b, params, i + 1, bindings, sid, id);
                } else {
                    bound_parameters_have_their_nodes(b, params, i + 1, bindings, sid, j);
                }
            } else if st.store.contains_key(vid as int) {
                if i == j {
                    lemma_bound_others(st, params, i + 1, bindings, sid, id);
                } else {
                    bound_parameters_have_their_nodes(st, params, i + 1, bindings, sid, j);
                }
            } else {
                lemma_param(st, params[i], sid);
                let (node, s) = st.alloc_param(params[i], sid)->Ok_0;
                let b = s.with_binding(vid, node);
                if i == j {
                    lemma_bound_others(b, params, i + 1, bindings, sid, id);
                } else {
                    bound_parameters_have_their_nodes(b, params, i + 1, bindings, sid, j);
                }
            }
        },
    }
}

} // verus!
