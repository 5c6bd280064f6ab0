//! The leaves of nodes, and their comparison leaf by leaf.

use vstd::prelude::*;
use crate::checker::symbolic::expr::Term;
use crate::checker::symbolic::store::{
    is_key_list, key_list, node_pairs, pairs_from, value_pairs, zipped, NodeV,
};
use crate::checker::symbolic::value::ValueV;

verus! {

/// What stands directly below a node under a key: a field or an element.
pub open spec fn child(node: NodeV, key: int) -> Option<NodeV> {
    match node {
        NodeV::Scalar(_) => None,
        NodeV::Array { elems, .. } => if elems.contains_key(key) {
            Some(elems[key])
        } else {
            None
        },
        NodeV::Struct { fields } => if fields.contains_key(key) {
            Some(fields[key])
        } else {
            None
        },
    }
}

/// What stands at the end of a path of keys below a node.
pub open spec fn under(node: NodeV, path: Seq<int>) -> Option<NodeV>
    decreases path.len(),
{
    if path.len() == 0 {
        Some(node)
    } else {
        match child(node, path[0]) {
            None => None,
            Some(n) => under(n, path.drop_first()),
        }
    }
}

/// The scalar at the end of a path of keys below a node.
pub open spec fn leaf(node: NodeV, path: Seq<int>) -> Option<ValueV> {
    match under(node, path) {
        Some(NodeV::Scalar(v)) => Some(v),
        _ => None,
    }
}

/// A node has finitely many fields or elements.
pub open spec fn has_finite_keys(node: NodeV) -> bool {
    match node {
        NodeV::Scalar(_) => true,
        NodeV::Array { elems, .. } => elems.dom().finite(),
        NodeV::Struct { fields } => fields.dom().finite(),
    }
}

/// Everything below a node has finitely many fields or elements.
pub open spec fn is_finite(node: NodeV) -> bool {
    forall|path: Seq<int>|
        #![trigger under(node, path)]
        under(node, path) is Some ==> has_finite_keys(under(node, path)->0)
}

/// Two terms that stand at the same place of two values: the values themselves, or bytes of them.
pub open spec fn same_place(x: ValueV, y: ValueV, p: (Term, Term)) -> bool {
    ||| p == (x.surface, y.surface)
    ||| x.word is Some && y.word is Some && exists|i: int|
        0 <= i < x.word->0.len() && i < y.word->0.len() && p == (#[trigger] x.word->0[i], y.word->0[i])
}

/// Two terms that stand at the same place of the leaves at a path of two nodes.
pub open spec fn leaf_pair(a: NodeV, b: NodeV, path: Seq<int>, p: (Term, Term)) -> bool {
    leaf(a, path) is Some && leaf(b, path) is Some && same_place(leaf(a, path)->0, leaf(b, path)->0, p)
}

/// A finite set of integers that is not empty has a greatest member.
proof fn lemma_greatest(d: Set<int>) -> (m: int)
    requires
        d.finite(),
        d.len() > 0,
    ensures
        d.contains(m),
        forall|k: int| d.contains(k) ==> k <= m,
    decreases d.len(),
{
    let x = d.choose();
    let rest = d.remove(x);
    if rest.len() == 0 {
        assert forall|k: int| d.contains(k) implies k <= x by {
            if k != x {
                assert(rest.contains(k));
            }
        }
        x
    } else {
        let y = lemma_greatest(rest);
        assert forall|k: int| d.contains(k) implies k <= x || k <= y by {
            if k != x {
                assert(rest.contains(k));
            }
        }
        if x >= y {
            x
        } else {
            y
        }
    }
}

/// A finite set of integers has an ascending list of its members.
proof fn lemma_some_list(d: Set<int>) -> (s: Seq<int>)
    requires
        d.finite(),
    ensures
        is_key_list(s, d),
    decreases d.len(),
{
    if d.len() == 0 {
        assert(d =~= Set::empty());
        seq![]
    } else {
        let m = lemma_greatest(d);
        let s = lemma_some_list(d.remove(m));
        let t = s.push(m);
        assert forall|k: int| #[trigger] d.contains(k) <==> t.contains(k) by {
            if d.contains(k) {
                if k == m {
                    assert(t[s.len() as int] == m);
                } else {
                    assert(d.remove(m).contains(k));
                    let i = choose|i: int| 0 <= i < s.len() && s[i] == k;
                    assert(t[i] == k);
                }
            }
            if t.contains(k) {
                let i = choose|i: int| 0 <= i < t.len() && t[i] == k;
                if i < s.len() {
                    assert(s.contains(s[i]));
                    assert(d.remove(m).contains(k));
                }
            }
        }
        assert forall|i: int, j: int| 0 <= i < j < t.len() implies #[trigger] t[i]
            < #[trigger] t[j] by {
            if j == s.len() {
                assert(s.contains(s[i]));
                assert(d.remove(m).contains(s[i]));
            } else {
                assert(s[i] < s[j]);
            }
        }
        t
    }
}

/// The keys of a finite node are those of its key list.
pub proof fn lemma_keys(d: Set<int>)
    requires
        d.finite(),
    ensures
        is_key_list(key_list(d), d),
{
    let s = lemma_some_list(d);
}

proof fn lemma_value_pairs(x: ValueV, y: ValueV, p: (Term, Term))
    ensures
        value_pairs(x, y).contains(p) <==> same_place(x, y, p),
{
    let ps = value_pairs(x, y);
    assert(ps[0] == (x.surface, y.surface));
    if x.word is Some && y.word is Some {
        let z = zipped(x.word->0, y.word->0);
        assert(ps == seq![(x.surface, y.surface)] + z);
        if ps.contains(p) {
            let i = choose|i: int| 0 <= i < ps.len() && ps[i] == p;
            if i > 0 {
                assert(ps[i] == z[i - 1]);
                assert(p == (x.word->0[i - 1], y.word->0[i - 1]));
            }
        }
        if same_place(x, y, p) && p != (x.surface, y.surface) {
            let i = choose|i: int|
                0 <= i < x.word->0.len() && i < y.word->0.len() && p == (
                    #[trigger] x.word->0[i],
                    y.word->0[i],
                );
            assert(ps[i + 1] == z[i]);
        }
    }
}

/// Everything below a child is below the node.
pub proof fn lemma_child(node: NodeV, key: int, path: Seq<int>)
    ensures
        under(node, seq![key] + path) == match child(node, key) {
            None => None::<NodeV>,
            Some(n) => under(n, path),
        },
{
    let all = seq![key] + path;
    assert(all.drop_first() =~= path);
}

/// A child of a finite node is finite.
pub proof fn lemma_child_finite(node: NodeV, key: int)
    requires
        is_finite(node),
        child(node, key) is Some,
    ensures
        is_finite(child(node, key)->0),
{
    let n = child(node, key)->0;
    assert forall|path: Seq<int>| #![trigger under(n, path)] under(n, path) is Some implies
        has_finite_keys(under(n, path)->0) by {
        lemma_child(node, key, path);
        assert(under(node, seq![key] + path) is Some);
    }
}

/// A pair of the children under one of the keys from `i` on.
spec fn child_pair(
    keys: Seq<int>,
    i: int,
    l: Map<int, NodeV>,
    r: Map<int, NodeV>,
    p: (Term, Term),
) -> bool {
    exists|j: int, path: Seq<int>|
        i <= j < keys.len() && #[trigger] leaf_pair(l[keys[j]], r[keys[j]], path, p)
}

/// The pairs of two nodes of the same shape are those of the leaves at the same paths.
pub proof fn pairs_are_of_leaves(a: NodeV, b: NodeV)
    requires
        is_finite(a),
        node_pairs(a, b) is Ok,
    ensures
        forall|p: (Term, Term)| #[trigger]
            node_pairs(a, b)->Ok_0.contains(p) <==> exists|path: Seq<int>| #[trigger]
                leaf_pair(a, b, path, p),
        forall|path: Seq<int>| (#[trigger] leaf(a, path)) is Some ==> leaf(b, path) is Some,
    decreases a, 0int,
{
    let ps = node_pairs(a, b)->Ok_0;
    assert(under(a, seq![]) == Some(a));
    match (a, b) {
        (NodeV::Scalar(x), NodeV::Scalar(y)) => {
            assert forall|p: (Term, Term)| #[trigger] ps.contains(p) <==> exists|path: Seq<int>|
                #[trigger] leaf_pair(a, b, path, p) by {
                lemma_value_pairs(x, y, p);
                assert(under(b, seq![]) == Some(b));
                if ps.contains(p) {
                    assert(leaf_pair(a, b, seq![], p));
                }
            }
            assert forall|path: Seq<int>| (#[trigger] leaf(a, path)) is Some implies leaf(
                b,
                path,
            ) is Some by {
                assert(path.len() == 0);
            }
        },
        (NodeV::Struct { fields: l }, NodeV::Struct { fields: r }) => {
            lemma_keys(l.dom());
            let keys = key_list(l.dom());
            lemma_pairs_from(keys, 0, l, r, seq![], a);
            lemma_lifted(a, b, keys, l, r, ps);
        },
        (NodeV::Array { elems: l, .. }, NodeV::Array { elems: r, .. }) => {
            lemma_keys(l.dom());
            let keys = key_list(l.dom());
            lemma_pairs_from(keys, 0, l, r, seq![], a);
            lemma_lifted(a, b, keys, l, r, ps);
        },
        _ => {},
    }
}

proof fn lemma_lifted(
    a: NodeV,
    b: NodeV,
    keys: Seq<int>,
    l: Map<int, NodeV>,
    r: Map<int, NodeV>,
    ps: Seq<(Term, Term)>,
)
    requires
        !(a is Scalar),
        !(b is Scalar),
        forall|k: int| #[trigger] child(a, k) == if l.contains_key(k) {
            Some(l[k])
        } else {
            None
        },
        forall|k: int| #[trigger] child(b, k) == if r.contains_key(k) {
            Some(r[k])
        } else {
            None
        },
        is_key_list(keys, l.dom()),
        forall|j: int| 0 <= j < keys.len() ==> r.contains_key(#[trigger] keys[j]),
        forall|p: (Term, Term)| #[trigger] ps.contains(p) <==> child_pair(keys, 0, l, r, p),
        forall|j: int, path: Seq<int>|
            0 <= j < keys.len() && (#[trigger] leaf(l[keys[j]], path)) is Some ==> leaf(
                r[keys[j]],
                path,
            ) is Some,
    ensures
        forall|p: (Term, Term)| #[trigger]
            ps.contains(p) <==> exists|path: Seq<int>| #[trigger] leaf_pair(a, b, path, p),
        forall|path: Seq<int>| (#[trigger] leaf(a, path)) is Some ==> leaf(b, path) is Some,
{
    assert forall|path: Seq<int>| (#[trigger] leaf(a, path)) is Some implies path.len() > 0
        && l.contains_key(path[0]) && keys.contains(path[0]) && leaf(a, path) == leaf(
        l[path[0]],
        path.drop_first(),
    ) && leaf(b, path) == leaf(r[path[0]], path.drop_first()) && leaf(b, path) is Some by {
        assert(path.len() > 0);
        let k = path[0];
        assert(child(a, k) is Some);
        assert(l.dom().contains(k));
        let j = choose|j: int| 0 <= j < keys.len() && keys[j] == k;
        assert(r.contains_key(keys[j]));
        assert(child(b, k) == Some(r[k]));
        assert(leaf(l[keys[j]], path.drop_first()) is Some);
    }
    assert forall|p: (Term, Term)| #[trigger] ps.contains(p) <==> exists|path: Seq<int>| #[trigger]
        leaf_pair(a, b, path, p) by {
        if ps.contains(p) {
            let (j, path) = choose|j: int, path: Seq<int>|
                0 <= j < keys.len() && #[trigger] leaf_pair(l[keys[j]], r[keys[j]], path, p);
            assert(keys.contains(keys[j]));
            assert(l.dom().contains(keys[j]));
            lemma_child(a, keys[j], path);
            lemma_child(b, keys[j], path);
            assert(child(a, keys[j]) == Some(l[keys[j]]));
            assert(child(b, keys[j]) == Some(r[keys[j]]));
            assert(leaf_pair(a, b, seq![keys[j]] + path, p));
        }
        if exists|path: Seq<int>| #[trigger] leaf_pair(a, b, path, p) {
            let path = choose|path: Seq<int>| #[trigger] leaf_pair(a, b, path, p);
            assert(leaf(a, path) is Some);
            let j = choose|j: int| 0 <= j < keys.len() && keys[j] == path[0];
            assert(leaf_pair(l[keys[j]], r[keys[j]], path.drop_first(), p));
        }
    }
}

proof fn lemma_pairs_from(
    keys: Seq<int>,
    i: int,
    l: Map<int, NodeV>,
    r: Map<int, NodeV>,
    acc: Seq<(Term, Term)>,
    a: NodeV,
)
    requires
        0 <= i,
        is_finite(a),
        forall|k: int| l.contains_key(k) ==> #[trigger] child(a, k) == Some(l[k]),
        l.dom().finite(),
        pairs_from(keys, i, l, r, acc) is Ok,
    ensures
        forall|p: (Term, Term)| #[trigger]
            pairs_from(keys, i, l, r, acc)->Ok_0.contains(p) <==> acc.contains(p) || child_pair(
                keys,
                i,
                l,
                r,
                p,
            ),
        forall|j: int| i <= j < keys.len() ==> r.contains_key(#[trigger] keys[j]),
        forall|j: int, path: Seq<int>|
            i <= j < keys.len() && (#[trigger] leaf(l[keys[j]], path)) is Some ==> leaf(
                r[keys[j]],
                path,
            ) is Some,
    decreases l, keys.len() - i,
{
    if i < keys.len() {
        let k = keys[i];
        let ps = node_pairs(l[k], r[k])->Ok_0;
        assert(child(a, k) == Some(l[k]));
        lemma_child_finite(a, k);
        pairs_are_of_leaves(l[k], r[k]);
        lemma_pairs_from(keys, i + 1, l, r, acc + ps, a);
        let all = pairs_from(keys, i, l, r, acc)->Ok_0;
        assert forall|p: (Term, Term)| #[trigger] all.contains(p) <==> acc.contains(p)
            || child_pair(keys, i, l, r, p) by {
            let both = acc + ps;
            if both.contains(p) {
                let j = choose|j: int| 0 <= j < both.len() && both[j] == p;
                if j >= acc.len() {
                    assert(ps[j - acc.len()] == p);
                    assert(ps.contains(p));
                    let path = choose|path: Seq<int>| #[trigger] leaf_pair(l[k], r[k], path, p);
                    assert(leaf_pair(l[keys[i]], r[keys[i]], path, p));
                } else {
                    assert(acc[j] == p);
                }
            }
            if acc.contains(p) {
                let j = choose|j: int| 0 <= j < acc.len() && acc[j] == p;
                assert(both[j] == p);
            }
            if child_pair(keys, i, l, r, p) {
                let (j, path) = choose|j: int, path: Seq<int>|
                    i <= j < keys.len() && #[trigger] leaf_pair(l[keys[j]], r[keys[j]], path, p);
                if j == i {
                    assert(ps.contains(p));
                    let q = choose|q: int| 0 <= q < ps.len() && ps[q] == p;
                    assert(both[acc.len() + q] == p);
                } else {
                    assert(child_pair(keys, i + 1, l, r, p));
                }
            }
            if child_pair(keys, i + 1, l, r, p) {
                let (j, path) = choose|j: int, path: Seq<int>|
                    i + 1 <= j < keys.len() && #[trigger] leaf_pair(
                        l[keys[j]],
                        r[keys[j]],
                        path,
                        p,
                    );
                assert(leaf_pair(l[keys[j]], r[keys[j]], path, p));
            }
        }
    }
}

} // verus!
