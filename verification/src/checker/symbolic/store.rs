//! Persistent symbolic memory.

use vstd::prelude::*;
use crate::ast::Expr;
use crate::checker::symbolic::error::ExecError;
use crate::checker::symbolic::expr::{terms_of, SymExpr, Term};
use crate::checker::symbolic::value::{SymValue, ValueV};
use crate::view::some_view;

verus! {

/// A persistent map from identifiers to nodes.
#[verifier::external_body]
#[derive(Debug)]
pub struct FieldMap {
    inner: im::HashMap<i64, StoreNode>,
}

/// A persistent map from indices to nodes.
#[verifier::external_body]
#[derive(Debug)]
pub struct ElemMap {
    inner: im::HashMap<usize, StoreNode>,
}

/// No entries.
pub open spec fn no_nodes() -> Map<int, NodeV> {
    Map::empty()
}

/// What a [`FieldMap`] holds.
pub uninterp spec fn field_entries(m: FieldMap) -> Map<int, NodeV>;

/// What an [`ElemMap`] holds.
pub uninterp spec fn elem_entries(m: ElemMap) -> Map<int, NodeV>;

impl View for FieldMap {
    type V = Map<int, NodeV>;

    open spec fn view(&self) -> Map<int, NodeV> {
        field_entries(*self)
    }
}

impl View for ElemMap {
    type V = Map<int, NodeV>;

    open spec fn view(&self) -> Map<int, NodeV> {
        elem_entries(*self)
    }
}

/// Persistent store node for symbolic memory.
#[derive(Debug)]
pub enum StoreNode {
    /// Scalar expression.
    Scalar(SymValue),
    /// Constant-size (or unknown-size) array with concrete indices.
    Array { len: Option<usize>, elems: ElemMap },
    /// Struct keyed by field id.
    Struct { fields: FieldMap },
}

/// Mathematical model of [`StoreNode`].
pub enum NodeV {
    Scalar(ValueV),
    Array { len: Option<usize>, elems: Map<int, NodeV> },
    Struct { fields: Map<int, NodeV> },
}

impl View for StoreNode {
    type V = NodeV;

    open spec fn view(&self) -> NodeV {
        match self {
            StoreNode::Scalar(v) => NodeV::Scalar(v@),
            StoreNode::Array { len, elems } => NodeV::Array { len: *len, elems: elems@ },
            StoreNode::Struct { fields } => NodeV::Struct { fields: fields@ },
        }
    }
}

impl FieldMap {
    /// `im::HashMap::new`: the new map is empty.
    #[verifier::external_body]
    pub(crate) fn new() -> (r: FieldMap)
        ensures
            field_entries(r) == no_nodes(),
    {
        FieldMap { inner: im::HashMap::new() }
    }

    /// `im::HashMap::get`: the entry of a key, if there is one.
    #[verifier::external_body]
    pub(crate) fn get(&self, key: i64) -> (r: Option<&StoreNode>)
        ensures
            match r {
                Some(n) => field_entries(*self).contains_key(key as int) && n@ == field_entries(
                    *self,
                )[key as int],
                None => !field_entries(*self).contains_key(key as int),
            },
    {
        self.inner.get(&key)
    }

    /// `im::HashMap::update`: a map with one entry set, all others kept.
    #[verifier::external_body]
    pub(crate) fn update(&self, key: i64, node: StoreNode) -> (r: FieldMap)
        ensures
            field_entries(r) == field_entries(*self).insert(key as int, node@),
    {
        FieldMap { inner: self.inner.update(key, node) }
    }

    /// `im::HashMap::len`: the number of entries.
    #[verifier::external_body]
    pub(crate) fn len(&self) -> (r: usize)
        ensures
            r == field_entries(*self).dom().len(),
    {
        self.inner.len()
    }

    /// `im::HashMap::keys`: every key once, in an order that is left open.
    #[verifier::external_body]
    pub(crate) fn keys(&self) -> (r: Vec<i64>)
        ensures
            r@.no_duplicates(),
            forall|k: int| #[trigger]
                field_entries(*self).contains_key(k) <==> (exists|i: int|
                    0 <= i < r@.len() && #[trigger] r@[i] == k),
    {
        self.inner.keys().cloned().collect()
    }

    /// `im::HashMap::clone`: the copy holds the same entries.
    #[verifier::external_body]
    pub(crate) fn share(&self) -> (r: FieldMap)
        ensures
            field_entries(r) == field_entries(*self),
    {
        FieldMap { inner: self.inner.clone() }
    }
}

impl ElemMap {
    /// `im::HashMap::new`: the new map is empty.
    #[verifier::external_body]
    pub(crate) fn new() -> (r: ElemMap)
        ensures
            elem_entries(r) == no_nodes(),
    {
        ElemMap { inner: im::HashMap::new() }
    }

    /// `im::HashMap::get`: the entry of a key, if there is one.
    #[verifier::external_body]
    pub(crate) fn get(&self, key: usize) -> (r: Option<&StoreNode>)
        ensures
            match r {
                Some(n) => elem_entries(*self).contains_key(key as int) && n@ == elem_entries(
                    *self,
                )[key as int],
                None => !elem_entries(*self).contains_key(key as int),
            },
    {
        self.inner.get(&key)
    }

    /// `im::HashMap::update`: a map with one entry set, all others kept.
    #[verifier::external_body]
    pub(crate) fn update(&self, key: usize, node: StoreNode) -> (r: ElemMap)
        ensures
            elem_entries(r) == elem_entries(*self).insert(key as int, node@),
    {
        ElemMap { inner: self.inner.update(key, node) }
    }

    /// `im::HashMap::keys`: every key once, in an order that is left open.
    #[verifier::external_body]
    pub(crate) fn keys(&self) -> (r: Vec<usize>)
        ensures
            r@.no_duplicates(),
            forall|k: int| #[trigger]
                elem_entries(*self).contains_key(k) <==> (exists|i: int|
                    0 <= i < r@.len() && #[trigger] r@[i] == k),
    {
        self.inner.keys().cloned().collect()
    }

    /// `im::HashMap::clone`: the copy holds the same entries.
    #[verifier::external_body]
    pub(crate) fn share(&self) -> (r: ElemMap)
        ensures
            elem_entries(r) == elem_entries(*self),
    {
        ElemMap { inner: self.inner.clone() }
    }
}

impl Clone for StoreNode {
    fn clone(&self) -> (r: Self)
        ensures
            r@ == self@,
    {
        match self {
            StoreNode::Scalar(v) => StoreNode::Scalar(v.clone()),
            StoreNode::Array { len, elems } => StoreNode::Array { len: *len, elems: elems.share() },
            StoreNode::Struct { fields } => StoreNode::Struct { fields: fields.share() },
        }
    }
}

/// `s` lists the members of `d` in ascending order.
pub open spec fn is_key_list(s: Seq<int>, d: Set<int>) -> bool {
    &&& forall|i: int, j: int| 0 <= i < j < s.len() ==> #[trigger] s[i] < #[trigger] s[j]
    &&& forall|k: int| #[trigger] d.contains(k) <==> s.contains(k)
}

/// The members of a finite set in ascending order.
pub open spec fn key_list(d: Set<int>) -> Seq<int> {
    choose|s: Seq<int>| is_key_list(s, d)
}

/// There is only one ascending list of the members of a set.
proof fn lemma_key_list_unique(a: Seq<int>, b: Seq<int>, d: Set<int>)
    requires
        is_key_list(a, d),
        is_key_list(b, d),
    ensures
        a == b,
    decreases a.len(),
{
    if a.len() == 0 {
        if b.len() > 0 {
            assert(b.contains(b[0]));
            assert(d.contains(b[0]));
            assert(a.contains(b[0]));
        }
        assert(a =~= b);
    } else if b.len() == 0 {
        assert(a.contains(a[0]));
        assert(d.contains(a[0]));
        assert(b.contains(a[0]));
    } else {
        let x = a.last();
        let y = b.last();
        assert(a.contains(a[a.len() - 1]));
        assert(b.contains(b[b.len() - 1]));
        assert(d.contains(x) && d.contains(y));
        assert(b.contains(x) && a.contains(y));
        let i = choose|i: int| 0 <= i < b.len() && b[i] == x;
        let j = choose|j: int| 0 <= j < a.len() && a[j] == y;
        assert(x <= y) by {
            if i < b.len() - 1 {
                assert(b[i] < b[b.len() - 1]);
            }
        }
        assert(y <= x) by {
            if j < a.len() - 1 {
                assert(a[j] < a[a.len() - 1]);
            }
        }
        let a2 = a.drop_last();
        let b2 = b.drop_last();
        let d2 = d.remove(x);
        lemma_drop_key(a, d);
        lemma_drop_key(b, d);
        lemma_key_list_unique(a2, b2, d2);
        assert(a =~= a2.push(x));
        assert(b =~= b2.push(y));
    }
}

proof fn lemma_drop_key(a: Seq<int>, d: Set<int>)
    requires
        is_key_list(a, d),
        a.len() > 0,
    ensures
        is_key_list(a.drop_last(), d.remove(a.last())),
{
    let a2 = a.drop_last();
    let d2 = d.remove(a.last());
    assert forall|k: int| #[trigger] d2.contains(k) <==> a2.contains(k) by {
        if d2.contains(k) {
            assert(a.contains(k));
            let i = choose|i: int| 0 <= i < a.len() && a[i] == k;
            assert(a2[i] == k);
        }
        if a2.contains(k) {
            let i = choose|i: int| 0 <= i < a2.len() && a2[i] == k;
            assert(a[i] == k);
            assert(a[i] < a[a.len() - 1]);
            assert(a.contains(k));
        }
    }
}

/// The list that was found is the key list.
proof fn lemma_key_list(s: Seq<int>, d: Set<int>)
    requires
        is_key_list(s, d),
    ensures
        key_list(d) == s,
{
    lemma_key_list_unique(s, key_list(d), d);
}

/// Wide machine integers as mathematical integers.
pub open spec fn as_ints(s: Seq<i128>) -> Seq<int> {
    Seq::new(s.len(), |i: int| s[i] as int)
}

/// The numbers in ascending order.
fn ascending(keys: &Vec<i128>) -> (out: Vec<i128>)
    requires
        keys@.no_duplicates(),
    ensures
        forall|a: int, b: int| 0 <= a < b < out@.len() ==> #[trigger] out@[a] < #[trigger] out@[b],
        forall|k: i128| #[trigger] out@.contains(k) <==> keys@.contains(k),
{
    let mut out: Vec<i128> = Vec::new();
    for i in 0..keys.len()
        invariant
            keys@.no_duplicates(),
            forall|a: int, b: int|
                0 <= a < b < out@.len() ==> #[trigger] out@[a] < #[trigger] out@[b],
            forall|k: i128| #[trigger] out@.contains(k) <==> keys@.take(i as int).contains(k),
    {
        let x = keys[i];
        let mut p: usize = out.len();
        proof {
            if out@.contains(x) {
                let j = choose|j: int|
                    0 <= j < keys@.take(i as int).len() && keys@.take(i as int)[j] == x;
                assert(keys@[j] == keys@[i as int]);
            }
            assert forall|a: int| 0 <= a < out@.len() implies #[trigger] out@[a] != x by {
                assert(out@.contains(out@[a]));
            }
        }
        while p > 0 && out[p - 1] > x
            invariant
                p <= out@.len(),
                forall|a: int| p <= a < out@.len() ==> x < #[trigger] out@[a],
            decreases p,
        {
            p = p - 1;
        }
        let ghost before = out@;
        out.insert(p, x);
        proof {
            assert forall|a: int| 0 <= a < p implies #[trigger] before[a] < x by {
                if a < p - 1 {
                    assert(before[a] < before[p - 1]);
                }
            }
            assert forall|a: int, b: int| 0 <= a < b < out@.len() implies #[trigger] out@[a]
                < #[trigger] out@[b] by {
                let a2 = if a < p {
                    a
                } else {
                    a - 1
                };
                let b2 = if b < p {
                    b
                } else {
                    b - 1
                };
                if a != p && b != p {
                    assert(before[a2] < before[b2]);
                }
            }
            assert forall|k: i128| #[trigger] out@.contains(k) <==> keys@.take(i + 1).contains(
                k,
            ) by {
                lemma_insert_contains(before, p as int, x, k);
                lemma_take_contains(keys@, i as int, k);
            }
        }
    }
    proof {
        assert(keys@.take(keys@.len() as int) =~= keys@);
    }
    out
}

/// Ascending numbers that are the members of a set are its key list, and the set is finite.
proof fn lemma_found(s: Seq<i128>, wide: Seq<i128>, d: Set<int>)
    requires
        forall|a: int, b: int| 0 <= a < b < s.len() ==> #[trigger] s[a] < #[trigger] s[b],
        forall|k: i128| #[trigger] s.contains(k) <==> wide.contains(k),
        forall|k: int| #[trigger]
            d.contains(k) <==> (exists|i: int| 0 <= i < wide.len() && #[trigger] wide[i] == k),
    ensures
        as_ints(s) == key_list(d),
        is_key_list(as_ints(s), d),
        d.finite(),
{
    let t = as_ints(s);
    assert forall|k: int| #[trigger] d.contains(k) <==> t.contains(k) by {
        if d.contains(k) {
            let i = choose|i: int| 0 <= i < wide.len() && #[trigger] wide[i] == k;
            assert(wide.contains(wide[i]));
            assert(s.contains(wide[i]));
            let j = choose|j: int| 0 <= j < s.len() && s[j] == wide[i];
            assert(t[j] == k);
        }
        if t.contains(k) {
            let j = choose|j: int| 0 <= j < t.len() && t[j] == k;
            assert(s.contains(s[j]));
            let i = choose|i: int| 0 <= i < wide.len() && wide[i] == s[j];
            assert(wide[i] == k);
        }
    }
    lemma_key_list(t, d);
    assert(d =~= t.to_set());
}

impl FieldMap {
    /// The keys in ascending order.
    pub(crate) fn sorted_keys(&self) -> (r: Vec<i128>)
        ensures
            as_ints(r@) == key_list(self@.dom()),
            is_key_list(as_ints(r@), self@.dom()),
            self@.dom().finite(),
            forall|i: int| 0 <= i < r@.len() ==> i64::MIN <= #[trigger] r@[i] <= i64::MAX,
    {
        let keys = self.keys();
        let mut wide: Vec<i128> = Vec::new();
        for i in 0..keys.len()
            invariant
                wide@.len() == i,
                forall|j: int| 0 <= j < i ==> #[trigger] wide@[j] == keys@[j],
        {
            wide.push(keys[i] as i128);
        }
        proof {
            assert forall|k: int| #[trigger] self@.dom().contains(k) <==> (exists|i: int|
                0 <= i < wide@.len() && #[trigger] wide@[i] == k) by {
                assert(field_entries(*self).contains_key(k) <==> (exists|i: int|
                    0 <= i < keys@.len() && #[trigger] keys@[i] == k));
                if exists|i: int| 0 <= i < keys@.len() && #[trigger] keys@[i] == k {
                    let i = choose|i: int| 0 <= i < keys@.len() && #[trigger] keys@[i] == k;
                    assert(wide@[i] == k);
                }
                if exists|i: int| 0 <= i < wide@.len() && #[trigger] wide@[i] == k {
                    let i = choose|i: int| 0 <= i < wide@.len() && #[trigger] wide@[i] == k;
                    assert(keys@[i] == k);
                }
            }
        }
        let out = ascending(&wide);
        proof {
            lemma_found(out@, wide@, self@.dom());
            assert forall|i: int| 0 <= i < out@.len() implies i64::MIN <= #[trigger] out@[i]
                <= i64::MAX by {
                assert(out@.contains(out@[i]));
                let j = choose|j: int| 0 <= j < wide@.len() && wide@[j] == out@[i];
                assert(wide@[j] == keys@[j]);
            }
        }
        out
    }
}

impl ElemMap {
    /// The keys in ascending order.
    pub(crate) fn sorted_keys(&self) -> (r: Vec<i128>)
        ensures
            as_ints(r@) == key_list(self@.dom()),
            is_key_list(as_ints(r@), self@.dom()),
            self@.dom().finite(),
            forall|i: int| 0 <= i < r@.len() ==> 0 <= #[trigger] r@[i] <= usize::MAX,
    {
        let keys = self.keys();
        let mut wide: Vec<i128> = Vec::new();
        for i in 0..keys.len()
            invariant
                wide@.len() == i,
                forall|j: int| 0 <= j < i ==> #[trigger] wide@[j] == keys@[j],
        {
            wide.push(keys[i] as i128);
        }
        proof {
            assert forall|k: int| #[trigger] self@.dom().contains(k) <==> (exists|i: int|
                0 <= i < wide@.len() && #[trigger] wide@[i] == k) by {
                assert(elem_entries(*self).contains_key(k) <==> (exists|i: int|
                    0 <= i < keys@.len() && #[trigger] keys@[i] == k));
                if exists|i: int| 0 <= i < keys@.len() && #[trigger] keys@[i] == k {
                    let i = choose|i: int| 0 <= i < keys@.len() && #[trigger] keys@[i] == k;
                    assert(wide@[i] == k);
                }
                if exists|i: int| 0 <= i < wide@.len() && #[trigger] wide@[i] == k {
                    let i = choose|i: int| 0 <= i < wide@.len() && #[trigger] wide@[i] == k;
                    assert(keys@[i] == k);
                }
            }
        }
        let out = ascending(&wide);
        proof {
            lemma_found(out@, wide@, self@.dom());
            assert forall|i: int| 0 <= i < out@.len() implies 0 <= #[trigger] out@[i]
                <= usize::MAX by {
                assert(out@.contains(out@[i]));
                let j = choose|j: int| 0 <= j < wide@.len() && wide@[j] == out@[i];
                assert(wide@[j] == keys@[j]);
            }
        }
        out
    }
}

proof fn lemma_insert_contains<T>(s: Seq<T>, p: int, x: T, k: T)
    requires
        0 <= p <= s.len(),
    ensures
        s.insert(p, x).contains(k) <==> (s.contains(k) || k == x),
{
    let t = s.insert(p, x);
    if t.contains(k) {
        let i = choose|i: int| 0 <= i < t.len() && t[i] == k;
        if i < p {
            assert(s[i] == k);
        } else if i > p {
            assert(s[i - 1] == k);
        }
    }
    if s.contains(k) {
        let i = choose|i: int| 0 <= i < s.len() && s[i] == k;
        if i < p {
            assert(t[i] == k);
        } else {
            assert(t[i + 1] == k);
        }
    }
    if k == x {
        assert(t[p] == k);
    }
}

proof fn lemma_take_contains<T>(s: Seq<T>, i: int, k: T)
    requires
        0 <= i < s.len(),
    ensures
        s.take(i + 1).contains(k) <==> (s.take(i).contains(k) || k == s[i]),
{
    let a = s.take(i);
    let b = s.take(i + 1);
    if b.contains(k) {
        let j = choose|j: int| 0 <= j < b.len() && b[j] == k;
        if j < i {
            assert(a[j] == k);
        }
    }
    if a.contains(k) {
        let j = choose|j: int| 0 <= j < a.len() && a[j] == k;
        assert(b[j] == k);
    }
    if k == s[i] {
        assert(b[i] == k);
    }
}

/// Why two nodes cannot be compared leaf by leaf.
#[derive(Clone, Copy, Debug, PartialEq, Eq, Structural)]
pub enum ShapeError {
    /// The structs have different numbers of fields.
    FieldCount,
    /// The right struct lacks a field of the left one.
    MissingField,
    /// The arrays have different lengths.
    ArrayLength,
    /// The arrays have different sets of indices.
    IndexSet,
    /// The nodes are of different kinds.
    Kind,
}

/// The pairs of two lists, as far as both go.
pub open spec fn zipped(a: Seq<Term>, b: Seq<Term>) -> Seq<(Term, Term)> {
    Seq::new(
        if a.len() <= b.len() {
            a.len()
        } else {
            b.len()
        },
        |i: int| (a[i], b[i]),
    )
}

/// The pairs of corresponding scalars of two values.
pub open spec fn value_pairs(a: ValueV, b: ValueV) -> Seq<(Term, Term)> {
    let head = seq![(a.surface, b.surface)];
    match (a.word, b.word) {
        (Some(x), Some(y)) => head + zipped(x, y),
        _ => head,
    }
}

/// The pairs of corresponding scalars of two nodes of the same shape, fields and indices in
/// ascending order.
pub open spec fn node_pairs(a: NodeV, b: NodeV) -> Result<Seq<(Term, Term)>, ShapeError>
    decreases a, 0int,
{
    match (a, b) {
        (NodeV::Scalar(x), NodeV::Scalar(y)) => Ok(value_pairs(x, y)),
        (NodeV::Struct { fields: lf }, NodeV::Struct { fields: rf }) => if lf.dom().len()
            != rf.dom().len() {
            Err(ShapeError::FieldCount)
        } else {
            pairs_from(key_list(lf.dom()), 0, lf, rf, seq![])
        },
        (NodeV::Array { len: ll, elems: le }, NodeV::Array { len: rl, elems: re }) => if ll != rl {
            Err(ShapeError::ArrayLength)
        } else if le.dom() != re.dom() {
            Err(ShapeError::IndexSet)
        } else {
            pairs_from(key_list(le.dom()), 0, le, re, seq![])
        },
        _ => Err(ShapeError::Kind),
    }
}

/// The pairs of the entries for the keys from `i` on, behind `acc`.
pub open spec fn pairs_from(
    keys: Seq<int>,
    i: int,
    l: Map<int, NodeV>,
    r: Map<int, NodeV>,
    acc: Seq<(Term, Term)>,
) -> Result<Seq<(Term, Term)>, ShapeError>
    decreases l, keys.len() - i,
{
    if i < 0 || i >= keys.len() {
        Ok(acc)
    } else if !(l.dom().finite() && l.contains_key(keys[i]) && r.contains_key(keys[i])) {
        Err(ShapeError::MissingField)
    } else {
        match node_pairs(l[keys[i]], r[keys[i]]) {
            Ok(ps) => pairs_from(keys, i + 1, l, r, acc + ps),
            Err(x) => Err(x),
        }
    }
}

/// The pairs that are collected of two nodes before their shapes are found to differ.
pub open spec fn pairs_before(a: NodeV, b: NodeV) -> Seq<(Term, Term)>
    decreases a, 0int,
{
    match (a, b) {
        (NodeV::Struct { fields: lf }, NodeV::Struct { fields: rf }) => if lf.dom().len()
            != rf.dom().len() {
            seq![]
        } else {
            pairs_before_from(key_list(lf.dom()), 0, lf, rf, seq![])
        },
        (NodeV::Array { len: ll, elems: le }, NodeV::Array { len: rl, elems: re }) => if ll != rl
            || le.dom() != re.dom() {
            seq![]
        } else {
            pairs_before_from(key_list(le.dom()), 0, le, re, seq![])
        },
        _ => seq![],
    }
}

/// The pairs that are collected of the entries for the keys from `i` on before two of them are
/// found to differ in shape, behind `acc`.
pub open spec fn pairs_before_from(
    keys: Seq<int>,
    i: int,
    l: Map<int, NodeV>,
    r: Map<int, NodeV>,
    acc: Seq<(Term, Term)>,
) -> Seq<(Term, Term)>
    decreases l, keys.len() - i,
{
    if i < 0 || i >= keys.len() {
        acc
    } else if !(l.dom().finite() && l.contains_key(keys[i]) && r.contains_key(keys[i])) {
        acc
    } else {
        match node_pairs(l[keys[i]], r[keys[i]]) {
            Ok(ps) => pairs_before_from(keys, i + 1, l, r, acc + ps),
            Err(_) => acc + pairs_before(l[keys[i]], r[keys[i]]),
        }
    }
}

/// The models of a list of pairs of expressions.
pub open spec fn term_pairs(s: Seq<(SymExpr, SymExpr)>) -> Seq<(Term, Term)> {
    Seq::new(s.len(), |i: int| (s[i].0@, s[i].1@))
}

/// Every key of a key list is in the set.
proof fn lemma_listed(d: Set<int>, i: int)
    requires
        is_key_list(key_list(d), d),
        0 <= i < key_list(d).len(),
    ensures
        d.contains(key_list(d)[i]),
{
    assert(key_list(d).contains(key_list(d)[i]));
}

fn same_len(a: Option<usize>, b: Option<usize>) -> (r: bool)
    ensures
        r == (a == b),
{
    match (a, b) {
        (Some(x), Some(y)) => x == y,
        (None, None) => true,
        _ => false,
    }
}

/// Appends the pairs of corresponding scalars of two values.
fn push_value_pairs(a: &SymValue, b: &SymValue, out: &mut Vec<(SymExpr, SymExpr)>)
    ensures
        term_pairs(final(out)@) == term_pairs(old(out)@) + value_pairs(a@, b@),
{
    out.push((a.surface.clone(), b.surface.clone()));
    proof {
        assert(term_pairs(out@) =~= term_pairs(old(out)@) + seq![(a@.surface, b@.surface)]);
    }
    if let (Some(wa), Some(wb)) = (a.word_bytes(), b.word_bytes()) {
        let n: usize = if wa.len() <= wb.len() {
            wa.len()
        } else {
            wb.len()
        };
        let ghost start = term_pairs(out@);
        let ghost all = zipped(terms_of(wa@), terms_of(wb@));
        proof {
            assert(start + all.take(0) =~= start);
            assert(all.len() == n);
        }
        #[verifier::loop_isolation(false)]
        for i in 0..n
            invariant
                term_pairs(out@) == start + all.take(i as int),
        {
            let ghost before = out@;
            out.push((wa[i].clone(), wb[i].clone()));
            proof {
                assert(all[i as int] == (wa@[i as int]@, wb@[i as int]@));
                assert(term_pairs(out@) =~= term_pairs(before).push(all[i as int]));
                assert(start + all.take(i + 1) =~= (start + all.take(i as int)).push(
                    all[i as int],
                ));
            }
        }
        proof {
            assert(all.take(n as int) =~= all);
            assert(start + all =~= term_pairs(old(out)@) + (seq![(a@.surface, b@.surface)] + all));
        }
    }
}

fn same_lists(a: &Vec<i128>, b: &Vec<i128>) -> (r: bool)
    ensures
        r == (as_ints(a@) == as_ints(b@)),
{
    if a.len() != b.len() {
        proof {
            assert(as_ints(a@).len() != as_ints(b@).len());
        }
        return false;
    }
    for i in 0..a.len()
        invariant
            a@.len() == b@.len(),
            forall|j: int| 0 <= j < i ==> a@[j] == b@[j],
    {
        if a[i] != b[i] {
            proof {
                assert(as_ints(a@)[i as int] != as_ints(b@)[i as int]);
            }
            return false;
        }
    }
    proof {
        assert(as_ints(a@) =~= as_ints(b@));
    }
    true
}

impl StoreNode {
    /// A scalar node.
    pub fn scalar(v: SymValue) -> (r: Self)
        ensures
            r@ == NodeV::Scalar(v@),
    {
        StoreNode::Scalar(v)
    }

    /// An array without elements.
    pub fn array(len: Option<usize>) -> (r: Self)
        ensures
            r@ == (NodeV::Array { len, elems: Map::empty() }),
    {
        StoreNode::Array { len, elems: ElemMap::new() }
    }

    /// A struct without fields.
    pub fn structure() -> (r: Self)
        ensures
            r@ == (NodeV::Struct { fields: Map::empty() }),
    {
        StoreNode::Struct { fields: FieldMap::new() }
    }

    /// Recursively collect pairs of scalar symbolic expressions from `self` and `other`. The two
    /// nodes must exhibit an identical shape (same set of fields for structs, same index set for
    /// arrays); all corresponding leaf-level scalar expressions are appended to `out`.
    pub fn collect_scalar_pairs_with(
        &self,
        other: &StoreNode,
        out: &mut Vec<(SymExpr, SymExpr)>,
    ) -> (r: Result<(), ShapeError>)
        ensures
            match r {
                Ok(()) => match node_pairs(self@, other@) {
                    Ok(ps) => term_pairs(final(out)@) == term_pairs(old(out)@) + ps,
                    Err(_) => false,
                },
                Err(x) => node_pairs(self@, other@) == Err::<Seq<(Term, Term)>, ShapeError>(x)
                    && term_pairs(final(out)@) == term_pairs(old(out)@) + pairs_before(
                    self@,
                    other@,
                ),
            },
        decreases self@, 0int,
    {
        proof {
            assert(term_pairs(out@) + seq![] =~= term_pairs(out@));
        }
        match (self, other) {
            (StoreNode::Scalar(a), StoreNode::Scalar(b)) => {
                push_value_pairs(a, b, out);
                Ok(())
            },
            (StoreNode::Struct { fields: lf }, StoreNode::Struct { fields: rf }) => {
                if lf.len() != rf.len() {
                    return Err(ShapeError::FieldCount);
                }
                let keys = lf.sorted_keys();
                let ghost ks = key_list(lf@.dom());
                let ghost mut acc: Seq<(Term, Term)> = seq![];
                proof {
                    assert(term_pairs(out@) + acc =~= term_pairs(out@));
                }
                #[verifier::loop_isolation(false)]
                for i in 0..keys.len()
                    invariant
                        as_ints(keys@) == ks,
                        term_pairs(out@) == term_pairs(old(out)@) + acc,
                        pairs_from(ks, 0, lf@, rf@, seq![]) == pairs_from(
                            ks,
                            i as int,
                            lf@,
                            rf@,
                            acc,
                        ),
                        pairs_before_from(ks, 0, lf@, rf@, seq![]) == pairs_before_from(
                            ks,
                            i as int,
                            lf@,
                            rf@,
                            acc,
                        ),
                {
                    proof {
                        lemma_listed(lf@.dom(), i as int);
                        assert(ks[i as int] == keys@[i as int]);
                    }
                    let key: i64 = keys[i] as i64;
                    match (lf.get(key), rf.get(key)) {
                        (Some(l), Some(r)) => {
                            match l.collect_scalar_pairs_with(r, out) {
                                Ok(()) => {
                                    proof {
                                        let ps = node_pairs(l@, r@)->Ok_0;
                                        assert(term_pairs(old(out)@) + acc + ps =~= term_pairs(
                                            old(out)@,
                                        ) + (acc + ps));
                                        acc = acc + ps;
                                    }
                                },
                                Err(x) => {
                                    proof {
                                        let ps = pairs_before(l@, r@);
                                        assert(term_pairs(old(out)@) + acc + ps =~= term_pairs(
                                            old(out)@,
                                        ) + (acc + ps));
                                    }
                                    return Err(x);
                                },
                            }
                        },
                        _ => return Err(ShapeError::MissingField),
                    }
                }
                Ok(())
            },
            (StoreNode::Array { len: ll, elems: le }, StoreNode::Array { len: rl, elems: re }) => {
                if !same_len(*ll, *rl) {
                    return Err(ShapeError::ArrayLength);
                }
                let keys = le.sorted_keys();
                let other_keys = re.sorted_keys();
                proof {
                    if as_ints(keys@) == as_ints(other_keys@) {
                        assert(le@.dom() =~= re@.dom());
                    }
                }
                if !same_lists(&keys, &other_keys) {
                    return Err(ShapeError::IndexSet);
                }
                let ghost ks = key_list(le@.dom());
                let ghost mut acc: Seq<(Term, Term)> = seq![];
                proof {
                    assert(term_pairs(out@) + acc =~= term_pairs(out@));
                }
                #[verifier::loop_isolation(false)]
                for i in 0..keys.len()
                    invariant
                        as_ints(keys@) == ks,
                        term_pairs(out@) == term_pairs(old(out)@) + acc,
                        pairs_from(ks, 0, le@, re@, seq![]) == pairs_from(
                            ks,
                            i as int,
                            le@,
                            re@,
                            acc,
                        ),
                        pairs_before_from(ks, 0, le@, re@, seq![]) == pairs_before_from(
                            ks,
                            i as int,
                            le@,
                            re@,
                            acc,
                        ),
                {
                    proof {
                        lemma_listed(le@.dom(), i as int);
                        assert(ks[i as int] == keys@[i as int]);
                    }
                    let key: usize = keys[i] as usize;
                    match (le.get(key), re.get(key)) {
                        (Some(l), Some(r)) => {
                            match l.collect_scalar_pairs_with(r, out) {
                                Ok(()) => {
                                    proof {
                                        let ps = node_pairs(l@, r@)->Ok_0;
                                        assert(term_pairs(old(out)@) + acc + ps =~= term_pairs(
                                            old(out)@,
                                        ) + (acc + ps));
                                        acc = acc + ps;
                                    }
                                },
                                Err(x) => {
                                    proof {
                                        let ps = pairs_before(l@, r@);
                                        assert(term_pairs(old(out)@) + acc + ps =~= term_pairs(
                                            old(out)@,
                                        ) + (acc + ps));
                                    }
                                    return Err(x);
                                },
                            }
                        },
                        _ => return Err(ShapeError::MissingField),
                    }
                }
                Ok(())
            },
            _ => Err(ShapeError::Kind),
        }
    }
}

/// Persistent store mapping variable ids to nodes.
#[derive(Debug)]
pub struct Store {
    /// Nodes of variables, parameters and loop variables by binding id.
    pub vars: FieldMap,
}

impl View for Store {
    type V = Map<int, NodeV>;

    open spec fn view(&self) -> Map<int, NodeV> {
        self.vars@
    }
}

impl Clone for Store {
    fn clone(&self) -> (r: Self)
        ensures
            r@ == self@,
    {
        Store { vars: self.vars.share() }
    }
}

impl Default for Store {
    fn default() -> (r: Self)
        ensures
            r@ == Map::<int, NodeV>::empty(),
    {
        Store { vars: FieldMap::new() }
    }
}

/// The node that a name is bound to.
pub open spec fn node_at(store: Map<int, NodeV>, ref_id: Option<i64>) -> Option<NodeV> {
    match ref_id {
        Some(id) => if store.contains_key(id as int) {
            Some(store[id as int])
        } else {
            None
        },
        None => None,
    }
}

/// The scalar that a name is bound to.
pub open spec fn scalar_at(store: Map<int, NodeV>, ref_id: Option<i64>) -> Result<
    Option<ValueV>,
    ExecError,
> {
    match node_at(store, ref_id) {
        None => Ok(None),
        Some(NodeV::Scalar(v)) => Ok(Some(v)),
        Some(NodeV::Array { .. }) => Err(ExecError::ArrayAsScalar),
        Some(NodeV::Struct { .. }) => Err(ExecError::StructAsScalar),
    }
}

/// A node that was set is read back, and no other binding changes.
pub proof fn set_then_get(store: Map<int, NodeV>, id: i64, node: NodeV, other: i64)
    requires
        other != id,
    ensures
        node_at(store.insert(id as int, node), Some(id)) == Some(node),
        node_at(store.insert(id as int, node), Some(other)) == node_at(store, Some(other)),
{
}

impl Store {
    /// The node of a binding.
    pub fn get(&self, id: i64) -> (r: Option<&StoreNode>)
        ensures
            match r {
                Some(n) => node_at(self@, Some(id)) == Some(n@),
                None => node_at(self@, Some(id)) is None,
            },
    {
        self.vars.get(id)
    }

    /// The store with a binding set.
    pub fn set(self, id: i64, node: StoreNode) -> (r: Self)
        ensures
            r@ == self@.insert(id as int, node@),
    {
        Store { vars: self.vars.update(id, node) }
    }

    /// Resolve a path to a store node.
    pub fn query_scalar_node(&self, e: &Expr) -> (r: Option<&StoreNode>)
        requires
            e@ is Path,
        ensures
            match r {
                Some(n) => node_at(self@, e@->Path_ref_id) == Some(n@),
                None => node_at(self@, e@->Path_ref_id) is None,
            },
    {
        match e {
            Expr::Path { ref_id, .. } => match *ref_id {
                Some(vid) => self.get(vid),
                None => None,
            },
            _ => None,
        }
    }

    /// Load a scalar symbolic value from the store; reject arrays/structs.
    pub fn query_scalar(&self, e: &Expr) -> (r: Result<Option<SymValue>, ExecError>)
        requires
            e@ is Path,
        ensures
            match r {
                Ok(v) => scalar_at(self@, e@->Path_ref_id) == Ok::<Option<ValueV>, ExecError>(
                    some_view(v),
                ),
                Err(x) => scalar_at(self@, e@->Path_ref_id) == Err::<Option<ValueV>, ExecError>(x),
            },
    {
        match self.query_scalar_node(e) {
            None => Ok(None),
            Some(StoreNode::Scalar(v)) => Ok(Some(v.clone())),
            Some(StoreNode::Array { .. }) => Err(ExecError::ArrayAsScalar),
            Some(StoreNode::Struct { .. }) => Err(ExecError::StructAsScalar),
        }
    }
}

} // verus!
