//! Places: assignment targets, call targets and method receivers.

use vstd::prelude::*;
use crate::ast::{Expr, ExprV, LValue, LValueV, LvTail, LvTailV, Type, TypeV, clone_texts, tails_of};
use crate::checker::symbolic::context::{
    func_id_in, lookup, member_named, Context, ContextV, PathKind,
};
use crate::checker::symbolic::error::ExecError;
use crate::checker::symbolic::expr::{SymExpr, Term};
use crate::checker::symbolic::index::{eval_index_const_or_err, index_of};
use crate::checker::symbolic::state::{StateV, SymState};
use crate::checker::symbolic::store::{node_at, FieldMap, NodeV, Store, StoreNode};
use crate::checker::symbolic::value::{plain_value, SymValue};
use crate::text::texts;

verus! {

broadcast use crate::ast::lists::group_lists;

/// A step from a node to one of its children.
#[derive(Clone, Copy, Debug, PartialEq, Eq, Structural)]
pub enum ReceiverStep {
    Field(i64),
    Index(usize),
}

/// Logical place of a method receiver inside the store:
/// root variable and a sequence of field / index steps.
#[derive(Debug)]
pub struct ReceiverPlace {
    pub root_vid: i64,
    pub steps: Vec<ReceiverStep>,
}

/// Mathematical model of [`ReceiverPlace`].
pub struct PlaceV {
    pub root: i64,
    pub steps: Seq<ReceiverStep>,
}

impl View for ReceiverPlace {
    type V = PlaceV;

    open spec fn view(&self) -> PlaceV {
        PlaceV { root: self.root_vid, steps: self.steps@ }
    }
}

/// The node for a scalar expression.
pub open spec fn scalar_node(t: Term) -> NodeV {
    NodeV::Scalar(plain_value(t))
}

/// Every field of a struct set to the same expression.
pub open spec fn smeared(fields: Map<int, NodeV>, t: Term) -> Map<int, NodeV> {
    fields.map_values(|n: NodeV| scalar_node(t))
}

/// The node after its part at the tails from `i` on has been set.
pub open spec fn written(
    ctx: ContextV,
    store: Map<int, NodeV>,
    node: NodeV,
    ty: TypeV,
    tails: Seq<LvTailV>,
    i: int,
    val: Term,
) -> Result<NodeV, ExecError>
    decreases tails.len() - i,
{
    if i < 0 || i >= tails.len() {
        match node {
            NodeV::Scalar(_) => Ok(scalar_node(val)),
            NodeV::Struct { fields } => if val is Var || val is Ite {
                Ok(NodeV::Struct { fields: smeared(fields, val) })
            } else {
                Err(ExecError::StructNeedsSymbol)
            },
            NodeV::Array { .. } => Err(ExecError::ArrayNeedsElement),
        }
    } else {
        match (node, tails[i]) {
            (NodeV::Struct { fields }, LvTailV::Field { name }) => match ty {
                TypeV::Path { ref_id: Some(sid), .. } => match ctx.field(sid, name) {
                    None => Err(ExecError::UnknownField),
                    Some(fid) => match ctx.declared(fid) {
                        None => Err(ExecError::MissingFieldType),
                        Some(fty) => match lookup(fields, fid as int) {
                            None => Err(ExecError::FieldNotMaterialized),
                            Some(child) => match written(
                                ctx,
                                store,
                                child,
                                fty,
                                tails,
                                i + 1,
                                val,
                            ) {
                                Err(x) => Err(x),
                                Ok(n) => Ok(NodeV::Struct { fields: fields.insert(fid as int, n) }),
                            },
                        },
                    },
                },
                _ => Err(ExecError::FieldOnNonStruct),
            },
            (NodeV::Array { len, elems }, LvTailV::Index(idx)) => match ty {
                TypeV::Array(_, _) => match index_of(ctx, Some(store), idx) {
                    Err(x) => Err(x),
                    Ok(None) => Err(ExecError::IndexNotConcrete),
                    Ok(Some(k)) => if len is Some && k >= len->0 {
                        Err(ExecError::IndexOutOfBounds)
                    } else if i + 1 != tails.len() {
                        Err(ExecError::NestedArrayWrite)
                    } else {
                        Ok(NodeV::Array { len, elems: elems.insert(k as int, scalar_node(val)) })
                    },
                },
                _ => Err(ExecError::IndexOnNonArray),
            },
            (_, LvTailV::MapIndex(_, _)) => Err(ExecError::MapAssignment),
            _ => Err(ExecError::ShapeMismatch),
        }
    }
}

/// The store after an assignment.
#[verifier::opaque]
pub open spec fn assigned(ctx: ContextV, store: Map<int, NodeV>, lv: LValueV, val: Term) -> Result<
    Map<int, NodeV>,
    ExecError,
> {
    match lv.ref_id {
        None => Err(ExecError::UnresolvedId),
        Some(id) => match node_at(store, Some(id)) {
            None => Err(ExecError::UnboundVariable),
            Some(root) => match ctx.declared(id) {
                None => Err(ExecError::NoStaticType),
                Some(ty) => match written(ctx, store, root, ty, lv.tails, 0, val) {
                    Err(x) => Err(x),
                    Ok(n) => Ok(store.insert(id as int, n)),
                },
            },
        },
    }
}

fn smear(fields: &FieldMap, val: &SymExpr) -> (r: FieldMap)
    ensures
        r@ == smeared(fields@, val@),
{
    let keys = fields.keys();
    let mut out = FieldMap::new();
    #[verifier::loop_isolation(false)]
    for i in 0..keys.len()
        invariant
            forall|k: int| #[trigger]
                out@.contains_key(k) <==> (exists|j: int|
                    0 <= j < i && #[trigger] keys@[j] == k),
            forall|k: int| #[trigger] out@.contains_key(k) ==> out@[k] == scalar_node(val@),
    {
        let ghost before = out@;
        let key = keys[i];
        out = out.update(key, StoreNode::scalar(SymValue::plain(val.clone())));
        proof {
            assert forall|k: int| #[trigger]
                out@.contains_key(k) <==> (exists|j: int|
                    0 <= j < i + 1 && #[trigger] keys@[j] == k) by {
                if out@.contains_key(k) {
                    if k == key {
                        assert(keys@[i as int] == k);
                    } else {
                        assert(before.contains_key(k));
                    }
                }
                if exists|j: int| 0 <= j < i + 1 && #[trigger] keys@[j] == k {
                    let j = choose|j: int| 0 <= j < i + 1 && #[trigger] keys@[j] == k;
                    if j < i {
                        assert(before.contains_key(k));
                    }
                }
            }
        }
    }
    proof {
        assert forall|k: int| out@.contains_key(k) == smeared(fields@, val@).contains_key(k) by {
            assert(fields@.contains_key(k) <==> (exists|i: int|
                0 <= i < keys@.len() && #[trigger] keys@[i] == k));
        }
        assert(out@ =~= smeared(fields@, val@));
    }
    out
}

fn write_tail(
    ctx: &Context,
    store: &Store,
    node: StoreNode,
    cur_ty: &Type,
    tails: &Vec<LvTail>,
    i: usize,
    val: SymExpr,
) -> (r: Result<StoreNode, ExecError>)
    requires
        i <= tails@.len(),
    ensures
        crate::view::ok_view(r) == written(
            ctx@,
            store@,
            node@,
            cur_ty@,
            tails_of(tails@),
            i as int,
            val@,
        ),
    decreases tails@.len() - i,
{
    if i == tails.len() {
        return match node {
            StoreNode::Scalar(_) => Ok(StoreNode::scalar(SymValue::plain(val))),
            StoreNode::Struct { fields } => match val {
                SymExpr::Var(..) | SymExpr::Ite(..) => Ok(
                    StoreNode::Struct { fields: smear(&fields, &val) },
                ),
                _ => Err(ExecError::StructNeedsSymbol),
            },
            StoreNode::Array { .. } => Err(ExecError::ArrayNeedsElement),
        };
    }
    proof {
        assert(tails_of(tails@)[i as int] == tails@[i as int]@);
    }
    match (node, &tails[i]) {
        (StoreNode::Struct { fields }, LvTail::Field { name }) => {
            let sid = match cur_ty {
                Type::Path { ref_id: Some(sid), .. } => *sid,
                _ => return Err(ExecError::FieldOnNonStruct),
            };
            let fid = match ctx.field_id_of(sid, name.as_str()) {
                Some(fid) => fid,
                None => return Err(ExecError::UnknownField),
            };
            let fty = match ctx.query_type(fid) {
                Some(t) => t,
                None => return Err(ExecError::MissingFieldType),
            };
            let child = match fields.get(fid) {
                Some(c) => c.clone(),
                None => return Err(ExecError::FieldNotMaterialized),
            };
            let new_child = write_tail(ctx, store, child, fty, tails, i + 1, val)?;
            Ok(StoreNode::Struct { fields: fields.update(fid, new_child) })
        },
        (StoreNode::Array { len, elems }, LvTail::Index(idx)) => {
            match cur_ty {
                Type::Array(_, _) => {},
                _ => return Err(ExecError::IndexOnNonArray),
            }
            let k = match eval_index_const_or_err(ctx, Some(store), idx)? {
                Some(k) => k,
                None => return Err(ExecError::IndexNotConcrete),
            };
            if let Some(l) = len {
                if k >= l {
                    return Err(ExecError::IndexOutOfBounds);
                }
            }
            if tails.len() - i != 1 {
                return Err(ExecError::NestedArrayWrite);
            }
            let cell = StoreNode::scalar(SymValue::plain(val));
            Ok(StoreNode::Array { len, elems: elems.update(k, cell) })
        },
        (_, LvTail::MapIndex(_, _)) => Err(ExecError::MapAssignment),
        _ => Err(ExecError::ShapeMismatch),
    }
}

/// The store after an assignment to a variable or a part of it.
pub fn write_to_lvalue(ctx: &Context, store: Store, lv: &LValue, val: SymExpr) -> (r: Result<
    Store,
    ExecError,
>)
    ensures
        crate::view::ok_view(r) == assigned(ctx@, store@, lv@, val@),
{
    proof {
        reveal(assigned);
    }
    let head_id = match lv.ref_id {
        Some(id) => id,
        None => return Err(ExecError::UnresolvedId),
    };
    let root = match store.get(head_id) {
        Some(n) => n.clone(),
        None => return Err(ExecError::UnboundVariable),
    };
    let ty = match ctx.query_type(head_id) {
        Some(t) => t,
        None => return Err(ExecError::NoStaticType),
    };
    let updated = write_tail(ctx, &store, root, ty, &lv.tails, 0, val)?;
    Ok(store.set(head_id, updated))
}

/// An expression with a tail applied to it.
pub open spec fn with_tail(e: ExprV, t: LvTailV) -> ExprV {
    match t {
        LvTailV::Field { name } => ExprV::Field { base: Box::new(e), name, ref_id: None },
        LvTailV::Index(idx) => ExprV::Index(Box::new(e), Box::new(idx)),
        LvTailV::MapIndex(a, b) => ExprV::MapIndex { base: Box::new(e), keys: seq![a, b] },
    }
}

/// An expression with the tails from `i` on applied to it.
pub open spec fn with_tails(e: ExprV, tails: Seq<LvTailV>, i: int) -> ExprV
    decreases tails.len() - i,
{
    if i < 0 || i >= tails.len() {
        e
    } else {
        with_tails(with_tail(e, tails[i]), tails, i + 1)
    }
}

/// The expression that reads a place.
#[verifier::opaque]
pub open spec fn read_of(lv: LValueV) -> ExprV {
    with_tails(ExprV::Path { segments: lv.head, ref_id: lv.ref_id }, lv.tails, 0)
}

/// The expression that reads a place.
pub fn lvalue_to_expr(lv: &LValue) -> (r: Expr)
    ensures
        r@ == read_of(lv@),
{
    proof {
        reveal(read_of);
    }
    let ghost ts = tails_of(lv.tails@);
    let mut e = Expr::Path { segments: clone_texts(&lv.head), ref_id: lv.ref_id };
    #[verifier::loop_isolation(false)]
    for i in 0..lv.tails.len()
        invariant
            read_of(lv@) == with_tails(e@, ts, i as int),
    {
        proof {
            assert(ts[i as int] == lv.tails@[i as int]@);
        }
        let ghost before = e@;
        e = match &lv.tails[i] {
            LvTail::Field { name } => Expr::Field {
                base: Box::new(e),
                name: name.clone(),
                ref_id: None,
            },
            LvTail::Index(idx) => Expr::Index(Box::new(e), Box::new(idx.clone())),
            LvTail::MapIndex(k1, k2) => {
                let mut keys: Vec<Expr> = Vec::new();
                let a = k1.clone();
                let b = k2.clone();
                keys.push(a);
                keys.push(b);
                proof {
                    assert(crate::ast::exprs_of(keys@) =~= seq![k1@, k2@]);
                }
                Expr::MapIndex { base: Box::new(e), keys }
            },
        };
        proof {
            assert(e@ == with_tail(before, ts[i as int]));
        }
    }
    e
}

/// The method of a struct with a name.
pub open spec fn method_in(ctx: ContextV, sid: i64, name: Seq<char>) -> Result<i64, ExecError> {
    match lookup(ctx.struct_fields, sid) {
        None => Err(ExecError::MissingMembers),
        Some(members) => match member_named(members, name) {
            None => Err(ExecError::UnknownMethod),
            Some(m) => match func_id_in(m) {
                None => Err(ExecError::NotAMethod),
                Some(fid) => Ok(fid),
            },
        },
    }
}

/// The function that a reference already stands for.
pub open spec fn resolved_function(ctx: ContextV, ref_id: Option<i64>) -> Option<i64> {
    match ref_id {
        Some(fid) => if lookup(ctx.fn_sigs, fid) is Some {
            Some(fid)
        } else {
            None
        },
        None => None,
    }
}

/// The struct that an expression names.
pub open spec fn named_struct(ctx: ContextV, e: ExprV) -> Option<i64> {
    match e {
        ExprV::Path { segments, ref_id: Some(sid) } => if segments.len() > 0 && lookup(
            ctx.struct_index,
            segments.last(),
        ) == Some(sid) {
            Some(sid)
        } else {
            None
        },
        _ => None,
    }
}

impl StateV {
    /// The struct type of an expression.
    pub open spec fn struct_of(self, e: ExprV) -> Result<i64, ExecError> {
        match self.expr_type(e) {
            Err(x) => Err(x),
            Ok(None) => Err(ExecError::ReceiverType),
            Ok(Some(ty)) => match self.ctx.classify(ty) {
                Ok(PathKind::Struct(sid)) => Ok(sid),
                _ => Err(ExecError::ReceiverType),
            },
        }
    }

    /// The place that an expression denotes.
    pub open spec fn place_of(self, e: ExprV) -> Result<PlaceV, ExecError>
        decreases e,
    {
        match e {
            ExprV::Path { ref_id: Some(vid), .. } => Ok(PlaceV { root: vid, steps: seq![] }),
            ExprV::Field { base, name, .. } => match self.place_of(*base) {
                Err(x) => Err(x),
                Ok(p) => match self.struct_of(*base) {
                    Err(x) => Err(x),
                    Ok(sid) => match self.ctx.field(sid, name) {
                        None => Err(ExecError::UnknownField),
                        Some(fid) => Ok(
                            PlaceV { root: p.root, steps: p.steps.push(ReceiverStep::Field(fid)) },
                        ),
                    },
                },
            },
            ExprV::Index(base, idx) => match self.place_of(*base) {
                Err(x) => Err(x),
                Ok(p) => match index_of(self.ctx, Some(self.store), *idx) {
                    Err(x) => Err(x),
                    Ok(None) => Err(ExecError::IndexNotConcrete),
                    Ok(Some(i)) => Ok(
                        PlaceV { root: p.root, steps: p.steps.push(ReceiverStep::Index(i)) },
                    ),
                },
            },
            _ => Err(ExecError::NotAPlace),
        }
    }

    /// The function that a callee expression stands for, and its receiver, if it has one.
    #[verifier::opaque]
    pub open spec fn callee_of(self, e: ExprV) -> Result<(i64, Option<PlaceV>), ExecError> {
        match e {
            ExprV::Path { segments, ref_id } => match resolved_function(self.ctx, ref_id) {
                Some(fid) => Ok((fid, None)),
                None => if segments.len() >= 2 && lookup(
                    self.ctx.struct_index,
                    segments[segments.len() - 2],
                ) is Some {
                    match method_in(
                        self.ctx,
                        lookup(self.ctx.struct_index, segments[segments.len() - 2])->0,
                        segments.last(),
                    ) {
                        Err(x) => Err(x),
                        Ok(fid) => Ok((fid, None)),
                    }
                } else {
                    Err(ExecError::UnsupportedCallee)
                },
            },
            ExprV::Field { base, name, ref_id } => match named_struct(self.ctx, *base) {
                Some(sid) => match resolved_function(self.ctx, ref_id) {
                    Some(fid) => Ok((fid, None)),
                    None => match method_in(self.ctx, sid, name) {
                        Err(x) => Err(x),
                        Ok(fid) => Ok((fid, None)),
                    },
                },
                None => match self.struct_of(*base) {
                    Err(x) => Err(x),
                    Ok(sid) => match self.place_of(*base) {
                        Err(x) => Err(x),
                        Ok(p) => match resolved_function(self.ctx, ref_id) {
                            Some(fid) => Ok((fid, Some(p))),
                            None => match method_in(self.ctx, sid, name) {
                                Err(x) => Err(x),
                                Ok(fid) => Ok((fid, Some(p))),
                            },
                        },
                    },
                },
            },
            _ => Err(ExecError::UnsupportedCallee),
        }
    }
}

fn find_method(ctx: &Context, sid: i64, name: &str) -> (r: Result<i64, ExecError>)
    ensures
        r == method_in(ctx@, sid, name@),
{
    match ctx.struct_members(sid) {
        None => Err(ExecError::MissingMembers),
        Some(members) => match members.get(name) {
            None => Err(ExecError::UnknownMethod),
            Some(m) => match m.as_func_id() {
                None => Err(ExecError::NotAMethod),
                Some(fid) => Ok(fid),
            },
        },
    }
}

fn known_function(ctx: &Context, ref_id: Option<i64>) -> (r: Option<i64>)
    ensures
        r == resolved_function(ctx@, ref_id),
{
    match ref_id {
        Some(fid) => if ctx.fn_sig(fid).is_some() {
            Some(fid)
        } else {
            None
        },
        None => None,
    }
}

fn struct_named(ctx: &Context, e: &Expr) -> (r: Option<i64>)
    ensures
        r == named_struct(ctx@, e@),
{
    match e {
        Expr::Path { segments, ref_id: Some(sid) } => {
            if segments.len() == 0 {
                return None;
            }
            let last = &segments[segments.len() - 1];
            proof {
                assert(texts(segments@).last() == last@);
            }
            match ctx.struct_id_by_name(last.as_str()) {
                Some(id) => if id == *sid {
                    Some(id)
                } else {
                    None
                },
                None => None,
            }
        },
        _ => None,
    }
}

fn struct_type_of(state: &SymState, e: &Expr) -> (r: Result<i64, ExecError>)
    ensures
        r == state@.struct_of(e@),
{
    match state.infer_expr_type(e)? {
        None => Err(ExecError::ReceiverType),
        Some(ty) => match state.ctx.classify_type(&ty) {
            Ok(PathKind::Struct(sid)) => Ok(sid),
            _ => Err(ExecError::ReceiverType),
        },
    }
}

/// Decompose a place-like expression (path / field / index chain)
/// into a root binding id and a sequence of concrete steps.
pub fn build_receiver_place(state: &SymState, e: &Expr) -> (r: Result<ReceiverPlace, ExecError>)
    ensures
        crate::view::ok_view(r) == state@.place_of(e@),
    decreases e,
{
    match e {
        Expr::Path { ref_id: Some(vid), .. } => Ok(
            ReceiverPlace { root_vid: *vid, steps: Vec::new() },
        ),
        Expr::Field { base, name, .. } => {
            let mut p = build_receiver_place(state, base)?;
            let sid = struct_type_of(state, base)?;
            match state.ctx.field_id_of(sid, name.as_str()) {
                None => Err(ExecError::UnknownField),
                Some(fid) => {
                    p.steps.push(ReceiverStep::Field(fid));
                    Ok(p)
                },
            }
        },
        Expr::Index(base, idx) => {
            let mut p = build_receiver_place(state, base)?;
            match eval_index_const_or_err(&state.ctx, Some(&state.store), idx)? {
                None => Err(ExecError::IndexNotConcrete),
                Some(i) => {
                    p.steps.push(ReceiverStep::Index(i));
                    Ok(p)
                },
            }
        },
        _ => Err(ExecError::NotAPlace),
    }
}

/// The function and receiver of a call.
pub open spec fn callee_view(r: Result<(i64, Option<ReceiverPlace>), ExecError>) -> Result<
    (i64, Option<PlaceV>),
    ExecError,
> {
    match r {
        Ok((fid, p)) => Ok((fid, crate::view::some_view(p))),
        Err(x) => Err(x),
    }
}

/// Resolves a callee expression in either statement or expression position.
///
/// Returns the function identifier and, for method calls, the logical
/// location of the receiver inside the store.
pub fn resolve_callee_expr(state: &SymState, callee: &Expr) -> (r: Result<
    (i64, Option<ReceiverPlace>),
    ExecError,
>)
    ensures
        callee_view(r) == state@.callee_of(callee@),
{
    proof {
        reveal(StateV::callee_of);
    }
    match callee {
        Expr::Path { segments, ref_id } => {
            if let Some(fid) = known_function(&state.ctx, *ref_id) {
                return Ok((fid, None));
            }
            let n = segments.len();
            if n >= 2 {
                proof {
                    assert(texts(segments@)[n - 2] == segments@[n - 2]@);
                    assert(texts(segments@).last() == segments@[n - 1]@);
                }
                if let Some(sid) = state.ctx.struct_id_by_name(segments[n - 2].as_str()) {
                    let fid = find_method(&state.ctx, sid, segments[n - 1].as_str())?;
                    return Ok((fid, None));
                }
            }
            Err(ExecError::UnsupportedCallee)
        },
        Expr::Field { base, name, ref_id } => {
            if let Some(sid) = struct_named(&state.ctx, base) {
                if let Some(fid) = known_function(&state.ctx, *ref_id) {
                    return Ok((fid, None));
                }
                let fid = find_method(&state.ctx, sid, name.as_str())?;
                return Ok((fid, None));
            }
            let sid = struct_type_of(state, base)?;
            let place = build_receiver_place(state, base)?;
            if let Some(fid) = known_function(&state.ctx, *ref_id) {
                return Ok((fid, Some(place)));
            }
            let fid = find_method(&state.ctx, sid, name.as_str())?;
            Ok((fid, Some(place)))
        },
        _ => Err(ExecError::UnsupportedCallee),
    }
}

/// The node at the end of the steps from `i` on.
pub open spec fn node_below(node: NodeV, steps: Seq<ReceiverStep>, i: int) -> Result<
    NodeV,
    ExecError,
>
    decreases steps.len() - i,
{
    if i < 0 || i >= steps.len() {
        Ok(node)
    } else {
        match (steps[i], node) {
            (ReceiverStep::Field(fid), NodeV::Struct { fields }) => match lookup(
                fields,
                fid as int,
            ) {
                None => Err(ExecError::FieldNotMaterialized),
                Some(child) => node_below(child, steps, i + 1),
            },
            (ReceiverStep::Index(k), NodeV::Array { len, elems }) => if len is Some && k
                >= len->0 {
                Err(ExecError::IndexOutOfBounds)
            } else {
                match lookup(elems, k as int) {
                    None => Err(ExecError::ElementNotMaterialized),
                    Some(child) => node_below(child, steps, i + 1),
                }
            },
            _ => Err(ExecError::ShapeMismatch),
        }
    }
}

/// The node with the part at the end of the steps from `i` on replaced.
pub open spec fn replaced_below(
    node: NodeV,
    steps: Seq<ReceiverStep>,
    i: int,
    leaf: NodeV,
) -> Result<NodeV, ExecError>
    decreases steps.len() - i,
{
    if i < 0 || i >= steps.len() {
        Ok(leaf)
    } else {
        match (steps[i], node) {
            (ReceiverStep::Field(fid), NodeV::Struct { fields }) => match lookup(
                fields,
                fid as int,
            ) {
                None => Err(ExecError::FieldNotMaterialized),
                Some(child) => match replaced_below(child, steps, i + 1, leaf) {
                    Err(x) => Err(x),
                    Ok(n) => Ok(NodeV::Struct { fields: fields.insert(fid as int, n) }),
                },
            },
            (ReceiverStep::Index(k), NodeV::Array { len, elems }) => match lookup(
                elems,
                k as int,
            ) {
                None => Err(ExecError::ElementNotMaterialized),
                Some(child) => match replaced_below(child, steps, i + 1, leaf) {
                    Err(x) => Err(x),
                    Ok(n) => Ok(NodeV::Array { len, elems: elems.insert(k as int, n) }),
                },
            },
            _ => Err(ExecError::ShapeMismatch),
        }
    }
}

/// The node at a place.
#[verifier::opaque]
pub open spec fn loaded(store: Map<int, NodeV>, p: PlaceV) -> Result<NodeV, ExecError> {
    match node_at(store, Some(p.root)) {
        None => Err(ExecError::UnboundVariable),
        Some(root) => node_below(root, p.steps, 0),
    }
}

/// The store with the node at a place replaced.
#[verifier::opaque]
pub open spec fn stored(store: Map<int, NodeV>, p: PlaceV, node: NodeV) -> Result<
    Map<int, NodeV>,
    ExecError,
> {
    match node_at(store, Some(p.root)) {
        None => Err(ExecError::UnboundVariable),
        Some(root) => match replaced_below(root, p.steps, 0, node) {
            Err(x) => Err(x),
            Ok(n) => Ok(store.insert(p.root as int, n)),
        },
    }
}

proof fn lemma_replaced_below(node: NodeV, steps: Seq<ReceiverStep>, i: int, leaf: NodeV)
    requires
        0 <= i <= steps.len(),
        node_below(node, steps, i) is Ok,
    ensures
        replaced_below(node, steps, i, leaf) is Ok,
        node_below(replaced_below(node, steps, i, leaf)->Ok_0, steps, i) == Ok::<NodeV, ExecError>(
            leaf,
        ),
    decreases steps.len() - i,
{
    if i < steps.len() {
        match (steps[i], node) {
            (ReceiverStep::Field(fid), NodeV::Struct { fields }) => {
                lemma_replaced_below(fields[fid as int], steps, i + 1, leaf);
            },
            (ReceiverStep::Index(k), NodeV::Array { len, elems }) => {
                lemma_replaced_below(elems[k as int], steps, i + 1, leaf);
            },
            _ => {},
        }
    }
}

/// Writing back to a place that can be read succeeds, and what was written is read back.
pub proof fn write_back_then_load(store: Map<int, NodeV>, p: PlaceV, node: NodeV)
    requires
        loaded(store, p) is Ok,
    ensures
        stored(store, p, node) is Ok,
        loaded(stored(store, p, node)->Ok_0, p) == Ok::<NodeV, ExecError>(node),
{
    reveal(loaded);
    reveal(stored);
    lemma_replaced_below(store[p.root as int], p.steps, 0, node);
}

/// Load the store node at the receiver place.
pub fn load_receiver_node(store: &Store, place: &ReceiverPlace) -> (r: Result<StoreNode, ExecError>)
    ensures
        crate::view::ok_view(r) == loaded(store@, place@),
{
    proof {
        reveal(loaded);
    }
    let mut node = match store.get(place.root_vid) {
        Some(n) => n.clone(),
        None => return Err(ExecError::UnboundVariable),
    };
    #[verifier::loop_isolation(false)]
    for i in 0..place.steps.len()
        invariant
            loaded(store@, place@) == node_below(node@, place.steps@, i as int),
    {
        node = match (place.steps[i], &node) {
            (ReceiverStep::Field(fid), StoreNode::Struct { fields }) => match fields.get(fid) {
                Some(child) => child.clone(),
                None => return Err(ExecError::FieldNotMaterialized),
            },
            (ReceiverStep::Index(k), StoreNode::Array { len, elems }) => {
                if let Some(l) = *len {
                    if k >= l {
                        return Err(ExecError::IndexOutOfBounds);
                    }
                }
                match elems.get(k) {
                    Some(child) => child.clone(),
                    None => return Err(ExecError::ElementNotMaterialized),
                }
            },
            _ => return Err(ExecError::ShapeMismatch),
        };
    }
    Ok(node)
}

fn write_rec(cur: StoreNode, steps: &Vec<ReceiverStep>, i: usize, leaf: StoreNode) -> (r: Result<
    StoreNode,
    ExecError,
>)
    requires
        i <= steps@.len(),
    ensures
        crate::view::ok_view(r) == replaced_below(cur@, steps@, i as int, leaf@),
    decreases steps@.len() - i,
{
    if i == steps.len() {
        return Ok(leaf);
    }
    match (steps[i], cur) {
        (ReceiverStep::Field(fid), StoreNode::Struct { fields }) => {
            let child = match fields.get(fid) {
                Some(c) => c.clone(),
                None => return Err(ExecError::FieldNotMaterialized),
            };
            let updated = write_rec(child, steps, i + 1, leaf)?;
            Ok(StoreNode::Struct { fields: fields.update(fid, updated) })
        },
        (ReceiverStep::Index(k), StoreNode::Array { len, elems }) => {
            let child = match elems.get(k) {
                Some(c) => c.clone(),
                None => return Err(ExecError::ElementNotMaterialized),
            };
            let updated = write_rec(child, steps, i + 1, leaf)?;
            Ok(StoreNode::Array { len, elems: elems.update(k, updated) })
        },
        _ => Err(ExecError::ShapeMismatch),
    }
}

/// Write back an updated node to the receiver place.
pub fn store_receiver_node(store: Store, place: &ReceiverPlace, new_node: StoreNode) -> (r: Result<
    Store,
    ExecError,
>)
    ensures
        crate::view::ok_view(r) == stored(store@, place@, new_node@),
{
    proof {
        reveal(stored);
    }
    let root = match store.get(place.root_vid) {
        Some(n) => n.clone(),
        None => return Err(ExecError::UnboundVariable),
    };
    let updated = write_rec(root, &place.steps, 0, new_node)?;
    Ok(store.set(place.root_vid, updated))
}

} // verus!
