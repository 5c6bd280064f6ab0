//! Store nodes in a symbolic state: lookup, allocation and parameters.

use vstd::prelude::*;
use crate::ast::{Expr, ExprV, Func, Param, ParamV, Type, TypeV, params_of, types_of};
use crate::checker::symbolic::context::{
    field_id_in, lookup, type_of_sort, ContextV, MembersV, PathKind,
};
use crate::checker::symbolic::error::ExecError;
use crate::checker::symbolic::expr::{SymExpr, SymType};
use crate::checker::symbolic::index::{eval_index_const_or_err, index_of};
use crate::checker::symbolic::state::{StateV, SymState};
use crate::checker::symbolic::state_ops::{numbered, symexpr_sort, term_sort};
use crate::checker::symbolic::store::{node_at, no_nodes, ElemMap, FieldMap, NodeV, StoreNode};
use crate::checker::symbolic::value::{SymValue, ValueV};
use crate::name_map::NameMap;
use crate::text::{decimal, same_text};

verus! {

broadcast use crate::ast::lists::group_lists;

/// A field of a struct: its id, its name and its declared type.
pub type FieldShapeV = (i64, Seq<char>, TypeV);

/// The child of a struct node.
pub open spec fn struct_child(node: NodeV, id: i64) -> Option<NodeV> {
    match node {
        NodeV::Struct { fields } => lookup(fields, id as int),
        _ => None,
    }
}

/// The element of an array node.
pub open spec fn array_child(node: NodeV, i: usize) -> Option<NodeV> {
    match node {
        NodeV::Array { elems, .. } => lookup(elems, i as int),
        _ => None,
    }
}

/// The fields among the members of a struct, from member `i` on, behind `acc`.
pub open spec fn field_shapes(
    ctx: ContextV,
    members: MembersV,
    i: int,
    acc: Seq<FieldShapeV>,
) -> Result<Seq<FieldShapeV>, ExecError>
    decreases members.len() - i,
{
    if i < 0 || i >= members.len() {
        Ok(acc)
    } else {
        match field_id_in(members[i].1) {
            Some(fid) => match ctx.declared(fid) {
                Some(ty) => field_shapes(
                    ctx,
                    members,
                    i + 1,
                    acc.push((fid, members[i].0, ty)),
                ),
                None => Err(ExecError::MissingFieldType),
            },
            None => field_shapes(ctx, members, i + 1, acc),
        }
    }
}

impl StateV {
    /// The node that an expression denotes.
    pub open spec fn expr_node(self, e: ExprV) -> Result<Option<NodeV>, ExecError>
        decreases e, 0int,
    {
        match e {
            ExprV::Path { ref_id, .. } => Ok(node_at(self.store, ref_id)),
            ExprV::Field { base, name, .. } => match self.expr_type(*base) {
                Err(x) => Err(x),
                Ok(Some(TypeV::Path { ref_id: Some(sid), .. })) => match self.ctx.field(sid, name) {
                    None => Ok(None),
                    Some(fid) => match self.expr_node(*base) {
                        Err(x) => Err(x),
                        Ok(None) => Ok(None),
                        Ok(Some(parent)) => Ok(struct_child(parent, fid)),
                    },
                },
                Ok(_) => Ok(None),
            },
            ExprV::Index(base, idx) => match index_of(self.ctx, Some(self.store), *idx) {
                Err(x) => Err(x),
                Ok(None) => Err(ExecError::IndexNotConcrete),
                Ok(Some(i)) => match self.expr_node(*base) {
                    Err(x) => Err(x),
                    Ok(None) => Ok(None),
                    Ok(Some(parent)) => Ok(array_child(parent, i)),
                },
            },
            _ => Ok(None),
        }
    }

    /// The type of an expression, by the sort of the scalar it denotes, or else by its
    /// declaration.
    pub open spec fn expr_type(self, e: ExprV) -> Result<Option<TypeV>, ExecError>
        decreases e, 1int,
    {
        match self.expr_node(e) {
            Err(x) => Err(x),
            Ok(Some(NodeV::Scalar(v))) => match term_sort(v.surface) {
                Some(sty) => Ok(Some(type_of_sort(sty))),
                None => Ok(self.ctx.infer(e)),
            },
            Ok(_) => Ok(self.ctx.infer(e)),
        }
    }

    /// How deep structs can nest without one containing itself.
    pub open spec fn nesting(self) -> nat {
        self.ctx.struct_fields.dom().len() + 1
    }

    /// A fresh scalar node of a sort.
    pub open spec fn alloc_scalar(self, name: Seq<char>, hint: Seq<char>, sty: SymType) -> Result<
        (NodeV, StateV),
        ExecError,
    > {
        match self.fresh_var(name, sty) {
            Err(x) => Err(x),
            Ok((t, s)) => match s.packed(t, sty, hint) {
                Err(x) => Err(x),
                Ok((v, s2)) => Ok((NodeV::Scalar(v), s2)),
            },
        }
    }

    /// A fresh node of a type, with structs nested at most `depth` deep.
    pub open spec fn alloc_node(self, hint: Seq<char>, ty: TypeV, depth: nat) -> Result<
        (NodeV, StateV),
        ExecError,
    >
        decreases 2 * depth, ty, 0int,
    {
        match ty {
            TypeV::Path { .. } => match self.ctx.classify(ty) {
                Err(_) => Err(ExecError::InvalidTypeName),
                Ok(PathKind::Builtin) => match self.ctx.sort_of(ty) {
                    None => Err(ExecError::UnmappableType),
                    Some(sty) => self.alloc_scalar(hint, hint, sty),
                },
                Ok(PathKind::Enum(eid)) => self.alloc_scalar(hint, hint, self.ctx.enum_sort(eid)),
                Ok(PathKind::Struct(sid)) => if depth == 0 {
                    Err(ExecError::RecursiveStruct)
                } else {
                    self.alloc_struct(sid, hint, (depth - 1) as nat)
                },
            },
            TypeV::Array(inner, len) => match index_of(self.ctx, None, len) {
                Err(x) => Err(x),
                Ok(None) => Ok((NodeV::Array { len: None, elems: no_nodes() }, self)),
                Ok(Some(n)) => match self.alloc_elems(hint, *inner, 0, n as int, no_nodes(), depth) {
                    Err(x) => Err(x),
                    Ok((elems, s)) => Ok((NodeV::Array { len: Some(n), elems }, s)),
                },
            },
            TypeV::Mapping { .. } => self.alloc_scalar(hint + "_map"@, hint, SymType::F),
            TypeV::Tuple(tys) => match self.alloc_tuple(hint, tys, 0, no_nodes(), depth) {
                Err(x) => Err(x),
                Ok((elems, s)) => Ok((NodeV::Array { len: Some(tys.len() as usize), elems }, s)),
            },
            TypeV::Function { .. } => Err(ExecError::FunctionValue),
        }
    }

    /// Fresh nodes of one type for the indices from `i` up to `n`.
    pub open spec fn alloc_elems(
        self,
        hint: Seq<char>,
        ty: TypeV,
        i: int,
        n: int,
        elems: Map<int, NodeV>,
        depth: nat,
    ) -> Result<(Map<int, NodeV>, StateV), ExecError>
        decreases 2 * depth, ty, n - i + 1,
    {
        if i < 0 || i >= n {
            Ok((elems, self))
        } else {
            match self.alloc_node(hint + "_"@ + decimal(i as nat), ty, depth) {
                Err(x) => Err(x),
                Ok((node, s)) => s.alloc_elems(hint, ty, i + 1, n, elems.insert(i, node), depth),
            }
        }
    }

    /// Fresh nodes of the types from `i` on.
    pub open spec fn alloc_tuple(
        self,
        hint: Seq<char>,
        tys: Seq<TypeV>,
        i: int,
        elems: Map<int, NodeV>,
        depth: nat,
    ) -> Result<(Map<int, NodeV>, StateV), ExecError>
        decreases 2 * depth, tys, tys.len() - i + 1,
    {
        if i < 0 || i >= tys.len() {
            Ok((elems, self))
        } else {
            match self.alloc_node(hint + "_"@ + decimal(i as nat), tys[i], depth) {
                Err(x) => Err(x),
                Ok((node, s)) => s.alloc_tuple(hint, tys, i + 1, elems.insert(i, node), depth),
            }
        }
    }

    /// A fresh struct node, its fields in the order of their declaration.
    pub open spec fn alloc_struct(self, sid: i64, prefix: Seq<char>, depth: nat) -> Result<
        (NodeV, StateV),
        ExecError,
    >
        decreases 2 * depth + 1, Some(0int), 0int,
    {
        let shapes = match lookup(self.ctx.struct_fields, sid) {
            Some(members) => field_shapes(self.ctx, members, 0, seq![]),
            None => Ok(seq![]),
        };
        match shapes {
            Err(x) => Err(x),
            Ok(fs) => match self.alloc_fields(prefix, fs, 0, no_nodes(), depth) {
                Err(x) => Err(x),
                Ok((fields, s)) => Ok((NodeV::Struct { fields }, s)),
            },
        }
    }

    /// Fresh nodes for the fields from `i` on.
    pub open spec fn alloc_fields(
        self,
        prefix: Seq<char>,
        fs: Seq<FieldShapeV>,
        i: int,
        fields: Map<int, NodeV>,
        depth: nat,
    ) -> Result<(Map<int, NodeV>, StateV), ExecError>
        decreases 2 * depth, fs, fs.len() - i + 1,
    {
        if i < 0 || i >= fs.len() {
            Ok((fields, self))
        } else {
            match self.alloc_node(prefix + "_"@ + fs[i].1, fs[i].2, depth) {
                Err(x) => Err(x),
                Ok((node, s)) => s.alloc_fields(
                    prefix,
                    fs,
                    i + 1,
                    fields.insert(fs[i].0 as int, node),
                    depth,
                ),
            }
        }
    }

    /// A fresh node for `self`.
    pub open spec fn alloc_self(self, sid: Option<i64>) -> Result<(NodeV, StateV), ExecError> {
        match sid {
            Some(id) => self.alloc_struct(id, "self"@, self.nesting()),
            None => Ok((NodeV::Struct { fields: no_nodes() }, self)),
        }
    }

    /// A fresh node for a parameter.
    pub open spec fn alloc_param(self, p: ParamV, sid: Option<i64>) -> Result<
        (NodeV, StateV),
        ExecError,
    > {
        match p {
            ParamV::SelfParam { .. } => self.alloc_self(sid),
            ParamV::Typed { name, ty, .. } => self.alloc_node(name, ty, self.nesting()),
        }
    }

    /// The state with a binding set.
    pub open spec fn with_binding(self, id: i64, node: NodeV) -> StateV {
        StateV { store: self.store.insert(id as int, node), ..self }
    }

    /// The state in which the parameters from `i` on are fresh.
    pub open spec fn with_fresh_params(self, params: Seq<ParamV>, i: int, sid: Option<i64>) -> Result<
        StateV,
        ExecError,
    >
        decreases params.len() - i,
    {
        if i < 0 || i >= params.len() {
            Ok(self)
        } else {
            match param_id(params[i]) {
                None => self.with_fresh_params(params, i + 1, sid),
                Some(id) => match self.alloc_param(params[i], sid) {
                    Err(x) => Err(x),
                    Ok((node, s)) => s.with_binding(id, node).with_fresh_params(params, i + 1, sid),
                },
            }
        }
    }

    /// The state in which the parameters from `i` on have the given nodes, or else the ones they
    /// had before, or else fresh ones.
    pub open spec fn with_bound_params(
        self,
        params: Seq<ParamV>,
        i: int,
        bindings: Map<Seq<char>, NodeV>,
        sid: Option<i64>,
    ) -> Result<StateV, ExecError>
        decreases params.len() - i,
    {
        if i < 0 || i >= params.len() {
            Ok(self)
        } else {
            match param_id(params[i]) {
                None => self.with_bound_params(params, i + 1, bindings, sid),
                Some(id) => if bindings.contains_key(param_name(params[i])) {
                    self.with_binding(id, bindings[param_name(params[i])]).with_bound_params(
                        params,
                        i + 1,
                        bindings,
                        sid,
                    )
                } else if self.store.contains_key(id as int) {
                    self.with_bound_params(params, i + 1, bindings, sid)
                } else {
                    match self.alloc_param(params[i], sid) {
                        Err(x) => Err(x),
                        Ok((node, s)) => s.with_binding(id, node).with_bound_params(
                            params,
                            i + 1,
                            bindings,
                            sid,
                        ),
                    }
                },
            }
        }
    }
}

/// The binding id of a parameter.
pub open spec fn param_id(p: ParamV) -> Option<i64> {
    match p {
        ParamV::SelfParam { id } => id,
        ParamV::Typed { id, .. } => id,
    }
}

/// The name of a parameter.
pub open spec fn param_name(p: ParamV) -> Seq<char> {
    match p {
        ParamV::SelfParam { .. } => "self"@,
        ParamV::Typed { name, .. } => name,
    }
}

/// The node of the first bound parameter of a name, from parameter `i` on.
pub open spec fn param_node_from(
    store: Map<int, NodeV>,
    params: Seq<ParamV>,
    i: int,
    name: Seq<char>,
) -> Option<NodeV>
    decreases params.len() - i,
{
    if i < 0 || i >= params.len() {
        None
    } else if param_name(params[i]) == name && node_at(store, param_id(params[i])) is Some {
        node_at(store, param_id(params[i]))
    } else {
        param_node_from(store, params, i + 1, name)
    }
}

/// The nodes in a name map.
pub open spec fn bound_nodes(m: NameMap<StoreNode>) -> Map<Seq<char>, NodeV> {
    m@.map_values(|n: StoreNode| n@)
}

/// The outcome of an allocation.
pub open spec fn node_step(r: Result<(StoreNode, SymState), ExecError>) -> Result<
    (NodeV, StateV),
    ExecError,
> {
    match r {
        Ok((n, s)) => Ok((n@, s@)),
        Err(x) => Err(x),
    }
}

/// The outcome of an operation on a state.
pub open spec fn state_step(r: Result<SymState, ExecError>) -> Result<StateV, ExecError> {
    match r {
        Ok(s) => Ok(s@),
        Err(x) => Err(x),
    }
}

/// The fields of a struct as they are declared.
pub open spec fn shapes_of(v: Seq<(i64, String, Type)>) -> Seq<FieldShapeV> {
    Seq::new(v.len(), |i: int| (v[i].0, v[i].1@, v[i].2@))
}

fn joined_name(prefix: &str, sep: &str, name: &str) -> (r: String)
    ensures
        r@ == prefix@ + sep@ + name@,
{
    let mut s = prefix.to_string();
    s.append(sep);
    s.append(name);
    s
}

impl SymState {
    /// The node that an expression denotes.
    pub fn query_expr_node(&self, e: &Expr) -> (r: Result<Option<&StoreNode>, ExecError>)
        ensures
            match r {
                Ok(Some(n)) => self@.expr_node(e@) == Ok::<Option<NodeV>, ExecError>(Some(n@)),
                Ok(None) => self@.expr_node(e@) == Ok::<Option<NodeV>, ExecError>(None),
                Err(x) => self@.expr_node(e@) == Err::<Option<NodeV>, ExecError>(x),
            },
        decreases e, 0int,
    {
        match e {
            Expr::Path { ref_id, .. } => match *ref_id {
                Some(vid) => Ok(self.store.get(vid)),
                None => Ok(None),
            },
            Expr::Field { base, name, .. } => {
                let sid = match self.infer_expr_type(base)? {
                    Some(Type::Path { ref_id: Some(sid), .. }) => sid,
                    _ => return Ok(None),
                };
                let fid = match self.ctx.field_id_of(sid, name.as_str()) {
                    Some(fid) => fid,
                    None => return Ok(None),
                };
                match self.query_expr_node(base)? {
                    Some(StoreNode::Struct { fields }) => Ok(fields.get(fid)),
                    _ => Ok(None),
                }
            },
            Expr::Index(base, idx) => {
                let i = match eval_index_const_or_err(&self.ctx, Some(&self.store), idx)? {
                    Some(i) => i,
                    None => return Err(ExecError::IndexNotConcrete),
                };
                match self.query_expr_node(base)? {
                    Some(StoreNode::Array { elems, .. }) => Ok(elems.get(i)),
                    _ => Ok(None),
                }
            },
            _ => Ok(None),
        }
    }

    /// Tries to infer expression type using dynamic store information first,
    /// then falls back to static context-based inference.
    pub fn infer_expr_type(&self, e: &Expr) -> (r: Result<Option<Type>, ExecError>)
        ensures
            match r {
                Ok(t) => self@.expr_type(e@) == Ok::<Option<TypeV>, ExecError>(
                    crate::view::some_view(t),
                ),
                Err(x) => self@.expr_type(e@) == Err::<Option<TypeV>, ExecError>(x),
            },
        decreases e, 1int,
    {
        if let Some(StoreNode::Scalar(v)) = self.query_expr_node(e)? {
            if let Some(sty) = symexpr_sort(&v.surface) {
                return Ok(Some(self.ctx.sym_type_to_builtin_type(&sty)));
            }
        }
        Ok(self.ctx.infer_expr_type_static(e))
    }

    /// Returns `true` if the given AST expression has field sort.
    pub fn is_field_expr(&self, e: &Expr) -> (r: Result<bool, ExecError>)
        ensures
            match r {
                Ok(b) => self@.expr_type(e@) is Ok && b == (self@.expr_type(e@)->Ok_0 is Some
                    && self@.ctx.sort_of(self@.expr_type(e@)->Ok_0->0) == Some(SymType::F)),
                Err(x) => self@.expr_type(e@) == Err::<Option<TypeV>, ExecError>(x),
            },
    {
        match self.infer_expr_type(e)? {
            Some(ty) => match self.type_map(&ty) {
                Ok(SymType::F) => Ok(true),
                _ => Ok(false),
            },
            None => Ok(false),
        }
    }

    /// In-place variant of [`SymState::pack_scalar_with_symtype`]; a failure changes nothing.
    pub fn pack_scalar_with_symtype_mut(&mut self, value: SymExpr, sty: &SymType, hint: &str) -> (r: Result<
        SymValue,
        ExecError,
    >)
        ensures
            match r {
                Ok(v) => old(self)@.packed(value@, *sty, hint@) == Ok::<(ValueV, StateV), ExecError>(
                    (v@, final(self)@),
                ),
                Err(x) => old(self)@.packed(value@, *sty, hint@) == Err::<(ValueV, StateV), ExecError>(
                    x,
                ) && final(self)@ == old(self)@,
            },
    {
        let (v, s) = self.clone().pack_scalar_with_symtype(value, sty, hint)?;
        *self = s;
        Ok(v)
    }

    /// In-place variant of [`SymState::pack_scalar_for_type`]; a failure changes nothing.
    pub fn pack_scalar_for_type_mut(&mut self, value: SymExpr, ty: &Type, hint: &str) -> (r: Result<
        SymValue,
        ExecError,
    >)
        ensures
            match r {
                Ok(v) => old(self)@.packed(value@, old(self)@.sort_or_field(ty@), hint@) == Ok::<
                    (ValueV, StateV),
                    ExecError,
                >((v@, final(self)@)),
                Err(x) => old(self)@.packed(value@, old(self)@.sort_or_field(ty@), hint@) == Err::<
                    (ValueV, StateV),
                    ExecError,
                >(x) && final(self)@ == old(self)@,
            },
    {
        let (v, s) = self.clone().pack_scalar_for_type(value, ty, hint)?;
        *self = s;
        Ok(v)
    }

    fn alloc_scalar_node(self, name: &str, hint: &str, sty: SymType) -> (r: Result<
        (StoreNode, SymState),
        ExecError,
    >)
        ensures
            node_step(r) == self@.alloc_scalar(name@, hint@, sty),
    {
        let mut s = self;
        let surface = s.fresh_sym(name, sty)?;
        let (v, s) = s.pack_scalar_with_symtype(surface, &sty, hint)?;
        Ok((StoreNode::scalar(v), s))
    }

    /// Materialize a struct into a persistent node with recursively-typed fields.
    /// Each field node is allocated according to its declared static type.
    fn materialize_struct_node(self, struct_id: i64, prefix: &str, depth: u128) -> (r: Result<
        (StoreNode, SymState),
        ExecError,
    >)
        ensures
            node_step(r) == self@.alloc_struct(struct_id, prefix@, depth as nat),
        decreases 2 * depth + 1, Some(0int), 0int,
    {
        let shapes = self.field_list(struct_id)?;
        let ghost fs = shapes_of(shapes@);
        let ghost start = self@;
        let ghost d = depth as nat;
        let mut s = self;
        let mut fields = FieldMap::new();
        #[verifier::loop_isolation(false)]
        for i in 0..shapes.len()
            invariant
                start.alloc_fields(prefix@, fs, 0, no_nodes(), d) == s@.alloc_fields(
                    prefix@,
                    fs,
                    i as int,
                    fields@,
                    d,
                ),
        {
            let hint = joined_name(prefix, "_", shapes[i].1.as_str());
            let (node, s2) = s.alloc_node_for_type(hint.as_str(), &shapes[i].2, depth)?;
            fields = fields.update(shapes[i].0, node);
            s = s2;
        }
        Ok((StoreNode::Struct { fields }, s))
    }

    /// The fields of a struct with their declared types.
    fn field_list(&self, struct_id: i64) -> (r: Result<Vec<(i64, String, Type)>, ExecError>)
        ensures
            match r {
                Ok(v) => Ok::<Seq<FieldShapeV>, ExecError>(shapes_of(v@)),
                Err(x) => Err(x),
            } == match lookup(self@.ctx.struct_fields, struct_id) {
                Some(members) => field_shapes(self@.ctx, members, 0, seq![]),
                None => Ok(seq![]),
            },
    {
        let mut out: Vec<(i64, String, Type)> = Vec::new();
        proof {
            assert(shapes_of(out@) =~= seq![]);
        }
        if let Some(members) = self.ctx.struct_members(struct_id) {
            let ghost all = members.pairs();
            #[verifier::loop_isolation(false)]
            for i in 0..members.entries.len()
                invariant
                    field_shapes(self@.ctx, all, 0, seq![]) == field_shapes(
                        self@.ctx,
                        all,
                        i as int,
                        shapes_of(out@),
                    ),
            {
                let name = &members.entries[i].0;
                proof {
                    assert(all[i as int] == (name@, members.entries@[i as int].1));
                }
                if let Some(fid) = members.entries[i].1.as_field_id() {
                    match self.ctx.query_type(fid) {
                        Some(ty) => {
                            let ghost before = out@;
                            let ty2 = ty.clone();
                            let name2 = name.clone();
                            out.push((fid, name2, ty2));
                            proof {
                                assert(shapes_of(out@) =~= shapes_of(before).push(
                                    (fid, name@, ty@),
                                ));
                            }
                        },
                        None => {
                            return Err(ExecError::MissingFieldType);
                        },
                    }
                }
            }
        }
        Ok(out)
    }

    fn alloc_elem_nodes(self, hint: &str, ty: &Type, n: usize, depth: u128) -> (r: Result<
        (ElemMap, SymState),
        ExecError,
    >)
        ensures
            match r {
                Ok((m, s)) => self@.alloc_elems(hint@, ty@, 0, n as int, no_nodes(), depth as nat)
                    == Ok::<(Map<int, NodeV>, StateV), ExecError>((m@, s@)),
                Err(x) => self@.alloc_elems(hint@, ty@, 0, n as int, no_nodes(), depth as nat)
                    == Err::<(Map<int, NodeV>, StateV), ExecError>(x),
            },
        decreases 2 * depth, ty, 2int,
    {
        let ghost start = self@;
        let mut s = self;
        let mut elems = ElemMap::new();
        #[verifier::loop_isolation(false)]
        for i in 0..n
            invariant
                start.alloc_elems(hint@, ty@, 0, n as int, no_nodes(), depth as nat)
                    == s@.alloc_elems(hint@, ty@, i as int, n as int, elems@, depth as nat),
        {
            let name = numbered(hint, "_", i);
            let (node, s2) = s.alloc_node_for_type(name.as_str(), ty, depth)?;
            elems = elems.update(i, node);
            s = s2;
        }
        Ok((elems, s))
    }

    fn alloc_tuple_nodes(self, hint: &str, tys: &Vec<Type>, depth: u128) -> (r: Result<
        (ElemMap, SymState),
        ExecError,
    >)
        ensures
            match r {
                Ok((m, s)) => self@.alloc_tuple(hint@, types_of(tys@), 0, no_nodes(), depth as nat)
                    == Ok::<(Map<int, NodeV>, StateV), ExecError>((m@, s@)),
                Err(x) => self@.alloc_tuple(hint@, types_of(tys@), 0, no_nodes(), depth as nat)
                    == Err::<(Map<int, NodeV>, StateV), ExecError>(x),
            },
        decreases 2 * depth, tys, 2int,
    {
        let ghost start = self@;
        let ghost ts = types_of(tys@);
        let mut s = self;
        let mut elems = ElemMap::new();
        #[verifier::loop_isolation(false)]
        for i in 0..tys.len()
            invariant
                start.alloc_tuple(hint@, ts, 0, no_nodes(), depth as nat) == s@.alloc_tuple(
                    hint@,
                    ts,
                    i as int,
                    elems@,
                    depth as nat,
                ),
        {
            let name = numbered(hint, "_", i);
            proof {
                assert(ts[i as int] == tys@[i as int]@);
            }
            let (node, s2) = s.alloc_node_for_type(name.as_str(), &tys[i], depth)?;
            elems = elems.update(i, node);
            s = s2;
        }
        Ok((elems, s))
    }

    /// Allocates a default node according to the declared type (recursive over struct fields).
    pub(crate) fn alloc_node_for_type(self, hint: &str, ty: &Type, depth: u128) -> (r: Result<
        (StoreNode, SymState),
        ExecError,
    >)
        ensures
            node_step(r) == self@.alloc_node(hint@, ty@, depth as nat),
        decreases 2 * depth, ty, 1int,
    {
        match ty {
            Type::Path { .. } => match self.ctx.classify_type(ty) {
                Err(_) => Err(ExecError::InvalidTypeName),
                Ok(PathKind::Builtin) => {
                    let sty = self.type_map(ty)?;
                    self.alloc_scalar_node(hint, hint, sty)
                },
                Ok(PathKind::Enum(eid)) => {
                    let sty = self.ctx.enum_sym_type(eid);
                    self.alloc_scalar_node(hint, hint, sty)
                },
                Ok(PathKind::Struct(sid)) => if depth == 0 {
                    Err(ExecError::RecursiveStruct)
                } else {
                    self.materialize_struct_node(sid, hint, depth - 1)
                },
            },
            Type::Array(inner, len) => match eval_index_const_or_err(&self.ctx, None, len)? {
                None => Ok((StoreNode::array(None), self)),
                Some(n) => {
                    let (elems, s) = self.alloc_elem_nodes(hint, inner, n, depth)?;
                    Ok((StoreNode::Array { len: Some(n), elems }, s))
                },
            },
            Type::Mapping { .. } => {
                let name = joined_name(hint, "_map", "");
                proof {
                    reveal_strlit("");
                    assert(hint@ + "_map"@ + ""@ =~= hint@ + "_map"@);
                }
                self.alloc_scalar_node(name.as_str(), hint, SymType::F)
            },
            Type::Tuple(tys) => {
                let (elems, s) = self.alloc_tuple_nodes(hint, tys, depth)?;
                Ok((StoreNode::Array { len: Some(tys.len()), elems }, s))
            },
            Type::Function { .. } => Err(ExecError::FunctionValue),
        }
    }

    fn max_depth(&self) -> (r: u128)
        ensures
            r == self@.nesting(),
    {
        self.ctx.struct_count() as u128 + 1
    }

    fn alloc_param_node(self, p: &Param, sid: Option<i64>) -> (r: Result<
        (StoreNode, SymState),
        ExecError,
    >)
        ensures
            node_step(r) == self@.alloc_param(p@, sid),
    {
        let depth = self.max_depth();
        match p {
            Param::SelfParam { .. } => match sid {
                Some(id) => self.materialize_struct_node(id, "self", depth),
                None => Ok((StoreNode::structure(), self)),
            },
            Param::Typed { name, ty, .. } => self.alloc_node_for_type(name.as_str(), ty, depth),
        }
    }

    pub(crate) fn set_binding(self, id: i64, node: StoreNode) -> (r: SymState)
        ensures
            r@ == self@.with_binding(id, node@),
    {
        let store = self.store.clone().set(id, node);
        SymState { store, ..self }
    }

    fn init_params(self, func: &Func, sid: Option<i64>) -> (r: Result<SymState, ExecError>)
        ensures
            state_step(r) == self@.with_fresh_params(func@.params, 0, sid),
    {
        let ghost start = self@;
        let ghost ps = params_of(func.params@);
        let mut s = self;
        #[verifier::loop_isolation(false)]
        for i in 0..func.params.len()
            invariant
                start.with_fresh_params(ps, 0, sid) == s@.with_fresh_params(ps, i as int, sid),
        {
            let p = &func.params[i];
            proof {
                assert(ps[i as int] == p@);
            }
            let id = match p {
                Param::SelfParam { id } => *id,
                Param::Typed { id, .. } => *id,
            };
            if let Some(vid) = id {
                let (node, s2) = s.alloc_param_node(p, sid)?;
                s = s2.set_binding(vid, node);
            }
        }
        Ok(s)
    }

    /// Initializes parameters with fresh symbols; a failure changes nothing.
    /// For `self`, when a struct id is given, materializes its fields as fresh scalars.
    pub fn init_params_for_func(&mut self, func: &Func, self_struct_id: Option<i64>) -> (r: Result<
        (),
        ExecError,
    >)
        ensures
            match r {
                Ok(_) => old(self)@.with_fresh_params(func@.params, 0, self_struct_id) == Ok::<
                    StateV,
                    ExecError,
                >(final(self)@),
                Err(x) => old(self)@.with_fresh_params(func@.params, 0, self_struct_id) == Err::<
                    StateV,
                    ExecError,
                >(x) && final(self)@ == old(self)@,
            },
    {
        let s = self.clone().init_params(func, self_struct_id)?;
        *self = s;
        Ok(())
    }

    /// Bind parameters to existing store nodes when provided, allocating any missing ones.
    /// This is useful for reusing symbols across multiple executions (e.g., executor -> chips).
    pub fn bind_params_for_func(
        self,
        func: &Func,
        bindings: &NameMap<StoreNode>,
        self_struct_id: Option<i64>,
    ) -> (r: Result<Self, ExecError>)
        ensures
            state_step(r) == self@.with_bound_params(
                func@.params,
                0,
                bound_nodes(*bindings),
                self_struct_id,
            ),
    {
        let ghost start = self@;
        let ghost ps = params_of(func.params@);
        let ghost bs = bound_nodes(*bindings);
        let mut s = self;
        #[verifier::loop_isolation(false)]
        for i in 0..func.params.len()
            invariant
                start.with_bound_params(ps, 0, bs, self_struct_id) == s@.with_bound_params(
                    ps,
                    i as int,
                    bs,
                    self_struct_id,
                ),
        {
            let p = &func.params[i];
            proof {
                assert(ps[i as int] == p@);
            }
            let (id, name) = match p {
                Param::SelfParam { id } => (*id, "self"),
                Param::Typed { id, name, .. } => (*id, name.as_str()),
            };
            if let Some(vid) = id {
                if let Some(node) = bindings.get(name) {
                    s = s.set_binding(vid, node.clone());
                } else if s.store.get(vid).is_none() {
                    let (node, s2) = s.alloc_param_node(p, self_struct_id)?;
                    s = s2.set_binding(vid, node);
                }
            }
        }
        Ok(s)
    }

    /// Fetch the store node bound to a parameter (by name) after execution.
    pub fn param_node(&self, func: &Func, name: &str) -> (r: Option<&StoreNode>)
        ensures
            match r {
                Some(n) => param_node_from(self@.store, func@.params, 0, name@) == Some(n@),
                None => param_node_from(self@.store, func@.params, 0, name@) is None,
            },
    {
        let ghost ps = params_of(func.params@);
        #[verifier::loop_isolation(false)]
        for i in 0..func.params.len()
            invariant
                param_node_from(self@.store, ps, 0, name@) == param_node_from(
                    self@.store,
                    ps,
                    i as int,
                    name@,
                ),
        {
            let p = &func.params[i];
            proof {
                assert(ps[i as int] == p@);
            }
            let (id, pname) = match p {
                Param::SelfParam { id } => (*id, "self"),
                Param::Typed { id, name, .. } => (*id, name.as_str()),
            };
            if same_text(pname, name) {
                if let Some(vid) = id {
                    if let Some(node) = self.store.get(vid) {
                        return Some(node);
                    }
                }
            }
        }
        None
    }
}

} // verus!
