//! Queries on syntax trees.

use vstd::prelude::*;
use crate::ast::{
    items_of, params_of, Expr, ExprV, File, Func, IOType, Item, ItemV, Member, MemberV, Param,
    ParamV, Query, QueryV, Type, TypeV,
};
use crate::checker::symbolic::error::ExecError;
use crate::text::{same_text, texts};

verus! {

/// Why a query path does not name a parameter.
#[derive(Clone, Copy, Debug, PartialEq, Eq, Structural)]
pub enum QueryPathError {
    /// Only single-segment paths are supported.
    Nested,
    /// The path is `self`, but there is no resolved `self` parameter.
    NoSelf,
    /// No parameter has the name.
    NoParam,
}

/// Identifier, name, members and query of a component.
pub type ComponentV = (Option<i64>, Seq<char>, Seq<MemberV>, Option<QueryV>);

/// The components among a list of items, in order.
pub open spec fn components_of(items: Seq<ItemV>) -> Seq<ComponentV>
    decreases items.len(),
{
    if items.len() == 0 {
        seq![]
    } else {
        let rest = components_of(items.drop_last());
        match items.last() {
            ItemV::Component { id, name, members, query } => rest.push((id, name, members, query)),
            _ => rest,
        }
    }
}

/// What a borrowed component stands for.
pub open spec fn component_view(
    c: (Option<i64>, &String, &Vec<Member>, &Option<Query>),
) -> ComponentV {
    (
        c.0,
        c.1@,
        crate::ast::members_of(c.2@),
        match *c.3 {
            Some(q) => Some(q@),
            None => None,
        },
    )
}

impl File {
    /// All components, with identifier, name, members and query.
    pub fn components(&self) -> (r: Vec<(Option<i64>, &String, &Vec<Member>, &Option<Query>)>)
        ensures
            r@.map_values(|c| component_view(c)) == components_of(self@.items),
    {
        let mut out: Vec<(Option<i64>, &String, &Vec<Member>, &Option<Query>)> = Vec::new();
        let ghost items = items_of(self.items@);
        proof {
            assert(out@.map_values(|c| component_view(c)) =~= components_of(items.take(0)));
        }
        #[verifier::loop_isolation(false)]
        for i in 0..self.items.len()
            invariant
                out@.map_values(|c| component_view(c)) == components_of(items.take(i as int)),
        {
            let ghost before = out@;
            proof {
                assert(items.take(i + 1).drop_last() =~= items.take(i as int));
                assert(items.take(i + 1).last() == self.items@[i as int]@);
            }
            match &self.items[i] {
                Item::Component { id, name, members, query } => {
                    out.push((*id, name, members, query));
                    proof {
                        assert(out@.map_values(|c| component_view(c)) =~= before.map_values(
                            |c| component_view(c),
                        ).push(component_view((*id, name, members, query))));
                    }
                },
                _ => {},
            }
        }
        proof {
            assert(items.take(items.len() as int) =~= items);
        }
        out
    }
}

/// The function of a member.
pub open spec fn member_func(m: MemberV) -> crate::ast::FuncV {
    match m {
        MemberV::Computation(f) => f,
        MemberV::Constraint(f) => f,
    }
}

impl Member {
    /// Returns the identifier name of the function contained in this member.
    pub fn name(&self) -> (r: &str)
        ensures
            r@ == member_func(self@).name,
    {
        self.as_func().name.as_str()
    }

    /// Return the underlying function definition, abstracting over
    /// computation and constraint members.
    pub fn as_func(&self) -> (r: &Func)
        ensures
            r@ == member_func(self@),
    {
        match self {
            Member::Computation(f) => f,
            Member::Constraint(f) => f,
        }
    }
}

/// Whether a type can be used without allocation.
pub open spec fn not_composite(ty: TypeV) -> Result<(), ExecError> {
    match ty {
        TypeV::Array(_, _) => Err(ExecError::ArrayTypeUnsupported),
        TypeV::Mapping { .. } => Err(ExecError::MapTypeUnsupported),
        TypeV::Tuple(_) => Err(ExecError::TupleTypeUnsupported),
        TypeV::Function { .. } => Err(ExecError::FunctionTypeUnsupported),
        TypeV::Path { .. } => Ok(()),
    }
}

impl Type {
    /// Ensures this type is a named type.
    pub fn assert_not_composite(&self) -> (r: Result<(), ExecError>)
        ensures
            r == not_composite(self@),
    {
        match self {
            Type::Array(_, _) => Err(ExecError::ArrayTypeUnsupported),
            Type::Mapping { .. } => Err(ExecError::MapTypeUnsupported),
            Type::Tuple(_) => Err(ExecError::TupleTypeUnsupported),
            Type::Function { .. } => Err(ExecError::FunctionTypeUnsupported),
            Type::Path { .. } => Ok(()),
        }
    }

    /// Rejects function-typed variables in declarations.
    pub fn assert_not_function(&self) -> (r: Result<(), ExecError>)
        ensures
            r == if self@ is Function {
                Err::<(), ExecError>(ExecError::FunctionTypeNotAllowed)
            } else {
                Ok(())
            },
    {
        match self {
            Type::Function { .. } => Err(ExecError::FunctionTypeNotAllowed),
            _ => Ok(()),
        }
    }
}

/// The role of the parameter that a query path starts with; `self` has none.
pub open spec fn param_io(params: Seq<ParamV>, path: Seq<Seq<char>>) -> Option<IOType>
    decreases params.len(),
{
    if path.len() == 0 || params.len() == 0 {
        None
    } else {
        match params[0] {
            ParamV::SelfParam { .. } => if path[0] == "self"@ {
                None
            } else {
                param_io(params.skip(1), path)
            },
            ParamV::Typed { name, io, .. } => if name == path[0] {
                Some(io)
            } else {
                param_io(params.skip(1), path)
            },
        }
    }
}

/// The binding of the parameter that answers to `head`: the first match with a resolved id.
pub open spec fn param_binding(params: Seq<ParamV>, head: Seq<char>) -> Option<i64>
    decreases params.len(),
{
    if params.len() == 0 {
        None
    } else {
        match params[0] {
            ParamV::SelfParam { id: Some(vid) } => if head == "self"@ {
                Some(vid)
            } else {
                param_binding(params.skip(1), head)
            },
            ParamV::Typed { id: Some(vid), name, .. } => if head != "self"@ && name == head {
                Some(vid)
            } else {
                param_binding(params.skip(1), head)
            },
            _ => param_binding(params.skip(1), head),
        }
    }
}

/// The expression that a query path denotes inside a function.
pub open spec fn query_expr(params: Seq<ParamV>, path: Seq<Seq<char>>) -> Result<
    ExprV,
    QueryPathError,
> {
    if path.len() != 1 {
        Err(QueryPathError::Nested)
    } else {
        match param_binding(params, path[0]) {
            Some(vid) => Ok(ExprV::Path { segments: seq![path[0]], ref_id: Some(vid) }),
            None => if path[0] == "self"@ {
                Err(QueryPathError::NoSelf)
            } else {
                Err(QueryPathError::NoParam)
            },
        }
    }
}

/// The expressions of several query paths; the first failure decides.
pub open spec fn query_exprs(params: Seq<ParamV>, paths: Seq<Seq<Seq<char>>>) -> Result<
    Seq<ExprV>,
    QueryPathError,
>
    decreases paths.len(),
{
    if paths.len() == 0 {
        Ok(seq![])
    } else {
        match query_exprs(params, paths.drop_last()) {
            Ok(es) => match query_expr(params, paths.last()) {
                Ok(e) => Ok(es.push(e)),
                Err(x) => Err(x),
            },
            Err(x) => Err(x),
        }
    }
}

/// The first failure among query paths.
proof fn lemma_query_exprs_fail(params: Seq<ParamV>, paths: Seq<Seq<Seq<char>>>, i: int)
    requires
        0 <= i <= paths.len(),
        query_exprs(params, paths.take(i)) is Err,
    ensures
        query_exprs(params, paths) == query_exprs(params, paths.take(i)),
    decreases paths.len() - i,
{
    if i == paths.len() {
        assert(paths.take(i) =~= paths);
    } else {
        assert(paths.take(i + 1).drop_last() =~= paths.take(i));
        lemma_query_exprs_fail(params, paths, i + 1);
    }
}

impl Func {
    /// Return the IO role for a scalar parameter referenced by a query path.
    /// `self` is handled via struct field IO and returns `None`.
    pub fn param_io_for_query_path(&self, path: &[String]) -> (r: Option<IOType>)
        ensures
            r == param_io(self@.params, texts(path@)),
    {
        if path.len() == 0 {
            return None;
        }
        let ghost params = params_of(self.params@);
        let ghost all = texts(path@);
        proof {
            assert(params.skip(0) =~= params);
        }
        #[verifier::loop_isolation(false)]
        for i in 0..self.params.len()
            invariant
                param_io(params, all) == param_io(params.skip(i as int), all),
        {
            proof {
                assert(params.skip(i as int)[0] == self.params@[i as int]@);
                assert(params.skip(i as int).skip(1) =~= params.skip(i + 1));
            }
            match &self.params[i] {
                Param::SelfParam { .. } => {
                    if same_text(path[0].as_str(), "self") {
                        return None;
                    }
                },
                Param::Typed { name, io, .. } => {
                    if same_text(name.as_str(), path[0].as_str()) {
                        return Some(*io);
                    }
                },
            }
        }
        None
    }

    fn find_param(&self, head: &str) -> (r: Option<i64>)
        ensures
            r == param_binding(self@.params, head@),
    {
        let is_self = same_text(head, "self");
        let ghost params = params_of(self.params@);
        proof {
            assert(params.skip(0) =~= params);
        }
        #[verifier::loop_isolation(false)]
        for i in 0..self.params.len()
            invariant
                param_binding(params, head@) == param_binding(params.skip(i as int), head@),
        {
            proof {
                assert(params.skip(i as int)[0] == self.params@[i as int]@);
                assert(params.skip(i as int).skip(1) =~= params.skip(i + 1));
            }
            match &self.params[i] {
                Param::SelfParam { id: Some(vid) } => {
                    if is_self {
                        return Some(*vid);
                    }
                },
                Param::Typed { id: Some(vid), name, .. } => {
                    if !is_self && same_text(name.as_str(), head) {
                        return Some(*vid);
                    }
                },
                _ => {},
            }
        }
        None
    }

    /// Translate a query-side path (e.g., `self` or `cols`) into an expression that references
    /// the corresponding parameter binding inside this function.
    pub fn query_path_to_param_expr(&self, path: &[String]) -> (r: Result<Expr, QueryPathError>)
        ensures
            match r {
                Ok(e) => query_expr(self@.params, texts(path@)) == Ok::<ExprV, QueryPathError>(e@),
                Err(x) => query_expr(self@.params, texts(path@)) == Err::<ExprV, QueryPathError>(x),
            },
    {
        if path.len() != 1 {
            return Err(QueryPathError::Nested);
        }
        match self.find_param(path[0].as_str()) {
            Some(vid) => {
                let mut segments: Vec<String> = Vec::new();
                segments.push(path[0].clone());
                proof {
                    assert(texts(segments@) =~= seq![texts(path@)[0]]);
                }
                Ok(Expr::Path { segments, ref_id: Some(vid) })
            },
            None => if same_text(path[0].as_str(), "self") {
                Err(QueryPathError::NoSelf)
            } else {
                Err(QueryPathError::NoParam)
            },
        }
    }

    /// Batch-resolve all query root paths to parameter expressions.
    pub fn query_root_exprs(&self, paths: &[Vec<String>]) -> (r: Result<Vec<Expr>, QueryPathError>)
        ensures
            match r {
                Ok(es) => query_exprs(self@.params, crate::ast::paths_of(paths@)) == Ok::<
                    Seq<ExprV>,
                    QueryPathError,
                >(crate::ast::exprs_of(es@)),
                Err(x) => query_exprs(self@.params, crate::ast::paths_of(paths@)) == Err::<
                    Seq<ExprV>,
                    QueryPathError,
                >(x),
            },
    {
        proof {
            broadcast use crate::ast::lists::group_lists;

        }
        let ghost ps = crate::ast::paths_of(paths@);
        let mut out: Vec<Expr> = Vec::new();
        proof {
            assert(ps.take(0) =~= seq![]);
            assert(crate::ast::exprs_of(out@) =~= seq![]);
        }
        #[verifier::loop_isolation(false)]
        for i in 0..paths.len()
            invariant
                query_exprs(self@.params, ps.take(i as int)) == Ok::<Seq<ExprV>, QueryPathError>(
                    crate::ast::exprs_of(out@),
                ),
        {
            proof {
                assert(ps.take(i + 1).drop_last() =~= ps.take(i as int));
                assert(ps.take(i + 1).last() == texts(paths@[i as int]@));
            }
            match self.query_path_to_param_expr(paths[i].as_slice()) {
                Ok(e) => out.push(e),
                Err(x) => {
                    proof {
                        lemma_query_exprs_fail(self@.params, ps, i + 1);
                    }
                    return Err(x);
                },
            }
        }
        proof {
            assert(ps.take(ps.len() as int) =~= ps);
        }
        Ok(out)
    }
}

} // verus!
