//! What queries on syntax trees find.

use vstd::prelude::*;
use crate::ast::helpers::{
    components_of, not_composite, param_binding, param_io, query_expr, query_exprs, ComponentV,
    QueryPathError,
};
use crate::ast::{ExprV, IOType, ItemV, ParamV, TypeV};

verus! {

/// The components of two lists of items, one behind the other, are the components of the one and
/// those of the other; an item that is no component adds none.
pub proof fn components_keep_their_order(a: Seq<ItemV>, b: Seq<ItemV>, item: ItemV)
    ensures
        components_of(a + b) == components_of(a) + components_of(b),
        components_of(seq![item]).len() == (if item is Component {
            1nat
        } else {
            0nat
        }),
        item is Component ==> components_of(seq![item])[0] == (
            item->Component_id,
            item->Component_name,
            item->members,
            item->query,
        ),
    decreases b.len(),
{
    assert(seq![item].drop_last() =~= seq![]);
    assert(components_of(seq![item].drop_last()) =~= seq![]);
    if b.len() == 0 {
        assert(a + b =~= a);
        assert(components_of(a) + Seq::<ComponentV>::empty() =~= components_of(a));
    } else {
        components_keep_their_order(a, b.drop_last(), item);
        assert((a + b).drop_last() =~= a + b.drop_last());
        assert((a + b).last() == b.last());
        assert(components_of(a + b) =~= components_of(a) + components_of(b));
    }
}

/// Only named types are not composite.
pub proof fn only_named_types_are_simple(ty: TypeV)
    ensures
        not_composite(ty) is Ok <==> ty is Path,
{
}

/// The parameter goes by the name; `self` goes by its own.
pub open spec fn goes_by(p: ParamV, head: Seq<char>) -> bool {
    match p {
        ParamV::SelfParam { .. } => head == "self"@,
        ParamV::Typed { name, .. } => name == head && head != "self"@,
    }
}

/// The number of a parameter, if it has been given one.
pub open spec fn number_of(p: ParamV) -> Option<i64> {
    match p {
        ParamV::SelfParam { id } => id,
        ParamV::Typed { id, .. } => id,
    }
}

/// The first parameter that goes by the name and has a number.
pub open spec fn is_first_bound(params: Seq<ParamV>, head: Seq<char>, i: int) -> bool {
    &&& 0 <= i < params.len()
    &&& goes_by(params[i], head)
    &&& number_of(params[i]) is Some
    &&& forall|j: int|
        0 <= j < i ==> !(goes_by(#[trigger] params[j], head) && number_of(params[j]) is Some)
}

proof fn lemma_binding(params: Seq<ParamV>, head: Seq<char>, i: int)
    ensures
        is_first_bound(params, head, i) ==> param_binding(params, head) == number_of(params[i]),
        (forall|j: int|
            0 <= j < params.len() ==> !(goes_by(#[trigger] params[j], head) && number_of(
                params[j],
            ) is Some)) ==> param_binding(params, head) is None,
    decreases params.len(),
{
    if params.len() > 0 {
        let rest = params.skip(1);
        lemma_binding(rest, head, i - 1);
        let bound = goes_by(params[0], head) && number_of(params[0]) is Some;
        if is_first_bound(params, head, i) && i > 0 {
            assert(!bound);
            assert forall|j: int| 0 <= j < i - 1 implies !(goes_by(#[trigger] rest[j], head)
                && number_of(rest[j]) is Some) by {
                assert(rest[j] == params[j + 1]);
            }
            assert(rest[i - 1] == params[i]);
        }
        if forall|j: int|
            0 <= j < params.len() ==> !(goes_by(#[trigger] params[j], head) && number_of(
                params[j],
            ) is Some) {
            assert(!bound);
            assert forall|j: int| 0 <= j < rest.len() implies !(goes_by(#[trigger] rest[j], head)
                && number_of(rest[j]) is Some) by {
                assert(rest[j] == params[j + 1]);
            }
        }
    }
}

/// A path of one segment denotes the first parameter that goes by it, as a name with the number
/// of the parameter; there is no other path, and without such a parameter there is an error.
pub proof fn paths_denote_parameters(params: Seq<ParamV>, path: Seq<Seq<char>>, i: int)
    ensures
        path.len() == 1 && is_first_bound(params, path[0], i) ==> query_expr(params, path) == Ok::<
            ExprV,
            QueryPathError,
        >(ExprV::Path { segments: path, ref_id: number_of(params[i]) }),
        path.len() == 1 && (forall|j: int|
            0 <= j < params.len() ==> !(goes_by(#[trigger] params[j], path[0]) && number_of(
                params[j],
            ) is Some)) ==> query_expr(params, path) == Err::<ExprV, QueryPathError>(
            if path[0] == "self"@ {
                QueryPathError::NoSelf
            } else {
                QueryPathError::NoParam
            },
        ),
        path.len() != 1 ==> query_expr(params, path) == Err::<ExprV, QueryPathError>(
            QueryPathError::Nested,
        ),
{
    if path.len() == 1 {
        lemma_binding(params, path[0], i);
        assert(seq![path[0]] =~= path);
    }
}

/// Each path of a query gives one expression, in order, and fails where one of them does.
pub proof fn queries_resolve_each_path(params: Seq<ParamV>, paths: Seq<Seq<Seq<char>>>, i: int)
    requires
        0 <= i < paths.len(),
    ensures
        match query_exprs(params, paths) {
            Ok(es) => es.len() == paths.len() && query_expr(params, paths[i]) == Ok::<
                ExprV,
                QueryPathError,
            >(es[i]),
            Err(_) => true,
        },
        query_expr(params, paths[i]) is Err ==> query_exprs(params, paths) is Err,
    decreases paths.len(),
{
    if i < paths.len() - 1 {
        queries_resolve_each_path(params, paths.drop_last(), i);
    } else if paths.len() > 1 {
        queries_resolve_each_path(params, paths.drop_last(), i - 1);
    } else {
        assert(query_exprs(params, paths.drop_last()) == Ok::<Seq<ExprV>, QueryPathError>(seq![]));
    }
}

/// A path starts with the first parameter that has its name: it has the role of that parameter.
pub proof fn paths_have_the_role_of_their_parameter(
    params: Seq<ParamV>,
    path: Seq<Seq<char>>,
    i: int,
)
    requires
        path.len() > 0,
        0 <= i < params.len(),
        params[i] is Typed,
        params[i]->name == path[0],
        forall|j: int| 0 <= j < i && (#[trigger] params[j]) is Typed ==> params[j]->name != path[0],
        forall|j: int| 0 <= j < i && (#[trigger] params[j]) is SelfParam ==> path[0] != "self"@,
    ensures
        param_io(params, path) == Some::<IOType>(params[i]->io),
    decreases params.len(),
{
    if i > 0 {
        let rest = params.skip(1);
        assert(params[0] is Typed || params[0] is SelfParam);
        assert forall|j: int| 0 <= j < i - 1 && (#[trigger] rest[j]) is Typed implies rest[j]->name
            != path[0] by {
            assert(rest[j] == params[j + 1]);
        }
        assert forall|j: int| 0 <= j < i - 1 && (#[trigger] rest[j]) is SelfParam implies path[0]
            != "self"@ by {
            assert(rest[j] == params[j + 1]);
        }
        assert(rest[i - 1] == params[i]);
        paths_have_the_role_of_their_parameter(rest, path, i - 1);
    }
}

} // verus!
