//! What declarations make known.

use vstd::prelude::*;
use crate::ast::{EnumVariantV, ExprV, FuncV, ParamV, TypeV};
use crate::checker::symbolic::context::ContextV;
use crate::checker::symbolic::init::{
    define_func, param_types_from, resolve_const, resolve_variant, signature_of, with_enum_width,
};
use crate::checker::symbolic::resolve::{resolved, resolved_type, EnvV};
use crate::checker::symbolic::resolve_laws::{
    bare, bare_type, resolved_expressions_are_the_same, resolved_types_are_the_same,
};

verus! {

/// A constant has the number that it is declared with and its type, nothing else changes, and only
/// a number can be declared.
pub proof fn constants_have_their_number(
    id: i64,
    ty: TypeV,
    name: Seq<char>,
    value: ExprV,
    env: EnvV,
)
    ensures
        resolve_const(Some(id), ty, name, value, env) is Ok <==> value is Int,
        value is Int ==> ({
            let e = resolve_const(Some(id), ty, name, value, env)->Ok_0.1;
            &&& e.ctx.const_ints == env.ctx.const_ints.insert(id, value->Int_0)
            &&& e.ctx.const_types.contains_key(id)
            &&& bare_type(e.ctx.const_types[id]) == bare_type(ty)
            &&& e.ctx.var_types == env.ctx.var_types
            &&& e.ctx.funcs == env.ctx.funcs
            &&& e.scope == env.scope
        }),
{
    resolved_types_are_the_same(ty, env.scope, env.ctx);
    resolved_expressions_are_the_same(value, env.scope, env.ctx);
    let rv = resolved(value, env.scope, env.ctx);
    assert(bare(rv) == bare(value));
    assert(rv is Int <==> value is Int);
}

/// A variant is a constant of the type of its enumeration.
pub proof fn variants_are_of_their_enumeration(
    v: EnumVariantV,
    id: i64,
    name: Seq<char>,
    next: u64,
    env: EnvV,
)
    requires
        resolve_variant(v, id, name, next, env) is Ok,
    ensures
        ({
            let (r, _, e) = resolve_variant(v, id, name, next, env)->Ok_0;
            &&& r.name == v.name
            &&& r.id is Some
            &&& v.id is Some ==> r.id == v.id
            &&& e.ctx.const_types.contains_key(r.id->0)
            &&& e.ctx.const_types[r.id->0] == (TypeV::Path {
                segments: seq![name],
                ref_id: Some(id),
            })
        }),
{
}

/// An enumeration without a width of its own has the usual one, before it is declared and after.
pub proof fn enumerations_have_the_usual_width(cx: ContextV, id: i64, other: i64)
    ensures
        with_enum_width(cx, id).enum_widths.contains_key(id),
        with_enum_width(cx, id).enum_sort(other) == cx.enum_sort(other),
{
}

/// How many of the first `end` parameters have a type.
pub open spec fn typed_before(ps: Seq<ParamV>, end: int) -> nat
    decreases end,
{
    if end <= 0 {
        0
    } else {
        typed_before(ps, end - 1) + if ps[end - 1] is Typed {
            1nat
        } else {
            0nat
        }
    }
}

proof fn lemma_param_types(ps: Seq<ParamV>, i: int, acc: Seq<TypeV>, env: EnvV, k: int)
    requires
        0 <= i <= ps.len(),
        acc.len() == typed_before(ps, i),
    ensures
        ({
            let out = param_types_from(ps, i, acc, env);
            &&& out.len() == typed_before(ps, ps.len() as int)
            &&& acc.len() <= out.len()
            &&& forall|j: int| 0 <= j < acc.len() ==> out[j] == #[trigger] acc[j]
            &&& i <= k < ps.len() && ps[k] is Typed ==> typed_before(ps, k) < out.len()
                && bare_type(out[typed_before(ps, k) as int]) == bare_type(ps[k]->ty)
        }),
    decreases ps.len() - i,
{
    if i < ps.len() {
        assert(typed_before(ps, i + 1) == typed_before(ps, i) + if ps[i] is Typed {
            1nat
        } else {
            0nat
        });
        match ps[i] {
            ParamV::Typed { ty, .. } => {
                let t = resolved_type(ty, env.scope, env.ctx);
                resolved_types_are_the_same(ty, env.scope, env.ctx);
                let more = acc.push(t);
                lemma_param_types(ps, i + 1, more, env, k);
                let out = param_types_from(ps, i, acc, env);
                assert(out[acc.len() as int] == more[acc.len() as int]);
                assert forall|j: int| 0 <= j < acc.len() implies out[j] == #[trigger] acc[j] by {
                    assert(more[j] == acc[j]);
                }
            },
            _ => lemma_param_types(ps, i + 1, acc, env, k),
        }
    }
}

/// The signature of a function has the types of its parameters, in order, and its return type.
pub proof fn signatures_have_their_types(f: FuncV, env: EnvV, k: int)
    ensures
        ({
            let sig = signature_of(f, env);
            let at = typed_before(f.params, k);
            &&& sig.params.len() == typed_before(f.params, f.params.len() as int)
            &&& 0 <= k < f.params.len() && f.params[k] is Typed ==> at < sig.params.len()
                && bare_type(sig.params[at as int]) == bare_type(f.params[k]->ty)
            &&& sig.ret is Some <==> f.ret is Some
            &&& f.ret is Some ==> bare_type(sig.ret->0) == bare_type(f.ret->0)
        }),
{
    lemma_param_types(f.params, 0, seq![], env, k);
    if let Some(t) = f.ret {
        resolved_types_are_the_same(t, env.scope, env.ctx);
    }
}

/// A function that is defined is found by its number.
pub proof fn functions_are_found_by_number(f: FuncV, env: EnvV)
    requires
        define_func(f, env) is Ok,
    ensures
        ({
            let (g, e) = define_func(f, env)->Ok_0;
            &&& f.id is Some
            &&& e.ctx.funcs.contains_key(f.id->0)
            &&& e.ctx.funcs[f.id->0] == g
        }),
{
}

} // verus!
