//! Concrete array indices.

use vstd::prelude::*;
use crate::ast::{Expr, ExprV};
use crate::checker::symbolic::context::{lookup, Context, ContextV};
use crate::checker::symbolic::error::ExecError;
use crate::checker::symbolic::expr::{SymExpr, Term};
use crate::checker::symbolic::store::{scalar_at, NodeV, Store};

verus! {

/// The constant that a name stands for, as an index.
pub open spec fn const_index(ctx: ContextV, ref_id: Option<i64>) -> Option<usize> {
    match ref_id {
        Some(id) => match lookup(ctx.const_ints, id) {
            Some(k) => if k <= usize::MAX {
                Some(k as usize)
            } else {
                None
            },
            None => None,
        },
        None => None,
    }
}

/// The concrete index that an expression denotes, if it is a literal or a name bound to a
/// concrete integer in the store, if there is one, or to a constant.
pub open spec fn index_of(ctx: ContextV, store: Option<Map<int, NodeV>>, e: ExprV) -> Result<
    Option<usize>,
    ExecError,
>
    decreases e,
{
    match e {
        ExprV::Int(k) => if k <= usize::MAX {
            Ok(Some(k as usize))
        } else {
            Ok(None)
        },
        ExprV::Paren(inner) => index_of(ctx, store, *inner),
        ExprV::Path { ref_id, .. } => match store {
            None => Ok(const_index(ctx, ref_id)),
            Some(st) => match scalar_at(st, ref_id) {
                Err(x) => Err(x),
                Ok(Some(v)) => match v.surface {
                    Term::Int(k) => if 0 <= k <= usize::MAX {
                        Ok(Some(k as usize))
                    } else {
                        Ok(const_index(ctx, ref_id))
                    },
                    _ => Ok(const_index(ctx, ref_id)),
                },
                Ok(None) => Ok(const_index(ctx, ref_id)),
            },
        },
        _ => Ok(None),
    }
}

fn const_index_of(ctx: &Context, ref_id: Option<i64>) -> (r: Option<usize>)
    ensures
        r == const_index(ctx@, ref_id),
{
    match ref_id {
        Some(id) => match ctx.const_int(id) {
            Some(k) => if k <= usize::MAX as u64 {
                Some(k as usize)
            } else {
                None
            },
            None => None,
        },
        None => None,
    }
}

/// What a store stands for, if there is one.
pub open spec fn store_view(store: Option<&Store>) -> Option<Map<int, NodeV>> {
    match store {
        Some(s) => Some(s@),
        None => None,
    }
}

/// Evaluate an expression as a concrete array index `usize` if possible.
/// Accepted forms are:
///   * integer literal, e.g., `42`
///   * parenthesized literal, e.g., `(42)`
///   * a path that resolves either
///       - to a compile-time constant whose definition is a literal integer, or
///       - to a scalar store cell holding a concrete `SymExpr::Int`.
pub fn eval_index_const_or_err(ctx: &Context, store: Option<&Store>, e: &Expr) -> (r: Result<
    Option<usize>,
    ExecError,
>)
    ensures
        r == index_of(ctx@, store_view(store), e@),
    decreases e,
{
    match e {
        Expr::Int(k) => if *k <= usize::MAX as u64 {
            Ok(Some(*k as usize))
        } else {
            Ok(None)
        },
        Expr::Paren(inner) => eval_index_const_or_err(ctx, store, inner),
        Expr::Path { ref_id, .. } => {
            if let Some(st) = store {
                match st.query_scalar(e) {
                    Err(x) => return Err(x),
                    Ok(Some(v)) => {
                        if let SymExpr::Int(k) = &v.surface {
                            if *k >= 0 && *k <= usize::MAX as i128 {
                                return Ok(Some(*k as usize));
                            }
                        }
                    },
                    Ok(None) => {},
                }
            }
            Ok(const_index_of(ctx, *ref_id))
        },
        _ => Ok(None),
    }
}

} // verus!
