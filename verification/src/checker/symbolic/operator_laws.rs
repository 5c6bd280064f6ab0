//! Operators mean what they say.

use vstd::prelude::*;
use crate::ast::BinOp;
use crate::checker::symbolic::arith::{has_zero, mul_leaves};
use crate::checker::symbolic::builtins::{both_nonzero, condition, either_nonzero};
use crate::checker::symbolic::expr::{Formula, Term, FIELD_MODULUS};
use crate::checker::symbolic::meaning::{
    all_hold, as_int_is_indicator, conj_keeps_truth, difference_keeps_value, disj_keeps_truth,
    holds, lemma_all_index, lemma_some_index, mod_field_is_canonical, product_keeps_value,
    product_value, products_fit, some_holds, sum_keeps_value, sum_value, value,
};
use crate::checker::symbolic::range::{
    range_is_sound, respects_hints, respects_sorts,
};
use crate::checker::symbolic::state::StateV;

verus! {

/// One for truth, zero for falsehood.
pub open spec fn bit(b: bool) -> int {
    if b {
        1
    } else {
        0
    }
}

/// The integer that an operator makes of two integers. Numbers other than zero count as true.
pub open spec fn op_value(op: BinOp, x: int, y: int) -> int {
    match op {
        BinOp::Add => x + y,
        BinOp::Sub => x - y,
        BinOp::Mul => x * y,
        BinOp::BitAnd | BinOp::And => bit(x != 0 && y != 0),
        BinOp::Or => bit(x != 0 || y != 0),
        BinOp::Eq => bit(x == y),
        BinOp::Ne => bit(x != y),
        BinOp::Lt => bit(x < y),
        BinOp::Le => bit(x <= y),
        BinOp::Gt => bit(x > y),
        BinOp::Ge => bit(x >= y),
    }
}

pub proof fn lemma_nonzero(a: Term, b: Term, env: spec_fn(Seq<char>) -> int)
    ensures
        holds(both_nonzero(a, b), env) == (value(a, env) != 0 && value(b, env) != 0),
        holds(either_nonzero(a, b), env) == (value(a, env) != 0 || value(b, env) != 0),
{
    let parts = seq![
        crate::checker::symbolic::builtins::nonzero(a),
        crate::checker::symbolic::builtins::nonzero(b),
    ];
    conj_keeps_truth(parts, env);
    disj_keeps_truth(parts, env);
    lemma_all_index(parts, env);
    lemma_some_index(parts, env);
    reveal_with_fuel(holds, 3);
    reveal_with_fuel(value, 2);
    assert(holds(parts[0], env) == (value(a, env) != 0));
    assert(holds(parts[1], env) == (value(b, env) != 0));
    assert(all_hold(parts, env) == (holds(parts[0], env) && holds(parts[1], env)));
    assert(some_holds(parts, env) == (holds(parts[0], env) || holds(parts[1], env)));
}

/// Without reduction, a binary operation has the value that its operator makes of the values of
/// its operands.
pub proof fn operators_mean_arithmetic(
    st: StateV,
    op: BinOp,
    a: Term,
    b: Term,
    env: spec_fn(Seq<char>) -> int,
)
    requires
        st.combined(op, false, a, b) is Ok,
        op == BinOp::Mul ==> products_fit(mul_leaves(seq![a, b])) || has_zero(
            mul_leaves(seq![a, b]),
        ),
    ensures
        value(st.combined(op, false, a, b)->Ok_0, env) == op_value(
            op,
            value(a, env),
            value(b, env),
        ),
{
    reveal(StateV::combined);
    let two = seq![a, b];
    assert(sum_value(two, env) == value(a, env) + value(b, env)) by {
        reveal_with_fuel(sum_value, 3);
        assert(two.drop_last() =~= seq![a]);
        assert(seq![a].drop_last() =~= Seq::<Term>::empty());
    }
    assert(product_value(two, env) == value(a, env) * value(b, env)) by {
        reveal_with_fuel(product_value, 3);
        assert(two.drop_last() =~= seq![a]);
        assert(seq![a].drop_last() =~= Seq::<Term>::empty());
        assert(1 * value(a, env) == value(a, env));
    }
    match op {
        BinOp::Add => sum_keeps_value(two, env),
        BinOp::Sub => difference_keeps_value(a, b, env),
        BinOp::Mul => product_keeps_value(two, env),
        BinOp::BitAnd | BinOp::And => {
            lemma_nonzero(a, b, env);
            as_int_is_indicator(both_nonzero(a, b), env);
        },
        BinOp::Or => {
            lemma_nonzero(a, b, env);
            as_int_is_indicator(either_nonzero(a, b), env);
        },
        BinOp::Eq => as_int_is_indicator(Formula::Eq(a, b), env),
        BinOp::Ne => as_int_is_indicator(Formula::Ne(a, b), env),
        BinOp::Lt => as_int_is_indicator(Formula::Lt(a, b), env),
        BinOp::Le => as_int_is_indicator(Formula::Le(a, b), env),
        BinOp::Gt => as_int_is_indicator(Formula::Gt(a, b), env),
        BinOp::Ge => as_int_is_indicator(Formula::Ge(a, b), env),
    }
}

/// With reduction, a binary operation has the value without it, modulo the field prime, wherever
/// the variables lie in their intervals.
pub proof fn reduction_is_modulo_the_field(
    st: StateV,
    op: BinOp,
    a: Term,
    b: Term,
    env: spec_fn(Seq<char>) -> int,
)
    requires
        st.combined(op, false, a, b) is Ok,
        respects_hints(st.hints, env),
        respects_sorts(st.combined(op, false, a, b)->Ok_0, st.hints, env),
    ensures
        st.combined(op, true, a, b) is Ok,
        value(st.combined(op, true, a, b)->Ok_0, env) == value(
            st.combined(op, false, a, b)->Ok_0,
            env,
        ) % (FIELD_MODULUS as int),
{
    reveal(StateV::combined);
    reveal(StateV::reduced);
    let t = st.combined(op, false, a, b)->Ok_0;
    mod_field_is_canonical(t, env);
    if let Some((lo, hi)) = st.range(t) {
        range_is_sound(t, st.hints, env);
        if lo >= 0 && hi < FIELD_MODULUS {
            let v = value(t, env);
            vstd::arithmetic::div_mod::lemma_small_mod(v as nat, FIELD_MODULUS as nat);
        }
    }
}

/// A condition holds iff its operator makes something other than zero of the values of its
/// operands.
pub proof fn conditions_mean_comparisons(
    op: BinOp,
    l: Term,
    r: Term,
    env: spec_fn(Seq<char>) -> int,
)
    requires
        condition(op, l, r) is Ok,
    ensures
        holds(condition(op, l, r)->Ok_0, env) == (op_value(op, value(l, env), value(r, env)) != 0),
{
    lemma_nonzero(l, r, env);
    reveal(condition);
    reveal_with_fuel(holds, 2);
    reveal_with_fuel(value, 2);
}

} // verus!
