//! The bits of a value make it up.

use vstd::arithmetic::power2::{lemma2_to64, lemma_pow2_pos, lemma_pow2_strictly_increases, pow2};
use vstd::prelude::*;
use crate::ast::ExprV;
use crate::checker::symbolic::arith::{const_product, mul_leaves};
use crate::checker::symbolic::expr::{Formula, SymType, Term};
use crate::checker::symbolic::meaning::{
    all_hold, holds, product_keeps_value, product_value, products_fit, sum_keeps_value, sum_value,
    value,
};
use crate::checker::symbolic::state::StateV;
use crate::checker::symbolic::state_laws::{adding_is_conjunction, sound_at};
use crate::checker::symbolic::state_ops::{bits_key, cached_bits, in_range, plus, product};
use crate::text::decimal;

verus! {

/// The number that bits stand for, the first being the lowest.
pub open spec fn bits_value(bits: Seq<Term>, env: spec_fn(Seq<char>) -> int) -> int
    decreases bits.len(),
{
    if bits.len() == 0 {
        0
    } else {
        bits_value(bits.drop_last(), env) + pow2((bits.len() - 1) as nat) * value(bits.last(), env)
    }
}

/// Every bit from `i` on is zero or one.
pub open spec fn are_bits(bits: Seq<Term>, i: int, env: spec_fn(Seq<char>) -> int) -> bool {
    forall|k: int| i <= k < bits.len() ==> 0 <= value(#[trigger] bits[k], env) <= 1
}

/// Every bit is a Boolean variable.
pub open spec fn bool_vars(bits: Seq<Term>) -> bool {
    forall|k: int|
        0 <= k < bits.len() ==> (#[trigger] bits[k]) is Var && bits[k]->Var_1 == SymType::Bool
}

pub proof fn lemma_scaled_bit(bit: Term, c: int, env: spec_fn(Seq<char>) -> int)
    requires
        bit is Var,
        0 < c <= 0x1_0000_0000,
    ensures
        value(product(bit, Term::Int(c)), env) == c * value(bit, env),
{
    let two = seq![bit, Term::Int(c)];
    let one = seq![bit];
    assert(two.drop_last() =~= one);
    assert(one.drop_last() =~= seq![]);
    reveal_with_fuel(mul_leaves, 3);
    assert(mul_leaves(two) =~= two);
    reveal_with_fuel(products_fit, 3);
    reveal_with_fuel(const_product, 3);
    assert(products_fit(mul_leaves(two)));
    product_keeps_value(two, env);
    reveal_with_fuel(product_value, 3);
    let b = value(bit, env);
    assert(value(Term::Int(c), env) == c);
    assert(product_value(two, env) == 1 * b * c);
    assert(1 * b * c == c * b) by (nonlinear_arith);
}

pub proof fn lemma_plus(a: Term, b: Term, env: spec_fn(Seq<char>) -> int)
    requires
        plus(a, b) is Ok,
    ensures
        value(plus(a, b)->Ok_0, env) == value(a, env) + value(b, env),
{
    let two = seq![a, b];
    sum_keeps_value(two, env);
    assert(two.drop_last() =~= seq![a]);
    assert(seq![a].drop_last() =~= seq![]);
    reveal_with_fuel(sum_value, 3);
}

pub proof fn lemma_bits_from(
    st: StateV,
    prefix: Seq<char>,
    i: int,
    n: int,
    bits: Seq<Term>,
    acc: Term,
    env: spec_fn(Seq<char>) -> int,
)
    requires
        0 <= i <= n <= 32,
        bits.len() == i,
        bool_vars(bits),
        value(acc, env) == bits_value(bits, env),
        sound_at(st, env),
        st.bits_from(prefix, i, n, bits, acc) is Ok,
    ensures
        ({
            let (bs, sum, s) = st.bits_from(prefix, i, n, bits, acc)->Ok_0;
            &&& bs.len() == n
            &&& bits.is_prefix_of(bs)
            &&& bool_vars(bs)
            &&& value(sum, env) == bits_value(bs, env)
            &&& sound_at(s, env)
            &&& all_hold(s.path_cond, env) <==> all_hold(st.path_cond, env) && are_bits(bs, i, env)
        }),
    decreases n - i,
{
    if i < n {
        let (bit, s) = st.fresh_var(prefix + "_"@ + decimal(i as nat), SymType::Bool)->Ok_0;
        let c = pow2(i as nat) as int;
        lemma_pow2_pos(i as nat);
        lemma2_to64();
        lemma_pow2_strictly_increases(i as nat, 32);
        let sum = plus(acc, product(bit, Term::Int(c)))->Ok_0;
        lemma_scaled_bit(bit, c, env);
        lemma_plus(acc, product(bit, Term::Int(c)), env);
        let next = bits.push(bit);
        assert(next.drop_last() =~= bits);
        let cond = in_range(bit, 0, 1, 1);
        adding_is_conjunction(s, cond, env);
        assert(holds(cond, env) == (0 <= value(bit, env) <= 1));
        let s2 = s.with_cond(cond);
        lemma_bits_from(s2, prefix, i + 1, n, next, sum, env);
        let (bs, _, _) = st.bits_from(prefix, i, n, bits, acc)->Ok_0;
        assert(bs[i] == next[i]);
        assert(bits =~= bs.take(i));
        assert(are_bits(bs, i, env) == (0 <= value(bs[i], env) <= 1 && are_bits(bs, i + 1, env)));
    }
}

/// After a value has been decomposed for the first time, the path condition says, besides what it
/// said before, that the value is a sum of powers of two, each times a bit that is zero or one.
pub proof fn bits_make_up_value(
    st: StateV,
    t: Term,
    prefix: Seq<char>,
    env: spec_fn(Seq<char>) -> int,
)
    requires
        sound_at(st, env),
        cached_bits(st.bits, 0, bits_key(t)) is None,
        st.bits_of(t, prefix) is Ok,
    ensures
        ({
            let (bits, s) = st.bits_of(t, prefix)->Ok_0;
            &&& bits.len() == 32
            &&& bool_vars(bits)
            &&& sound_at(s, env)
            &&& all_hold(s.path_cond, env) <==> all_hold(st.path_cond, env) && are_bits(
                bits,
                0,
                env,
            ) && 0 <= value(t, env) <= 0xffff_ffff && value(t, env) == bits_value(bits, env)
        }),
{
    lemma_bits_from(st, prefix, 0, 32, seq![], Term::Int(0), env);
    let (bits, acc, s) = st.bits_from(prefix, 0, 32, seq![], Term::Int(0))->Ok_0;
    let range = in_range(t, 0, 0xffff_ffff, 32);
    let eq = Formula::Eq(t, acc);
    adding_is_conjunction(s, range, env);
    adding_is_conjunction(s.with_cond(range), eq, env);
    assert(holds(range, env) == (0 <= value(t, env) <= 0xffff_ffff));
    assert(holds(eq, env) == (value(t, env) == value(acc, env)));
}

/// The builtin that extracts a bit gives that of the decomposition of the value.
pub proof fn extracted_bit_is_of_value(st: StateV, args: Seq<ExprV>, v: Term, k: int)
    requires
        args.len() == 2,
        0 <= k < 32,
        st.bits_of(v, "extract_bit"@) is Ok,
        k < st.bits_of(v, "extract_bit"@)->Ok_0.0.len(),
    ensures
        st.builtin_value("extract_bit_u32"@, args, seq![v, Term::Int(k)]) == Ok::<
            (Term, StateV),
            crate::checker::symbolic::error::ExecError,
        >((st.bits_of(v, "extract_bit"@)->Ok_0.0[k], st.bits_of(v, "extract_bit"@)->Ok_0.1)),
{
    reveal(StateV::builtin_value);
    reveal_strlit("extract_bit_u32");
    reveal_strlit("to_field");
    reveal_strlit("to_u32");
    reveal_strlit("and");
    assert("extract_bit_u32"@.len() != "to_field"@.len());
    assert("extract_bit_u32"@.len() != "to_u32"@.len());
    assert("extract_bit_u32"@.len() != "and"@.len());
}

} // verus!
