//! What the built-in functions and methods compute.

use vstd::arithmetic::power2::{lemma2_to64, lemma_pow2_pos, lemma_pow2_unfold, pow2};
use vstd::prelude::*;
use crate::ast::{ExprV, TypeV};
use crate::checker::symbolic::arith::{has_zero, mul_leaves};
use crate::checker::symbolic::bit_laws::{
    are_bits, bits_make_up_value, bits_value, lemma_bits_from, lemma_plus,
};
use crate::checker::symbolic::expr::{
    disj, mod_field_term, Formula, SymType, Term, FIELD_MODULUS, WORD_BYTES,
};
use crate::checker::symbolic::meaning::{
    all_hold, disj_keeps_truth, holds, mod_field_is_canonical, product_keeps_value, product_value,
    products_fit, some_holds, value,
};
use crate::checker::symbolic::semantics::method_value;
use crate::checker::symbolic::state::StateV;
use crate::checker::symbolic::state_laws::{adding_is_conjunction, sound_at};
use crate::checker::symbolic::state_ops::{
    bits_key, cached_bits, in_range, little_endian, plus, product,
};
use crate::text::decimal;

verus! {

/// The constants of a product do not saturate.
pub open spec fn exact(t: Term) -> bool {
    products_fit(mul_leaves(seq![t])) || has_zero(mul_leaves(seq![t]))
}

proof fn lemma_product_with_var(t: Term, v: Term, env: spec_fn(Seq<char>) -> int)
    requires
        exact(t),
        v is Var,
    ensures
        value(product(t, v), env) == value(t, env) * value(v, env),
{
    let two = seq![t, v];
    let one = seq![t];
    assert(two.drop_last() =~= one);
    assert(one.drop_last() =~= seq![]);
    let a = mul_leaves(one);
    let b = mul_leaves(two);
    assert(b =~= a.push(v));
    assert(b.drop_last() =~= a);
    if has_zero(a) {
        let i = choose|i: int| 0 <= i < a.len() && #[trigger] a[i] == Term::Int(0);
        assert(b[i] == Term::Int(0));
    }
    product_keeps_value(two, env);
    reveal_with_fuel(product_value, 3);
    let x = value(t, env);
    let y = value(v, env);
    assert(1 * x * y == x * y) by (nonlinear_arith);
}

/// After `x.inverse()` the path condition says, besides what it said before, that `x` is zero or
/// that `x` times the result is one modulo the field. Nothing but the path condition, the hints
/// and the supply of names changes.
pub proof fn inverse_times_value_is_one(st: StateV, t: Term, env: spec_fn(Seq<char>) -> int)
    requires
        sound_at(st, env),
        exact(t),
        st.inverse_of(t) is Ok,
    ensures
        ({
            let (inv, s) = st.inverse_of(t)->Ok_0;
            let p = FIELD_MODULUS as int;
            &&& sound_at(s, env)
            &&& all_hold(s.path_cond, env) <==> all_hold(st.path_cond, env) && (value(t, env) == 0
                || (value(t, env) * value(inv, env)) % p == 1)
            &&& all_hold(s.path_cond, env) && value(t, env) % p != 0 ==> (value(t, env) * value(
                inv,
                env,
            )) % p == 1
        }),
{
    reveal(StateV::inverse_of);
    let (inv, s1) = st.fresh_var("inverse"@, SymType::F)->Ok_0;
    let zero = Formula::Eq(t, Term::Int(0));
    let one = Formula::Eq(mod_field_term(product(t, inv)), Term::Int(1));
    let parts = seq![zero, one];
    disj_keeps_truth(parts, env);
    adding_is_conjunction(s1, disj(parts), env);
    lemma_product_with_var(t, inv, env);
    mod_field_is_canonical(product(t, inv), env);
    assert(value(Term::Int(0), env) == 0);
    assert(value(Term::Int(1), env) == 1);
    assert(holds(zero, env) == (value(t, env) == 0));
    assert(holds(one, env) == ((value(t, env) * value(inv, env)) % (FIELD_MODULUS as int) == 1));
    assert(some_holds(parts, env) == (holds(zero, env) || holds(one, env))) by {
        assert(parts.drop_last() =~= seq![zero]);
        assert(seq![zero].drop_last() =~= seq![]);
        reveal_with_fuel(some_holds, 3);
    }
}

/// A value other than zero and an inverse of it modulo the field, given to the name of the result,
/// satisfy the path condition after `x.inverse()`, if they satisfied the one before.
pub proof fn inverses_are_admitted(
    st: StateV,
    t: Term,
    x: int,
    env: spec_fn(Seq<char>) -> int,
    with: spec_fn(Seq<char>) -> int,
)
    requires
        st.inverse_of(t) is Ok,
        exact(t),
        st.inverse_of(t)->Ok_0.0 is Var,
        forall|n: Seq<char>|
            with(n) == if n == st.inverse_of(t)->Ok_0.0->Var_0 {
                x
            } else {
                #[trigger] env(n)
            },
        sound_at(st, with),
        all_hold(st.path_cond, with) == all_hold(st.path_cond, env),
        value(t, with) == value(t, env),
        all_hold(st.path_cond, env),
        (value(t, env) * x) % (FIELD_MODULUS as int) == 1,
    ensures
        value(st.inverse_of(t)->Ok_0.0, with) == x,
        all_hold(st.inverse_of(t)->Ok_0.1.path_cond, with),
{
    inverse_times_value_is_one(st, t, with);
    let name = st.inverse_of(t)->Ok_0.0->Var_0;
    let old_value = env(name);
    assert(with(name) == x);
}

/// The method that inverts applies to field elements only, takes no arguments, and gives an
/// inverse.
pub proof fn inverse_is_a_method_of_the_field(
    ty: TypeV,
    name: Seq<char>,
    recv: Term,
    vals: Seq<Term>,
    st: StateV,
    env: spec_fn(Seq<char>) -> int,
)
    requires
        method_value(ty, name, recv, vals, st) is Ok,
        sound_at(st, env),
        exact(recv),
    ensures
        name == "inverse"@,
        vals.len() == 0,
        st.ctx.sort_of(ty) == Some(SymType::F),
        ({
            let (inv, s) = method_value(ty, name, recv, vals, st)->Ok_0;
            all_hold(s.path_cond, env) && value(recv, env) % (FIELD_MODULUS as int) != 0 ==> (value(
                recv,
                env,
            ) * value(inv, env)) % (FIELD_MODULUS as int) == 1
        }),
{
    reveal(method_value);
    inverse_times_value_is_one(st, recv, env);
}

proof fn lemma_alias(
    st: StateV,
    hint: Seq<char>,
    ty: SymType,
    t: Term,
    env: spec_fn(Seq<char>) -> int,
)
    requires
        sound_at(st, env),
        st.alias_of(hint, ty, t) is Ok,
    ensures
        ({
            let (v, s) = st.alias_of(hint, ty, t)->Ok_0;
            &&& sound_at(s, env)
            &&& v is Var
            &&& v->Var_1 == ty
            &&& all_hold(s.path_cond, env) <==> all_hold(st.path_cond, env) && value(v, env)
                == value(t, env)
        }),
{
    let (v, s1) = st.fresh_var(hint, ty)->Ok_0;
    let eq = Formula::Eq(v, t);
    adding_is_conjunction(s1, eq, env);
    assert(holds(eq, env) == (value(v, env) == value(t, env)));
}

/// A cast keeps the value: the result is the argument, or a symbol of the sort that the cast names,
/// which the path condition equates with the argument.
pub proof fn casts_keep_the_value(
    st: StateV,
    name: Seq<char>,
    args: Seq<ExprV>,
    vals: Seq<Term>,
    env: spec_fn(Seq<char>) -> int,
)
    requires
        name == "to_field"@ || name == "to_u32"@ || name == "from_u32"@,
        sound_at(st, env),
        st.builtin_value(name, args, vals) is Ok,
    ensures
        vals.len() == 1,
        ({
            let (v, s) = st.builtin_value(name, args, vals)->Ok_0;
            &&& sound_at(s, env)
            &&& all_hold(s.path_cond, env) ==> all_hold(st.path_cond, env) && value(v, env) == value(
                vals[0],
                env,
            )
            &&& all_hold(st.path_cond, env) && value(v, env) == value(vals[0], env) ==> all_hold(
                s.path_cond,
                env,
            )
            &&& v == vals[0] || (v is Var && v->Var_1 == if name == "to_u32"@ {
                SymType::Uint(32)
            } else {
                SymType::F
            })
        }),
{
    reveal(StateV::builtin_value);
    lemma_names();
    if name == "to_field"@ {
        lemma_alias(st, "to_field"@, SymType::F, vals[0], env);
    } else if name == "to_u32"@ {
        if st.alias_of("to_u32"@, SymType::Uint(32), vals[0]) is Ok {
            lemma_alias(st, "to_u32"@, SymType::Uint(32), vals[0], env);
        }
    } else {
        lemma_alias(st, "from_u32"@, SymType::F, vals[0], env);
    }
}

proof fn lemma_names()
    ensures
        "to_field"@ != "to_u32"@,
        "to_field"@ != "and"@,
        "to_field"@ != "extract_bit_u32"@,
        "to_field"@ != "from_u32"@,
        "to_field"@ != "to_word"@,
        "to_u32"@ != "and"@,
        "to_u32"@ != "extract_bit_u32"@,
        "to_u32"@ != "from_u32"@,
        "to_u32"@ != "to_word"@,
        "and"@ != "extract_bit_u32"@,
        "and"@ != "from_u32"@,
        "and"@ != "to_word"@,
        "extract_bit_u32"@ != "from_u32"@,
        "extract_bit_u32"@ != "to_word"@,
        "from_u32"@ != "to_word"@,
{
    reveal_strlit("to_field");
    reveal_strlit("to_u32");
    reveal_strlit("and");
    reveal_strlit("extract_bit_u32");
    reveal_strlit("from_u32");
    reveal_strlit("to_word");
    assert("to_field"@.len() == 8);
    assert("to_u32"@.len() == 6);
    assert("and"@.len() == 3);
    assert("extract_bit_u32"@.len() == 15);
    assert("from_u32"@.len() == 8);
    assert("to_word"@.len() == 7);
    assert("to_field"@[0] == 't');
    assert("from_u32"@[0] == 'f');
}

/// Bit `k` of an integer.
pub open spec fn bit_at(x: int, k: nat) -> int {
    (x / pow2(k) as int) % 2
}

proof fn lemma_bits_bounded(bits: Seq<Term>, env: spec_fn(Seq<char>) -> int)
    requires
        are_bits(bits, 0, env),
    ensures
        0 <= bits_value(bits, env) < pow2(bits.len()),
    decreases bits.len(),
{
    if bits.len() == 0 {
        lemma2_to64();
    } else {
        let front = bits.drop_last();
        let n = front.len();
        assert forall|k: int| 0 <= k < front.len() implies 0 <= value(#[trigger] front[k], env)
            <= 1 by {
            assert(front[k] == bits[k]);
        }
        lemma_bits_bounded(front, env);
        let c = pow2(n) as int;
        let b = value(bits.last(), env);
        assert(0 <= value(bits[bits.len() - 1], env) <= 1);
        lemma_pow2_unfold(bits.len());
        assert(0 <= c * b <= c) by (nonlinear_arith)
            requires
                0 <= b <= 1,
                0 <= c,
        ;
    }
}

/// A number that bits make up has those bits.
proof fn lemma_bit_of_value(bits: Seq<Term>, k: int, env: spec_fn(Seq<char>) -> int)
    requires
        are_bits(bits, 0, env),
        0 <= k < bits.len(),
    ensures
        bit_at(bits_value(bits, env), k as nat) == value(bits[k], env),
    decreases bits.len(),
{
    let front = bits.drop_last();
    let n = front.len();
    assert forall|j: int| 0 <= j < front.len() implies 0 <= value(#[trigger] front[j], env) <= 1 by {
        assert(front[j] == bits[j]);
    }
    lemma_bits_bounded(front, env);
    let low = bits_value(front, env);
    let b = value(bits.last(), env);
    assert(0 <= value(bits[bits.len() - 1], env) <= 1);
    let c = pow2(n) as int;
    lemma_pow2_pos(n);
    if k == n {
        assert((low + c * b) / c == b) by (nonlinear_arith)
            requires
                0 <= low < c,
        ;
    } else {
        lemma_bit_of_value(front, k, env);
        assert(front[k] == bits[k]);
        let d = pow2(k as nat) as int;
        lemma_pow2_pos(k as nat);
        let e = pow2((n - k) as nat) as int;
        vstd::arithmetic::power2::lemma_pow2_adds(k as nat, (n - k) as nat);
        assert(c == d * e);
        let f = pow2((n - k - 1) as nat) as int;
        lemma_pow2_unfold((n - k) as nat);
        assert(e == 2 * f);
        assert((low + c * b) / d == low / d + e * b) by (nonlinear_arith)
            requires
                c == d * e,
                d > 0,
        ;
        let q = low / d;
        let h = f * b;
        assert(e * b == 2 * h) by (nonlinear_arith)
            requires
                e == 2 * f,
                h == f * b,
        ;
        assert((q + 2 * h) % 2 == q % 2);
    }
}

/// Extracting a bit gives that bit of the value, which the path condition makes one of 32 bits.
pub proof fn extraction_gives_the_bit(
    st: StateV,
    args: Seq<ExprV>,
    vals: Seq<Term>,
    env: spec_fn(Seq<char>) -> int,
)
    requires
        sound_at(st, env),
        st.builtin_value("extract_bit_u32"@, args, vals) is Ok,
        cached_bits(st.bits, 0, bits_key(vals[0])) is None,
    ensures
        vals.len() == 2,
        ({
            let (v, s) = st.builtin_value("extract_bit_u32"@, args, vals)->Ok_0;
            let k = value(vals[1], env);
            &&& 0 <= k < 32
            &&& sound_at(s, env)
            &&& all_hold(s.path_cond, env) ==> all_hold(st.path_cond, env) && 0 <= value(
                vals[0],
                env,
            ) < 0x1_0000_0000 && value(v, env) == bit_at(value(vals[0], env), k as nat)
        }),
{
    reveal(StateV::builtin_value);
    lemma_names();
    bits_make_up_value(st, vals[0], "extract_bit"@, env);
    let (bits, s) = st.bits_of(vals[0], "extract_bit"@)->Ok_0;
    let k = vals[1]->Int_0;
    assert(value(vals[1], env) == k);
    if are_bits(bits, 0, env) {
        lemma_bit_of_value(bits, k, env);
    }
}

proof fn lemma_bit_products(
    st: StateV,
    l: Seq<Term>,
    r: Seq<Term>,
    out: Seq<Term>,
    i: int,
    env: spec_fn(Seq<char>) -> int,
)
    requires
        0 <= i,
        l.len() == out.len(),
        r.len() == out.len(),
        sound_at(st, env),
    ensures
        sound_at(st.with_bit_products(l, r, out, i), env),
        all_hold(st.with_bit_products(l, r, out, i).path_cond, env) <==> all_hold(st.path_cond, env)
            && forall|k: int|
            i <= k < out.len() ==> value(#[trigger] out[k], env) == value(l[k], env) * value(
                r[k],
                env,
            ),
    decreases out.len() - i,
{
    if i < out.len() {
        let m = Term::Mul(seq![l[i], r[i]]);
        let eq = Formula::Eq(out[i], m);
        adding_is_conjunction(st, eq, env);
        assert(value(m, env) == value(l[i], env) * value(r[i], env)) by {
            reveal_with_fuel(product_value, 3);
            let two = seq![l[i], r[i]];
            assert(two.drop_last() =~= seq![l[i]]);
            assert(seq![l[i]].drop_last() =~= seq![]);
            assert(value(m, env) == product_value(two, env));
            let x = value(l[i], env);
            let y = value(r[i], env);
            assert(1 * x * y == x * y) by (nonlinear_arith);
        }
        assert(holds(eq, env) == (value(out[i], env) == value(m, env)));
        lemma_bit_products(st.with_cond(eq), l, r, out, i + 1, env);
    }
}

/// The eight bits of one byte are the products of those of two others.
pub open spec fn is_byte_and(out: int, l: int, r: int) -> bool {
    &&& 0 <= out < 256
    &&& 0 <= l < 256
    &&& 0 <= r < 256
    &&& forall|k: nat| k < 8 ==> #[trigger] bit_at(out, k) == bit_at(l, k) * bit_at(r, k)
}

/// The state that ties a byte to two others says that it is their bitwise conjunction.
pub proof fn conjunction_of_bytes(
    st: StateV,
    out: Term,
    l: Term,
    r: Term,
    env: spec_fn(Seq<char>) -> int,
)
    requires
        sound_at(st, env),
        st.with_byte_and(out, l, r) is Ok,
    ensures
        ({
            let s = st.with_byte_and(out, l, r)->Ok_0;
            &&& sound_at(s, env)
            &&& all_hold(s.path_cond, env) ==> all_hold(st.path_cond, env) && is_byte_and(
                value(out, env),
                value(l, env),
                value(r, env),
            )
        }),
{
    reveal(StateV::with_byte_and);
    let c0 = in_range(out, 0, 255, 8);
    let c1 = in_range(l, 0, 255, 8);
    let c2 = in_range(r, 0, 255, 8);
    adding_is_conjunction(st, c0, env);
    adding_is_conjunction(st.with_cond(c0), c1, env);
    adding_is_conjunction(st.with_cond(c0).with_cond(c1), c2, env);
    let s = st.with_cond(c0).with_cond(c1).with_cond(c2);
    let z = Term::Int(0);
    lemma_bits_from(s, "byte_and_l"@, 0, 8, seq![], z, env);
    let (lb, la, s1) = s.bits_from("byte_and_l"@, 0, 8, seq![], z)->Ok_0;
    lemma_bits_from(s1, "byte_and_r"@, 0, 8, seq![], z, env);
    let (rb, ra, s2) = s1.bits_from("byte_and_r"@, 0, 8, seq![], z)->Ok_0;
    lemma_bits_from(s2, "byte_and_out"@, 0, 8, seq![], z, env);
    let (ob, oa, s3) = s2.bits_from("byte_and_out"@, 0, 8, seq![], z)->Ok_0;
    lemma_bit_products(s3, lb, rb, ob, 0, env);
    let s4 = s3.with_bit_products(lb, rb, ob, 0);
    adding_is_conjunction(s4, Formula::Eq(l, la), env);
    let s5 = s4.with_cond(Formula::Eq(l, la));
    adding_is_conjunction(s5, Formula::Eq(r, ra), env);
    let s6 = s5.with_cond(Formula::Eq(r, ra));
    adding_is_conjunction(s6, Formula::Eq(out, oa), env);
    assert(holds(c0, env) == (0 <= value(out, env) <= 255));
    assert(holds(c1, env) == (0 <= value(l, env) <= 255));
    assert(holds(c2, env) == (0 <= value(r, env) <= 255));
    assert(holds(Formula::Eq(l, la), env) == (value(l, env) == value(la, env)));
    assert(holds(Formula::Eq(r, ra), env) == (value(r, env) == value(ra, env)));
    assert(holds(Formula::Eq(out, oa), env) == (value(out, env) == value(oa, env)));
    let done = s6.with_cond(Formula::Eq(out, oa));
    if all_hold(done.path_cond, env) {
        assert forall|k: nat| k < 8 implies #[trigger] bit_at(value(out, env), k) == bit_at(
            value(l, env),
            k,
        ) * bit_at(value(r, env), k) by {
            lemma_bit_of_value(lb, k as int, env);
            lemma_bit_of_value(rb, k as int, env);
            lemma_bit_of_value(ob, k as int, env);
            assert(value(ob[k as int], env) == value(lb[k as int], env) * value(
                rb[k as int],
                env,
            ));
        }
    }
}

/// The function that conjoins bytes gives the bitwise conjunction of its arguments.
pub proof fn and_conjoins_bytes(
    st: StateV,
    args: Seq<ExprV>,
    vals: Seq<Term>,
    env: spec_fn(Seq<char>) -> int,
)
    requires
        sound_at(st, env),
        st.builtin_value("and"@, args, vals) is Ok,
    ensures
        vals.len() == 2,
        ({
            let (v, s) = st.builtin_value("and"@, args, vals)->Ok_0;
            &&& sound_at(s, env)
            &&& all_hold(s.path_cond, env) ==> all_hold(st.path_cond, env) && is_byte_and(
                value(v, env),
                value(vals[0], env),
                value(vals[1], env),
            )
        }),
{
    reveal(StateV::builtin_value);
    lemma_names();
    let (v, s) = st.fresh_var("and"@, SymType::Uint(8))->Ok_0;
    conjunction_of_bytes(s, v, vals[0], vals[1], env);
}

/// Four values are bytes.
pub open spec fn are_bytes(bytes: Seq<Term>, i: int, env: spec_fn(Seq<char>) -> int) -> bool {
    forall|k: int| i <= k < bytes.len() ==> 0 <= value(#[trigger] bytes[k], env) <= 255
}

/// Every member is a variable.
spec fn all_vars(ts: Seq<Term>) -> bool {
    forall|k: int| 0 <= k < ts.len() ==> (#[trigger] ts[k]) is Var
}

proof fn lemma_word_from(st: StateV, i: int, bytes: Seq<Term>, env: spec_fn(Seq<char>) -> int)
    requires
        0 <= i <= WORD_BYTES,
        bytes.len() == i,
        all_vars(bytes),
        sound_at(st, env),
        st.word_from(i, bytes) is Ok,
    ensures
        ({
            let (bs, s) = st.word_from(i, bytes)->Ok_0;
            &&& bs.len() == WORD_BYTES
            &&& all_vars(bs)
            &&& bytes.is_prefix_of(bs)
            &&& sound_at(s, env)
            &&& all_hold(s.path_cond, env) <==> all_hold(st.path_cond, env) && are_bytes(bs, i, env)
        }),
    decreases WORD_BYTES - i,
{
    if i < WORD_BYTES {
        let (b, s) = st.fresh_var("to_word"@ + "_b"@ + decimal(i as nat), SymType::Uint(8))->Ok_0;
        let lo = Formula::Ge(b, Term::Int(0));
        let hi = Formula::Le(b, Term::Int(255));
        adding_is_conjunction(s, lo, env);
        adding_is_conjunction(s.with_cond(lo), hi, env);
        assert(value(Term::Int(0), env) == 0);
        assert(value(Term::Int(255), env) == 255);
        assert(holds(lo, env) == (value(b, env) >= 0));
        assert(holds(hi, env) == (value(b, env) <= 255));
        let next = bytes.push(b);
        lemma_word_from(s.with_cond(lo).with_cond(hi), i + 1, next, env);
        let (bs, _) = st.word_from(i, bytes)->Ok_0;
        assert(bs[i] == next[i]);
        assert(bytes =~= bs.take(i));
        assert(are_bytes(bs, i, env) == (0 <= value(bs[i], env) <= 255 && are_bytes(
            bs,
            i + 1,
            env,
        )));
    }
}

proof fn lemma_times_256(t: Term, env: spec_fn(Seq<char>) -> int)
    requires
        t is Var || t is Add,
    ensures
        value(product(Term::Int(256), t), env) == 256 * value(t, env),
{
    let two = seq![Term::Int(256), t];
    let one = seq![Term::Int(256)];
    assert(two.drop_last() =~= one);
    assert(one.drop_last() =~= seq![]);
    reveal_with_fuel(mul_leaves, 3);
    assert(mul_leaves(two) =~= two);
    reveal_with_fuel(products_fit, 3);
    reveal_with_fuel(crate::checker::symbolic::arith::const_product, 3);
    product_keeps_value(two, env);
    reveal_with_fuel(product_value, 3);
    assert(value(Term::Int(256), env) == 256);
}

/// The sum of a variable and a product of one with a number is a sum.
proof fn lemma_sum_shape(v: Term, t: Term)
    requires
        v is Var,
        t is Var || t is Add,
        plus(v, product(Term::Int(256), t)) is Ok,
    ensures
        plus(v, product(Term::Int(256), t))->Ok_0 is Add,
{
    let two = seq![Term::Int(256), t];
    let one = seq![Term::Int(256)];
    assert(two.drop_last() =~= one);
    assert(one.drop_last() =~= seq![]);
    reveal_with_fuel(mul_leaves, 3);
    assert(mul_leaves(two) =~= two);
    reveal_with_fuel(crate::checker::symbolic::arith::const_product, 3);
    reveal_with_fuel(crate::checker::symbolic::arith::non_consts, 3);
    assert(crate::checker::symbolic::arith::non_consts(two) =~= seq![t]);
    let p = product(Term::Int(256), t);
    assert(p is Mul);
    let s = seq![v, p];
    assert(s.drop_last() =~= seq![v]);
    assert(seq![v].drop_last() =~= seq![]);
    reveal_with_fuel(crate::checker::symbolic::arith::add_leaves, 3);
    assert(crate::checker::symbolic::arith::add_leaves(s) =~= s);
    reveal_with_fuel(crate::checker::symbolic::arith::const_sum, 3);
    assert(crate::checker::symbolic::arith::non_consts(s) =~= s);
}

/// The little-endian sum of four bytes.
pub open spec fn word_value(bytes: Seq<Term>, env: spec_fn(Seq<char>) -> int) -> int {
    value(bytes[0], env) + 256 * value(bytes[1], env) + 65536 * value(bytes[2], env) + 16777216
        * value(bytes[3], env)
}

proof fn lemma_little_endian(bytes: Seq<Term>, env: spec_fn(Seq<char>) -> int)
    requires
        bytes.len() == 4,
        all_vars(bytes),
        little_endian(bytes, 3, bytes[3]) is Ok,
    ensures
        value(little_endian(bytes, 3, bytes[3])->Ok_0, env) == word_value(bytes, env),
{
    reveal_with_fuel(little_endian, 5);
    let a = bytes[3];
    lemma_times_256(a, env);
    lemma_plus(bytes[2], product(Term::Int(256), a), env);
    lemma_sum_shape(bytes[2], a);
    let b = plus(bytes[2], product(Term::Int(256), a))->Ok_0;
    lemma_times_256(b, env);
    lemma_plus(bytes[1], product(Term::Int(256), b), env);
    lemma_sum_shape(bytes[1], b);
    let c = plus(bytes[1], product(Term::Int(256), b))->Ok_0;
    lemma_times_256(c, env);
    lemma_plus(bytes[0], product(Term::Int(256), c), env);
}

/// The word of a value is the value, and the path condition ties it to four bytes, the first being
/// the lowest.
pub proof fn words_are_little_endian(
    st: StateV,
    args: Seq<ExprV>,
    vals: Seq<Term>,
    env: spec_fn(Seq<char>) -> int,
)
    requires
        sound_at(st, env),
        st.builtin_value("to_word"@, args, vals) is Ok,
    ensures
        vals.len() == 1,
        ({
            let (v, s) = st.builtin_value("to_word"@, args, vals)->Ok_0;
            let bytes = st.word_from(0, seq![])->Ok_0.0;
            &&& v == vals[0]
            &&& sound_at(s, env)
            &&& bytes.len() == 4
            &&& all_hold(s.path_cond, env) <==> all_hold(st.path_cond, env) && are_bytes(
                bytes,
                0,
                env,
            ) && value(v, env) == word_value(bytes, env)
        }),
{
    reveal(StateV::builtin_value);
    reveal(StateV::worded);
    lemma_names();
    let (bytes, s) = st.word_from(0, seq![])->Ok_0;
    lemma_word_from(st, 0, seq![], env);
    let acc = little_endian(bytes, bytes.len() - 1, bytes.last())->Ok_0;
    lemma_little_endian(bytes, env);
    let eq = Formula::Eq(acc, vals[0]);
    adding_is_conjunction(s, eq, env);
    assert(holds(eq, env) == (value(acc, env) == value(vals[0], env)));
}

proof fn lemma_bytes_from(
    st: StateV,
    hint: Seq<char>,
    i: int,
    bytes: Seq<Term>,
    env: spec_fn(Seq<char>) -> int,
)
    requires
        0 <= i <= WORD_BYTES,
        bytes.len() == i,
        all_vars(bytes),
        sound_at(st, env),
        st.bytes_from(hint, i, bytes) is Ok,
    ensures
        ({
            let (bs, s) = st.bytes_from(hint, i, bytes)->Ok_0;
            &&& bs.len() == WORD_BYTES
            &&& all_vars(bs)
            &&& bytes.is_prefix_of(bs)
            &&& sound_at(s, env)
            &&& all_hold(s.path_cond, env) <==> all_hold(st.path_cond, env) && are_bytes(bs, i, env)
        }),
    decreases WORD_BYTES - i,
{
    if i < WORD_BYTES {
        let (b, s) = st.fresh_var(hint + "_b"@ + decimal(i as nat), SymType::Uint(8))->Ok_0;
        let both = in_range(b, 0, 255, 8);
        let lo = Formula::Ge(b, Term::Int(0));
        let hi = Formula::Le(b, Term::Int(255));
        adding_is_conjunction(s, both, env);
        let s1 = s.with_cond(both);
        adding_is_conjunction(s1, lo, env);
        adding_is_conjunction(s1.with_cond(lo), hi, env);
        assert(value(Term::Int(0), env) == 0);
        assert(value(Term::Int(255), env) == 255);
        assert(holds(both, env) == (0 <= value(b, env) <= 255));
        assert(holds(lo, env) == (value(b, env) >= 0));
        assert(holds(hi, env) == (value(b, env) <= 255));
        let next = bytes.push(b);
        lemma_bytes_from(s1.with_cond(lo).with_cond(hi), hint, i + 1, next, env);
        let (bs, _) = st.bytes_from(hint, i, bytes)->Ok_0;
        assert(bs[i] == next[i]);
        assert(bytes =~= bs.take(i));
        assert(are_bytes(bs, i, env) == (0 <= value(bs[i], env) <= 255 && are_bytes(
            bs,
            i + 1,
            env,
        )));
    }
}

/// The bytes of a word are four fresh bytes that make it up, the first being the lowest.
pub proof fn bytes_make_up_word(
    st: StateV,
    t: Term,
    hint: Seq<char>,
    env: spec_fn(Seq<char>) -> int,
)
    requires
        sound_at(st, env),
        st.word_of(t, hint) is Ok,
    ensures
        ({
            let (bytes, s) = st.word_of(t, hint)->Ok_0;
            &&& bytes.len() == 4
            &&& sound_at(s, env)
            &&& all_hold(s.path_cond, env) <==> all_hold(st.path_cond, env) && are_bytes(
                bytes,
                0,
                env,
            ) && value(t, env) == word_value(bytes, env)
        }),
{
    let (bytes, s) = st.bytes_from(hint, 0, seq![])->Ok_0;
    lemma_bytes_from(st, hint, 0, seq![], env);
    let acc = little_endian(bytes, bytes.len() - 1, bytes.last())->Ok_0;
    lemma_little_endian(bytes, env);
    let eq = Formula::Eq(acc, t);
    adding_is_conjunction(s, eq, env);
    assert(holds(eq, env) == (value(acc, env) == value(t, env)));
}

} // verus!
