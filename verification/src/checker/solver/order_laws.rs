//! What the bits of a decomposition, and the comparisons that are expressed by them, mean.

use vstd::arithmetic::div_mod::{
    lemma_div_denominator, lemma_div_pos_is_pos, lemma_mod_add_multiples_vanish, lemma_mod_bound,
    lemma_mod_breakdown, lemma_small_mod,
};
use vstd::arithmetic::power2::{
    lemma2_to64, lemma2_to64_rest, lemma_pow2_adds, lemma_pow2_pos, lemma_pow2_strictly_increases,
    lemma_pow2_unfold, pow2,
};
use vstd::prelude::*;
use crate::checker::solver::cvc5::{
    gap_width, hint_max, lemma_digits, lemma_width_covers, limited, lower_plan, order_plan,
    upper_plan, width_of, Order, OrderPlan, MAX_RANGE_BITS,
};

verus! {

/// The value of the first `n` bits of byte `i`, each with its weight.
pub open spec fn byte_value(b: spec_fn(int, int) -> int, i: int, n: int) -> int
    decreases n,
{
    if n <= 0 {
        0
    } else {
        byte_value(b, i, n - 1) + pow2((n - 1) as nat) * b(i, n - 1)
    }
}

/// The value of the bytes from `i` on that hold the remaining bits, each with its weight.
pub open spec fn bytes_value(b: spec_fn(int, int) -> int, i: int, remaining: int) -> int
    decreases remaining,
{
    if remaining <= 0 || i < 0 {
        0
    } else {
        let n = if remaining < 8 {
            remaining
        } else {
            8
        };
        pow2((8 * i) as nat) * byte_value(b, i, n) + bytes_value(b, i + 1, remaining - n)
    }
}

/// Every bit is zero or one.
pub open spec fn all_bits(b: spec_fn(int, int) -> int) -> bool {
    forall|i: int, j: int| 0 <= #[trigger] b(i, j) <= 1
}

/// The binary digits of a number, by byte and place.
pub open spec fn bits_of(x: int) -> spec_fn(int, int) -> int {
    |i: int, j: int|
        if 0 <= i && 0 <= j {
            (x / (pow2((8 * i + j) as nat) as int)) % 2
        } else {
            0
        }
}

proof fn lemma_byte_bound(b: spec_fn(int, int) -> int, i: int, n: int)
    requires
        all_bits(b),
        0 <= n,
    ensures
        0 <= byte_value(b, i, n) < pow2(n as nat),
    decreases n,
{
    if n > 0 {
        lemma_byte_bound(b, i, n - 1);
        lemma_pow2_unfold(n as nat);
        let w = pow2((n - 1) as nat) as int;
        let k = b(i, n - 1);
        assert(0 <= w * k <= w) by (nonlinear_arith)
            requires
                0 <= k <= 1,
                w >= 0,
        ;
    } else {
        lemma2_to64();
    }
}

proof fn lemma_bytes_bound(b: spec_fn(int, int) -> int, i: int, remaining: int)
    requires
        all_bits(b),
        0 <= i,
        0 <= remaining,
    ensures
        0 <= bytes_value(b, i, remaining),
        bytes_value(b, i, remaining) + pow2((8 * i) as nat) <= pow2((8 * i + remaining) as nat),
    decreases remaining,
{
    if remaining > 0 {
        let n = if remaining < 8 {
            remaining
        } else {
            8
        };
        lemma_byte_bound(b, i, n);
        lemma_pow2_pos((8 * i) as nat);
        lemma_pow2_adds((8 * i) as nat, n as nat);
        let w = pow2((8 * i) as nat) as int;
        let v = byte_value(b, i, n);
        let top = pow2(n as nat) as int;
        assert(0 <= w * v && w * v + w <= w * top) by (nonlinear_arith)
            requires
                0 <= v < top,
                w > 0,
        ;
        if remaining > 8 {
            lemma_bytes_bound(b, i + 1, remaining - n);
        } else {
            assert(bytes_value(b, i + 1, remaining - n) == 0);
        }
    }
}

proof fn lemma_byte_digits(x: int, i: int, n: int)
    requires
        0 <= x,
        0 <= i,
        0 <= n,
    ensures
        byte_value(bits_of(x), i, n) == (x / (pow2((8 * i) as nat) as int)) % (pow2(
            n as nat,
        ) as int),
    decreases n,
{
    let w = pow2((8 * i) as nat) as int;
    let y = x / w;
    lemma_pow2_pos((8 * i) as nat);
    lemma_div_pos_is_pos(x, w);
    if n > 0 {
        let u = pow2((n - 1) as nat) as int;
        lemma_byte_digits(x, i, n - 1);
        lemma_pow2_pos((n - 1) as nat);
        lemma_pow2_unfold(n as nat);
        lemma_mod_breakdown(y, u, 2);
        lemma_div_denominator(x, w, u);
        lemma_pow2_adds((8 * i) as nat, (n - 1) as nat);
        assert(bits_of(x)(i, n - 1) == (y / u) % 2);
        assert(u * 2 == pow2(n as nat));
    } else {
        lemma2_to64();
        assert(y % 1 == 0);
    }
}

proof fn lemma_bytes_digits(x: int, i: int, remaining: int)
    requires
        0 <= x,
        0 <= i,
        0 <= remaining,
    ensures
        bytes_value(bits_of(x), i, remaining) == pow2((8 * i) as nat) * ((x / (pow2(
            (8 * i) as nat,
        ) as int)) % (pow2(remaining as nat) as int)),
    decreases remaining,
{
    let w = pow2((8 * i) as nat) as int;
    let y = x / w;
    lemma_pow2_pos((8 * i) as nat);
    lemma_div_pos_is_pos(x, w);
    if remaining > 0 {
        let n = if remaining < 8 {
            remaining
        } else {
            8
        };
        let r = remaining - n;
        lemma_byte_digits(x, i, n);
        lemma_bytes_digits(x, i + 1, r);
        let u = pow2(n as nat) as int;
        let v = pow2(r as nat) as int;
        lemma_pow2_pos(n as nat);
        lemma_pow2_pos(r as nat);
        lemma_pow2_adds(n as nat, r as nat);
        lemma_mod_breakdown(y, u, v);
        if remaining > 8 {
            lemma_pow2_adds((8 * i) as nat, 8);
            lemma_div_denominator(x, w, u);
            let rest = (y / u) % v;
            assert(bytes_value(bits_of(x), i + 1, r) == (w * u) * rest);
            assert(w * (u * rest + y % u) == (w * u) * rest + w * (y % u)) by (nonlinear_arith);
        } else {
            lemma2_to64();
            assert((y / u) % 1 == 0);
            assert(u * 0 == 0);
            assert(bytes_value(bits_of(x), i + 1, r) == 0);
        }
    } else {
        lemma2_to64();
        assert(y % 1 == 0);
        assert(w * 0 == 0);
    }
}

/// The numbers that bits can express are those of their width: every choice of bits gives one, and
/// the binary digits of such a number give it back.
pub proof fn decomposition_is_range(b: spec_fn(int, int) -> int, x: int, bits: int)
    requires
        bits >= 0,
    ensures
        all_bits(b) ==> 0 <= bytes_value(b, 0, bits) < pow2(bits as nat),
        0 <= x < pow2(bits as nat) ==> all_bits(bits_of(x)) && bytes_value(bits_of(x), 0, bits) == x,
{
    lemma2_to64();
    if all_bits(b) {
        lemma_bytes_bound(b, 0, bits);
    }
    if 0 <= x < pow2(bits as nat) {
        lemma_bytes_digits(x, 0, bits);
        assert(x / 1 == x);
        lemma_small_mod(x as nat, pow2(bits as nat));
        assert forall|i: int, j: int| 0 <= #[trigger] bits_of(x)(i, j) <= 1 by {
            if 0 <= i && 0 <= j {
                lemma_mod_bound(x / (pow2((8 * i + j) as nat) as int), 2);
            }
        }
    }
}

/// The comparison of a number with a constant.
pub open spec fn compares(op: Order, x: int, k: int) -> bool {
    match op {
        Order::Lt => x < k,
        Order::Le => x <= k,
        Order::Gt => x > k,
        Order::Ge => x >= k,
    }
}

/// The field element is among those that a plan leaves: what is decomposed is a number of the
/// width.
pub open spec fn admitted(plan: OrderPlan, x: int, p: int) -> bool {
    match plan {
        OrderPlan::Always => true,
        OrderPlan::Never => false,
        OrderPlan::Within { start, bits } => (x - start) % p < pow2(bits as nat),
        OrderPlan::Between { bound, bits } => x % p < pow2(bits as nat) && (bound - x) % p < pow2(
            bits as nat,
        ),
    }
}

/// The width that a plan decomposes.
pub open spec fn plan_width(plan: OrderPlan) -> int {
    match plan {
        OrderPlan::Within { bits, .. } => bits as int,
        OrderPlan::Between { bits, .. } => bits as int,
        _ => 0,
    }
}

/// The field has room for a plan: no number below the start, and none above the bound, wraps around
/// into the width.
pub open spec fn has_room(plan: OrderPlan, p: int) -> bool {
    match plan {
        OrderPlan::Within { start, bits } => start + pow2(bits as nat) <= p,
        OrderPlan::Between { bits, .. } => 2 * pow2(bits as nat) <= p,
        _ => true,
    }
}

/// The number is near enough to the constant: where there is no hint, a lower bound reaches as far
/// as the greatest width above it.
pub open spec fn in_reach(op: Order, k: int, x: int) -> bool {
    match op {
        Order::Gt => x < k + 1 + pow2(MAX_RANGE_BITS as nat),
        Order::Ge => x < k + pow2(MAX_RANGE_BITS as nat),
        _ => true,
    }
}

proof fn lemma_width_below(x: int)
    requires
        0 <= x <= i128::MAX,
    ensures
        width_of(x) <= 127,
{
    lemma2_to64();
    lemma2_to64_rest();
    lemma_pow2_adds(64, 63);
    assert(0x1_0000_0000_0000_0000int * 0x8000_0000_0000_0000int
        == 0x8000_0000_0000_0000_0000_0000_0000_0000int) by (nonlinear_arith);
    if x > 2 {
        lemma_digits(x - 1, 127);
    }
}

proof fn lemma_residue_below(d: int, p: int)
    requires
        0 < p,
        -p <= d < 0,
    ensures
        d % p == d + p,
{
    lemma_mod_add_multiples_vanish(d, p);
    if d == -p {
        assert((d + p) % p == 0) by {
            lemma_small_mod(0, p as nat);
        }
    } else {
        lemma_small_mod((d + p) as nat, p as nat);
    }
}

proof fn lemma_lower_admits(start: int, hint: Option<usize>, x: int, p: int)
    requires
        0 <= start <= i128::MAX,
        0 <= x < p,
        hint is Some ==> x <= hint_max(hint->0),
        has_room(lower_plan(start, hint), p),
    ensures
        admitted(lower_plan(start, hint), x, p) ==> x >= start,
        x >= start && (hint is Some || x < start + pow2(MAX_RANGE_BITS as nat)) ==> admitted(
            lower_plan(start, hint),
            x,
            p,
        ),
{
    lemma2_to64();
    if let Some(h) = hint {
        let top = hint_max(h);
        let gap = if top > start {
            top - start
        } else {
            0
        };
        lemma_width_covers(gap + 1);
        if h < MAX_RANGE_BITS {
            lemma_pow2_strictly_increases(h as nat, MAX_RANGE_BITS as nat);
        }
        assert(limited(gap_width(start, h)) as usize == limited(gap_width(start, h)));
    }
    lemma_pow2_pos(plan_width(lower_plan(start, hint)) as nat);
    if x >= start {
        lemma_small_mod((x - start) as nat, p as nat);
    } else {
        lemma_residue_below(x - start, p);
    }
}

proof fn lemma_upper_admits(bound: int, x: int, p: int)
    requires
        0 <= bound < i128::MAX,
        bound < p,
        0 <= x < p,
        has_room(upper_plan(bound), p),
    ensures
        admitted(upper_plan(bound), x, p) <==> x <= bound,
{
    let bits = width_of(bound + 1);
    lemma_width_covers(bound + 1);
    lemma_width_below(bound + 1);
    lemma_small_mod(x as nat, p as nat);
    assert(bits as usize == bits);
    if x <= bound {
        lemma_small_mod((bound - x) as nat, p as nat);
    } else {
        lemma_residue_below(bound - x, p);
    }
}

/// The plan for a comparison leaves only field elements for which the comparison is true, and all
/// of those that are within the hint or, where there is none, within reach.
pub proof fn plan_admits_comparison(op: Order, k: int, hint: Option<usize>, x: int, p: int)
    requires
        0 <= k < p / 2,
        p <= i128::MAX,
        0 <= x < p,
        hint is Some ==> x <= hint_max(hint->0),
        has_room(order_plan(op, k, hint), p),
    ensures
        admitted(order_plan(op, k, hint), x, p) ==> compares(op, x, k),
        compares(op, x, k) && (hint is Some || in_reach(op, k, x)) ==> admitted(
            order_plan(op, k, hint),
            x,
            p,
        ),
{
    reveal(order_plan);
    match op {
        Order::Gt => lemma_lower_admits(k + 1, hint, x, p),
        Order::Ge => lemma_lower_admits(k, hint, x, p),
        Order::Le => {
            if !(hint is Some && k >= hint_max(hint->0)) {
                lemma_upper_admits(k, x, p);
            }
        },
        Order::Lt => {
            if k > 0 {
                lemma_upper_admits(k - 1, x, p);
            }
        },
    }
}

/// A field of more than sixty million elements has room for every plan that can be written.
pub proof fn large_fields_have_room(op: Order, k: int, hint: Option<usize>, p: int)
    requires
        0 <= k < p / 2,
        pow2(26) <= p <= i128::MAX,
        plan_width(order_plan(op, k, hint)) <= MAX_RANGE_BITS,
    ensures
        has_room(order_plan(op, k, hint), p),
{
    reveal(order_plan);
    lemma2_to64();
    let w = plan_width(order_plan(op, k, hint)) as nat;
    if w < 24 {
        lemma_pow2_strictly_increases(w, 24);
    }
}

} // verus!
