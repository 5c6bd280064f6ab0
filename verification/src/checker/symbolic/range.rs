//! Interval inference for sorts and expressions.

use vstd::arithmetic::power2::pow2;
use vstd::prelude::*;
use crate::checker::symbolic::arith::fits;
use crate::checker::symbolic::expr::{terms_of, Formula, SymExpr, SymType, Term, FIELD_MODULUS};
use crate::checker::symbolic::meaning::{product_value, sum_value, value};
use crate::name_map::NameMap;

verus! {

/// Known intervals of variables, by name.
pub type Hints = Map<Seq<char>, (int, int)>;

/// What a table of hints stands for.
pub open spec fn hint_map(m: NameMap<(i128, i128)>) -> Hints {
    m@.map_values(|p: (i128, i128)| (p.0 as int, p.1 as int))
}

/// A pair of machine integers as mathematical integers.
pub open spec fn as_interval(r: Option<(i128, i128)>) -> Option<(int, int)> {
    match r {
        Some((lo, hi)) => Some((lo as int, hi as int)),
        None => None,
    }
}

/// The inclusive interval of a sort, if it is bounded.
pub open spec fn type_range(ty: SymType) -> Option<(int, int)> {
    match ty {
        SymType::Bool => Some((0, 1)),
        SymType::Uint(w) => if 0 < w < 127 {
            Some((0, pow2(w as nat) - 1))
        } else {
            None
        },
        SymType::Int(w) => if 0 < w < 127 {
            Some((-pow2((w - 1) as nat), pow2((w - 1) as nat) - 1))
        } else {
            None
        },
        SymType::F => Some((0, FIELD_MODULUS - 1)),
    }
}

/// The declared bit width of a sort.
pub open spec fn type_width(ty: SymType) -> Option<usize> {
    match ty {
        SymType::Bool => Some(1),
        SymType::Uint(w) => if 0 < w < 127 {
            Some(w)
        } else {
            None
        },
        SymType::Int(w) => if 0 < w < 127 {
            Some(w)
        } else {
            None
        },
        SymType::F => None,
    }
}

/// The interval, provided both ends are representable.
pub open spec fn representable(lo: int, hi: int) -> Option<(int, int)> {
    if fits(lo) && fits(hi) {
        Some((lo, hi))
    } else {
        None
    }
}

pub open spec fn least(a: int, b: int) -> int {
    if a <= b {
        a
    } else {
        b
    }
}

pub open spec fn greatest(a: int, b: int) -> int {
    if a >= b {
        a
    } else {
        b
    }
}

/// The hull of four numbers, provided each is representable.
pub open spec fn corners(p: int, q: int, r: int, s: int) -> Option<(int, int)> {
    if fits(p) && fits(q) && fits(r) && fits(s) {
        Some((least(least(p, q), least(r, s)), greatest(greatest(p, q), greatest(r, s))))
    } else {
        None
    }
}

/// The hull of the products of the ends of two intervals.
pub open spec fn product_range(a: (int, int), b: (int, int)) -> Option<(int, int)> {
    corners(a.0 * b.0, a.0 * b.1, a.1 * b.0, a.1 * b.1)
}

/// The hull of the Euclidean quotients of the ends of two intervals, the second of which excludes
/// zero.
pub open spec fn quotient_range(a: (int, int), b: (int, int)) -> Option<(int, int)> {
    if b.0 <= 0 <= b.1 || b.0 == 0 || b.1 == 0 {
        None
    } else {
        corners(a.0 / b.0, a.0 / b.1, a.1 / b.0, a.1 / b.1)
    }
}

/// The interval inferred for a term: hints decide for variables, then sorts.
pub open spec fn range_of(t: Term, hints: Hints) -> Option<(int, int)>
    decreases t,
{
    match t {
        Term::Int(k) => Some((k, k)),
        Term::Var(name, ty) => if hints.contains_key(name) {
            Some(hints[name])
        } else {
            type_range(ty)
        },
        Term::Neg(x) => match range_of(*x, hints) {
            Some((lo, hi)) => representable(-hi, -lo),
            None => None,
        },
        Term::Add(xs) => sum_range(xs, hints),
        Term::Mul(xs) => factor_range(xs, hints),
        Term::Sub(a, b) => match (range_of(*a, hints), range_of(*b, hints)) {
            (Some(x), Some(y)) => representable(x.0 - y.1, x.1 - y.0),
            _ => None,
        },
        Term::Div(a, b) => match (range_of(*a, hints), range_of(*b, hints)) {
            (Some(x), Some(y)) => quotient_range(x, y),
            _ => None,
        },
        Term::Mod(_, m) => match *m {
            Term::Int(k) => if k > 0 {
                Some((0, k - 1))
            } else {
                None
            },
            _ => None,
        },
        Term::Ite(_, a, b) => match (range_of(*a, hints), range_of(*b, hints)) {
            (Some(x), Some(y)) => Some((least(x.0, y.0), greatest(x.1, y.1))),
            _ => None,
        },
    }
}

/// The interval of a sum.
pub open spec fn sum_range(xs: Seq<Term>, hints: Hints) -> Option<(int, int)>
    decreases xs,
{
    if xs.len() == 0 {
        Some((0, 0))
    } else {
        match (sum_range(xs.drop_last(), hints), range_of(xs.last(), hints)) {
            (Some(a), Some(x)) => representable(a.0 + x.0, a.1 + x.1),
            _ => None,
        }
    }
}

/// The interval of a product of at least one factor.
pub open spec fn factor_range(xs: Seq<Term>, hints: Hints) -> Option<(int, int)>
    decreases xs,
{
    if xs.len() == 0 {
        None
    } else if xs.len() == 1 {
        range_of(xs[0], hints)
    } else {
        match (factor_range(xs.drop_last(), hints), range_of(xs.last(), hints)) {
            (Some(a), Some(x)) => product_range(a, x),
            _ => None,
        }
    }
}

/// Two to the power `w`.
pub fn power_of_two(w: usize) -> (r: i128)
    requires
        w < 127,
    ensures
        r == pow2(w as nat),
        0 < r,
{
    proof {
        vstd::arithmetic::power2::lemma2_to64();
        vstd::arithmetic::power2::lemma2_to64_rest();
        vstd::arithmetic::power2::lemma_pow2_strictly_increases(w as nat, 127);
        vstd::arithmetic::power2::lemma_pow2_adds(63, 64);
    }
    let mut r: i128 = 1;
    for i in 0..w
        invariant
            w < 127,
            r == pow2(i as nat),
            0 < r,
            pow2(127) == 0x8000_0000_0000_0000_0000_0000_0000_0000int,
    {
        proof {
            vstd::arithmetic::power2::lemma_pow2_unfold((i + 1) as nat);
            if i + 1 < 127 {
                vstd::arithmetic::power2::lemma_pow2_strictly_increases((i + 1) as nat, 127);
            }
        }
        r = r * 2;
    }
    r
}

/// Returns an inclusive numeric interval for a symbolic type, if it is bounded.
pub fn symtype_range(sty: &SymType) -> (r: Option<(i128, i128)>)
    ensures
        as_interval(r) == type_range(*sty),
{
    match *sty {
        SymType::Bool => Some((0, 1)),
        SymType::Uint(w) => if w > 0 && w < 127 {
            Some((0, power_of_two(w) - 1))
        } else {
            None
        },
        SymType::Int(w) => if w > 0 && w < 127 {
            let half = power_of_two(w - 1);
            Some((-half, half - 1))
        } else {
            None
        },
        SymType::F => Some((0, FIELD_MODULUS - 1)),
    }
}

/// Returns the declared bit width for integer-like symbolic types.
pub fn symtype_bit_width(sty: &SymType) -> (r: Option<usize>)
    ensures
        r == type_width(*sty),
{
    match *sty {
        SymType::Bool => Some(1),
        SymType::Uint(w) => if w > 0 && w < 127 {
            Some(w)
        } else {
            None
        },
        SymType::Int(w) => if w > 0 && w < 127 {
            Some(w)
        } else {
            None
        },
        SymType::F => None,
    }
}

fn range_add(a: (i128, i128), b: (i128, i128)) -> (r: Option<(i128, i128)>)
    ensures
        as_interval(r) == representable(a.0 + b.0, a.1 + b.1),
{
    match (a.0.checked_add(b.0), a.1.checked_add(b.1)) {
        (Some(lo), Some(hi)) => Some((lo, hi)),
        _ => None,
    }
}

fn range_sub(a: (i128, i128), b: (i128, i128)) -> (r: Option<(i128, i128)>)
    ensures
        as_interval(r) == representable(a.0 - b.1, a.1 - b.0),
{
    match (a.0.checked_sub(b.1), a.1.checked_sub(b.0)) {
        (Some(lo), Some(hi)) => Some((lo, hi)),
        _ => None,
    }
}

/// The smaller of two numbers.
pub fn min_of(a: i128, b: i128) -> (r: i128)
    ensures
        r == least(a as int, b as int),
{
    if a <= b {
        a
    } else {
        b
    }
}

/// The larger of two numbers.
pub fn max_of(a: i128, b: i128) -> (r: i128)
    ensures
        r == greatest(a as int, b as int),
{
    if a >= b {
        a
    } else {
        b
    }
}

fn hull(p: i128, q: i128, r: i128, s: i128) -> (h: (i128, i128))
    ensures
        Some((h.0 as int, h.1 as int)) == corners(p as int, q as int, r as int, s as int),
{
    (min_of(min_of(p, q), min_of(r, s)), max_of(max_of(p, q), max_of(r, s)))
}

fn range_mul(a: (i128, i128), b: (i128, i128)) -> (r: Option<(i128, i128)>)
    ensures
        as_interval(r) == product_range((a.0 as int, a.1 as int), (b.0 as int, b.1 as int)),
{
    match (a.0.checked_mul(b.0), a.0.checked_mul(b.1), a.1.checked_mul(b.0), a.1.checked_mul(b.1)) {
        (Some(p), Some(q), Some(r), Some(s)) => Some(hull(p, q, r, s)),
        _ => None,
    }
}

/// Euclidean quotient, if representable.
fn div_euclidean(x: i128, d: i128) -> (r: Option<i128>)
    requires
        d != 0,
    ensures
        match r {
            Some(q) => q == x as int / d as int,
            None => !fits(x as int / d as int),
        },
{
    proof {
        if x < 0 {
            lemma_div_below(x as int, d as int);
        } else if d < 0 {
            lemma_div_negative(x as int, d as int);
        }
    }
    // The divisor's magnitude; the one that no signed number has exceeds every dividend.
    let m: u128 = if d > 0 {
        d as u128
    } else {
        (-(d + 1)) as u128 + 1
    };
    let n: u128 = if x >= 0 {
        x as u128
    } else {
        (-(x + 1)) as u128
    };
    let q: u128 = n / m;
    proof {
        lemma_quotient_small(n as int, m as int);
    }
    if x >= 0 {
        if d > 0 {
            Some(q as i128)
        } else {
            Some(-(q as i128))
        }
    } else if d > 0 {
        Some(-(q as i128) - 1)
    } else if q == i128::MAX as u128 {
        None
    } else {
        Some(q as i128 + 1)
    }
}

fn range_div(a: (i128, i128), b: (i128, i128)) -> (r: Option<(i128, i128)>)
    ensures
        as_interval(r) == quotient_range((a.0 as int, a.1 as int), (b.0 as int, b.1 as int)),
{
    if (b.0 <= 0 && b.1 >= 0) || b.0 == 0 || b.1 == 0 {
        return None;
    }
    match (
        div_euclidean(a.0, b.0),
        div_euclidean(a.0, b.1),
        div_euclidean(a.1, b.0),
        div_euclidean(a.1, b.1),
    ) {
        (Some(p), Some(q), Some(r), Some(s)) => Some(hull(p, q, r, s)),
        _ => None,
    }
}

fn range_of_sum(xs: &Vec<SymExpr>, hints: &NameMap<(i128, i128)>) -> (r: Option<(i128, i128)>)
    ensures
        as_interval(r) == sum_range(terms_of(xs@), hint_map(*hints)),
    decreases xs,
{
    let ghost ts = terms_of(xs@);
    let mut acc: Option<(i128, i128)> = Some((0, 0));
    proof {
        assert(ts.take(0) =~= seq![]);
    }
    #[verifier::loop_isolation(false)]
    for i in 0..xs.len()
        invariant
            as_interval(acc) == sum_range(ts.take(i as int), hint_map(*hints)),
    {
        let x = symexpr_range(&xs[i], hints);
        proof {
            assert(ts.take(i + 1).drop_last() =~= ts.take(i as int));
            assert(ts.take(i + 1).last() == xs@[i as int]@);
        }
        acc = match (acc, x) {
            (Some(a), Some(b)) => range_add(a, b),
            _ => None,
        };
    }
    proof {
        assert(ts.take(ts.len() as int) =~= ts);
    }
    acc
}

fn range_of_product(xs: &Vec<SymExpr>, hints: &NameMap<(i128, i128)>) -> (r: Option<(i128, i128)>)
    ensures
        as_interval(r) == factor_range(terms_of(xs@), hint_map(*hints)),
    decreases xs,
{
    let ghost ts = terms_of(xs@);
    if xs.len() == 0 {
        return None;
    }
    let mut acc = symexpr_range(&xs[0], hints);
    proof {
        assert(ts.take(1)[0] == xs@[0]@);
    }
    #[verifier::loop_isolation(false)]
    for i in 1..xs.len()
        invariant
            as_interval(acc) == factor_range(ts.take(i as int), hint_map(*hints)),
    {
        let x = symexpr_range(&xs[i], hints);
        proof {
            assert(ts.take(i + 1).drop_last() =~= ts.take(i as int));
            assert(ts.take(i + 1).last() == xs@[i as int]@);
        }
        acc = match (acc, x) {
            (Some(a), Some(b)) => range_mul(a, b),
            _ => None,
        };
    }
    proof {
        assert(ts.take(ts.len() as int) =~= ts);
    }
    acc
}

/// Conservative range inference for a symbolic expression. The hints are consulted first for
/// variables, then the sort.
pub fn symexpr_range(e: &SymExpr, hints: &NameMap<(i128, i128)>) -> (r: Option<(i128, i128)>)
    ensures
        as_interval(r) == range_of(e@, hint_map(*hints)),
    decreases e,
{
    match e {
        SymExpr::Int(k) => Some((*k, *k)),
        SymExpr::Var(name, sty) => match hints.get(name.as_str()) {
            Some(h) => Some(*h),
            None => symtype_range(sty),
        },
        SymExpr::Neg(inner) => match symexpr_range(inner, hints) {
            Some((lo, hi)) => if lo == i128::MIN || hi == i128::MIN {
                None
            } else {
                Some((-hi, -lo))
            },
            None => None,
        },
        SymExpr::Add(xs) => range_of_sum(xs, hints),
        SymExpr::Mul(xs) => range_of_product(xs, hints),
        SymExpr::Sub(a, b) => match (symexpr_range(a, hints), symexpr_range(b, hints)) {
            (Some(x), Some(y)) => range_sub(x, y),
            _ => None,
        },
        SymExpr::Div(a, b) => match (symexpr_range(a, hints), symexpr_range(b, hints)) {
            (Some(x), Some(y)) => range_div(x, y),
            _ => None,
        },
        SymExpr::Ite(_, a, b) => match (symexpr_range(a, hints), symexpr_range(b, hints)) {
            (Some(x), Some(y)) => Some((min_of(x.0, y.0), max_of(x.1, y.1))),
            _ => None,
        },
        SymExpr::Mod(_, m) => {
            proof {
                assert((**m)@ == crate::checker::symbolic::expr::term_of(**m));
            }
            match **m {
                SymExpr::Int(k) => if k > 0 {
                    Some((0, k - 1))
                } else {
                    None
                },
                _ => None,
            }
        },
    }
}

/// `env` gives every variable of `t` without a hint a value of its sort.
pub open spec fn respects_sorts(t: Term, hints: Hints, env: spec_fn(Seq<char>) -> int) -> bool
    decreases t,
{
    match t {
        Term::Int(_) => true,
        Term::Var(name, ty) => hints.contains_key(name) || (match type_range(ty) {
            Some((lo, hi)) => lo <= env(name) <= hi,
            None => true,
        }),
        Term::Neg(x) => respects_sorts(*x, hints, env),
        Term::Add(xs) => all_respect_sorts(xs, hints, env),
        Term::Mul(xs) => all_respect_sorts(xs, hints, env),
        Term::Sub(a, b) => respects_sorts(*a, hints, env) && respects_sorts(*b, hints, env),
        Term::Div(a, b) => respects_sorts(*a, hints, env) && respects_sorts(*b, hints, env),
        Term::Mod(a, b) => respects_sorts(*a, hints, env) && respects_sorts(*b, hints, env),
        Term::Ite(_, a, b) => respects_sorts(*a, hints, env) && respects_sorts(*b, hints, env),
    }
}

/// `env` gives every variable of `xs` without a hint a value of its sort.
pub open spec fn all_respect_sorts(
    xs: Seq<Term>,
    hints: Hints,
    env: spec_fn(Seq<char>) -> int,
) -> bool
    decreases xs,
{
    xs.len() == 0 || (all_respect_sorts(xs.drop_last(), hints, env) && respects_sorts(
        xs.last(),
        hints,
        env,
    ))
}

/// `env` lies within the hints.
pub open spec fn respects_hints(hints: Hints, env: spec_fn(Seq<char>) -> int) -> bool {
    forall|name: Seq<char>| #[trigger]
        hints.contains_key(name) ==> hints[name].0 <= env(name) <= hints[name].1
}

proof fn lemma_product_between(a: int, b: int, x: int, y: int)
    requires
        a <= x <= b,
    ensures
        least(a * y, b * y) <= x * y <= greatest(a * y, b * y),
{
    if y >= 0 {
        assert(a * y <= x * y <= b * y) by (nonlinear_arith)
            requires
                a <= x <= b,
                y >= 0,
        ;
    } else {
        assert(b * y <= x * y <= a * y) by (nonlinear_arith)
            requires
                a <= x <= b,
                y < 0,
        ;
    }
}

/// A product of members lies in the hull of the products of the ends.
proof fn lemma_product_range(a: (int, int), b: (int, int), x: int, y: int)
    requires
        a.0 <= x <= a.1,
        b.0 <= y <= b.1,
        product_range(a, b) is Some,
    ensures
        product_range(a, b)->Some_0.0 <= x * y <= product_range(a, b)->Some_0.1,
{
    lemma_product_between(a.0, a.1, x, y);
    lemma_product_between(b.0, b.1, y, a.0);
    lemma_product_between(b.0, b.1, y, a.1);
    assert(y * a.0 == a.0 * y) by (nonlinear_arith);
    assert(y * a.1 == a.1 * y) by (nonlinear_arith);
    assert(b.0 * a.0 == a.0 * b.0) by (nonlinear_arith);
    assert(b.1 * a.0 == a.0 * b.1) by (nonlinear_arith);
    assert(b.0 * a.1 == a.1 * b.0) by (nonlinear_arith);
    assert(b.1 * a.1 == a.1 * b.1) by (nonlinear_arith);
}

proof fn lemma_div_negative(x: int, d: int)
    requires
        x >= 0,
        d < 0,
    ensures
        x / d == -(x / -d),
{
    let m = -d;
    let q = x / m;
    vstd::arithmetic::div_mod::lemma_fundamental_div_mod(x, m);
    assert(x == m * q + x % m);
    assert(x == d * (-q) + x % m) by (nonlinear_arith)
        requires
            x == m * q + x % m,
            m == -d,
    ;
    assert(x / d == -q) by (nonlinear_arith)
        requires
            x == d * (-q) + x % m,
            0 <= x % m < m,
            m == -d,
            d < 0,
    ;
}

/// A quotient is no greater than the dividend.
proof fn lemma_quotient_small(n: int, m: int)
    requires
        0 <= n,
        0 < m,
    ensures
        0 <= n / m <= n,
{
    vstd::arithmetic::div_mod::lemma_div_pos_is_pos(n, m);
    vstd::arithmetic::div_mod::lemma_div_is_ordered_by_denominator(n, 1, m);
    assert(n / 1 == n);
}

/// The quotient of a negative number, by that of one that is not.
proof fn lemma_div_below(x: int, d: int)
    requires
        x < 0,
        d != 0,
    ensures
        d > 0 ==> x / d == -((-x - 1) / d) - 1,
        d < 0 ==> x / d == (-x - 1) / -d + 1,
{
    let m = if d > 0 {
        d
    } else {
        -d
    };
    let n = -x - 1;
    let q = n / m;
    let r = n % m;
    vstd::arithmetic::div_mod::lemma_fundamental_div_mod(n, m);
    vstd::arithmetic::div_mod::lemma_mod_bound(n, m);
    if d > 0 {
        let k = -q - 1;
        assert(x == d * k + (d - r - 1)) by (nonlinear_arith)
            requires
                -x - 1 == d * q + r,
                k == -q - 1,
        ;
        assert(x / d == k) by (nonlinear_arith)
            requires
                x == d * k + (d - r - 1),
                0 <= r < d,
        ;
    } else {
        let k = q + 1;
        assert(x == d * k + (m - r - 1)) by (nonlinear_arith)
            requires
                -x - 1 == m * q + r,
                k == q + 1,
                m == -d,
        ;
        assert(x / d == k) by (nonlinear_arith)
            requires
                x == d * k + (m - r - 1),
                0 <= r < m,
                m == -d,
                d < 0,
        ;
    }
}

/// A quotient by a positive number lies between those by a smaller and by a greater one.
proof fn lemma_div_between(x: int, c: int, d: int, e: int)
    requires
        0 < c <= d <= e,
    ensures
        least(x / c, x / e) <= x / d <= greatest(x / c, x / e),
{
    if x >= 0 {
        vstd::arithmetic::div_mod::lemma_div_is_ordered_by_denominator(x, d, e);
        vstd::arithmetic::div_mod::lemma_div_is_ordered_by_denominator(x, c, d);
    } else {
        let n = -x - 1;
        lemma_div_below(x, c);
        lemma_div_below(x, d);
        lemma_div_below(x, e);
        vstd::arithmetic::div_mod::lemma_div_is_ordered_by_denominator(n, d, e);
        vstd::arithmetic::div_mod::lemma_div_is_ordered_by_denominator(n, c, d);
    }
}

/// The quotient by a negative number is the negated quotient by its magnitude.
proof fn lemma_div_sign(x: int, d: int)
    requires
        d < 0,
    ensures
        x / d == -(x / -d),
{
    if x >= 0 {
        lemma_div_negative(x, d);
    } else {
        lemma_div_below(x, d);
        lemma_div_below(x, -d);
    }
}

/// A Euclidean quotient of members lies in the hull of the quotients of the ends.
proof fn lemma_quotient_range(a: (int, int), b: (int, int), x: int, y: int)
    requires
        a.0 <= x <= a.1,
        b.0 <= y <= b.1,
        quotient_range(a, b) is Some,
    ensures
        quotient_range(a, b)->Some_0.0 <= x / y <= quotient_range(a, b)->Some_0.1,
{
    if b.0 > 0 {
        vstd::arithmetic::div_mod::lemma_div_is_ordered(a.0, x, y);
        vstd::arithmetic::div_mod::lemma_div_is_ordered(x, a.1, y);
        lemma_div_between(a.0, b.0, y, b.1);
        lemma_div_between(a.1, b.0, y, b.1);
    } else {
        let m = -y;
        vstd::arithmetic::div_mod::lemma_div_is_ordered(a.0, x, m);
        vstd::arithmetic::div_mod::lemma_div_is_ordered(x, a.1, m);
        lemma_div_between(a.0, -b.1, m, -b.0);
        lemma_div_between(a.1, -b.1, m, -b.0);
        lemma_div_sign(x, y);
        lemma_div_sign(a.0, b.0);
        lemma_div_sign(a.0, b.1);
        lemma_div_sign(a.1, b.0);
        lemma_div_sign(a.1, b.1);
    }
}

/// Inferred intervals are sound: whenever the variables lie within their hints and sorts, the
/// value of a term lies within its interval.
pub proof fn range_is_sound(t: Term, hints: Hints, env: spec_fn(Seq<char>) -> int)
    requires
        respects_hints(hints, env),
        respects_sorts(t, hints, env),
        range_of(t, hints) is Some,
    ensures
        range_of(t, hints)->Some_0.0 <= value(t, env) <= range_of(t, hints)->Some_0.1,
    decreases t,
{
    match t {
        Term::Int(_) => {},
        Term::Var(_, _) => {},
        Term::Neg(x) => {
            range_is_sound(*x, hints, env);
        },
        Term::Add(xs) => {
            lemma_sum_sound(xs, hints, env);
        },
        Term::Mul(xs) => {
            lemma_factors_sound(xs, hints, env);
        },
        Term::Sub(a, b) => {
            range_is_sound(*a, hints, env);
            range_is_sound(*b, hints, env);
        },
        Term::Div(a, b) => {
            range_is_sound(*a, hints, env);
            range_is_sound(*b, hints, env);
            lemma_quotient_range(
                range_of(*a, hints)->Some_0,
                range_of(*b, hints)->Some_0,
                value(*a, env),
                value(*b, env),
            );
        },
        Term::Mod(a, m) => {
            assert(value(*m, env) == m->Int_0);
        },
        Term::Ite(_, a, b) => {
            range_is_sound(*a, hints, env);
            range_is_sound(*b, hints, env);
        },
    }
}

proof fn lemma_sum_sound(xs: Seq<Term>, hints: Hints, env: spec_fn(Seq<char>) -> int)
    requires
        respects_hints(hints, env),
        all_respect_sorts(xs, hints, env),
        sum_range(xs, hints) is Some,
    ensures
        sum_range(xs, hints)->Some_0.0 <= sum_value(xs, env) <= sum_range(xs, hints)->Some_0.1,
    decreases xs,
{
    if xs.len() > 0 {
        let ys = xs.drop_last();
        lemma_sum_sound(ys, hints, env);
        range_is_sound(xs.last(), hints, env);
    }
}

proof fn lemma_factors_sound(xs: Seq<Term>, hints: Hints, env: spec_fn(Seq<char>) -> int)
    requires
        respects_hints(hints, env),
        all_respect_sorts(xs, hints, env),
        factor_range(xs, hints) is Some,
    ensures
        factor_range(xs, hints)->Some_0.0 <= product_value(xs, env) <= factor_range(
            xs,
            hints,
        )->Some_0.1,
    decreases xs,
{
    range_is_sound(xs.last(), hints, env);
    if xs.len() == 1 {
        assert(xs =~= seq![xs[0]]);
        crate::checker::symbolic::meaning::lemma_single(xs[0], Formula::Bool(true), env);
    } else {
        let ys = xs.drop_last();
        lemma_factors_sound(ys, hints, env);
        lemma_product_range(
            factor_range(ys, hints)->Some_0,
            range_of(xs.last(), hints)->Some_0,
            product_value(ys, env),
            value(xs.last(), env),
        );
    }
}

} // verus!
