//! Simplification decides every comparison with a constant that the intervals decide.

use vstd::prelude::*;
use crate::checker::symbolic::arith::fits;
use crate::checker::symbolic::expr::{Formula, Term};
use crate::checker::symbolic::meaning::{holds, value};
use crate::checker::symbolic::range::{
    range_of, respects_hints, sum_range, Hints,
};
use crate::checker::symbolic::simplify::{simplified, tighten, Simp};

verus! {

/// Every interval holds a number.
pub open spec fn intervals_hold_numbers(h: Hints) -> bool {
    forall|name: Seq<char>| #[trigger] h.contains_key(name) ==> h[name].0 <= h[name].1
}

/// A constant, or a variable.
pub open spec fn is_atom(t: Term) -> bool {
    t is Int || t is Var
}

/// A comparison of two atoms, one of which is a constant, or a range of an atom.
pub open spec fn compares_atoms(f: Formula) -> bool {
    match f {
        Formula::Eq(a, b) => is_atom(a) && is_atom(b) && (a is Int || b is Int),
        Formula::Ne(a, b) => is_atom(a) && is_atom(b) && (a is Int || b is Int),
        Formula::Le(a, b) => is_atom(a) && is_atom(b) && (a is Int || b is Int),
        Formula::Lt(a, b) => is_atom(a) && is_atom(b) && (a is Int || b is Int),
        Formula::Ge(a, b) => is_atom(a) && is_atom(b) && (a is Int || b is Int),
        Formula::Gt(a, b) => is_atom(a) && is_atom(b) && (a is Int || b is Int),
        Formula::Range { value: v, .. } => is_atom(v),
        _ => false,
    }
}

/// Within the intervals the formula is always true, or always false.
pub open spec fn is_always(f: Formula, h: Hints, b: bool) -> bool {
    forall|env: spec_fn(Seq<char>) -> int|
        respects_hints(h, env) ==> #[trigger] holds(f, env) == b
}

/// An environment within the intervals that gives one variable the value `k`.
spec fn giving(h: Hints, name: Seq<char>, k: int) -> spec_fn(Seq<char>) -> int {
    |n: Seq<char>|
        if n == name {
            k
        } else if h.contains_key(n) {
            h[n].0
        } else {
            0
        }
}

proof fn lemma_giving(h: Hints, name: Seq<char>, k: int)
    requires
        intervals_hold_numbers(h),
        h.contains_key(name) ==> h[name].0 <= k <= h[name].1,
    ensures
        respects_hints(h, giving(h, name, k)),
        giving(h, name, k)(name) == k,
{
}

proof fn lemma_value_at(f: Formula, h: Hints, b: bool, name: Seq<char>, k: int)
    requires
        intervals_hold_numbers(h),
        is_always(f, h, b),
        h.contains_key(name) ==> h[name].0 <= k <= h[name].1,
    ensures
        holds(f, giving(h, name, k)) == b,
        giving(h, name, k)(name) == k,
{
    lemma_giving(h, name, k);
}

/// The variable of a comparison, if it has one.
spec fn variable_of(f: Formula) -> Option<Seq<char>> {
    match f {
        Formula::Eq(a, b)
        | Formula::Ne(a, b)
        | Formula::Le(a, b)
        | Formula::Lt(a, b)
        | Formula::Ge(a, b)
        | Formula::Gt(a, b) => match (a, b) {
            (Term::Var(n, _), _) => Some(n),
            (_, Term::Var(n, _)) => Some(n),
            _ => None,
        },
        Formula::Range { value: Term::Var(n, _), .. } => Some(n),
        _ => None,
    }
}

/// The bounds that a comparison mentions.
spec fn bounds_of(f: Formula) -> (int, int) {
    match f {
        Formula::Eq(a, b)
        | Formula::Ne(a, b)
        | Formula::Le(a, b)
        | Formula::Lt(a, b)
        | Formula::Ge(a, b)
        | Formula::Gt(a, b) => match (a, b) {
            (Term::Int(k), _) => (k, k),
            (_, Term::Int(k)) => (k, k),
            _ => (0, 0),
        },
        Formula::Range { min, max, .. } => (min, max),
        _ => (0, 0),
    }
}

/// A comparison with a constant that has the same truth for all values within the intervals is
/// found to have that truth.
pub proof fn decided_comparisons_are_known(f: Formula, h: Hints, b: bool)
    requires
        intervals_hold_numbers(h),
        compares_atoms(f),
        is_always(f, h, b),
    ensures
        simplified(f, h).0 == Simp::Known(b),
{
    reveal_with_fuel(holds, 2);
    reveal_with_fuel(value, 2);
    match variable_of(f) {
        None => {
            lemma_value_at(f, h, b, seq![], if h.contains_key(seq![]) {
                h[seq![]].0
            } else {
                0
            });
        },
        Some(name) => {
            let (p, q) = bounds_of(f);
            if h.contains_key(name) {
                let (lo, hi) = h[name];
                lemma_value_at(f, h, b, name, lo);
                lemma_value_at(f, h, b, name, hi);
                if lo <= p <= hi {
                    lemma_value_at(f, h, b, name, p);
                }
                if lo <= q <= hi {
                    lemma_value_at(f, h, b, name, q);
                }
            } else {
                lemma_value_at(f, h, b, name, p - 1);
                lemma_value_at(f, h, b, name, p);
                lemma_value_at(f, h, b, name, q + 1);
            }
        },
    }
}

/// Narrowing an interval keeps exactly the values that lie in both intervals; it is contradictory
/// where there is none, and was known before where it keeps them all.
pub proof fn narrowing_is_intersection(
    h: Hints,
    name: Seq<char>,
    min: int,
    max: int,
    env: spec_fn(Seq<char>) -> int,
)
    requires
        intervals_hold_numbers(h),
    ensures
        ({
            let (contradictory, known, after) = tighten(h, name, min, max);
            &&& contradictory ==> !(respects_hints(h, env) && min <= env(name) <= max)
            &&& !contradictory ==> intervals_hold_numbers(after) && (respects_hints(after, env)
                <==> respects_hints(h, env) && min <= env(name) <= max)
            &&& !contradictory && known ==> after == h
            &&& !contradictory && h.contains_key(name) && !known ==> after != h
        }),
{
    let (contradictory, known, after) = tighten(h, name, min, max);
    if !contradictory {
        assert forall|n: Seq<char>| #[trigger] after.contains_key(n) implies after[n].0
            <= after[n].1 by {
            if n != name {
                assert(h.contains_key(n));
            }
        }
        if respects_hints(after, env) {
            assert(after.contains_key(name));
            assert forall|n: Seq<char>| #[trigger] h.contains_key(n) implies h[n].0 <= env(n)
                <= h[n].1 by {
                assert(after.contains_key(n));
            }
        }
        if respects_hints(h, env) && min <= env(name) <= max {
            assert forall|n: Seq<char>| #[trigger] after.contains_key(n) implies after[n].0
                <= env(n) <= after[n].1 by {
                if n != name {
                    assert(h.contains_key(n));
                }
            }
        }
        if h.contains_key(name) {
            if known {
                assert(after =~= h);
            } else {
                assert(after[name] != h[name]);
            }
        }
    }
}

/// `z` is the sum of a number of the first interval and one of the second.
pub open spec fn is_sum_of(x: int, y: int, a: (int, int), b: (int, int), z: int) -> bool {
    a.0 <= x <= a.1 && b.0 <= y <= b.1 && x + y == z
}

/// `z` is the sum of some number of the first interval and one of the second.
pub open spec fn is_some_sum(a: (int, int), b: (int, int), z: int) -> bool {
    exists|x: int, y: int| is_sum_of(x, y, a, b, z)
}

/// Every number of the interval is the sum of numbers of two intervals.
pub open spec fn holds_sums(r: (int, int), a: (int, int), b: (int, int)) -> bool {
    forall|z: int| r.0 <= z <= r.1 ==> #[trigger] is_some_sum(a, b, z)
}

proof fn lemma_holds_sums(a: (int, int), b: (int, int))
    requires
        a.0 <= a.1,
        b.0 <= b.1,
    ensures
        holds_sums((a.0 + b.0, a.1 + b.1), a, b),
{
    assert forall|z: int| a.0 + b.0 <= z <= a.1 + b.1 implies #[trigger] is_some_sum(
        a,
        b,
        z,
    ) by {
        if z - b.0 <= a.1 {
            assert(is_sum_of(z - b.0, b.0, a, b, z));
        } else {
            assert(is_sum_of(a.1, z - a.1, a, b, z));
        }
    }
}

/// Every number of the interval of a sum is the sum of numbers of the intervals of its summands,
/// and of the interval of a difference their difference; there is such an interval where its ends
/// are representable.
pub proof fn intervals_of_sums_are_exact(
    s: Term,
    t: Term,
    a: (int, int),
    b: (int, int),
    h: Hints,
)
    requires
        range_of(s, h) == Some(a),
        range_of(t, h) == Some(b),
        a.0 <= a.1,
        b.0 <= b.1,
        fits(a.0),
        fits(a.1),
    ensures
        match range_of(Term::Add(seq![s, t]), h) {
            Some(r) => holds_sums(r, a, b),
            None => !fits(a.0 + b.0) || !fits(a.1 + b.1),
        },
        match range_of(Term::Sub(Box::new(s), Box::new(t)), h) {
            Some(r) => holds_sums(r, a, (-b.1, -b.0)),
            None => !fits(a.0 - b.1) || !fits(a.1 - b.0),
        },
{
    let one = seq![s];
    let two = seq![s, t];
    assert(two.drop_last() =~= one);
    assert(one.drop_last() =~= seq![]);
    assert(sum_range(seq![], h) == Some((0int, 0int)));
    assert(sum_range(one, h) == Some(a));
    assert(range_of(Term::Add(two), h) == sum_range(two, h));
    lemma_holds_sums(a, b);
    lemma_holds_sums(a, (-b.1, -b.0));
}

} // verus!
