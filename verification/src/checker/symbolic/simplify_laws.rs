//! Simplification keeps the meaning of conditions and does not make them larger.

use vstd::prelude::*;
use crate::checker::symbolic::expr::{Formula, Term};
use crate::checker::symbolic::meaning::{all_hold, holds, lemma_single, some_holds, value};
use crate::checker::symbolic::range::{respects_hints, Hints};
use crate::checker::symbolic::simplify::{narrowed, simplified, simplified_and, simplified_or, Simp};

verus! {

/// The number of connectives and atoms of a formula.
pub open spec fn formula_size(f: Formula) -> nat
    decreases f,
{
    match f {
        Formula::Not(x) => 1 + formula_size(*x),
        Formula::And(vs) => 1 + formulas_size(vs),
        Formula::Or(vs) => 1 + formulas_size(vs),
        _ => 1,
    }
}

/// The sum of the sizes of a list.
pub open spec fn formulas_size(vs: Seq<Formula>) -> nat
    decreases vs,
{
    if vs.len() == 0 {
        0
    } else {
        formulas_size(vs.drop_last()) + formula_size(vs.last())
    }
}

proof fn lemma_size_push(vs: Seq<Formula>, f: Formula)
    ensures
        formulas_size(vs.push(f)) == formulas_size(vs) + formula_size(f),
{
    assert(vs.push(f).drop_last() =~= vs);
}

/// A member is at most as large as the list.
pub proof fn lemma_size_member(vs: Seq<Formula>, i: int)
    requires
        0 <= i < vs.len(),
    ensures
        formula_size(vs[i]) <= formulas_size(vs),
    decreases vs.len(),
{
    if i < vs.len() - 1 {
        lemma_size_member(vs.drop_last(), i);
    }
}

/// The sum of the sizes from `i` on.
spec fn size_from(vs: Seq<Formula>, i: int) -> nat
    decreases vs.len() - i,
{
    if i < 0 || i >= vs.len() {
        0
    } else {
        formula_size(vs[i]) + size_from(vs, i + 1)
    }
}

proof fn lemma_size_from(vs: Seq<Formula>, i: int)
    requires
        0 <= i <= vs.len(),
    ensures
        formulas_size(vs) == formulas_size(vs.take(i)) + size_from(vs, i),
    decreases vs.len() - i,
{
    if i == vs.len() {
        assert(vs.take(i) =~= vs);
    } else {
        lemma_size_from(vs, i + 1);
        assert(vs.take(i + 1) =~= vs.take(i).push(vs[i]));
        lemma_size_push(vs.take(i), vs[i]);
    }
}

/// What is left open is at most as large as the bound.
pub open spec fn fits_in(s: Simp, bound: nat) -> bool {
    match s {
        Simp::Known(_) => true,
        Simp::Open(f) => formula_size(f) <= bound,
    }
}

/// Simplification does not make a condition larger.
pub proof fn simplification_shrinks(c: Formula, h: Hints)
    ensures
        fits_in(simplified(c, h).0, formula_size(c)),
    decreases c, 0int,
{
    match c {
        Formula::Not(x) => {
            simplification_shrinks(*x, h);
            match simplified(*x, h).0 {
                Simp::Known(_) => {},
                Simp::Open(f) => {
                    assert(formula_size(Formula::Not(Box::new(f))) == 1 + formula_size(f));
                },
            }
        },
        Formula::And(vs) => {
            lemma_and_shrinks(vs, 0, seq![], h);
            lemma_size_from(vs, 0);
            assert(vs.take(0) =~= seq![]);
        },
        Formula::Or(vs) => {
            lemma_or_shrinks(vs, 0, seq![], h);
            lemma_size_from(vs, 0);
            assert(vs.take(0) =~= seq![]);
        },
        _ => {},
    }
}

proof fn lemma_and_shrinks(vs: Seq<Formula>, i: int, acc: Seq<Formula>, h: Hints)
    requires
        0 <= i,
    ensures
        fits_in(simplified_and(vs, i, acc, h).0, 1 + formulas_size(acc) + size_from(vs, i)),
    decreases vs, vs.len() - i,
{
    if i >= vs.len() {
        if acc.len() == 1 {
            lemma_size_member(acc, 0);
        }
        assert(formula_size(Formula::And(acc)) == 1 + formulas_size(acc));
    } else {
        simplification_shrinks(vs[i], h);
        let r = simplified(vs[i], h);
        match r.0 {
            Simp::Known(false) => {},
            Simp::Known(true) => lemma_and_shrinks(vs, i + 1, acc, r.1),
            Simp::Open(f) => {
                lemma_size_push(acc, f);
                lemma_and_shrinks(vs, i + 1, acc.push(f), r.1);
            },
        }
    }
}

proof fn lemma_or_shrinks(vs: Seq<Formula>, i: int, acc: Seq<Formula>, h: Hints)
    requires
        0 <= i,
    ensures
        fits_in(simplified_or(vs, i, acc, h), 1 + formulas_size(acc) + size_from(vs, i)),
    decreases vs, vs.len() - i,
{
    if i >= vs.len() {
        if acc.len() == 1 {
            lemma_size_member(acc, 0);
        }
        assert(formula_size(Formula::Or(acc)) == 1 + formulas_size(acc));
    } else {
        simplification_shrinks(vs[i], h);
        match simplified(vs[i], h).0 {
            Simp::Known(true) => {},
            Simp::Known(false) => lemma_or_shrinks(vs, i + 1, acc, h),
            Simp::Open(f) => {
                lemma_size_push(acc, f);
                lemma_or_shrinks(vs, i + 1, acc.push(f), h);
            },
        }
    }
}

/// The outcome of simplification has the given truth value.
pub open spec fn agrees(s: Simp, truth: bool, env: spec_fn(Seq<char>) -> int) -> bool {
    match s {
        Simp::Known(b) => b == truth,
        Simp::Open(f) => holds(f, env) == truth,
    }
}

proof fn lemma_narrowed(
    h: Hints,
    name: Seq<char>,
    min: int,
    max: int,
    f: Formula,
    env: spec_fn(Seq<char>) -> int,
)
    requires
        respects_hints(h, env),
        holds(f, env) == (min <= env(name) <= max),
    ensures
        agrees(narrowed(h, name, min, max, f).0, holds(f, env), env),
        holds(f, env) ==> respects_hints(narrowed(h, name, min, max, f).1, env),
{
    let h2 = narrowed(h, name, min, max, f).1;
    if h.contains_key(name) {
        assert(h[name].0 <= env(name) <= h[name].1);
    }
    if holds(f, env) {
        assert forall|n: Seq<char>| #[trigger] h2.contains_key(n) implies h2[n].0 <= env(n)
            <= h2[n].1 by {
            if n != name {
                assert(h.contains_key(n));
            } else if h.contains_key(n) {
                assert(h[n].0 <= env(n) <= h[n].1);
            }
        }
    }
}

/// The conjuncts from `i` on hold.
pub open spec fn hold_from(vs: Seq<Formula>, i: int, env: spec_fn(Seq<char>) -> int) -> bool
    decreases vs.len() - i,
{
    if i < 0 || i >= vs.len() {
        true
    } else {
        holds(vs[i], env) && hold_from(vs, i + 1, env)
    }
}

/// A conjunction splits at any position.
pub proof fn lemma_hold_from(vs: Seq<Formula>, i: int, env: spec_fn(Seq<char>) -> int)
    requires
        0 <= i <= vs.len(),
    ensures
        all_hold(vs, env) == (all_hold(vs.take(i), env) && hold_from(vs, i, env)),
    decreases vs.len() - i,
{
    if i == vs.len() {
        assert(vs.take(i) =~= vs);
    } else {
        lemma_hold_from(vs, i + 1, env);
        assert(vs.take(i + 1).drop_last() =~= vs.take(i));
    }
}

/// Some disjunct from `i` on holds.
spec fn some_from(vs: Seq<Formula>, i: int, env: spec_fn(Seq<char>) -> int) -> bool
    decreases vs.len() - i,
{
    if i < 0 || i >= vs.len() {
        false
    } else {
        holds(vs[i], env) || some_from(vs, i + 1, env)
    }
}

proof fn lemma_some_from(vs: Seq<Formula>, i: int, env: spec_fn(Seq<char>) -> int)
    requires
        0 <= i <= vs.len(),
    ensures
        some_holds(vs, env) == (some_holds(vs.take(i), env) || some_from(vs, i, env)),
    decreases vs.len() - i,
{
    if i == vs.len() {
        assert(vs.take(i) =~= vs);
    } else {
        lemma_some_from(vs, i + 1, env);
        assert(vs.take(i + 1).drop_last() =~= vs.take(i));
    }
}

/// A list with one more formula.
pub proof fn lemma_push(vs: Seq<Formula>, f: Formula, env: spec_fn(Seq<char>) -> int)
    ensures
        all_hold(vs.push(f), env) == (all_hold(vs, env) && holds(f, env)),
        some_holds(vs.push(f), env) == (some_holds(vs, env) || holds(f, env)),
{
    assert(vs.push(f).drop_last() =~= vs);
}

proof fn lemma_and_false(
    vs: Seq<Formula>,
    i: int,
    acc: Seq<Formula>,
    h: Hints,
    env: spec_fn(Seq<char>) -> int,
)
    requires
        0 <= i,
        !all_hold(acc, env),
    ensures
        agrees(simplified_and(vs, i, acc, h).0, false, env),
    decreases vs.len() - i,
{
    if i >= vs.len() {
        if acc.len() == 1 {
            assert(acc =~= seq![acc[0]]);
            lemma_single(Term::Int(0), acc[0], env);
        }
        assert(holds(Formula::And(acc), env) == all_hold(acc, env));
    } else {
        let r = simplified(vs[i], h);
        match r.0 {
            Simp::Known(false) => {},
            Simp::Known(true) => lemma_and_false(vs, i + 1, acc, r.1, env),
            Simp::Open(f) => {
                lemma_push(acc, f, env);
                lemma_and_false(vs, i + 1, acc.push(f), r.1, env);
            },
        }
    }
}

proof fn lemma_and_sound(
    vs: Seq<Formula>,
    i: int,
    acc: Seq<Formula>,
    h: Hints,
    env: spec_fn(Seq<char>) -> int,
)
    requires
        0 <= i,
        all_hold(acc, env),
        respects_hints(h, env),
    ensures
        agrees(simplified_and(vs, i, acc, h).0, hold_from(vs, i, env), env),
        hold_from(vs, i, env) ==> respects_hints(simplified_and(vs, i, acc, h).1, env),
    decreases vs, vs.len() - i,
{
    if i >= vs.len() {
        if acc.len() == 1 {
            assert(acc =~= seq![acc[0]]);
            lemma_single(Term::Int(0), acc[0], env);
        }
        assert(holds(Formula::And(acc), env) == all_hold(acc, env));
    } else {
        let r = simplified(vs[i], h);
        match r.0 {
            Simp::Known(false) => {
                simplification_keeps_truth(vs[i], h, env);
            },
            Simp::Known(true) => {
                simplification_keeps_truth(vs[i], h, env);
                lemma_and_sound(vs, i + 1, acc, r.1, env);
            },
            Simp::Open(f) => {
                simplification_keeps_truth(vs[i], h, env);
                lemma_push(acc, f, env);
                if holds(f, env) {
                    lemma_and_sound(vs, i + 1, acc.push(f), r.1, env);
                } else {
                    lemma_and_false(vs, i + 1, acc.push(f), r.1, env);
                }
            },
        }
    }
}

proof fn lemma_or_sound(
    vs: Seq<Formula>,
    i: int,
    acc: Seq<Formula>,
    h: Hints,
    env: spec_fn(Seq<char>) -> int,
)
    requires
        0 <= i,
        respects_hints(h, env),
    ensures
        agrees(
            simplified_or(vs, i, acc, h),
            some_holds(acc, env) || some_from(vs, i, env),
            env,
        ),
    decreases vs, vs.len() - i,
{
    if i >= vs.len() {
        if acc.len() == 1 {
            assert(acc =~= seq![acc[0]]);
            lemma_single(Term::Int(0), acc[0], env);
        }
        assert(holds(Formula::Or(acc), env) == some_holds(acc, env));
    } else {
        simplification_keeps_truth(vs[i], h, env);
        match simplified(vs[i], h).0 {
            Simp::Known(true) => {},
            Simp::Known(false) => lemma_or_sound(vs, i + 1, acc, h, env),
            Simp::Open(f) => {
                lemma_push(acc, f, env);
                lemma_or_sound(vs, i + 1, acc.push(f), h, env);
            },
        }
    }
}

/// Under values that respect the hints, a condition and what simplification makes of it have
/// the same truth value; and where the condition holds, the narrowed hints are respected too.
pub proof fn simplification_keeps_truth(
    c: Formula,
    h: Hints,
    env: spec_fn(Seq<char>) -> int,
)
    requires
        respects_hints(h, env),
    ensures
        agrees(simplified(c, h).0, holds(c, env), env),
        holds(c, env) ==> respects_hints(simplified(c, h).1, env),
    decreases c, 0int,
{
    match c {
        Formula::Bool(_) => {},
        Formula::Not(x) => {
            simplification_keeps_truth(*x, h, env);
            match simplified(*x, h).0 {
                Simp::Known(_) => {},
                Simp::Open(f) => {
                    assert(holds(Formula::Not(Box::new(f)), env) == !holds(f, env));
                },
            }
        },
        Formula::And(vs) => {
            lemma_and_sound(vs, 0, seq![], h, env);
            lemma_hold_from(vs, 0, env);
            assert(vs.take(0) =~= seq![]);
        },
        Formula::Or(vs) => {
            lemma_or_sound(vs, 0, seq![], h, env);
            lemma_some_from(vs, 0, env);
            assert(vs.take(0) =~= seq![]);
        },
        Formula::Range { value: v, min, max, bits } => {
            match v {
                Term::Int(k) => {
                    assert(value(v, env) == k);
                },
                Term::Var(name, _) => {
                    assert(value(v, env) == env(name));
                    lemma_narrowed(h, name, min, max, c, env);
                },
                _ => {},
            }
        },
        Formula::Eq(a, b) => {
            lemma_atoms(a, b, h, env);
            match (a, b) {
                (Term::Var(name, _), Term::Int(k)) => lemma_narrowed(h, name, k, k, c, env),
                (Term::Int(k), Term::Var(name, _)) => lemma_narrowed(h, name, k, k, c, env),
                _ => {},
            }
        },
        Formula::Ne(a, b) => lemma_atoms(a, b, h, env),
        Formula::Le(a, b) => lemma_atoms(a, b, h, env),
        Formula::Lt(a, b) => lemma_atoms(a, b, h, env),
        Formula::Ge(a, b) => lemma_atoms(a, b, h, env),
        Formula::Gt(a, b) => lemma_atoms(a, b, h, env),
    }
}

proof fn lemma_atoms(a: Term, b: Term, h: Hints, env: spec_fn(Seq<char>) -> int)
    requires
        respects_hints(h, env),
    ensures
        a is Int ==> value(a, env) == a->Int_0,
        b is Int ==> value(b, env) == b->Int_0,
        a is Var ==> value(a, env) == env(a->Var_0),
        b is Var ==> value(b, env) == env(b->Var_0),
        a is Var && h.contains_key(a->Var_0) ==> h[a->Var_0].0 <= value(a, env) <= h[a->Var_0].1,
        b is Var && h.contains_key(b->Var_0) ==> h[b->Var_0].0 <= value(b, env) <= h[b->Var_0].1,
{
}

} // verus!
