//! What the conditions that are written for cvc5 mean.
//!
//! A condition over the field says what its formula says, for a suitable choice of the bits: those
//! that are the digits of what they decompose.

use vstd::arithmetic::div_mod::{
    lemma_add_mod_noop, lemma_fundamental_div_mod, lemma_mod_twice, lemma_mul_mod_noop,
    lemma_small_mod, lemma_sub_mod_noop_right,
};
use vstd::arithmetic::power2::{lemma2_to64, pow2};
use vstd::prelude::*;
use crate::checker::solver::bound_laws::{
    below, bits_ok, decomposition, decomposition_bounds_target, digits_decide_decomposition,
    has_digits, lemma_below, lemma_shifted, lemma_two_conds, lemma_two_terms, names_bit, shifted,
    start_of,
};
use crate::checker::solver::cvc5::{
    bit_name, hint_max, order_plan, plain_const, with_hints, Cvc5V, Order, OrderPlan,
};
use crate::checker::solver::field::{
    each_true, field_holds, field_text, field_truths, has_inverse, inverse, is_inverse, one_true,
    plain_term, product_mod, residue, residues, sum_mod, FieldCond, FieldTerm,
};
use crate::checker::solver::field_laws::{
    all_names_ok, between_cond, bounded_term, bounding_const, bounding_order, choices_of, cond_of,
    conds_of, field_of, fields_of, formula_names_ok, formulas_names_ok, hint_for, is_comparison,
    lemma_comparison, lemma_comparison_holds, lemma_formula_names_at, lemma_names_at, names_ok,
    order_cond, range_cond, term_text_is_field_text,
};
use crate::checker::solver::order_laws::{
    compares, in_reach, large_fields_have_room, plan_admits_comparison,
};
use crate::checker::solver::reading_laws::text_tells_residue;
use crate::checker::solver::script_laws::{
    is_truth, lemma_alternatives, lemma_between, lemma_decomposed, lemma_formula, lemma_formulas,
    lemma_range, lemma_term, lemma_terms, lemma_truth_kept, lemma_writes_hints, lemma_writes_keeps,
    writes,
};
use crate::checker::symbolic::expr::{Formula, SymType, Term};
use crate::checker::symbolic::meaning::{
    holds, lemma_all_index, lemma_some_index, product_value, sum_value, value,
};

verus! {

/// An assignment that gives every variable but the bits the value of `env`.
pub open spec fn extends(v: spec_fn(Seq<char>) -> int, env: spec_fn(Seq<char>) -> int) -> bool {
    forall|name: Seq<char>| !names_bit(name) ==> #[trigger] v(name) == env(name)
}

/// The number is a field element.
pub open spec fn in_field(t: Term, env: spec_fn(Seq<char>) -> int, p: int) -> bool {
    0 <= value(t, env) < p
}

/// A quotient is exact, and its divisor has an inverse.
pub open spec fn divides(a: int, b: int, p: int) -> bool {
    b != 0 && a % b == 0 && has_inverse(b % p, p)
}

/// Under `env`, truth values are zero or one, quotients are exact, and what is compared is a field
/// element. Where it has to be `near`, what is compared from below is within reach.
pub open spec fn term_ready(t: Term, env: spec_fn(Seq<char>) -> int, p: int, near: bool) -> bool
    decreases t,
{
    match t {
        Term::Int(_) => true,
        Term::Var(name, sort) => sort == SymType::Bool ==> 0 <= env(name) <= 1,
        Term::Neg(a) => term_ready(*a, env, p, near),
        Term::Add(xs) => terms_ready(xs, env, p, near),
        Term::Mul(xs) => terms_ready(xs, env, p, near),
        Term::Sub(a, b) => term_ready(*a, env, p, near) && term_ready(*b, env, p, near),
        Term::Div(a, b) => term_ready(*a, env, p, near) && term_ready(*b, env, p, near) && divides(
            value(*a, env),
            value(*b, env),
            p,
        ),
        Term::Mod(a, _) => term_ready(*a, env, p, near),
        Term::Ite(f, a, b) => ready(*f, env, p, near) && term_ready(*a, env, p, near) && term_ready(
            *b,
            env,
            p,
            near,
        ),
    }
}

/// Terms are ready.
pub open spec fn terms_ready(
    xs: Seq<Term>,
    env: spec_fn(Seq<char>) -> int,
    p: int,
    near: bool,
) -> bool
    decreases xs,
{
    xs.len() == 0 || (terms_ready(xs.drop_last(), env, p, near) && term_ready(
        xs.last(),
        env,
        p,
        near,
    ))
}

/// Under `env`, truth values are zero or one, quotients are exact, and what is compared is a field
/// element. Where it has to be `near`, what is compared from below is within reach.
pub open spec fn ready(f: Formula, env: spec_fn(Seq<char>) -> int, p: int, near: bool) -> bool
    decreases f,
{
    match f {
        Formula::Bool(_) => true,
        Formula::Not(a) => ready(*a, env, p, near),
        Formula::And(fs) => all_ready(fs, env, p, near),
        Formula::Or(fs) => all_ready(fs, env, p, near),
        Formula::Eq(a, b) | Formula::Ne(a, b) | Formula::Le(a, b) | Formula::Lt(a, b)
        | Formula::Ge(a, b) | Formula::Gt(a, b) => {
            &&& term_ready(a, env, p, near)
            &&& term_ready(b, env, p, near)
            &&& in_field(a, env, p)
            &&& in_field(b, env, p)
            &&& near && is_comparison(f) ==> in_reach(
                bounding_order(f),
                bounding_const(f),
                value(bounded_term(f), env),
            )
        },
        Formula::Range { value: x, .. } => term_ready(x, env, p, near) && in_field(x, env, p),
    }
}

/// Formulas are ready.
pub open spec fn all_ready(
    fs: Seq<Formula>,
    env: spec_fn(Seq<char>) -> int,
    p: int,
    near: bool,
) -> bool
    decreases fs,
{
    fs.len() == 0 || (all_ready(fs.drop_last(), env, p, near) && ready(fs.last(), env, p, near))
}

/// A term without a range or a comparison in a condition.
pub open spec fn term_bit_free(t: Term) -> bool
    decreases t,
{
    match t {
        Term::Int(_) => true,
        Term::Var(_, _) => true,
        Term::Neg(a) => term_bit_free(*a),
        Term::Add(xs) => terms_bit_free(xs),
        Term::Mul(xs) => terms_bit_free(xs),
        Term::Sub(a, b) => term_bit_free(*a) && term_bit_free(*b),
        Term::Div(a, b) => term_bit_free(*a) && term_bit_free(*b),
        Term::Mod(a, _) => term_bit_free(*a),
        Term::Ite(f, a, b) => bit_free(*f) && term_bit_free(*a) && term_bit_free(*b),
    }
}

/// Terms without a range or a comparison in a condition.
pub open spec fn terms_bit_free(xs: Seq<Term>) -> bool
    decreases xs,
{
    xs.len() == 0 || (terms_bit_free(xs.drop_last()) && term_bit_free(xs.last()))
}

/// A formula without a range or a comparison.
pub open spec fn bit_free(f: Formula) -> bool
    decreases f,
{
    match f {
        Formula::Bool(_) => true,
        Formula::Not(a) => bit_free(*a),
        Formula::And(fs) => all_bit_free(fs),
        Formula::Or(fs) => all_bit_free(fs),
        Formula::Eq(a, b) => term_bit_free(a) && term_bit_free(b),
        Formula::Ne(a, b) => term_bit_free(a) && term_bit_free(b),
        _ => false,
    }
}

/// Formulas without a range or a comparison.
pub open spec fn all_bit_free(fs: Seq<Formula>) -> bool
    decreases fs,
{
    fs.len() == 0 || (all_bit_free(fs.drop_last()) && bit_free(fs.last()))
}

/// A formula without a range or a comparison under a negation or in the condition of a term.
pub open spec fn is_positive(f: Formula) -> bool
    decreases f,
{
    match f {
        Formula::Bool(_) => true,
        Formula::Not(a) => bit_free(*a),
        Formula::And(fs) => all_positive(fs),
        Formula::Or(fs) => all_positive(fs),
        Formula::Eq(a, b) | Formula::Ne(a, b) | Formula::Le(a, b) | Formula::Lt(a, b)
        | Formula::Ge(a, b) | Formula::Gt(a, b) => term_bit_free(a) && term_bit_free(b),
        Formula::Range { value: x, .. } => term_bit_free(x),
    }
}

/// Formulas without a range or a comparison under a negation or in the condition of a term.
pub open spec fn all_positive(fs: Seq<Formula>) -> bool
    decreases fs,
{
    fs.len() == 0 || (all_positive(fs.drop_last()) && is_positive(fs.last()))
}

pub proof fn lemma_term_at(
    xs: Seq<Term>,
    i: int,
    env: spec_fn(Seq<char>) -> int,
    p: int,
    near: bool,
)
    requires
        0 <= i < xs.len(),
    ensures
        terms_ready(xs, env, p, near) ==> term_ready(xs[i], env, p, near),
        terms_bit_free(xs) ==> term_bit_free(xs[i]),
    decreases xs.len(),
{
    if i < xs.len() - 1 {
        lemma_term_at(xs.drop_last(), i, env, p, near);
    }
}

pub proof fn lemma_formula_at(
    fs: Seq<Formula>,
    i: int,
    env: spec_fn(Seq<char>) -> int,
    p: int,
    near: bool,
)
    requires
        0 <= i < fs.len(),
    ensures
        all_ready(fs, env, p, near) ==> ready(fs[i], env, p, near),
        all_bit_free(fs) ==> bit_free(fs[i]),
        all_positive(fs) ==> is_positive(fs[i]),
    decreases fs.len(),
{
    if i < fs.len() - 1 {
        lemma_formula_at(fs.drop_last(), i, env, p, near);
    }
}

proof fn lemma_term_ready(t: Term, env: spec_fn(Seq<char>) -> int, p: int)
    requires
        term_ready(t, env, p, true),
    ensures
        term_ready(t, env, p, false),
    decreases t,
{
    match t {
        Term::Neg(a) => lemma_term_ready(*a, env, p),
        Term::Add(xs) | Term::Mul(xs) => lemma_terms_ready(xs, env, p),
        Term::Sub(a, b) | Term::Div(a, b) => {
            lemma_term_ready(*a, env, p);
            lemma_term_ready(*b, env, p);
        },
        Term::Mod(a, _) => lemma_term_ready(*a, env, p),
        Term::Ite(f, a, b) => {
            lemma_ready(*f, env, p);
            lemma_term_ready(*a, env, p);
            lemma_term_ready(*b, env, p);
        },
        _ => {},
    }
}

proof fn lemma_terms_ready(xs: Seq<Term>, env: spec_fn(Seq<char>) -> int, p: int)
    requires
        terms_ready(xs, env, p, true),
    ensures
        terms_ready(xs, env, p, false),
    decreases xs,
{
    if xs.len() > 0 {
        lemma_terms_ready(xs.drop_last(), env, p);
        lemma_term_ready(xs.last(), env, p);
    }
}

/// What is ready within reach is ready.
pub proof fn lemma_ready(f: Formula, env: spec_fn(Seq<char>) -> int, p: int)
    requires
        ready(f, env, p, true),
    ensures
        ready(f, env, p, false),
    decreases f,
{
    match f {
        Formula::Bool(_) => {},
        Formula::Not(a) => lemma_ready(*a, env, p),
        Formula::And(fs) | Formula::Or(fs) => lemma_all_ready(fs, env, p),
        Formula::Eq(a, b) | Formula::Ne(a, b) | Formula::Le(a, b) | Formula::Lt(a, b)
        | Formula::Ge(a, b) | Formula::Gt(a, b) => {
            lemma_term_ready(a, env, p);
            lemma_term_ready(b, env, p);
        },
        Formula::Range { value: x, .. } => lemma_term_ready(x, env, p),
    }
}

proof fn lemma_all_ready(fs: Seq<Formula>, env: spec_fn(Seq<char>) -> int, p: int)
    requires
        all_ready(fs, env, p, true),
    ensures
        all_ready(fs, env, p, false),
    decreases fs,
{
    if fs.len() > 0 {
        lemma_all_ready(fs.drop_last(), env, p);
        lemma_ready(fs.last(), env, p);
    }
}

/// The number that decomposition `id`, written for a term, decomposes.
pub open spec fn pick_term(c: Cvc5V, t: Term, env: spec_fn(Seq<char>) -> int, id: int) -> int
    decreases t, 0int,
{
    match t {
        Term::Int(_) => 0,
        Term::Var(_, _) => 0,
        Term::Neg(a) => pick_term(c, *a, env, id),
        Term::Add(xs) => pick_terms(c, xs, 0, env, id),
        Term::Mul(xs) => pick_terms(c, xs, 0, env, id),
        Term::Sub(a, b) | Term::Div(a, b) => {
            let c1 = c.term(*a)->Ok_0.1;
            if id < c1.fresh {
                pick_term(c, *a, env, id)
            } else {
                pick_term(c1, *b, env, id)
            }
        },
        Term::Mod(a, _) => pick_term(c, *a, env, id),
        Term::Ite(f, a, b) => {
            let c1 = with_hints(c.hints, c.formula(*f))->Ok_0.1;
            let c2 = c1.term(*a)->Ok_0.1;
            if id < c1.fresh {
                pick(c, *f, env, id)
            } else if id < c2.fresh {
                pick_term(c1, *a, env, id)
            } else {
                pick_term(c2, *b, env, id)
            }
        },
    }
}

/// The number that decomposition `id`, written for the terms from `i` on, decomposes.
pub open spec fn pick_terms(
    c: Cvc5V,
    xs: Seq<Term>,
    i: int,
    env: spec_fn(Seq<char>) -> int,
    id: int,
) -> int
    decreases xs, xs.len() - i,
{
    if i < 0 || i >= xs.len() {
        0
    } else {
        let c1 = c.term(xs[i])->Ok_0.1;
        if id < c1.fresh {
            pick_term(c, xs[i], env, id)
        } else {
            pick_terms(c1, xs, i + 1, env, id)
        }
    }
}

/// The number that decomposition `id`, written for a range, decomposes.
pub open spec fn pick_range(
    c: Cvc5V,
    t: Term,
    start: int,
    env: spec_fn(Seq<char>) -> int,
    id: int,
) -> int
    decreases t, 1int,
{
    if id < c.term(t)->Ok_0.1.fresh {
        pick_term(c, t, env, id)
    } else {
        (value(t, env) - start) % c.modulus
    }
}

/// The number that decomposition `id`, written for an upper bound, decomposes.
pub open spec fn pick_between(
    c: Cvc5V,
    t: Term,
    bound: int,
    env: spec_fn(Seq<char>) -> int,
    id: int,
) -> int
    decreases t, 1int,
{
    let c1 = c.term(t)->Ok_0.1;
    if id < c1.fresh {
        pick_term(c, t, env, id)
    } else if id == c1.fresh {
        value(t, env) % c.modulus
    } else {
        (bound - value(t, env)) % c.modulus
    }
}

/// The number that decomposition `id`, written for a comparison, decomposes.
pub open spec fn pick_order(
    c: Cvc5V,
    op: Order,
    t: Term,
    k: int,
    env: spec_fn(Seq<char>) -> int,
    id: int,
) -> int
    decreases t, 2int,
{
    let c1 = c.term(t)->Ok_0.1;
    if id < c1.fresh {
        pick_term(c, t, env, id)
    } else {
        match order_plan(op, k, hint_for(c, t)) {
            OrderPlan::Within { start, .. } => pick_range(c1, t, start as int, env, id),
            OrderPlan::Between { bound, .. } => pick_between(c1, t, bound as int, env, id),
            _ => 0,
        }
    }
}

/// The number that decomposition `id`, written for a formula, decomposes.
pub open spec fn pick(c: Cvc5V, f: Formula, env: spec_fn(Seq<char>) -> int, id: int) -> int
    decreases f, 0int,
{
    match f {
        Formula::Bool(_) => 0,
        Formula::Not(a) => pick(c, *a, env, id),
        Formula::And(fs) => picks(c, fs, 0, env, id),
        Formula::Or(fs) => pick_choices(c, fs, 0, env, id),
        Formula::Eq(a, b) | Formula::Ne(a, b) => {
            let c1 = c.term(a)->Ok_0.1;
            if id < c1.fresh {
                pick_term(c, a, env, id)
            } else {
                pick_term(c1, b, env, id)
            }
        },
        Formula::Le(a, b) | Formula::Ge(a, b) | Formula::Gt(a, b) => if plain_const(b) is Some {
            pick_order(c, bounding_order(f), a, bounding_const(f), env, id)
        } else {
            pick_order(c, bounding_order(f), b, bounding_const(f), env, id)
        },
        Formula::Lt(_, _) => 0,
        Formula::Range { value: x, .. } => pick_range(c, x, 0, env, id),
    }
}

/// The number that decomposition `id`, written for the formulas of a conjunction from `i` on,
/// decomposes.
pub open spec fn picks(
    c: Cvc5V,
    fs: Seq<Formula>,
    i: int,
    env: spec_fn(Seq<char>) -> int,
    id: int,
) -> int
    decreases fs, fs.len() - i,
{
    if i < 0 || i >= fs.len() {
        0
    } else {
        let c1 = c.formula(fs[i])->Ok_0.1;
        if id < c1.fresh {
            pick(c, fs[i], env, id)
        } else {
            picks(c1, fs, i + 1, env, id)
        }
    }
}

/// The number that decomposition `id`, written for the alternatives from `i` on, decomposes.
pub open spec fn pick_choices(
    c: Cvc5V,
    fs: Seq<Formula>,
    i: int,
    env: spec_fn(Seq<char>) -> int,
    id: int,
) -> int
    decreases fs, fs.len() - i,
{
    if i < 0 || i >= fs.len() {
        0
    } else {
        let c1 = with_hints(c.hints, c.formula(fs[i]))->Ok_0.1;
        if id < c1.fresh {
            pick(c, fs[i], env, id)
        } else {
            pick_choices(c1, fs, i + 1, env, id)
        }
    }
}

/// A hint is right: every term with the text is a number of the width.
pub open spec fn hint_right(s: Seq<char>, h: usize, v: spec_fn(Seq<char>) -> int, p: int) -> bool {
    forall|t: FieldTerm|
        plain_term(t) && #[trigger] field_text(t) == s ==> residue(t, v, p) <= hint_max(h)
}

/// The hints are right.
pub open spec fn hints_right(
    hints: Map<Seq<char>, usize>,
    v: spec_fn(Seq<char>) -> int,
    p: int,
) -> bool {
    forall|s: Seq<char>| #[trigger] hints.contains_key(s) ==> hint_right(s, hints[s], v, p)
}

/// The bits that a script declares are zero or one.
pub open spec fn bits_in(c: Cvc5V, v: spec_fn(Seq<char>) -> int) -> bool {
    forall|name: Seq<char>| #[trigger]
        is_truth(c, name) && names_bit(name) ==> 0 <= v(name) <= 1
}

/// What is written earlier declares no other bits.
pub proof fn lemma_bits_in(c: Cvc5V, d: Cvc5V, v: spec_fn(Seq<char>) -> int)
    requires
        writes(c, d),
        bits_in(d, v),
    ensures
        bits_in(c, v),
{
    lemma_writes_keeps(c, d);
    assert forall|name: Seq<char>| #[trigger] is_truth(c, name) && names_bit(name) implies 0 <= v(
        name,
    ) <= 1 by {
        lemma_truth_kept(c, d, name);
    }
}

/// The field is large enough for every decomposition, and small enough for a machine.
pub open spec fn is_large(p: int) -> bool {
    pow2(26) <= p <= i128::MAX
}

/// What is needed of a script and an assignment: a large field, the values of `env` for the
/// variables, and right hints.
pub open spec fn agrees(
    c: Cvc5V,
    v: spec_fn(Seq<char>) -> int,
    env: spec_fn(Seq<char>) -> int,
) -> bool {
    &&& is_large(c.modulus)
    &&& extends(v, env)
    &&& hints_right(c.hints, v, c.modulus)
}

/// The bits that are written for a term are the digits of what they decompose.
spec fn term_placed(
    c: Cvc5V,
    t: Term,
    v: spec_fn(Seq<char>) -> int,
    env: spec_fn(Seq<char>) -> int,
    near: bool,
) -> bool {
    near ==> forall|id: int|
        c.fresh <= id < c.term(t)->Ok_0.1.fresh ==> has_digits(
            v,
            id,
            #[trigger] pick_term(c, t, env, id),
        )
}

/// The bits that are written for the terms from `i` on are the digits of what they decompose.
spec fn terms_placed(
    c: Cvc5V,
    xs: Seq<Term>,
    i: int,
    parts: Seq<Seq<char>>,
    v: spec_fn(Seq<char>) -> int,
    env: spec_fn(Seq<char>) -> int,
    near: bool,
) -> bool {
    near ==> forall|id: int|
        c.fresh <= id < c.terms(xs, i, parts)->Ok_0.1.fresh ==> has_digits(
            v,
            id,
            #[trigger] pick_terms(c, xs, i, env, id),
        )
}

/// The bits that are written for a range are the digits of what they decompose.
spec fn range_placed(
    c: Cvc5V,
    t: Term,
    start: Option<int>,
    bits: usize,
    v: spec_fn(Seq<char>) -> int,
    env: spec_fn(Seq<char>) -> int,
    near: bool,
) -> bool {
    near ==> forall|id: int|
        c.fresh <= id < c.range(t, start, bits)->Ok_0.1.fresh ==> has_digits(
            v,
            id,
            #[trigger] pick_range(c, t, start_of(start), env, id),
        )
}

/// The bits that are written for an upper bound are the digits of what they decompose.
spec fn between_placed(
    c: Cvc5V,
    t: Term,
    bound: int,
    bits: usize,
    v: spec_fn(Seq<char>) -> int,
    env: spec_fn(Seq<char>) -> int,
    near: bool,
) -> bool {
    near ==> forall|id: int|
        c.fresh <= id < c.between(t, bound, bits)->Ok_0.1.fresh ==> has_digits(
            v,
            id,
            #[trigger] pick_between(c, t, bound, env, id),
        )
}

/// The bits that are written for a comparison are the digits of what they decompose.
spec fn order_placed(
    c: Cvc5V,
    op: Order,
    t: Term,
    k: int,
    v: spec_fn(Seq<char>) -> int,
    env: spec_fn(Seq<char>) -> int,
    near: bool,
) -> bool {
    near ==> forall|id: int|
        c.fresh <= id < c.order(op, t, k)->Ok_0.1.fresh ==> has_digits(
            v,
            id,
            #[trigger] pick_order(c, op, t, k, env, id),
        )
}

/// The bits that are written for a formula are the digits of what they decompose.
pub open spec fn placed(
    c: Cvc5V,
    f: Formula,
    v: spec_fn(Seq<char>) -> int,
    env: spec_fn(Seq<char>) -> int,
    near: bool,
) -> bool {
    near ==> forall|id: int|
        c.fresh <= id < c.formula(f)->Ok_0.1.fresh ==> has_digits(
            v,
            id,
            #[trigger] pick(c, f, env, id),
        )
}

proof fn lemma_quotient(
    a: int,
    b: int,
    x: FieldTerm,
    y: FieldTerm,
    v: spec_fn(Seq<char>) -> int,
    p: int,
)
    requires
        p > 0,
        divides(a, b, p),
        residue(x, v, p) == a % p,
        residue(y, v, p) == b % p,
    ensures
        residue(FieldTerm::Product(seq![x, FieldTerm::Inv(Box::new(y))]), v, p) == (a / b) % p,
{
    let inv = FieldTerm::Inv(Box::new(y));
    lemma_two_terms(x, inv, v, p);
    let r = inverse(b % p, p);
    assert(is_inverse(r, b % p, p));
    assert(residue(inv, v, p) == r);
    let q = a / b;
    lemma_fundamental_div_mod(a, b);
    assert(a == b * q);
    lemma_mul_mod_noop(a, r, p);
    lemma_small_mod(r as nat, p as nat);
    assert((a % p * r) % p == (a * r) % p);
    assert(a * r == q * (r * b)) by (nonlinear_arith)
        requires
            a == b * q,
    ;
    lemma_mul_mod_noop(r, b, p);
    assert((r * b) % p == 1int % p);
    lemma_mul_mod_noop(q, r * b, p);
    lemma_mul_mod_noop(q, 1, p);
    assert(q * 1 == q);
}

proof fn lemma_difference(
    a: int,
    b: int,
    x: FieldTerm,
    y: FieldTerm,
    v: spec_fn(Seq<char>) -> int,
    p: int,
)
    requires
        p > 0,
        residue(x, v, p) == a % p,
        residue(y, v, p) == b % p,
    ensures
        residue(FieldTerm::Sum(seq![x, FieldTerm::Neg(Box::new(y))]), v, p) == (a - b) % p,
{
    let minus = FieldTerm::Neg(Box::new(y));
    lemma_two_terms(x, minus, v, p);
    lemma_sub_mod_noop_right(0, b, p);
    assert(residue(minus, v, p) == (-residue(y, v, p)) % p);
    lemma_add_mod_noop(a, -b, p);
}

/// What is written for a term leaves the field and the hints as they are.
proof fn lemma_after_term(
    c: Cvc5V,
    t: Term,
    v: spec_fn(Seq<char>) -> int,
    env: spec_fn(Seq<char>) -> int,
)
    requires
        c.term(t) is Ok,
        agrees(c, v, env),
    ensures
        agrees(c.term(t)->Ok_0.1, v, env),
        c.term(t)->Ok_0.1.modulus == c.modulus,
        c.term(t)->Ok_0.1.hints == c.hints,
        c.fresh <= c.term(t)->Ok_0.1.fresh,
        writes(c, c.term(t)->Ok_0.1),
{
    lemma_term(c, t);
    lemma_writes_keeps(c, c.term(t)->Ok_0.1);
}

/// What is written for a condition apart leaves the field and the hints as they are.
proof fn lemma_after_apart(
    c: Cvc5V,
    f: Formula,
    v: spec_fn(Seq<char>) -> int,
    env: spec_fn(Seq<char>) -> int,
)
    requires
        c.formula(f) is Ok,
        agrees(c, v, env),
    ensures
        agrees(with_hints(c.hints, c.formula(f))->Ok_0.1, v, env),
        with_hints(c.hints, c.formula(f))->Ok_0.1.modulus == c.modulus,
        c.fresh <= with_hints(c.hints, c.formula(f))->Ok_0.1.fresh,
        writes(c, with_hints(c.hints, c.formula(f))->Ok_0.1),
        bits_in(with_hints(c.hints, c.formula(f))->Ok_0.1, v) == bits_in(c.formula(f)->Ok_0.1, v),
{
    lemma_formula(c, f);
    let d = c.formula(f)->Ok_0.1;
    lemma_writes_hints(c, d, c.hints);
    let e = with_hints(c.hints, c.formula(f))->Ok_0.1;
    lemma_writes_keeps(c, e);
    assert forall|name: Seq<char>| #[trigger] is_truth(e, name) == is_truth(d, name) by {}
    if bits_in(e, v) {
        assert forall|name: Seq<char>| #[trigger] is_truth(d, name) && names_bit(name) implies 0
            <= v(name) <= 1 by {
            assert(is_truth(e, name));
        }
    }
}

/// What a term over the field stands for is the residue of the value of the term.
proof fn lemma_term_means(
    c: Cvc5V,
    t: Term,
    v: spec_fn(Seq<char>) -> int,
    env: spec_fn(Seq<char>) -> int,
    near: bool,
)
    requires
        c.term(t) is Ok,
        agrees(c, v, env),
        names_ok(t),
        term_ready(t, env, c.modulus, near),
        near || term_bit_free(t),
        bits_in(c.term(t)->Ok_0.1, v),
        term_placed(c, t, v, env, near),
    ensures
        residue(field_of(c, t), v, c.modulus) == value(t, env) % c.modulus,
    decreases t, 5int,
{
    let p = c.modulus;
    lemma2_to64();
    match t {
        Term::Int(_) => {},
        Term::Var(name, _) => {
            assert(v(name) == env(name));
        },
        Term::Neg(a) => {
            assert forall|id: int| near && c.fresh <= id < c.term(*a)->Ok_0.1.fresh implies
                has_digits(v, id, #[trigger] pick_term(c, *a, env, id)) by {
                assert(pick_term(c, t, env, id) == pick_term(c, *a, env, id));
            }
            lemma_term_means(c, *a, v, env, near);
            lemma_sub_mod_noop_right(0, value(*a, env), p);
            assert(residue(field_of(c, t), v, p) == (-residue(field_of(c, *a), v, p)) % p);
        },
        Term::Add(xs) => lemma_list_means(c, t, xs, v, env, near),
        Term::Mul(xs) => lemma_list_means(c, t, xs, v, env, near),
        Term::Sub(a, b) => lemma_pair_means(c, t, *a, *b, v, env, near),
        Term::Div(a, b) => lemma_pair_means(c, t, *a, *b, v, env, near),
        Term::Mod(a, _) => {
            assert forall|id: int| near && c.fresh <= id < c.term(*a)->Ok_0.1.fresh implies
                has_digits(v, id, #[trigger] pick_term(c, *a, env, id)) by {
                assert(pick_term(c, t, env, id) == pick_term(c, *a, env, id));
            }
            lemma_term_means(c, *a, v, env, near);
            lemma_mod_twice(value(*a, env), p);
            assert(value(Term::Int(p), env) == p);
        },
        Term::Ite(f, a, b) => lemma_choice_means(c, t, *f, *a, *b, v, env, near),
    }
}

proof fn lemma_pair_means(
    c: Cvc5V,
    t: Term,
    a: Term,
    b: Term,
    v: spec_fn(Seq<char>) -> int,
    env: spec_fn(Seq<char>) -> int,
    near: bool,
)
    requires
        t == Term::Sub(Box::new(a), Box::new(b)) || t == Term::Div(Box::new(a), Box::new(b)),
        c.term(t) is Ok,
        agrees(c, v, env),
        names_ok(t),
        term_ready(t, env, c.modulus, near),
        near || term_bit_free(t),
        bits_in(c.term(t)->Ok_0.1, v),
        term_placed(c, t, v, env, near),
    ensures
        residue(field_of(c, t), v, c.modulus) == value(t, env) % c.modulus,
    decreases t, 4int,
{
    lemma2_to64();
    let c1 = c.term(a)->Ok_0.1;
    let d = c.term(t)->Ok_0.1;
    assert(d == c1.term(b)->Ok_0.1);
    lemma_after_term(c, a, v, env);
    lemma_after_term(c1, b, v, env);
    lemma_bits_in(c1, d, v);
    assert forall|id: int| near && c.fresh <= id < c1.fresh implies has_digits(
        v,
        id,
        #[trigger] pick_term(c, a, env, id),
    ) by {
        assert(pick_term(c, t, env, id) == pick_term(c, a, env, id));
    }
    assert forall|id: int| near && c1.fresh <= id < d.fresh implies has_digits(
        v,
        id,
        #[trigger] pick_term(c1, b, env, id),
    ) by {
        assert(pick_term(c, t, env, id) == pick_term(c1, b, env, id));
    }
    lemma_term_means(c, a, v, env, near);
    lemma_term_means(c1, b, v, env, near);
    if t is Sub {
        lemma_difference(
            value(a, env),
            value(b, env),
            field_of(c, a),
            field_of(c1, b),
            v,
            c.modulus,
        );
    } else {
        lemma_quotient(
            value(a, env),
            value(b, env),
            field_of(c, a),
            field_of(c1, b),
            v,
            c.modulus,
        );
    }
}

proof fn lemma_choice_means(
    c: Cvc5V,
    t: Term,
    f: Formula,
    a: Term,
    b: Term,
    v: spec_fn(Seq<char>) -> int,
    env: spec_fn(Seq<char>) -> int,
    near: bool,
)
    requires
        t == Term::Ite(Box::new(f), Box::new(a), Box::new(b)),
        c.term(t) is Ok,
        agrees(c, v, env),
        names_ok(t),
        term_ready(t, env, c.modulus, near),
        near || term_bit_free(t),
        bits_in(c.term(t)->Ok_0.1, v),
        term_placed(c, t, v, env, near),
    ensures
        residue(field_of(c, t), v, c.modulus) == value(t, env) % c.modulus,
    decreases t, 4int,
{
    let c1 = with_hints(c.hints, c.formula(f))->Ok_0.1;
    let c2 = c1.term(a)->Ok_0.1;
    let d = c.term(t)->Ok_0.1;
    assert(d == c2.term(b)->Ok_0.1);
    lemma_after_apart(c, f, v, env);
    lemma_after_term(c1, a, v, env);
    lemma_after_term(c2, b, v, env);
    lemma_bits_in(c2, d, v);
    lemma_bits_in(c1, c2, v);
    assert forall|id: int| near && c.fresh <= id < c1.fresh implies has_digits(
        v,
        id,
        #[trigger] pick(c, f, env, id),
    ) by {
        assert(pick_term(c, t, env, id) == pick(c, f, env, id));
    }
    assert forall|id: int| near && c1.fresh <= id < c2.fresh implies has_digits(
        v,
        id,
        #[trigger] pick_term(c1, a, env, id),
    ) by {
        assert(pick_term(c, t, env, id) == pick_term(c1, a, env, id));
    }
    assert forall|id: int| near && c2.fresh <= id < d.fresh implies has_digits(
        v,
        id,
        #[trigger] pick_term(c2, b, env, id),
    ) by {
        assert(pick_term(c, t, env, id) == pick_term(c2, b, env, id));
    }
    lemma_formula_means(c, f, v, env, near);
    lemma_term_means(c1, a, v, env, near);
    lemma_term_means(c2, b, v, env, near);
}

proof fn lemma_list_means(
    c: Cvc5V,
    t: Term,
    xs: Seq<Term>,
    v: spec_fn(Seq<char>) -> int,
    env: spec_fn(Seq<char>) -> int,
    near: bool,
)
    requires
        t == Term::Add(xs) || t == Term::Mul(xs),
        c.term(t) is Ok,
        agrees(c, v, env),
        names_ok(t),
        term_ready(t, env, c.modulus, near),
        near || term_bit_free(t),
        bits_in(c.term(t)->Ok_0.1, v),
        term_placed(c, t, v, env, near),
    ensures
        residue(field_of(c, t), v, c.modulus) == value(t, env) % c.modulus,
    decreases t, 4int,
{
    let p = c.modulus;
    lemma2_to64();
    assert(residues(seq![], v, p) =~= seq![]);
    let ts = fields_of(c, xs, 0, seq![]);
    assert(field_of(c, Term::Add(xs)) == FieldTerm::Sum(ts));
    assert(field_of(c, Term::Mul(xs)) == FieldTerm::Product(ts));
    assert(xs.take(0) =~= seq![]);
    if xs.len() > 0 {
        assert forall|id: int| near && c.fresh <= id < c.terms(
            xs,
            0,
            seq![],
        )->Ok_0.1.fresh implies has_digits(
            v,
            id,
            #[trigger] pick_terms(c, xs, 0, env, id),
        ) by {
            assert(pick_term(c, t, env, id) == pick_terms(c, xs, 0, env, id));
        }
        lemma_terms_mean(c, xs, 0, seq![], seq![], v, env, near);
    } else {
        assert(ts =~= seq![]);
    }
}

proof fn lemma_terms_mean(
    c: Cvc5V,
    xs: Seq<Term>,
    i: int,
    parts: Seq<Seq<char>>,
    acc: Seq<FieldTerm>,
    v: spec_fn(Seq<char>) -> int,
    env: spec_fn(Seq<char>) -> int,
    near: bool,
)
    requires
        0 <= i <= xs.len(),
        c.terms(xs, i, parts) is Ok,
        agrees(c, v, env),
        all_names_ok(xs),
        terms_ready(xs, env, c.modulus, near),
        near || terms_bit_free(xs),
        bits_in(c.terms(xs, i, parts)->Ok_0.1, v),
        terms_placed(c, xs, i, parts, v, env, near),
        sum_mod(residues(acc, v, c.modulus), c.modulus) == sum_value(xs.take(i), env) % c.modulus,
        product_mod(residues(acc, v, c.modulus), c.modulus) == product_value(xs.take(i), env)
            % c.modulus,
    ensures
        sum_mod(residues(fields_of(c, xs, i, acc), v, c.modulus), c.modulus) == sum_value(xs, env)
            % c.modulus,
        product_mod(residues(fields_of(c, xs, i, acc), v, c.modulus), c.modulus) == product_value(
            xs,
            env,
        ) % c.modulus,
    decreases xs, xs.len() - i,
{
    let p = c.modulus;
    lemma2_to64();
    if i < xs.len() {
        let t = xs[i];
        let (s, c1) = c.term(t)->Ok_0;
        let d = c.terms(xs, i, parts)->Ok_0.1;
        assert(d == c1.terms(xs, i + 1, parts.push(s))->Ok_0.1);
        lemma_after_term(c, t, v, env);
        lemma_terms(c1, xs, i + 1, parts.push(s));
        lemma_writes_keeps(c1, d);
        lemma_bits_in(c1, d, v);
        lemma_names_at(xs, i);
        lemma_term_at(xs, i, env, p, near);
        assert forall|id: int| near && c.fresh <= id < c1.fresh implies has_digits(
            v,
            id,
            #[trigger] pick_term(c, t, env, id),
        ) by {
            assert(pick_terms(c, xs, i, env, id) == pick_term(c, t, env, id));
        }
        assert forall|id: int| near && c1.fresh <= id < d.fresh implies has_digits(
            v,
            id,
            #[trigger] pick_terms(c1, xs, i + 1, env, id),
        ) by {
            assert(pick_terms(c, xs, i, env, id) == pick_terms(c1, xs, i + 1, env, id));
        }
        lemma_term_means(c, t, v, env, near);
        let x = field_of(c, t);
        let next = acc.push(x);
        assert(next.drop_last() =~= acc);
        let before = residues(acc, v, p);
        let all = residues(next, v, p);
        assert(all.drop_last() =~= before);
        assert(all.last() == residue(x, v, p));
        let some = xs.take(i + 1);
        assert(some.drop_last() =~= xs.take(i));
        assert(some.last() == t);
        lemma_add_mod_noop(sum_value(xs.take(i), env), value(t, env), p);
        lemma_mul_mod_noop(product_value(xs.take(i), env), value(t, env), p);
        lemma_terms_mean(c1, xs, i + 1, parts.push(s), next, v, env, near);
    } else {
        assert(xs.take(i) =~= xs);
    }
}

/// The bits of a decomposition that has been written are zero or one.
proof fn lemma_decomposed_bits(
    c: Cvc5V,
    target: Seq<char>,
    bits: usize,
    v: spec_fn(Seq<char>) -> int,
)
    requires
        c.decomposed(target, bits) is Ok,
        bits_in(c.decomposed(target, bits)->Ok_0.1, v),
    ensures
        bits_ok(v, c.fresh as int, bits as int),
        bits_in(c, v),
        c.decomposed(target, bits)->Ok_0.1.modulus == c.modulus,
{
    let d = c.decomposed(target, bits)->Ok_0.1;
    lemma_decomposed(c, target, bits);
    lemma_bits_in(c, d, v);
    lemma_writes_keeps(c, d);
    let id = c.fresh as int;
    assert forall|i: int, j: int| 0 <= i && 0 <= j < 8 && 8 * i + j < bits implies 0 <= v(
        #[trigger] bit_name(id, i, j),
    ) <= 1 by {
        assert(is_truth(d, bit_name(id, i, j)));
        assert(names_bit(bit_name(id, i, j)));
    }
}

/// What is written for a range says that the term is a number of the width above the start; with
/// the digits for bits, it is exactly that.
proof fn lemma_range_means(
    c: Cvc5V,
    t: Term,
    start: Option<int>,
    bits: usize,
    v: spec_fn(Seq<char>) -> int,
    env: spec_fn(Seq<char>) -> int,
    near: bool,
)
    requires
        c.range(t, start, bits) is Ok,
        agrees(c, v, env),
        names_ok(t),
        term_ready(t, env, c.modulus, near),
        near || term_bit_free(t),
        bits_in(c.range(t, start, bits)->Ok_0.1, v),
        range_placed(c, t, start, bits, v, env, near),
    ensures
        field_holds(range_cond(c, t, start, bits), v, c.modulus) ==> (value(t, env) - start_of(
            start,
        )) % c.modulus < pow2(bits as nat),
        near && (value(t, env) - start_of(start)) % c.modulus < pow2(bits as nat) ==> field_holds(
            range_cond(c, t, start, bits),
            v,
            c.modulus,
        ),
    decreases t, 6int,
{
    let p = c.modulus;
    lemma2_to64();
    let (s, c1) = c.term(t)->Ok_0;
    let x = field_of(c, t);
    let target = shifted(x, start);
    let d = c.range(t, start, bits)->Ok_0.1;
    term_text_is_field_text(c, t);
    lemma_shifted(x, start, value(t, env), v, p);
    assert(d == c1.decomposed(field_text(target), bits)->Ok_0.1);
    lemma_after_term(c, t, v, env);
    lemma_decomposed(c1, field_text(target), bits);
    lemma_decomposed_bits(c1, field_text(target), bits, v);
    let id = c1.fresh as int;
    assert forall|k: int| near && c.fresh <= k < c1.fresh implies has_digits(
        v,
        k,
        #[trigger] pick_term(c, t, env, k),
    ) by {
        assert(pick_range(c, t, start_of(start), env, k) == pick_term(c, t, env, k));
    }
    lemma_term_means(c, t, v, env, near);
    lemma_shifted(x, start, value(t, env), v, p);
    assert(residue(target, v, p) == (value(t, env) - start_of(start)) % p);
    let cond = decomposition(target, id, bits as int);
    assert(range_cond(c, t, start, bits) == cond);
    if field_holds(cond, v, p) {
        decomposition_bounds_target(v, target, id, bits as int, p);
    }
    if near {
        assert(has_digits(v, id, pick_range(c, t, start_of(start), env, id)));
        digits_decide_decomposition(v, target, id, bits as int, p);
    }
}

/// Two decompositions say that their targets are numbers of the width; with the digits for bits,
/// they are exactly that.
proof fn lemma_two_decompositions(
    v: spec_fn(Seq<char>) -> int,
    low: FieldTerm,
    high: FieldTerm,
    id: int,
    bits: int,
    p: int,
    near: bool,
)
    requires
        0 <= bits <= 24,
        pow2(24) <= p,
        bits_ok(v, id, bits),
        bits_ok(v, id + 1, bits),
        near ==> has_digits(v, id, residue(low, v, p)) && has_digits(
            v,
            id + 1,
            residue(high, v, p),
        ),
    ensures
        ({
            let cond = FieldCond::All(
                seq![decomposition(low, id, bits), decomposition(high, id + 1, bits)],
            );
            let inside = residue(low, v, p) < pow2(bits as nat) && residue(high, v, p) < pow2(
                bits as nat,
            );
            &&& field_holds(cond, v, p) ==> inside
            &&& near && inside ==> field_holds(cond, v, p)
        }),
{
    let first = decomposition(low, id, bits);
    let second = decomposition(high, id + 1, bits);
    lemma_two_conds(first, second, v, p);
    let cond = FieldCond::All(seq![first, second]);
    assert(field_holds(cond, v, p) == (field_holds(first, v, p) && field_holds(second, v, p)));
    if field_holds(first, v, p) && field_holds(second, v, p) {
        decomposition_bounds_target(v, low, id, bits, p);
        decomposition_bounds_target(v, high, id + 1, bits, p);
    }
    if near {
        digits_decide_decomposition(v, low, id, bits, p);
        digits_decide_decomposition(v, high, id + 1, bits, p);
    }
}

/// What is written for an upper bound says that the term and its distance from the bound are
/// numbers of the width; with the digits for bits, it is exactly that.
proof fn lemma_between_means(
    c: Cvc5V,
    t: Term,
    bound: int,
    bits: usize,
    v: spec_fn(Seq<char>) -> int,
    env: spec_fn(Seq<char>) -> int,
    near: bool,
)
    requires
        c.between(t, bound, bits) is Ok,
        agrees(c, v, env),
        names_ok(t),
        term_ready(t, env, c.modulus, near),
        near || term_bit_free(t),
        bits_in(c.between(t, bound, bits)->Ok_0.1, v),
        between_placed(c, t, bound, bits, v, env, near),
    ensures
        field_holds(between_cond(c, t, bound, bits), v, c.modulus) ==> value(t, env) % c.modulus
            < pow2(bits as nat) && (bound - value(t, env)) % c.modulus < pow2(bits as nat),
        near && value(t, env) % c.modulus < pow2(bits as nat) && (bound - value(t, env)) % c.modulus
            < pow2(bits as nat) ==> field_holds(between_cond(c, t, bound, bits), v, c.modulus),
    decreases t, 6int,
{
    let p = c.modulus;
    lemma2_to64();
    let (s, c1) = c.term(t)->Ok_0;
    let x = field_of(c, t);
    let low = shifted(x, Some(0));
    let high = below(x, bound);
    let d = c.between(t, bound, bits)->Ok_0.1;
    term_text_is_field_text(c, t);
    lemma_shifted(x, Some(0), value(t, env), v, p);
    lemma_below(x, bound, value(t, env), v, p);
    let c2 = c1.decomposed(field_text(low), bits)->Ok_0.1;
    assert(d == c2.decomposed(field_text(high), bits)->Ok_0.1);
    lemma_after_term(c, t, v, env);
    lemma_decomposed(c1, field_text(low), bits);
    lemma_decomposed(c2, field_text(high), bits);
    lemma_decomposed_bits(c2, field_text(high), bits, v);
    lemma_decomposed_bits(c1, field_text(low), bits, v);
    let id = c1.fresh as int;
    assert forall|k: int| near && c.fresh <= k < c1.fresh implies has_digits(
        v,
        k,
        #[trigger] pick_term(c, t, env, k),
    ) by {
        assert(pick_between(c, t, bound, env, k) == pick_term(c, t, env, k));
    }
    lemma_term_means(c, t, v, env, near);
    lemma_shifted(x, Some(0), value(t, env), v, p);
    lemma_below(x, bound, value(t, env), v, p);
    if near {
        assert(has_digits(v, id, pick_between(c, t, bound, env, id)));
        assert(has_digits(v, id + 1, pick_between(c, t, bound, env, id + 1)));
    }
    lemma_two_decompositions(v, low, high, id, bits as int, p, near);
}

/// What is written for a comparison says no less than the comparison; with the digits for bits, and
/// within reach, it is exactly that.
proof fn lemma_order_means(
    c: Cvc5V,
    op: Order,
    t: Term,
    k: int,
    v: spec_fn(Seq<char>) -> int,
    env: spec_fn(Seq<char>) -> int,
    near: bool,
)
    requires
        c.order(op, t, k) is Ok,
        0 <= k,
        in_field(t, env, c.modulus),
        near ==> in_reach(op, k, value(t, env)),
        agrees(c, v, env),
        names_ok(t),
        term_ready(t, env, c.modulus, near),
        near || term_bit_free(t),
        bits_in(c.order(op, t, k)->Ok_0.1, v),
        order_placed(c, op, t, k, v, env, near),
    ensures
        field_holds(order_cond(c, op, t, k), v, c.modulus) ==> compares(op, value(t, env), k),
        near && compares(op, value(t, env), k) ==> field_holds(
            order_cond(c, op, t, k),
            v,
            c.modulus,
        ),
    decreases t, 7int,
{
    let p = c.modulus;
    let x = value(t, env);
    lemma2_to64();
    let (s, c1) = c.term(t)->Ok_0;
    let d = c.order(op, t, k)->Ok_0.1;
    lemma_after_term(c, t, v, env);
    term_text_is_field_text(c, t);
    lemma_small_mod(x as nat, p as nat);
    let hint = hint_for(c, t);
    let plan = order_plan(op, k, hint);
    assert forall|id: int| near && c.fresh <= id < c1.fresh && c1.fresh <= d.fresh implies
        has_digits(v, id, #[trigger] pick_term(c, t, env, id)) by {
        assert(pick_order(c, op, t, k, env, id) == pick_term(c, t, env, id));
    }
    match plan {
        OrderPlan::Within { start, bits } => {
            assert(d == c1.range(t, Some(start as int), bits)->Ok_0.1);
            lemma_range(c1, t, Some(start as int), bits);
            lemma_bits_in(c1, d, v);
            lemma_writes_keeps(c1, d);
            assert forall|id: int| near && c1.fresh <= id < d.fresh implies has_digits(
                v,
                id,
                #[trigger] pick_range(c1, t, start as int, env, id),
            ) by {
                assert(pick_order(c, op, t, k, env, id) == pick_range(
                    c1,
                    t,
                    start as int,
                    env,
                    id,
                ));
            }
            lemma_range_means(c1, t, Some(start as int), bits, v, env, near);
        },
        OrderPlan::Between { bound, bits } => {
            assert(d == c1.between(t, bound as int, bits)->Ok_0.1);
            lemma_between(c1, t, bound as int, bits);
            lemma_bits_in(c1, d, v);
            lemma_writes_keeps(c1, d);
            assert forall|id: int| near && c1.fresh <= id < d.fresh implies has_digits(
                v,
                id,
                #[trigger] pick_between(c1, t, bound as int, env, id),
            ) by {
                assert(pick_order(c, op, t, k, env, id) == pick_between(
                    c1,
                    t,
                    bound as int,
                    env,
                    id,
                ));
            }
            lemma_between_means(c1, t, bound as int, bits, v, env, near);
        },
        _ => {
            assert(d == c1);
        },
    }
    lemma_term_means(c, t, v, env, near);
    if let Some(h) = hint {
        assert(c.hints.contains_key(s));
        assert(hint_right(s, h, v, p));
        assert(field_text(field_of(c, t)) == s);
        assert(x <= hint_max(h));
    }
    large_fields_have_room(op, k, hint, p);
    plan_admits_comparison(op, k, hint, x, p);
}

/// A hint that is added is right where the term is a number of the width.
proof fn lemma_hint_added(
    hints: Map<Seq<char>, usize>,
    target: FieldTerm,
    bits: usize,
    v: spec_fn(Seq<char>) -> int,
    p: int,
)
    requires
        p > 0,
        hints_right(hints, v, p),
        plain_term(target),
        bits <= 24,
        residue(target, v, p) < pow2(bits as nat),
    ensures
        hints_right(hints.insert(field_text(target), bits), v, p),
{
    let s = field_text(target);
    let all = hints.insert(s, bits);
    assert forall|n: Seq<char>| #[trigger] all.contains_key(n) implies hint_right(
        n,
        all[n],
        v,
        p,
    ) by {
        if n == s {
            assert forall|t: FieldTerm| plain_term(t) && #[trigger] field_text(t) == s implies
                residue(t, v, p) <= hint_max(bits) by {
                text_tells_residue(t, target, v, p);
            }
        } else {
            assert(hints.contains_key(n));
        }
    }
}

/// The conditions that are written for the formulas of a conjunction from `i` on hold.
spec fn conds_hold(
    c: Cvc5V,
    fs: Seq<Formula>,
    i: int,
    v: spec_fn(Seq<char>) -> int,
    p: int,
) -> bool
    decreases fs.len() - i,
{
    i < 0 || i >= fs.len() || (field_holds(cond_of(c, fs[i]), v, p) && conds_hold(
        c.formula(fs[i])->Ok_0.1,
        fs,
        i + 1,
        v,
        p,
    ))
}

/// One of the conditions that are written for the alternatives from `i` on holds.
spec fn choice_holds(
    c: Cvc5V,
    fs: Seq<Formula>,
    i: int,
    v: spec_fn(Seq<char>) -> int,
    p: int,
) -> bool
    decreases fs.len() - i,
{
    0 <= i < fs.len() && (field_holds(cond_of(c, fs[i]), v, p) || choice_holds(
        with_hints(c.hints, c.formula(fs[i]))->Ok_0.1,
        fs,
        i + 1,
        v,
        p,
    ))
}

proof fn lemma_truths_push(
    acc: Seq<FieldCond>,
    x: FieldCond,
    v: spec_fn(Seq<char>) -> int,
    p: int,
)
    ensures
        each_true(field_truths(acc.push(x), v, p)) == (each_true(field_truths(acc, v, p))
            && field_holds(x, v, p)),
        one_true(field_truths(acc.push(x), v, p)) == (one_true(field_truths(acc, v, p))
            || field_holds(x, v, p)),
{
    let next = acc.push(x);
    assert(next.drop_last() =~= acc);
    let a = field_truths(acc, v, p);
    let b = field_truths(next, v, p);
    assert(b == a.push(field_holds(x, v, p)));
    assert(b[a.len() as int] == field_holds(x, v, p));
    assert forall|i: int| 0 <= i < a.len() implies b[i] == #[trigger] a[i] by {}
    assert forall|i: int| 0 <= i < a.len() implies #[trigger] b[i] == a[i] by {}
}

proof fn lemma_conds_hold(
    c: Cvc5V,
    fs: Seq<Formula>,
    i: int,
    acc: Seq<FieldCond>,
    v: spec_fn(Seq<char>) -> int,
    p: int,
)
    requires
        0 <= i,
    ensures
        each_true(field_truths(conds_of(c, fs, i, acc), v, p)) == (each_true(
            field_truths(acc, v, p),
        ) && conds_hold(c, fs, i, v, p)),
    decreases fs.len() - i,
{
    if i < fs.len() {
        let x = cond_of(c, fs[i]);
        lemma_truths_push(acc, x, v, p);
        lemma_conds_hold(c.formula(fs[i])->Ok_0.1, fs, i + 1, acc.push(x), v, p);
    }
}

proof fn lemma_choice_holds(
    c: Cvc5V,
    fs: Seq<Formula>,
    i: int,
    acc: Seq<FieldCond>,
    v: spec_fn(Seq<char>) -> int,
    p: int,
)
    requires
        0 <= i,
    ensures
        one_true(field_truths(choices_of(c, fs, i, acc), v, p)) == (one_true(
            field_truths(acc, v, p),
        ) || choice_holds(c, fs, i, v, p)),
    decreases fs.len() - i,
{
    if i < fs.len() {
        let x = cond_of(c, fs[i]);
        lemma_truths_push(acc, x, v, p);
        lemma_choice_holds(
            with_hints(c.hints, c.formula(fs[i]))->Ok_0.1,
            fs,
            i + 1,
            acc.push(x),
            v,
            p,
        );
    }
}

/// The truth of what is written for a conjunction, and for alternatives.
proof fn lemma_connectives(c: Cvc5V, fs: Seq<Formula>, v: spec_fn(Seq<char>) -> int, p: int)
    ensures
        field_holds(cond_of(c, Formula::And(fs)), v, p) == conds_hold(c, fs, 0, v, p),
        field_holds(cond_of(c, Formula::Or(fs)), v, p) == choice_holds(c, fs, 0, v, p),
{
    assert(field_truths(seq![], v, p) =~= seq![]);
    lemma_conds_hold(c, fs, 0, seq![], v, p);
    lemma_choice_holds(c, fs, 0, seq![], v, p);
    let cs = conds_of(c, fs, 0, seq![]);
    let ds = choices_of(c, fs, 0, seq![]);
    assert(cond_of(c, Formula::And(fs)) == FieldCond::All(cs));
    assert(cond_of(c, Formula::Or(fs)) == FieldCond::Any(ds));
    assert(field_holds(FieldCond::All(cs), v, p) == each_true(field_truths(cs, v, p)));
    assert(field_holds(FieldCond::Any(ds), v, p) == one_true(field_truths(ds, v, p)));
}

/// What is needed of a script for its hints to stay right.
pub open spec fn hinted(c: Cvc5V, v: spec_fn(Seq<char>) -> int) -> bool {
    is_large(c.modulus) && hints_right(c.hints, v, c.modulus)
}

proof fn lemma_range_hints(
    c: Cvc5V,
    t: Term,
    start: Option<int>,
    bits: usize,
    v: spec_fn(Seq<char>) -> int,
)
    requires
        c.range(t, start, bits) is Ok,
        hinted(c, v),
        names_ok(t),
        bits_in(c.range(t, start, bits)->Ok_0.1, v),
        field_holds(range_cond(c, t, start, bits), v, c.modulus),
    ensures
        hinted(c.range(t, start, bits)->Ok_0.1, v),
{
    let p = c.modulus;
    lemma2_to64();
    let (s, c1) = c.term(t)->Ok_0;
    let x = field_of(c, t);
    let target = shifted(x, start);
    term_text_is_field_text(c, t);
    lemma_shifted(x, start, 0, v, p);
    lemma_term(c, t);
    lemma_writes_keeps(c, c1);
    lemma_decomposed(c1, field_text(target), bits);
    lemma_decomposed_bits(c1, field_text(target), bits, v);
    decomposition_bounds_target(v, target, c1.fresh as int, bits as int, p);
    lemma_hint_added(c1.hints, target, bits, v, p);
}

proof fn lemma_between_hints(
    c: Cvc5V,
    t: Term,
    bound: int,
    bits: usize,
    v: spec_fn(Seq<char>) -> int,
)
    requires
        c.between(t, bound, bits) is Ok,
        hinted(c, v),
        names_ok(t),
        bits_in(c.between(t, bound, bits)->Ok_0.1, v),
        field_holds(between_cond(c, t, bound, bits), v, c.modulus),
    ensures
        hinted(c.between(t, bound, bits)->Ok_0.1, v),
{
    let p = c.modulus;
    lemma2_to64();
    let (s, c1) = c.term(t)->Ok_0;
    let x = field_of(c, t);
    let low = shifted(x, Some(0));
    let high = below(x, bound);
    term_text_is_field_text(c, t);
    lemma_shifted(x, Some(0), 0, v, p);
    lemma_below(x, bound, 0, v, p);
    lemma_term(c, t);
    lemma_writes_keeps(c, c1);
    let c2 = c1.decomposed(field_text(low), bits)->Ok_0.1;
    lemma_decomposed(c1, field_text(low), bits);
    lemma_decomposed(c2, field_text(high), bits);
    lemma_decomposed_bits(c2, field_text(high), bits, v);
    lemma_decomposed_bits(c1, field_text(low), bits, v);
    lemma_two_decompositions(v, low, high, c1.fresh as int, bits as int, p, false);
    lemma_hint_added(c1.hints, low, bits, v, p);
    lemma_hint_added(c2.hints, high, bits, v, p);
}

proof fn lemma_order_hints(c: Cvc5V, op: Order, t: Term, k: int, v: spec_fn(Seq<char>) -> int)
    requires
        c.order(op, t, k) is Ok,
        hinted(c, v),
        names_ok(t),
        bits_in(c.order(op, t, k)->Ok_0.1, v),
        field_holds(order_cond(c, op, t, k), v, c.modulus),
    ensures
        hinted(c.order(op, t, k)->Ok_0.1, v),
{
    let c1 = c.term(t)->Ok_0.1;
    lemma_term(c, t);
    lemma_writes_keeps(c, c1);
    match order_plan(op, k, hint_for(c, t)) {
        OrderPlan::Within { start, bits } => lemma_range_hints(c1, t, Some(start as int), bits, v),
        OrderPlan::Between { bound, bits } => lemma_between_hints(c1, t, bound as int, bits, v),
        _ => {},
    }
}

/// Where what is written for a formula holds, the hints are right behind it.
pub proof fn lemma_formula_hints(c: Cvc5V, f: Formula, v: spec_fn(Seq<char>) -> int)
    requires
        c.formula(f) is Ok,
        hinted(c, v),
        formula_names_ok(f),
        bits_in(c.formula(f)->Ok_0.1, v),
        field_holds(cond_of(c, f), v, c.modulus),
    ensures
        hinted(c.formula(f)->Ok_0.1, v),
    decreases f, 0int,
{
    lemma_formula(c, f);
    lemma_writes_keeps(c, c.formula(f)->Ok_0.1);
    match f {
        Formula::And(fs) => {
            lemma_connectives(c, fs, v, c.modulus);
            if fs.len() > 0 {
                lemma_formulas_hints(c, fs, 0, seq![], v);
            }
        },
        Formula::Or(fs) => {
            if fs.len() > 0 {
                lemma_alternatives(c, fs, 0, seq![]);
            }
        },
        Formula::Eq(a, b) | Formula::Ne(a, b) => {
            lemma_term(c, a);
            lemma_term(c.term(a)->Ok_0.1, b);
        },
        Formula::Le(a, b) | Formula::Ge(a, b) | Formula::Gt(a, b) => {
            lemma_comparison(c, f);
            lemma_order_hints(c, bounding_order(f), bounded_term(f), bounding_const(f), v);
        },
        Formula::Range { value: x, bits, .. } => lemma_range_hints(c, x, None, bits->0, v),
        _ => {},
    }
}

proof fn lemma_formulas_hints(
    c: Cvc5V,
    fs: Seq<Formula>,
    i: int,
    parts: Seq<Seq<char>>,
    v: spec_fn(Seq<char>) -> int,
)
    requires
        0 <= i,
        c.formulas(fs, i, parts) is Ok,
        hinted(c, v),
        formulas_names_ok(fs),
        bits_in(c.formulas(fs, i, parts)->Ok_0.1, v),
        conds_hold(c, fs, i, v, c.modulus),
    ensures
        hinted(c.formulas(fs, i, parts)->Ok_0.1, v),
    decreases fs, fs.len() - i,
{
    if i < fs.len() {
        let (s, c1) = c.formula(fs[i])->Ok_0;
        let d = c.formulas(fs, i, parts)->Ok_0.1;
        lemma_formula(c, fs[i]);
        lemma_writes_keeps(c, c1);
        lemma_formulas(c1, fs, i + 1, parts.push(s));
        lemma_bits_in(c1, d, v);
        lemma_formula_names_at(fs, i);
        lemma_formula_hints(c, fs[i], v);
        lemma_formulas_hints(c1, fs, i + 1, parts.push(s), v);
    }
}

/// With the digits for bits, what is written for a formula says what the formula says.
pub proof fn lemma_formula_means(
    c: Cvc5V,
    f: Formula,
    v: spec_fn(Seq<char>) -> int,
    env: spec_fn(Seq<char>) -> int,
    near: bool,
)
    requires
        c.formula(f) is Ok,
        agrees(c, v, env),
        formula_names_ok(f),
        ready(f, env, c.modulus, near),
        near || bit_free(f),
        bits_in(c.formula(f)->Ok_0.1, v),
        placed(c, f, v, env, near),
    ensures
        field_holds(cond_of(c, f), v, c.modulus) == holds(f, env),
    decreases f, 5int,
{
    match f {
        Formula::Bool(_) => {},
        Formula::Not(a) => {
            lemma_after_apart(c, *a, v, env);
            assert forall|id: int| near && c.fresh <= id < c.formula(*a)->Ok_0.1.fresh implies
                has_digits(v, id, #[trigger] pick(c, *a, env, id)) by {
                assert(pick(c, f, env, id) == pick(c, *a, env, id));
            }
            lemma_formula_means(c, *a, v, env, near);
        },
        Formula::And(fs) => lemma_and_means(c, f, v, env, near),
        Formula::Or(fs) => lemma_or_means(c, f, v, env, near),
        Formula::Eq(_, _) => lemma_equality_means(c, f, v, env, near),
        Formula::Ne(_, _) => lemma_equality_means(c, f, v, env, near),
        _ => lemma_bound_means(c, f, v, env, near),
    }
}

proof fn lemma_and_means(
    c: Cvc5V,
    f: Formula,
    v: spec_fn(Seq<char>) -> int,
    env: spec_fn(Seq<char>) -> int,
    near: bool,
)
    requires
        f is And,
        c.formula(f) is Ok,
        agrees(c, v, env),
        formula_names_ok(f),
        ready(f, env, c.modulus, near),
        near || bit_free(f),
        bits_in(c.formula(f)->Ok_0.1, v),
        placed(c, f, v, env, near),
    ensures
        field_holds(cond_of(c, f), v, c.modulus) == holds(f, env),
    decreases f, 4int,
{
    match f {
        Formula::And(fs) => {
            lemma_connectives(c, fs, v, c.modulus);
            lemma_all_index(fs, env);
            if fs.len() > 0 {
                assert forall|id: int| near && c.fresh <= id < c.formulas(
                    fs,
                    0,
                    seq![],
                )->Ok_0.1.fresh implies has_digits(
                    v,
                    id,
                    #[trigger] picks(c, fs, 0, env, id),
                ) by {
                    assert(pick(c, f, env, id) == picks(c, fs, 0, env, id));
                }
                lemma_conds_mean(c, fs, 0, seq![], v, env, near);
            }
        },
        _ => {},
    }
}

proof fn lemma_or_means(
    c: Cvc5V,
    f: Formula,
    v: spec_fn(Seq<char>) -> int,
    env: spec_fn(Seq<char>) -> int,
    near: bool,
)
    requires
        f is Or,
        c.formula(f) is Ok,
        agrees(c, v, env),
        formula_names_ok(f),
        ready(f, env, c.modulus, near),
        near || bit_free(f),
        bits_in(c.formula(f)->Ok_0.1, v),
        placed(c, f, v, env, near),
    ensures
        field_holds(cond_of(c, f), v, c.modulus) == holds(f, env),
    decreases f, 4int,
{
    match f {
        Formula::Or(fs) => {
            lemma_connectives(c, fs, v, c.modulus);
            lemma_some_index(fs, env);
            if fs.len() > 0 {
                assert forall|id: int| near && c.fresh <= id < c.alternatives(
                    fs,
                    0,
                    seq![],
                )->Ok_0.1.fresh implies has_digits(
                    v,
                    id,
                    #[trigger] pick_choices(c, fs, 0, env, id),
                ) by {
                    assert(pick(c, f, env, id) == pick_choices(c, fs, 0, env, id));
                }
                lemma_choices_mean(c, fs, 0, seq![], v, env, near);
            }
        },
        _ => {},
    }
}

proof fn lemma_equality_means(
    c: Cvc5V,
    f: Formula,
    v: spec_fn(Seq<char>) -> int,
    env: spec_fn(Seq<char>) -> int,
    near: bool,
)
    requires
        f is Eq || f is Ne,
        c.formula(f) is Ok,
        agrees(c, v, env),
        formula_names_ok(f),
        ready(f, env, c.modulus, near),
        near || bit_free(f),
        bits_in(c.formula(f)->Ok_0.1, v),
        placed(c, f, v, env, near),
    ensures
        field_holds(cond_of(c, f), v, c.modulus) == holds(f, env),
    decreases f, 4int,
{
    let p = c.modulus;
    match f {
        Formula::Eq(a, b) | Formula::Ne(a, b) => {
            let c1 = c.term(a)->Ok_0.1;
            let d = c.formula(f)->Ok_0.1;
            assert(d == c1.term(b)->Ok_0.1);
            lemma_after_term(c, a, v, env);
            lemma_after_term(c1, b, v, env);
            lemma_bits_in(c1, d, v);
            assert forall|id: int| near && c.fresh <= id < c1.fresh implies has_digits(
                v,
                id,
                #[trigger] pick_term(c, a, env, id),
            ) by {
                assert(pick(c, f, env, id) == pick_term(c, a, env, id));
            }
            assert forall|id: int| near && c1.fresh <= id < d.fresh implies has_digits(
                v,
                id,
                #[trigger] pick_term(c1, b, env, id),
            ) by {
                assert(pick(c, f, env, id) == pick_term(c1, b, env, id));
            }
            lemma_term_means(c, a, v, env, near);
            lemma_term_means(c1, b, v, env, near);
            lemma_small_mod(value(a, env) as nat, p as nat);
            lemma_small_mod(value(b, env) as nat, p as nat);
            let same = FieldCond::Same(field_of(c, a), field_of(c1, b));
            assert(field_holds(same, v, p) == (value(a, env) == value(b, env)));
        },
        _ => {},
    }
}

proof fn lemma_bound_means(
    c: Cvc5V,
    f: Formula,
    v: spec_fn(Seq<char>) -> int,
    env: spec_fn(Seq<char>) -> int,
    near: bool,
)
    requires
        f is Le || f is Lt || f is Ge || f is Gt || f is Range,
        c.formula(f) is Ok,
        agrees(c, v, env),
        formula_names_ok(f),
        ready(f, env, c.modulus, near),
        near || bit_free(f),
        bits_in(c.formula(f)->Ok_0.1, v),
        placed(c, f, v, env, near),
    ensures
        field_holds(cond_of(c, f), v, c.modulus) == holds(f, env),
    decreases f, 4int,
{
    let p = c.modulus;
    match f {
        Formula::Le(a, b) | Formula::Ge(a, b) | Formula::Gt(a, b) => {
            lemma_comparison(c, f);
            lemma_comparison_holds(f, env);
            let op = bounding_order(f);
            let k = bounding_const(f);
            let t = bounded_term(f);
            assert forall|id: int| near && c.fresh <= id < c.order(op, t, k)->Ok_0.1.fresh implies
                has_digits(v, id, #[trigger] pick_order(c, op, t, k, env, id)) by {
                assert(pick(c, f, env, id) == pick_order(c, op, t, k, env, id));
            }
            if plain_const(b) is Some {
                lemma_order_means(c, op, a, k, v, env, near);
            } else {
                lemma_order_means(c, op, b, k, v, env, near);
            }
        },
        Formula::Range { value: x, bits, .. } => {
            let w = bits->0;
            assert forall|id: int| near && c.fresh <= id < c.range(
                x,
                None,
                w,
            )->Ok_0.1.fresh implies has_digits(
                v,
                id,
                #[trigger] pick_range(c, x, 0, env, id),
            ) by {
                assert(pick(c, f, env, id) == pick_range(c, x, 0, env, id));
            }
            lemma_range_means(c, x, None, w, v, env, near);
            lemma_small_mod(value(x, env) as nat, p as nat);
        },
        _ => {},
    }
}

proof fn lemma_conds_mean(
    c: Cvc5V,
    fs: Seq<Formula>,
    i: int,
    parts: Seq<Seq<char>>,
    v: spec_fn(Seq<char>) -> int,
    env: spec_fn(Seq<char>) -> int,
    near: bool,
)
    requires
        0 <= i <= fs.len(),
        c.formulas(fs, i, parts) is Ok,
        agrees(c, v, env),
        formulas_names_ok(fs),
        all_ready(fs, env, c.modulus, near),
        near || all_bit_free(fs),
        bits_in(c.formulas(fs, i, parts)->Ok_0.1, v),
        near ==> forall|id: int|
            c.fresh <= id < c.formulas(fs, i, parts)->Ok_0.1.fresh ==> has_digits(
                v,
                id,
                #[trigger] picks(c, fs, i, env, id),
            ),
    ensures
        conds_hold(c, fs, i, v, c.modulus) == (forall|j: int|
            i <= j < fs.len() ==> holds(#[trigger] fs[j], env)),
    decreases fs, fs.len() - i,
{
    if i < fs.len() {
        let f = fs[i];
        let (s, c1) = c.formula(f)->Ok_0;
        let d = c.formulas(fs, i, parts)->Ok_0.1;
        assert(d == c1.formulas(fs, i + 1, parts.push(s))->Ok_0.1);
        lemma_formula(c, f);
        lemma_writes_keeps(c, c1);
        lemma_formulas(c1, fs, i + 1, parts.push(s));
        lemma_writes_keeps(c1, d);
        lemma_bits_in(c1, d, v);
        lemma_formula_names_at(fs, i);
        lemma_formula_at(fs, i, env, c.modulus, near);
        assert forall|id: int| near && c.fresh <= id < c1.fresh implies has_digits(
            v,
            id,
            #[trigger] pick(c, f, env, id),
        ) by {
            assert(picks(c, fs, i, env, id) == pick(c, f, env, id));
        }
        lemma_formula_means(c, f, v, env, near);
        if holds(f, env) {
            lemma_formula_hints(c, f, v);
            assert forall|id: int| near && c1.fresh <= id < d.fresh implies has_digits(
                v,
                id,
                #[trigger] picks(c1, fs, i + 1, env, id),
            ) by {
                assert(picks(c, fs, i, env, id) == picks(c1, fs, i + 1, env, id));
            }
            lemma_conds_mean(c1, fs, i + 1, parts.push(s), v, env, near);
            assert(conds_hold(c, fs, i, v, c.modulus) == conds_hold(c1, fs, i + 1, v, c.modulus));
        } else {
            assert(!holds(fs[i], env));
        }
    }
}

proof fn lemma_choices_mean(
    c: Cvc5V,
    fs: Seq<Formula>,
    i: int,
    parts: Seq<Seq<char>>,
    v: spec_fn(Seq<char>) -> int,
    env: spec_fn(Seq<char>) -> int,
    near: bool,
)
    requires
        0 <= i <= fs.len(),
        c.alternatives(fs, i, parts) is Ok,
        agrees(c, v, env),
        formulas_names_ok(fs),
        all_ready(fs, env, c.modulus, near),
        near || all_bit_free(fs),
        bits_in(c.alternatives(fs, i, parts)->Ok_0.1, v),
        near ==> forall|id: int|
            c.fresh <= id < c.alternatives(fs, i, parts)->Ok_0.1.fresh ==> has_digits(
                v,
                id,
                #[trigger] pick_choices(c, fs, i, env, id),
            ),
    ensures
        choice_holds(c, fs, i, v, c.modulus) == (exists|j: int|
            i <= j < fs.len() && holds(#[trigger] fs[j], env)),
    decreases fs, fs.len() - i,
{
    if i < fs.len() {
        let f = fs[i];
        let (s, c1) = with_hints(c.hints, c.formula(f))->Ok_0;
        let d = c.alternatives(fs, i, parts)->Ok_0.1;
        assert(d == c1.alternatives(fs, i + 1, parts.push(s))->Ok_0.1);
        lemma_after_apart(c, f, v, env);
        lemma_alternatives(c1, fs, i + 1, parts.push(s));
        lemma_writes_keeps(c1, d);
        lemma_bits_in(c1, d, v);
        lemma_formula_names_at(fs, i);
        lemma_formula_at(fs, i, env, c.modulus, near);
        assert forall|id: int| near && c.fresh <= id < c1.fresh implies has_digits(
            v,
            id,
            #[trigger] pick(c, f, env, id),
        ) by {
            assert(pick_choices(c, fs, i, env, id) == pick(c, f, env, id));
        }
        lemma_formula_means(c, f, v, env, near);
        assert forall|id: int| near && c1.fresh <= id < d.fresh implies has_digits(
            v,
            id,
            #[trigger] pick_choices(c1, fs, i + 1, env, id),
        ) by {
            assert(pick_choices(c, fs, i, env, id) == pick_choices(c1, fs, i + 1, env, id));
        }
        lemma_choices_mean(c1, fs, i + 1, parts.push(s), v, env, near);
        assert(holds(fs[i], env) == holds(f, env));
        assert(choice_holds(c, fs, i, v, c.modulus) == (holds(f, env) || choice_holds(
            c1,
            fs,
            i + 1,
            v,
            c.modulus,
        )));
    }
}

/// Where what is written for a formula holds, whatever the bits are, the formula holds, provided
/// that no range or comparison stands under a negation or in the condition of a term.
pub proof fn lemma_positive_means(
    c: Cvc5V,
    f: Formula,
    v: spec_fn(Seq<char>) -> int,
    env: spec_fn(Seq<char>) -> int,
)
    requires
        c.formula(f) is Ok,
        agrees(c, v, env),
        formula_names_ok(f),
        ready(f, env, c.modulus, false),
        is_positive(f),
        bits_in(c.formula(f)->Ok_0.1, v),
        field_holds(cond_of(c, f), v, c.modulus),
    ensures
        holds(f, env),
    decreases f, 0int,
{
    let p = c.modulus;
    match f {
        Formula::Not(_) => lemma_formula_means(c, f, v, env, false),
        Formula::And(fs) => {
            lemma_connectives(c, fs, v, p);
            lemma_all_index(fs, env);
            if fs.len() > 0 {
                lemma_positive_conds(c, fs, 0, seq![], v, env);
            }
        },
        Formula::Or(fs) => {
            lemma_connectives(c, fs, v, p);
            lemma_some_index(fs, env);
            if fs.len() > 0 {
                lemma_positive_choices(c, fs, 0, seq![], v, env);
            }
        },
        Formula::Eq(_, _) => lemma_formula_means(c, f, v, env, false),
        Formula::Ne(_, _) => lemma_formula_means(c, f, v, env, false),
        Formula::Le(a, b) | Formula::Ge(a, b) | Formula::Gt(a, b) => {
            lemma_comparison(c, f);
            lemma_comparison_holds(f, env);
            lemma_order_means(
                c,
                bounding_order(f),
                bounded_term(f),
                bounding_const(f),
                v,
                env,
                false,
            );
        },
        Formula::Range { value: x, bits, .. } => {
            lemma_range_means(c, x, None, bits->0, v, env, false);
            lemma_small_mod(value(x, env) as nat, p as nat);
        },
        _ => {},
    }
}

proof fn lemma_positive_conds(
    c: Cvc5V,
    fs: Seq<Formula>,
    i: int,
    parts: Seq<Seq<char>>,
    v: spec_fn(Seq<char>) -> int,
    env: spec_fn(Seq<char>) -> int,
)
    requires
        0 <= i <= fs.len(),
        c.formulas(fs, i, parts) is Ok,
        agrees(c, v, env),
        formulas_names_ok(fs),
        all_ready(fs, env, c.modulus, false),
        all_positive(fs),
        bits_in(c.formulas(fs, i, parts)->Ok_0.1, v),
        conds_hold(c, fs, i, v, c.modulus),
    ensures
        forall|j: int| i <= j < fs.len() ==> holds(#[trigger] fs[j], env),
    decreases fs, fs.len() - i,
{
    if i < fs.len() {
        let f = fs[i];
        let (s, c1) = c.formula(f)->Ok_0;
        let d = c.formulas(fs, i, parts)->Ok_0.1;
        lemma_formula(c, f);
        lemma_writes_keeps(c, c1);
        lemma_formulas(c1, fs, i + 1, parts.push(s));
        lemma_bits_in(c1, d, v);
        lemma_formula_names_at(fs, i);
        lemma_formula_at(fs, i, env, c.modulus, false);
        lemma_positive_means(c, f, v, env);
        lemma_formula_hints(c, f, v);
        lemma_positive_conds(c1, fs, i + 1, parts.push(s), v, env);
    }
}

proof fn lemma_positive_choices(
    c: Cvc5V,
    fs: Seq<Formula>,
    i: int,
    parts: Seq<Seq<char>>,
    v: spec_fn(Seq<char>) -> int,
    env: spec_fn(Seq<char>) -> int,
)
    requires
        0 <= i <= fs.len(),
        c.alternatives(fs, i, parts) is Ok,
        agrees(c, v, env),
        formulas_names_ok(fs),
        all_ready(fs, env, c.modulus, false),
        all_positive(fs),
        bits_in(c.alternatives(fs, i, parts)->Ok_0.1, v),
        choice_holds(c, fs, i, v, c.modulus),
    ensures
        exists|j: int| i <= j < fs.len() && holds(#[trigger] fs[j], env),
    decreases fs, fs.len() - i,
{
    let f = fs[i];
    let (s, c1) = with_hints(c.hints, c.formula(f))->Ok_0;
    let d = c.alternatives(fs, i, parts)->Ok_0.1;
    lemma_after_apart(c, f, v, env);
    lemma_alternatives(c1, fs, i + 1, parts.push(s));
    lemma_bits_in(c1, d, v);
    lemma_formula_names_at(fs, i);
    lemma_formula_at(fs, i, env, c.modulus, false);
    if field_holds(cond_of(c, f), v, c.modulus) {
        lemma_positive_means(c, f, v, env);
        assert(holds(fs[i], env));
    } else {
        lemma_positive_choices(c1, fs, i + 1, parts.push(s), v, env);
    }
}

} // verus!
