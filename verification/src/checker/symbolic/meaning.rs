//! What symbolic expressions denote, and the laws that simplification obeys.

use vstd::prelude::*;
use crate::checker::symbolic::arith::{
    add_leaves, const_product, const_sum, div_term, has_zero, mul_leaves, non_consts, product_term,
    sub_term, sum_term, fits,
};
use crate::checker::symbolic::expr::{
    and_leaves, as_int_term, conj, disj, mod_field_term, or_leaves, Formula, Term, FIELD_MODULUS,
};

verus! {

/// The integer value of a term when each variable has the value that `env` gives to its name.
/// Division and remainder are Euclidean.
pub open spec fn value(t: Term, env: spec_fn(Seq<char>) -> int) -> int
    decreases t,
{
    match t {
        Term::Int(k) => k,
        Term::Var(name, _) => env(name),
        Term::Neg(x) => -value(*x, env),
        Term::Add(xs) => sum_value(xs, env),
        Term::Mul(xs) => product_value(xs, env),
        Term::Sub(a, b) => value(*a, env) - value(*b, env),
        Term::Div(a, b) => value(*a, env) / value(*b, env),
        Term::Mod(a, b) => value(*a, env) % value(*b, env),
        Term::Ite(c, a, b) => if holds(*c, env) {
            value(*a, env)
        } else {
            value(*b, env)
        },
    }
}

/// The sum of the values of `xs`.
pub open spec fn sum_value(xs: Seq<Term>, env: spec_fn(Seq<char>) -> int) -> int
    decreases xs,
{
    if xs.len() == 0 {
        0
    } else {
        sum_value(xs.drop_last(), env) + value(xs.last(), env)
    }
}

/// The product of the values of `xs`.
pub open spec fn product_value(xs: Seq<Term>, env: spec_fn(Seq<char>) -> int) -> int
    decreases xs,
{
    if xs.len() == 0 {
        1
    } else {
        product_value(xs.drop_last(), env) * value(xs.last(), env)
    }
}

/// The truth of a formula under `env`.
pub open spec fn holds(f: Formula, env: spec_fn(Seq<char>) -> int) -> bool
    decreases f,
{
    match f {
        Formula::Bool(b) => b,
        Formula::Not(x) => !holds(*x, env),
        Formula::And(xs) => all_hold(xs, env),
        Formula::Or(xs) => some_holds(xs, env),
        Formula::Eq(a, b) => value(a, env) == value(b, env),
        Formula::Ne(a, b) => value(a, env) != value(b, env),
        Formula::Le(a, b) => value(a, env) <= value(b, env),
        Formula::Lt(a, b) => value(a, env) < value(b, env),
        Formula::Ge(a, b) => value(a, env) >= value(b, env),
        Formula::Gt(a, b) => value(a, env) > value(b, env),
        Formula::Range { value: v, min, max, bits } => min <= value(v, env) <= max,
    }
}

/// Every formula of `xs` holds.
pub open spec fn all_hold(xs: Seq<Formula>, env: spec_fn(Seq<char>) -> int) -> bool
    decreases xs,
{
    if xs.len() == 0 {
        true
    } else {
        all_hold(xs.drop_last(), env) && holds(xs.last(), env)
    }
}

/// Some formula of `xs` holds.
pub open spec fn some_holds(xs: Seq<Formula>, env: spec_fn(Seq<char>) -> int) -> bool
    decreases xs,
{
    if xs.len() == 0 {
        false
    } else {
        some_holds(xs.drop_last(), env) || holds(xs.last(), env)
    }
}

/// The sum of a concatenation is the sum of the parts.
pub proof fn lemma_sum_concat(a: Seq<Term>, b: Seq<Term>, env: spec_fn(Seq<char>) -> int)
    ensures
        sum_value(a + b, env) == sum_value(a, env) + sum_value(b, env),
    decreases b.len(),
{
    if b.len() == 0 {
        assert(a + b =~= a);
    } else {
        assert((a + b).drop_last() =~= a + b.drop_last());
        lemma_sum_concat(a, b.drop_last(), env);
    }
}

/// The product of a concatenation is the product of the parts.
pub proof fn lemma_product_concat(a: Seq<Term>, b: Seq<Term>, env: spec_fn(Seq<char>) -> int)
    ensures
        product_value(a + b, env) == product_value(a, env) * product_value(b, env),
    decreases b.len(),
{
    if b.len() == 0 {
        assert(a + b =~= a);
    } else {
        assert((a + b).drop_last() =~= a + b.drop_last());
        lemma_product_concat(a, b.drop_last(), env);
        let x = product_value(a, env);
        let y = product_value(b.drop_last(), env);
        let z = value(b.last(), env);
        assert((x * y) * z == x * (y * z)) by (nonlinear_arith);
    }
}

/// A conjunction of a concatenation holds iff both parts hold.
pub proof fn lemma_all_concat(a: Seq<Formula>, b: Seq<Formula>, env: spec_fn(Seq<char>) -> int)
    ensures
        all_hold(a + b, env) == (all_hold(a, env) && all_hold(b, env)),
    decreases b.len(),
{
    if b.len() == 0 {
        assert(a + b =~= a);
    } else {
        assert((a + b).drop_last() =~= a + b.drop_last());
        lemma_all_concat(a, b.drop_last(), env);
    }
}

/// A disjunction of a concatenation holds iff one of the parts holds.
pub proof fn lemma_some_concat(a: Seq<Formula>, b: Seq<Formula>, env: spec_fn(Seq<char>) -> int)
    ensures
        some_holds(a + b, env) == (some_holds(a, env) || some_holds(b, env)),
    decreases b.len(),
{
    if b.len() == 0 {
        assert(a + b =~= a);
    } else {
        assert((a + b).drop_last() =~= a + b.drop_last());
        lemma_some_concat(a, b.drop_last(), env);
    }
}

/// A one-element list.
pub proof fn lemma_single(t: Term, f: Formula, env: spec_fn(Seq<char>) -> int)
    ensures
        sum_value(seq![t], env) == value(t, env),
        product_value(seq![t], env) == value(t, env),
        all_hold(seq![f], env) == holds(f, env),
        some_holds(seq![f], env) == holds(f, env),
{
    assert(seq![t].drop_last() =~= Seq::<Term>::empty());
    assert(seq![f].drop_last() =~= Seq::<Formula>::empty());
    reveal_with_fuel(sum_value, 2);
    reveal_with_fuel(product_value, 2);
    reveal_with_fuel(all_hold, 2);
    reveal_with_fuel(some_holds, 2);
    assert(1 * value(t, env) == value(t, env));
}

/// Every conjunct of a true conjunction holds, and conversely.
pub proof fn lemma_all_index(xs: Seq<Formula>, env: spec_fn(Seq<char>) -> int)
    ensures
        all_hold(xs, env) == (forall|i: int| 0 <= i < xs.len() ==> holds(#[trigger] xs[i], env)),
    decreases xs.len(),
{
    if xs.len() > 0 {
        let ys = xs.drop_last();
        lemma_all_index(ys, env);
        if all_hold(xs, env) {
            assert forall|i: int| 0 <= i < xs.len() implies holds(#[trigger] xs[i], env) by {
                if i < ys.len() {
                    assert(ys[i] == xs[i]);
                }
            }
        }
        if forall|i: int| 0 <= i < xs.len() ==> holds(#[trigger] xs[i], env) {
            assert forall|i: int| 0 <= i < ys.len() implies holds(#[trigger] ys[i], env) by {
                assert(xs[i] == ys[i]);
            }
            assert(holds(xs[xs.len() - 1], env));
        }
    }
}

/// A true disjunction has a true member, and conversely.
pub proof fn lemma_some_index(xs: Seq<Formula>, env: spec_fn(Seq<char>) -> int)
    ensures
        some_holds(xs, env) == (exists|i: int| 0 <= i < xs.len() && holds(#[trigger] xs[i], env)),
    decreases xs.len(),
{
    if xs.len() > 0 {
        let ys = xs.drop_last();
        lemma_some_index(ys, env);
        if some_holds(xs, env) {
            if some_holds(ys, env) {
                let i = choose|i: int| 0 <= i < ys.len() && holds(#[trigger] ys[i], env);
                assert(holds(xs[i], env));
            } else {
                assert(holds(xs[xs.len() - 1], env));
            }
        }
        if exists|i: int| 0 <= i < xs.len() && holds(#[trigger] xs[i], env) {
            let i = choose|i: int| 0 <= i < xs.len() && holds(#[trigger] xs[i], env);
            if i < ys.len() {
                assert(holds(ys[i], env));
            }
        }
    }
}

proof fn lemma_add_leaves_value(s: Seq<Term>, env: spec_fn(Seq<char>) -> int)
    ensures
        sum_value(add_leaves(s), env) == sum_value(s, env),
    decreases s.len(),
{
    if s.len() > 0 {
        lemma_add_leaves_value(s.drop_last(), env);
        match s.last() {
            Term::Add(vs) => {
                lemma_sum_concat(add_leaves(s.drop_last()), vs, env);
                assert(value(s.last(), env) == sum_value(vs, env));
            },
            other => {
                lemma_sum_concat(add_leaves(s.drop_last()), seq![other], env);
                lemma_single(other, Formula::Bool(true), env);
            },
        }
    }
}

proof fn lemma_mul_leaves_value(s: Seq<Term>, env: spec_fn(Seq<char>) -> int)
    ensures
        product_value(mul_leaves(s), env) == product_value(s, env),
    decreases s.len(),
{
    if s.len() > 0 {
        lemma_mul_leaves_value(s.drop_last(), env);
        match s.last() {
            Term::Mul(vs) => {
                lemma_product_concat(mul_leaves(s.drop_last()), vs, env);
                assert(value(s.last(), env) == product_value(vs, env));
            },
            other => {
                lemma_product_concat(mul_leaves(s.drop_last()), seq![other], env);
                lemma_single(other, Formula::Bool(true), env);
            },
        }
    }
}

proof fn lemma_split_sum(s: Seq<Term>, env: spec_fn(Seq<char>) -> int)
    ensures
        sum_value(s, env) == sum_value(non_consts(s), env) + const_sum(s),
    decreases s.len(),
{
    if s.len() > 0 {
        lemma_split_sum(s.drop_last(), env);
        match s.last() {
            Term::Int(k) => {
                assert(value(s.last(), env) == k);
            },
            _ => {},
        }
        if !(s.last() is Int) {
            let r = non_consts(s.drop_last());
            assert(r.push(s.last()).drop_last() =~= r);
        }
    }
}

/// The constants among `s` multiply without leaving their range at any point.
pub open spec fn products_fit(s: Seq<Term>) -> bool
    decreases s.len(),
{
    if s.len() == 0 {
        true
    } else {
        products_fit(s.drop_last()) && match s.last() {
            Term::Int(k) => fits(const_product(s.drop_last()) * k),
            _ => true,
        }
    }
}

proof fn lemma_split_product(s: Seq<Term>, env: spec_fn(Seq<char>) -> int)
    requires
        products_fit(s),
    ensures
        product_value(s, env) == product_value(non_consts(s), env) * const_product(s),
    decreases s.len(),
{
    if s.len() > 0 {
        lemma_split_product(s.drop_last(), env);
        let r = non_consts(s.drop_last());
        let p = product_value(r, env);
        let k = const_product(s.drop_last());
        let v = value(s.last(), env);
        assert((p * k) * v == p * (k * v)) by (nonlinear_arith);
        assert((p * k) * v == (p * v) * k) by (nonlinear_arith);
        if !(s.last() is Int) {
            assert(r.push(s.last()).drop_last() =~= r);
        }
    }
}

proof fn lemma_zero_product(s: Seq<Term>, env: spec_fn(Seq<char>) -> int)
    requires
        has_zero(s),
    ensures
        product_value(s, env) == 0,
    decreases s.len(),
{
    let i = choose|i: int| 0 <= i < s.len() && #[trigger] s[i] == Term::Int(0);
    if i < s.len() - 1 {
        assert(s.drop_last()[i] == Term::Int(0));
        lemma_zero_product(s.drop_last(), env);
        assert(0 * value(s.last(), env) == 0) by (nonlinear_arith);
    } else {
        let p = product_value(s.drop_last(), env);
        assert(value(s.last(), env) == 0);
        assert(p * 0 == 0) by (nonlinear_arith);
    }
}

/// Folding a sum keeps its value.
pub proof fn sum_keeps_value(s: Seq<Term>, env: spec_fn(Seq<char>) -> int)
    ensures
        value(sum_term(s), env) == sum_value(s, env),
{
    let flat = add_leaves(s);
    lemma_add_leaves_value(s, env);
    lemma_split_sum(flat, env);
    let k = const_sum(flat);
    let r = non_consts(flat);
    if k != 0 {
        assert(r.push(Term::Int(k)) =~= r + seq![Term::Int(k)]);
        lemma_sum_concat(r, seq![Term::Int(k)], env);
        lemma_single(Term::Int(k), Formula::Bool(true), env);
    }
    let items = if k != 0 {
        r.push(Term::Int(k))
    } else {
        r
    };
    if items.len() == 1 {
        assert(items =~= seq![items[0]]);
        lemma_single(items[0], Formula::Bool(true), env);
    }
}

/// Folding a product keeps its value, unless the product of its constants saturates.
pub proof fn product_keeps_value(s: Seq<Term>, env: spec_fn(Seq<char>) -> int)
    requires
        products_fit(mul_leaves(s)) || has_zero(mul_leaves(s)),
    ensures
        value(product_term(s), env) == product_value(s, env),
{
    let flat = mul_leaves(s);
    lemma_mul_leaves_value(s, env);
    if has_zero(flat) {
        lemma_zero_product(flat, env);
    } else {
        lemma_split_product(flat, env);
        let k = const_product(flat);
        let r = non_consts(flat);
        let p = product_value(r, env);
        assert(p * k == k * p) by (nonlinear_arith);
        if k != 1 {
            lemma_product_concat(seq![Term::Int(k)], r, env);
            lemma_single(Term::Int(k), Formula::Bool(true), env);
        }
        let items = if k != 1 {
            seq![Term::Int(k)] + r
        } else {
            r
        };
        if items.len() == 1 {
            assert(items =~= seq![items[0]]);
            lemma_single(items[0], Formula::Bool(true), env);
        }
    }
}

/// Folding a difference keeps its value.
pub proof fn difference_keeps_value(a: Term, b: Term, env: spec_fn(Seq<char>) -> int)
    ensures
        value(sub_term(a, b), env) == value(a, env) - value(b, env),
{
}

/// Folding a quotient keeps its value.
pub proof fn quotient_keeps_value(a: Term, b: Term, env: spec_fn(Seq<char>) -> int)
    ensures
        value(div_term(a, b), env) == value(a, env) / value(b, env),
{
}

/// Reducing into the field gives the canonical representative.
pub proof fn mod_field_is_canonical(t: Term, env: spec_fn(Seq<char>) -> int)
    ensures
        value(mod_field_term(t), env) == value(t, env) % (FIELD_MODULUS as int),
        0 <= value(mod_field_term(t), env) < FIELD_MODULUS,
{
    reveal_with_fuel(value, 2);
}

/// A truth value turned into an integer is 1 exactly when the formula holds, else 0.
pub proof fn as_int_is_indicator(f: Formula, env: spec_fn(Seq<char>) -> int)
    ensures
        value(as_int_term(f), env) == if holds(f, env) {
            1int
        } else {
            0
        },
{
    reveal_with_fuel(value, 2);
}

/// Flattening a conjunction keeps its truth.
pub proof fn conj_keeps_truth(s: Seq<Formula>, env: spec_fn(Seq<char>) -> int)
    ensures
        holds(conj(s), env) == all_hold(s, env),
{
    lemma_and_leaves(s, env);
    let flat = and_leaves(s);
    if flat.len() == 1 {
        assert(flat =~= seq![flat[0]]);
        lemma_single(Term::Int(0), flat[0], env);
    }
}

proof fn lemma_and_leaves(s: Seq<Formula>, env: spec_fn(Seq<char>) -> int)
    ensures
        all_hold(and_leaves(s), env) == all_hold(s, env),
    decreases s.len(),
{
    if s.len() > 0 {
        lemma_and_leaves(s.drop_last(), env);
        match s.last() {
            Formula::And(vs) => {
                lemma_all_concat(and_leaves(s.drop_last()), vs, env);
                assert(holds(s.last(), env) == all_hold(vs, env));
            },
            other => {
                lemma_all_concat(and_leaves(s.drop_last()), seq![other], env);
                lemma_single(Term::Int(0), other, env);
            },
        }
    }
}

/// Flattening a disjunction keeps its truth.
pub proof fn disj_keeps_truth(s: Seq<Formula>, env: spec_fn(Seq<char>) -> int)
    ensures
        holds(disj(s), env) == some_holds(s, env),
{
    lemma_or_leaves(s, env);
    let flat = or_leaves(s);
    if flat.len() == 1 {
        assert(flat =~= seq![flat[0]]);
        lemma_single(Term::Int(0), flat[0], env);
    }
}

proof fn lemma_or_leaves(s: Seq<Formula>, env: spec_fn(Seq<char>) -> int)
    ensures
        some_holds(or_leaves(s), env) == some_holds(s, env),
    decreases s.len(),
{
    if s.len() > 0 {
        lemma_or_leaves(s.drop_last(), env);
        match s.last() {
            Formula::Or(vs) => {
                lemma_some_concat(or_leaves(s.drop_last()), vs, env);
                assert(holds(s.last(), env) == some_holds(vs, env));
            },
            other => {
                lemma_some_concat(or_leaves(s.drop_last()), seq![other], env);
                lemma_single(Term::Int(0), other, env);
            },
        }
    }
}

} // verus!
