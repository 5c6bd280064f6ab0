//! The terms and conditions over the field that are written for terms and formulas.

use vstd::prelude::*;
use crate::checker::solver::bound_laws::{
    below, decomposition, lemma_below, lemma_both_text, lemma_decomposed_text,
    lemma_difference_text, lemma_quotient_text, lemma_same_text, lemma_shifted, names_bit, shifted,
};
use crate::checker::solver::cvc5::{
    gathered, offset, order_plan, plain_const, with_hints, Cvc5V, Order, OrderPlan,
};
use crate::checker::solver::field::{
    field_cond_text, field_cond_texts, field_text, field_texts, is_plain, plain_cond, plain_conds,
    plain_term, plain_terms, FieldCond, FieldTerm,
};
use crate::checker::solver::order_laws::compares;
use crate::checker::solver::script_laws::lemma_decomposed;
use crate::checker::symbolic::expr::{Formula, Term};
use crate::checker::symbolic::meaning::{holds, value};

verus! {

/// The variables of a term have plain names, which are not those of bits.
pub open spec fn names_ok(t: Term) -> bool
    decreases t,
{
    match t {
        Term::Int(_) => true,
        Term::Var(name, _) => is_plain(name) && !names_bit(name),
        Term::Neg(a) => names_ok(*a),
        Term::Add(xs) => all_names_ok(xs),
        Term::Mul(xs) => all_names_ok(xs),
        Term::Sub(a, b) => names_ok(*a) && names_ok(*b),
        Term::Div(a, b) => names_ok(*a) && names_ok(*b),
        Term::Mod(a, b) => names_ok(*a) && names_ok(*b),
        Term::Ite(f, a, b) => formula_names_ok(*f) && names_ok(*a) && names_ok(*b),
    }
}

/// The variables of terms have plain names, which are not those of bits.
pub open spec fn all_names_ok(xs: Seq<Term>) -> bool
    decreases xs,
{
    xs.len() == 0 || (all_names_ok(xs.drop_last()) && names_ok(xs.last()))
}

/// The variables of a formula have plain names, which are not those of bits.
pub open spec fn formula_names_ok(f: Formula) -> bool
    decreases f,
{
    match f {
        Formula::Bool(_) => true,
        Formula::Not(a) => formula_names_ok(*a),
        Formula::And(fs) => formulas_names_ok(fs),
        Formula::Or(fs) => formulas_names_ok(fs),
        Formula::Eq(a, b) => names_ok(a) && names_ok(b),
        Formula::Ne(a, b) => names_ok(a) && names_ok(b),
        Formula::Le(a, b) => names_ok(a) && names_ok(b),
        Formula::Lt(a, b) => names_ok(a) && names_ok(b),
        Formula::Ge(a, b) => names_ok(a) && names_ok(b),
        Formula::Gt(a, b) => names_ok(a) && names_ok(b),
        Formula::Range { value, .. } => names_ok(value),
    }
}

/// The variables of formulas have plain names, which are not those of bits.
pub open spec fn formulas_names_ok(fs: Seq<Formula>) -> bool
    decreases fs,
{
    fs.len() == 0 || (formulas_names_ok(fs.drop_last()) && formula_names_ok(fs.last()))
}

/// The term over the field that is written for a term.
pub open spec fn field_of(c: Cvc5V, t: Term) -> FieldTerm
    decreases t, 0int,
{
    match t {
        Term::Int(k) => FieldTerm::Const(k),
        Term::Var(name, _) => FieldTerm::Var(name),
        Term::Neg(a) => FieldTerm::Neg(Box::new(field_of(c, *a))),
        Term::Add(xs) => FieldTerm::Sum(fields_of(c, xs, 0, seq![])),
        Term::Mul(xs) => FieldTerm::Product(fields_of(c, xs, 0, seq![])),
        Term::Sub(a, b) => FieldTerm::Sum(
            seq![
                field_of(c, *a),
                FieldTerm::Neg(Box::new(field_of(c.term(*a)->Ok_0.1, *b))),
            ],
        ),
        Term::Div(a, b) => FieldTerm::Product(
            seq![
                field_of(c, *a),
                FieldTerm::Inv(Box::new(field_of(c.term(*a)->Ok_0.1, *b))),
            ],
        ),
        Term::Mod(a, _) => field_of(c, *a),
        Term::Ite(f, a, b) => {
            let c1 = with_hints(c.hints, c.formula(*f))->Ok_0.1;
            let c2 = c1.term(*a)->Ok_0.1;
            FieldTerm::Choice(
                Box::new(cond_of(c, *f)),
                Box::new(field_of(c1, *a)),
                Box::new(field_of(c2, *b)),
            )
        },
    }
}

/// The terms over the field that are written for the terms from `i` on, behind `acc`.
pub open spec fn fields_of(c: Cvc5V, xs: Seq<Term>, i: int, acc: Seq<FieldTerm>) -> Seq<FieldTerm>
    decreases xs, xs.len() - i,
{
    if i < 0 || i >= xs.len() {
        acc
    } else {
        fields_of(c.term(xs[i])->Ok_0.1, xs, i + 1, acc.push(field_of(c, xs[i])))
    }
}

/// The condition that is written for a range.
pub open spec fn range_cond(c: Cvc5V, t: Term, start: Option<int>, bits: usize) -> FieldCond
    decreases t, 1int,
{
    decomposition(
        shifted(field_of(c, t), start),
        c.term(t)->Ok_0.1.fresh as int,
        bits as int,
    )
}

/// The condition that is written for an upper bound.
pub open spec fn between_cond(c: Cvc5V, t: Term, bound: int, bits: usize) -> FieldCond
    decreases t, 1int,
{
    let id = c.term(t)->Ok_0.1.fresh as int;
    FieldCond::All(
        seq![
            decomposition(shifted(field_of(c, t), Some(0)), id, bits as int),
            decomposition(below(field_of(c, t), bound), id + 1, bits as int),
        ],
    )
}

/// The hint for a term.
pub open spec fn hint_for(c: Cvc5V, t: Term) -> Option<usize> {
    let (s, c1) = c.term(t)->Ok_0;
    if c1.hints.contains_key(s) {
        Some(c1.hints[s])
    } else {
        None
    }
}

/// The condition that is written for a comparison with a constant.
pub open spec fn order_cond(c: Cvc5V, op: Order, t: Term, k: int) -> FieldCond
    decreases t, 2int,
{
    let c1 = c.term(t)->Ok_0.1;
    match order_plan(op, k, hint_for(c, t)) {
        OrderPlan::Always => FieldCond::Truth(true),
        OrderPlan::Never => FieldCond::Truth(false),
        OrderPlan::Within { start, bits } => range_cond(c1, t, Some(start as int), bits),
        OrderPlan::Between { bound, bits } => between_cond(c1, t, bound as int, bits),
    }
}

/// The condition over the field that is written for a formula.
pub open spec fn cond_of(c: Cvc5V, f: Formula) -> FieldCond
    decreases f, 0int,
{
    match f {
        Formula::Bool(b) => FieldCond::Truth(b),
        Formula::Not(a) => FieldCond::Not(Box::new(cond_of(c, *a))),
        Formula::And(fs) => FieldCond::All(conds_of(c, fs, 0, seq![])),
        Formula::Or(fs) => FieldCond::Any(choices_of(c, fs, 0, seq![])),
        Formula::Eq(a, b) => FieldCond::Same(field_of(c, a), field_of(c.term(a)->Ok_0.1, b)),
        Formula::Ne(a, b) => FieldCond::Not(
            Box::new(FieldCond::Same(field_of(c, a), field_of(c.term(a)->Ok_0.1, b))),
        ),
        Formula::Le(a, b) => if plain_const(b) is Some {
            order_cond(c, Order::Le, a, plain_const(b)->0)
        } else {
            order_cond(c, Order::Ge, b, plain_const(a)->0)
        },
        Formula::Lt(_, _) => FieldCond::Truth(false),
        Formula::Ge(a, b) => if plain_const(b) is Some {
            order_cond(c, Order::Ge, a, plain_const(b)->0)
        } else {
            order_cond(c, Order::Le, b, plain_const(a)->0)
        },
        Formula::Gt(a, b) => if plain_const(b) is Some {
            order_cond(c, Order::Gt, a, plain_const(b)->0)
        } else {
            order_cond(c, Order::Lt, b, plain_const(a)->0)
        },
        Formula::Range { value, bits, .. } => range_cond(c, value, None, bits->0),
    }
}

/// The conditions that are written for the formulas of a conjunction from `i` on, behind `acc`.
pub open spec fn conds_of(c: Cvc5V, fs: Seq<Formula>, i: int, acc: Seq<FieldCond>) -> Seq<FieldCond>
    decreases fs, fs.len() - i,
{
    if i < 0 || i >= fs.len() {
        acc
    } else {
        conds_of(c.formula(fs[i])->Ok_0.1, fs, i + 1, acc.push(cond_of(c, fs[i])))
    }
}

/// The conditions that are written for the alternatives from `i` on, behind `acc`.
pub open spec fn choices_of(
    c: Cvc5V,
    fs: Seq<Formula>,
    i: int,
    acc: Seq<FieldCond>,
) -> Seq<FieldCond>
    decreases fs, fs.len() - i,
{
    if i < 0 || i >= fs.len() {
        acc
    } else {
        choices_of(
            with_hints(c.hints, c.formula(fs[i]))->Ok_0.1,
            fs,
            i + 1,
            acc.push(cond_of(c, fs[i])),
        )
    }
}

/// The name of one of the terms.
pub proof fn lemma_names_at(xs: Seq<Term>, i: int)
    requires
        0 <= i < xs.len(),
        all_names_ok(xs),
    ensures
        names_ok(xs[i]),
    decreases xs.len(),
{
    if i < xs.len() - 1 {
        lemma_names_at(xs.drop_last(), i);
    }
}

/// The names of one of the formulas.
pub proof fn lemma_formula_names_at(fs: Seq<Formula>, i: int)
    requires
        0 <= i < fs.len(),
        formulas_names_ok(fs),
    ensures
        formula_names_ok(fs[i]),
    decreases fs.len(),
{
    if i < fs.len() - 1 {
        lemma_formula_names_at(fs.drop_last(), i);
    }
}

/// The text of a term is that of the term over the field.
pub proof fn term_text_is_field_text(c: Cvc5V, t: Term)
    requires
        c.term(t) is Ok,
    ensures
        c.term(t)->Ok_0.0 == field_text(field_of(c, t)),
        names_ok(t) ==> plain_term(field_of(c, t)),
    decreases t, 0int,
{
    match t {
        Term::Int(_) => {},
        Term::Var(_, _) => {},
        Term::Neg(a) => term_text_is_field_text(c, *a),
        Term::Add(xs) => lemma_sum_text(c, t, xs),
        Term::Mul(xs) => lemma_sum_text(c, t, xs),
        Term::Sub(a, b) => {
            term_text_is_field_text(c, *a);
            let c1 = c.term(*a)->Ok_0.1;
            term_text_is_field_text(c1, *b);
            lemma_difference_text(field_of(c, *a), field_of(c1, *b));
        },
        Term::Div(a, b) => {
            term_text_is_field_text(c, *a);
            let c1 = c.term(*a)->Ok_0.1;
            term_text_is_field_text(c1, *b);
            lemma_quotient_text(field_of(c, *a), field_of(c1, *b));
        },
        Term::Mod(a, _) => term_text_is_field_text(c, *a),
        Term::Ite(f, a, b) => {
            condition_text_is_field_text(c, *f);
            let c1 = with_hints(c.hints, c.formula(*f))->Ok_0.1;
            term_text_is_field_text(c1, *a);
            let c2 = c1.term(*a)->Ok_0.1;
            term_text_is_field_text(c2, *b);
        },
    }
}

proof fn lemma_sum_text(c: Cvc5V, t: Term, xs: Seq<Term>)
    requires
        c.term(t) is Ok,
        t == Term::Add(xs) || t == Term::Mul(xs),
    ensures
        c.term(t)->Ok_0.0 == field_text(field_of(c, t)),
        names_ok(t) ==> plain_term(field_of(c, t)),
    decreases xs, xs.len() + 1,
{
    assert(field_texts(seq![]) =~= seq![]);
    let ts = fields_of(c, xs, 0, seq![]);
    let sum = FieldTerm::Sum(ts);
    let product = FieldTerm::Product(ts);
    assert(field_of(c, Term::Add(xs)) == sum);
    assert(field_of(c, Term::Mul(xs)) == product);
    if xs.len() > 0 {
        lemma_list_text(c, xs, 0, seq![]);
        assert(field_text(sum) == gathered("ff.add"@, field_texts(ts)));
        assert(field_text(product) == gathered("ff.mul"@, field_texts(ts)));
    } else {
        assert(ts =~= seq![]);
    }
    assert(plain_terms(seq![]));
    assert(plain_term(sum) == plain_terms(ts));
    assert(plain_term(product) == plain_terms(ts));
}

proof fn lemma_list_text(c: Cvc5V, xs: Seq<Term>, i: int, acc: Seq<FieldTerm>)
    requires
        0 <= i <= xs.len(),
        c.terms(xs, i, field_texts(acc)) is Ok,
    ensures
        c.terms(xs, i, field_texts(acc))->Ok_0.0 == field_texts(fields_of(c, xs, i, acc)),
        fields_of(c, xs, i, acc).len() == acc.len() + xs.len() - i,
        all_names_ok(xs) && plain_terms(acc) ==> plain_terms(fields_of(c, xs, i, acc)),
    decreases xs, xs.len() - i,
{
    if i < xs.len() {
        term_text_is_field_text(c, xs[i]);
        if all_names_ok(xs) {
            lemma_names_at(xs, i);
        }
        let c1 = c.term(xs[i])->Ok_0.1;
        let next = acc.push(field_of(c, xs[i]));
        assert(next.drop_last() =~= acc);
        lemma_list_text(c1, xs, i + 1, next);
    }
}

proof fn lemma_range_text(c: Cvc5V, t: Term, start: Option<int>, bits: usize)
    requires
        c.range(t, start, bits) is Ok,
    ensures
        c.range(t, start, bits)->Ok_0.0 == field_cond_text(range_cond(c, t, start, bits)),
        names_ok(t) ==> plain_cond(range_cond(c, t, start, bits)),
    decreases t, 1int,
{
    let any = |name: Seq<char>| 0int;
    term_text_is_field_text(c, t);
    let c1 = c.term(t)->Ok_0.1;
    let x = field_of(c, t);
    lemma_shifted(x, start, 0, any, 1);
    lemma_decomposed_text(c1, shifted(x, start), bits);
}

proof fn lemma_between_text(c: Cvc5V, t: Term, bound: int, bits: usize)
    requires
        c.between(t, bound, bits) is Ok,
    ensures
        c.between(t, bound, bits)->Ok_0.0 == field_cond_text(between_cond(c, t, bound, bits)),
        names_ok(t) ==> plain_cond(between_cond(c, t, bound, bits)),
    decreases t, 1int,
{
    let any = |name: Seq<char>| 0int;
    term_text_is_field_text(c, t);
    let (s, c1) = c.term(t)->Ok_0;
    let x = field_of(c, t);
    lemma_shifted(x, Some(0), 0, any, 1);
    lemma_below(x, bound, 0, any, 1);
    lemma_decomposed_text(c1, shifted(x, Some(0)), bits);
    lemma_decomposed(c1, offset(s, 0), bits);
    let c2 = c1.decomposed(offset(s, 0), bits)->Ok_0.1;
    lemma_decomposed_text(c2, below(x, bound), bits);
    let id = c1.fresh as int;
    let low = decomposition(shifted(x, Some(0)), id, bits as int);
    let high = decomposition(below(x, bound), id + 1, bits as int);
    lemma_both_text(low, high);
}

proof fn lemma_order_text(c: Cvc5V, op: Order, t: Term, k: int)
    requires
        c.order(op, t, k) is Ok,
    ensures
        c.order(op, t, k)->Ok_0.0 == field_cond_text(order_cond(c, op, t, k)),
        names_ok(t) ==> plain_cond(order_cond(c, op, t, k)),
    decreases t, 2int,
{
    let c1 = c.term(t)->Ok_0.1;
    match order_plan(op, k, hint_for(c, t)) {
        OrderPlan::Within { start, bits } => lemma_range_text(c1, t, Some(start as int), bits),
        OrderPlan::Between { bound, bits } => lemma_between_text(c1, t, bound as int, bits),
        _ => {},
    }
}

/// A comparison with a constant, other than a strict upper bound.
pub open spec fn is_comparison(f: Formula) -> bool {
    match f {
        Formula::Le(a, b) | Formula::Ge(a, b) | Formula::Gt(a, b) => plain_const(b) is Some
            || plain_const(a) is Some,
        _ => false,
    }
}

/// The term that a comparison with a constant bounds.
pub open spec fn bounded_term(f: Formula) -> Term {
    match f {
        Formula::Le(a, b) | Formula::Ge(a, b) | Formula::Gt(a, b) => if plain_const(b) is Some {
            a
        } else {
            b
        },
        _ => Term::Int(0),
    }
}

/// How a comparison with a constant bounds its term.
pub open spec fn bounding_order(f: Formula) -> Order {
    match f {
        Formula::Le(_, b) => if plain_const(b) is Some {
            Order::Le
        } else {
            Order::Ge
        },
        Formula::Ge(_, b) => if plain_const(b) is Some {
            Order::Ge
        } else {
            Order::Le
        },
        Formula::Gt(_, b) => if plain_const(b) is Some {
            Order::Gt
        } else {
            Order::Lt
        },
        _ => Order::Lt,
    }
}

/// The constant of a comparison.
pub open spec fn bounding_const(f: Formula) -> int {
    match f {
        Formula::Le(a, b) | Formula::Ge(a, b) | Formula::Gt(a, b) => if plain_const(b) is Some {
            plain_const(b)->0
        } else {
            plain_const(a)->0
        },
        _ => 0,
    }
}

/// What is written for a comparison.
pub proof fn lemma_comparison(c: Cvc5V, f: Formula)
    requires
        c.formula(f) is Ok,
        f is Le || f is Ge || f is Gt,
    ensures
        is_comparison(f),
        c.formula(f) == c.order(bounding_order(f), bounded_term(f), bounding_const(f)),
        cond_of(c, f) == order_cond(c, bounding_order(f), bounded_term(f), bounding_const(f)),
        bounding_const(f) >= 0,
{
}

/// What a comparison says.
pub proof fn lemma_comparison_holds(f: Formula, env: spec_fn(Seq<char>) -> int)
    requires
        is_comparison(f),
    ensures
        holds(f, env) == compares(
            bounding_order(f),
            value(bounded_term(f), env),
            bounding_const(f),
        ),
{
    match f {
        Formula::Le(a, b) | Formula::Ge(a, b) | Formula::Gt(a, b) => {
            if plain_const(b) is Some {
                assert(value(b, env) == plain_const(b)->0);
            } else {
                assert(value(a, env) == plain_const(a)->0);
            }
        },
        _ => {},
    }
}

/// The text of a formula is that of the condition over the field.
pub proof fn condition_text_is_field_text(c: Cvc5V, f: Formula)
    requires
        c.formula(f) is Ok,
    ensures
        c.formula(f)->Ok_0.0 == field_cond_text(cond_of(c, f)),
        formula_names_ok(f) ==> plain_cond(cond_of(c, f)),
    decreases f, 5int,
{
    match f {
        Formula::Bool(_) => {},
        Formula::Not(a) => condition_text_is_field_text(c, *a),
        Formula::And(_) => lemma_and_text(c, f),
        Formula::Or(_) => lemma_or_text(c, f),
        Formula::Eq(_, _) => lemma_equality_text(c, f),
        Formula::Ne(_, _) => lemma_equality_text(c, f),
        _ => lemma_bound_text(c, f),
    }
}

proof fn lemma_and_text(c: Cvc5V, f: Formula)
    requires
        c.formula(f) is Ok,
        f is And,
    ensures
        c.formula(f)->Ok_0.0 == field_cond_text(cond_of(c, f)),
        formula_names_ok(f) ==> plain_cond(cond_of(c, f)),
    decreases f, 4int,
{
    match f {
        Formula::And(fs) => {
            assert(field_cond_texts(seq![]) =~= seq![]);
            let cs = conds_of(c, fs, 0, seq![]);
            let cond = FieldCond::All(cs);
            assert(cond_of(c, f) == cond);
            if fs.len() > 0 {
                lemma_conds_text(c, fs, 0, seq![]);
                assert(field_cond_text(cond) == gathered("and"@, field_cond_texts(cs)));
            } else {
                assert(cs =~= seq![]);
            }
            assert(plain_conds(seq![]));
            assert(plain_cond(cond) == plain_conds(cs));
        },
        _ => {},
    }
}

proof fn lemma_or_text(c: Cvc5V, f: Formula)
    requires
        c.formula(f) is Ok,
        f is Or,
    ensures
        c.formula(f)->Ok_0.0 == field_cond_text(cond_of(c, f)),
        formula_names_ok(f) ==> plain_cond(cond_of(c, f)),
    decreases f, 4int,
{
    match f {
        Formula::Or(fs) => {
            assert(field_cond_texts(seq![]) =~= seq![]);
            let cs = choices_of(c, fs, 0, seq![]);
            let cond = FieldCond::Any(cs);
            assert(cond_of(c, f) == cond);
            if fs.len() > 0 {
                lemma_choices_text(c, fs, 0, seq![]);
                assert(field_cond_text(cond) == gathered("or"@, field_cond_texts(cs)));
            } else {
                assert(cs =~= seq![]);
            }
            assert(plain_conds(seq![]));
            assert(plain_cond(cond) == plain_conds(cs));
        },
        _ => {},
    }
}

proof fn lemma_equality_text(c: Cvc5V, f: Formula)
    requires
        c.formula(f) is Ok,
        f is Eq || f is Ne,
    ensures
        c.formula(f)->Ok_0.0 == field_cond_text(cond_of(c, f)),
        formula_names_ok(f) ==> plain_cond(cond_of(c, f)),
    decreases f, 4int,
{
    match f {
        Formula::Eq(a, b) | Formula::Ne(a, b) => {
            term_text_is_field_text(c, a);
            let c1 = c.term(a)->Ok_0.1;
            term_text_is_field_text(c1, b);
            lemma_same_text(field_of(c, a), field_of(c1, b));
        },
        _ => {},
    }
}

proof fn lemma_bound_text(c: Cvc5V, f: Formula)
    requires
        c.formula(f) is Ok,
        f is Le || f is Lt || f is Ge || f is Gt || f is Range,
    ensures
        c.formula(f)->Ok_0.0 == field_cond_text(cond_of(c, f)),
        formula_names_ok(f) ==> plain_cond(cond_of(c, f)),
    decreases f, 4int,
{
    match f {
        Formula::Le(a, b) | Formula::Ge(a, b) | Formula::Gt(a, b) => {
            lemma_comparison(c, f);
            if plain_const(b) is Some {
                lemma_order_text(c, bounding_order(f), a, bounding_const(f));
            } else {
                lemma_order_text(c, bounding_order(f), b, bounding_const(f));
            }
        },
        Formula::Range { value: x, bits, .. } => lemma_range_text(c, x, None, bits->0),
        _ => {},
    }
}

proof fn lemma_conds_text(c: Cvc5V, fs: Seq<Formula>, i: int, acc: Seq<FieldCond>)
    requires
        0 <= i <= fs.len(),
        c.formulas(fs, i, field_cond_texts(acc)) is Ok,
    ensures
        c.formulas(fs, i, field_cond_texts(acc))->Ok_0.0 == field_cond_texts(
            conds_of(c, fs, i, acc),
        ),
        conds_of(c, fs, i, acc).len() == acc.len() + fs.len() - i,
        formulas_names_ok(fs) && plain_conds(acc) ==> plain_conds(conds_of(c, fs, i, acc)),
    decreases fs, fs.len() - i,
{
    if i < fs.len() {
        condition_text_is_field_text(c, fs[i]);
        if formulas_names_ok(fs) {
            lemma_formula_names_at(fs, i);
        }
        let c1 = c.formula(fs[i])->Ok_0.1;
        let next = acc.push(cond_of(c, fs[i]));
        assert(next.drop_last() =~= acc);
        lemma_conds_text(c1, fs, i + 1, next);
    }
}

proof fn lemma_choices_text(c: Cvc5V, fs: Seq<Formula>, i: int, acc: Seq<FieldCond>)
    requires
        0 <= i <= fs.len(),
        c.alternatives(fs, i, field_cond_texts(acc)) is Ok,
    ensures
        c.alternatives(fs, i, field_cond_texts(acc))->Ok_0.0 == field_cond_texts(
            choices_of(c, fs, i, acc),
        ),
        choices_of(c, fs, i, acc).len() == acc.len() + fs.len() - i,
        formulas_names_ok(fs) && plain_conds(acc) ==> plain_conds(choices_of(c, fs, i, acc)),
    decreases fs, fs.len() - i,
{
    if i < fs.len() {
        condition_text_is_field_text(c, fs[i]);
        if formulas_names_ok(fs) {
            lemma_formula_names_at(fs, i);
        }
        let c1 = with_hints(c.hints, c.formula(fs[i]))->Ok_0.1;
        let next = acc.push(cond_of(c, fs[i]));
        assert(next.drop_last() =~= acc);
        lemma_choices_text(c1, fs, i + 1, next);
    }
}

} // verus!
