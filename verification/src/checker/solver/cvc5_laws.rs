//! What a whole script for cvc5 says of the formula that was asserted.

use vstd::arithmetic::div_mod::{lemma_mod_bound, lemma_small_mod};
use vstd::arithmetic::power2::{lemma2_to64, pow2};
use vstd::prelude::*;
use crate::checker::solver::bound_laws::{
    bit_cond, has_digits, lemma_bit_cond, lemma_bit_name_plain, lemma_bit_names, names_bit,
};
use crate::checker::solver::cvc5::{
    bit_condition, bit_name, empty_cvc5, gathered, offset, order_plan, plain_const, remainder_to,
    scaled, with_hints, Cvc5V, Order, OrderPlan,
};
use crate::checker::solver::field::{
    field_cond_text, field_holds, is_plain, plain_cond, FieldCond,
};
use crate::checker::solver::field_laws::{
    all_names_ok, bounding_const, bounding_order, cond_of, condition_text_is_field_text,
    formula_names_ok, formulas_names_ok, hint_for, lemma_comparison, lemma_formula_names_at,
    lemma_names_at, names_ok,
};
use crate::checker::solver::meaning_laws::{
    agrees, all_positive, all_ready, bits_in, extends, is_large, is_positive, lemma_formula_at,
    lemma_formula_hints, lemma_formula_means, lemma_positive_means, lemma_ready, lemma_term_at,
    pick, ready, term_ready, terms_ready,
};
use crate::checker::solver::order_laws::bits_of;
use crate::checker::solver::reading_laws::text_tells_truth;
use crate::checker::solver::script_laws::{
    asserting_keeps_script, is_truth, keeps, lemma_asserting_from, lemma_formula, lemma_keeps_chain,
    lemma_writes_keeps, truth_values_are_constrained, writes,
};
use crate::checker::symbolic::expr::{Formula, SymType, Term, FIELD_MODULUS};
use crate::checker::symbolic::meaning::{holds, lemma_all_index};
use crate::name_map::{lemma_set_pair, map_of};

verus! {

/// A text holds: it is that of a condition over the field that holds.
pub open spec fn text_holds(s: Seq<char>, v: spec_fn(Seq<char>) -> int, p: int) -> bool {
    exists|cond: FieldCond| #[trigger]
        field_cond_text(cond) == s && plain_cond(cond) && field_holds(cond, v, p)
}

/// Every condition of a script holds.
pub open spec fn script_holds(c: Cvc5V, v: spec_fn(Seq<char>) -> int) -> bool {
    forall|s: Seq<char>| #[trigger] c.asserts.contains(s) ==> text_holds(s, v, c.modulus)
}

/// Every bit is zero or one.
pub open spec fn chooses_bits(v: spec_fn(Seq<char>) -> int) -> bool {
    forall|name: Seq<char>| #[trigger] names_bit(name) ==> 0 <= v(name) <= 1
}

/// The truth values of a script have plain names, and are zero or one.
pub open spec fn truths_valued(c: Cvc5V, v: spec_fn(Seq<char>) -> int) -> bool {
    forall|name: Seq<char>| #[trigger]
        is_truth(c, name) ==> is_plain(name) && 0 <= v(name) <= 1
}

proof fn lemma_ensured_valued(
    c: Cvc5V,
    name: Seq<char>,
    sort: SymType,
    v: spec_fn(Seq<char>) -> int,
)
    requires
        c.ensured(name, sort) is Ok,
        truths_valued(c, v),
        sort == SymType::Bool ==> is_plain(name) && 0 <= v(name) <= 1,
    ensures
        truths_valued(c.ensured(name, sort)->Ok_0, v),
{
    let d = c.ensured(name, sort)->Ok_0;
    if !map_of(c.vars).contains_key(name) {
        let as_sort = if sort == SymType::Bool {
            SymType::Bool
        } else {
            SymType::F
        };
        lemma_set_pair(c.vars, name, as_sort);
        assert forall|n: Seq<char>| #[trigger] is_truth(d, n) implies is_plain(n) && 0 <= v(n)
            <= 1 by {
            if n != name {
                assert(is_truth(c, n));
            }
        }
    }
}

proof fn lemma_bits_valued(
    c: Cvc5V,
    id: int,
    i: int,
    j: int,
    n: int,
    parts: Seq<Seq<char>>,
    v: spec_fn(Seq<char>) -> int,
)
    requires
        0 <= j <= n,
        c.bits_from(id, i, j, n, parts) is Ok,
        truths_valued(c, v),
        chooses_bits(v),
    ensures
        truths_valued(c.bits_from(id, i, j, n, parts)->Ok_0.1, v),
    decreases n - j,
{
    if j < n {
        let name = bit_name(id, i, j);
        assert(names_bit(name));
        lemma_bit_name_plain(id, i, j);
        lemma_ensured_valued(c, name, SymType::Bool, v);
        let c1 = c.ensured(name, SymType::Bool)->Ok_0;
        let next = parts.push(scaled(pow2(j as nat) as int, name));
        lemma_bits_valued(c1, id, i, j + 1, n, next, v);
    }
}

proof fn lemma_bytes_valued(
    c: Cvc5V,
    id: int,
    i: int,
    remaining: int,
    parts: Seq<Seq<char>>,
    v: spec_fn(Seq<char>) -> int,
)
    requires
        0 <= i,
        c.bytes_from(id, i, remaining, parts) is Ok,
        truths_valued(c, v),
        chooses_bits(v),
    ensures
        truths_valued(c.bytes_from(id, i, remaining, parts)->Ok_0.1, v),
    decreases remaining,
{
    if remaining > 0 {
        let n = if remaining < 8 {
            remaining
        } else {
            8
        };
        lemma_bits_valued(c, id, i, 0, n, seq![], v);
        let (bits, c1) = c.bits_from(id, i, 0, n, seq![])->Ok_0;
        let sum = gathered("ff.add"@, bits);
        let part = if i == 0 {
            sum
        } else {
            scaled(pow2((8 * i) as nat) as int, sum)
        };
        lemma_bytes_valued(c1, id, i + 1, remaining - n, parts.push(part), v);
    }
}

proof fn lemma_same_truths(c: Cvc5V, d: Cvc5V, v: spec_fn(Seq<char>) -> int)
    requires
        c.vars == d.vars,
        truths_valued(c, v),
    ensures
        truths_valued(d, v),
{
    assert forall|name: Seq<char>| #[trigger] is_truth(d, name) implies is_plain(name) && 0 <= v(
        name,
    ) <= 1 by {
        assert(is_truth(c, name));
    }
}

proof fn lemma_decomposed_valued(
    c: Cvc5V,
    target: Seq<char>,
    bits: usize,
    v: spec_fn(Seq<char>) -> int,
)
    requires
        c.decomposed(target, bits) is Ok,
        truths_valued(c, v),
        chooses_bits(v),
    ensures
        truths_valued(c.decomposed(target, bits)->Ok_0.1, v),
{
    let c1 = Cvc5V {
        hints: c.hints.insert(target, bits),
        fresh: (c.fresh + 1) as usize,
        ..c
    };
    lemma_same_truths(c, c1, v);
    lemma_bytes_valued(c1, c.fresh as int, 0, bits as int, seq![], v);
}

proof fn lemma_term_valued(
    c: Cvc5V,
    t: Term,
    v: spec_fn(Seq<char>) -> int,
    env: spec_fn(Seq<char>) -> int,
    p: int,
)
    requires
        c.term(t) is Ok,
        truths_valued(c, v),
        chooses_bits(v),
        extends(v, env),
        names_ok(t),
        term_ready(t, env, p, true),
    ensures
        truths_valued(c.term(t)->Ok_0.1, v),
    decreases t, 0int,
{
    match t {
        Term::Int(_) => {},
        Term::Var(name, sort) => {
            assert(v(name) == env(name));
            lemma_ensured_valued(c, name, sort, v);
        },
        Term::Neg(a) => lemma_term_valued(c, *a, v, env, p),
        Term::Add(xs) | Term::Mul(xs) => {
            if xs.len() > 0 {
                lemma_terms_valued(c, xs, 0, seq![], v, env, p);
            }
        },
        Term::Sub(a, b) | Term::Div(a, b) => {
            lemma_term_valued(c, *a, v, env, p);
            lemma_term_valued(c.term(*a)->Ok_0.1, *b, v, env, p);
        },
        Term::Mod(a, _) => lemma_term_valued(c, *a, v, env, p),
        Term::Ite(f, a, b) => {
            lemma_formula_valued(c, *f, v, env, p);
            let c1 = with_hints(c.hints, c.formula(*f))->Ok_0.1;
            lemma_same_truths(c.formula(*f)->Ok_0.1, c1, v);
            lemma_term_valued(c1, *a, v, env, p);
            lemma_term_valued(c1.term(*a)->Ok_0.1, *b, v, env, p);
        },
    }
}

proof fn lemma_terms_valued(
    c: Cvc5V,
    xs: Seq<Term>,
    i: int,
    parts: Seq<Seq<char>>,
    v: spec_fn(Seq<char>) -> int,
    env: spec_fn(Seq<char>) -> int,
    p: int,
)
    requires
        0 <= i,
        c.terms(xs, i, parts) is Ok,
        truths_valued(c, v),
        chooses_bits(v),
        extends(v, env),
        all_names_ok(xs),
        terms_ready(xs, env, p, true),
    ensures
        truths_valued(c.terms(xs, i, parts)->Ok_0.1, v),
    decreases xs, xs.len() - i,
{
    if i < xs.len() {
        lemma_names_at(xs, i);
        lemma_term_at(xs, i, env, p, true);
        lemma_term_valued(c, xs[i], v, env, p);
        let (s, c1) = c.term(xs[i])->Ok_0;
        lemma_terms_valued(c1, xs, i + 1, parts.push(s), v, env, p);
    }
}

proof fn lemma_range_valued(
    c: Cvc5V,
    t: Term,
    start: Option<int>,
    bits: usize,
    v: spec_fn(Seq<char>) -> int,
    env: spec_fn(Seq<char>) -> int,
    p: int,
)
    requires
        c.range(t, start, bits) is Ok,
        truths_valued(c, v),
        chooses_bits(v),
        extends(v, env),
        names_ok(t),
        term_ready(t, env, p, true),
    ensures
        truths_valued(c.range(t, start, bits)->Ok_0.1, v),
    decreases t, 1int,
{
    lemma_term_valued(c, t, v, env, p);
    let (s, c1) = c.term(t)->Ok_0;
    let target = match start {
        None => s,
        Some(k) => offset(s, k),
    };
    lemma_decomposed_valued(c1, target, bits, v);
}

proof fn lemma_between_valued(
    c: Cvc5V,
    t: Term,
    bound: int,
    bits: usize,
    v: spec_fn(Seq<char>) -> int,
    env: spec_fn(Seq<char>) -> int,
    p: int,
)
    requires
        c.between(t, bound, bits) is Ok,
        truths_valued(c, v),
        chooses_bits(v),
        extends(v, env),
        names_ok(t),
        term_ready(t, env, p, true),
    ensures
        truths_valued(c.between(t, bound, bits)->Ok_0.1, v),
    decreases t, 1int,
{
    lemma_term_valued(c, t, v, env, p);
    let (s, c1) = c.term(t)->Ok_0;
    lemma_decomposed_valued(c1, offset(s, 0), bits, v);
    let c2 = c1.decomposed(offset(s, 0), bits)->Ok_0.1;
    lemma_decomposed_valued(c2, remainder_to(bound, s), bits, v);
}

proof fn lemma_order_valued(
    c: Cvc5V,
    op: Order,
    t: Term,
    k: int,
    v: spec_fn(Seq<char>) -> int,
    env: spec_fn(Seq<char>) -> int,
    p: int,
)
    requires
        c.order(op, t, k) is Ok,
        truths_valued(c, v),
        chooses_bits(v),
        extends(v, env),
        names_ok(t),
        term_ready(t, env, p, true),
    ensures
        truths_valued(c.order(op, t, k)->Ok_0.1, v),
    decreases t, 2int,
{
    lemma_term_valued(c, t, v, env, p);
    let c1 = c.term(t)->Ok_0.1;
    match order_plan(op, k, hint_for(c, t)) {
        OrderPlan::Within { start, bits } => {
            lemma_range_valued(c1, t, Some(start as int), bits, v, env, p);
        },
        OrderPlan::Between { bound, bits } => {
            lemma_between_valued(c1, t, bound as int, bits, v, env, p);
        },
        _ => {},
    }
}

proof fn lemma_formula_valued(
    c: Cvc5V,
    f: Formula,
    v: spec_fn(Seq<char>) -> int,
    env: spec_fn(Seq<char>) -> int,
    p: int,
)
    requires
        c.formula(f) is Ok,
        truths_valued(c, v),
        chooses_bits(v),
        extends(v, env),
        formula_names_ok(f),
        ready(f, env, p, true),
    ensures
        truths_valued(c.formula(f)->Ok_0.1, v),
    decreases f, 0int,
{
    match f {
        Formula::Bool(_) => {},
        Formula::Not(a) => {
            lemma_formula_valued(c, *a, v, env, p);
            lemma_same_truths(c.formula(*a)->Ok_0.1, c.formula(f)->Ok_0.1, v);
        },
        Formula::And(fs) => {
            if fs.len() > 0 {
                lemma_formulas_valued(c, fs, 0, seq![], v, env, p);
            }
        },
        Formula::Or(fs) => {
            if fs.len() > 0 {
                lemma_choices_valued(c, fs, 0, seq![], v, env, p);
            }
        },
        Formula::Eq(a, b) | Formula::Ne(a, b) => {
            lemma_term_valued(c, a, v, env, p);
            lemma_term_valued(c.term(a)->Ok_0.1, b, v, env, p);
        },
        Formula::Le(a, b) | Formula::Ge(a, b) | Formula::Gt(a, b) => {
            lemma_comparison(c, f);
            if plain_const(b) is Some {
                lemma_order_valued(c, bounding_order(f), a, bounding_const(f), v, env, p);
            } else {
                lemma_order_valued(c, bounding_order(f), b, bounding_const(f), v, env, p);
            }
        },
        Formula::Lt(_, _) => {},
        Formula::Range { value: x, bits, .. } => {
            lemma_range_valued(c, x, None, bits->0, v, env, p);
        },
    }
}

proof fn lemma_formulas_valued(
    c: Cvc5V,
    fs: Seq<Formula>,
    i: int,
    parts: Seq<Seq<char>>,
    v: spec_fn(Seq<char>) -> int,
    env: spec_fn(Seq<char>) -> int,
    p: int,
)
    requires
        0 <= i,
        c.formulas(fs, i, parts) is Ok,
        truths_valued(c, v),
        chooses_bits(v),
        extends(v, env),
        formulas_names_ok(fs),
        all_ready(fs, env, p, true),
    ensures
        truths_valued(c.formulas(fs, i, parts)->Ok_0.1, v),
    decreases fs, fs.len() - i,
{
    if i < fs.len() {
        lemma_formula_names_at(fs, i);
        lemma_formula_at(fs, i, env, p, true);
        lemma_formula_valued(c, fs[i], v, env, p);
        let (s, c1) = c.formula(fs[i])->Ok_0;
        lemma_formulas_valued(c1, fs, i + 1, parts.push(s), v, env, p);
    }
}

proof fn lemma_choices_valued(
    c: Cvc5V,
    fs: Seq<Formula>,
    i: int,
    parts: Seq<Seq<char>>,
    v: spec_fn(Seq<char>) -> int,
    env: spec_fn(Seq<char>) -> int,
    p: int,
)
    requires
        0 <= i,
        c.alternatives(fs, i, parts) is Ok,
        truths_valued(c, v),
        chooses_bits(v),
        extends(v, env),
        formulas_names_ok(fs),
        all_ready(fs, env, p, true),
    ensures
        truths_valued(c.alternatives(fs, i, parts)->Ok_0.1, v),
    decreases fs, fs.len() - i,
{
    if i < fs.len() {
        lemma_formula_names_at(fs, i);
        lemma_formula_at(fs, i, env, p, true);
        lemma_formula_valued(c, fs[i], v, env, p);
        let (s, c1) = with_hints(c.hints, c.formula(fs[i]))->Ok_0;
        lemma_same_truths(c.formula(fs[i])->Ok_0.1, c1, v);
        lemma_choices_valued(c1, fs, i + 1, parts.push(s), v, env, p);
    }
}

/// The number that decomposition `id`, written while a formula is asserted, decomposes.
pub open spec fn pick_asserting(
    c: Cvc5V,
    f: Formula,
    env: spec_fn(Seq<char>) -> int,
    id: int,
) -> int
    decreases f, 0int,
{
    match f {
        Formula::And(fs) => picks_asserting(c, fs, 0, env, id),
        _ => pick(c, f, env, id),
    }
}

/// The number that decomposition `id`, written while the formulas from `i` on are asserted,
/// decomposes.
pub open spec fn picks_asserting(
    c: Cvc5V,
    fs: Seq<Formula>,
    i: int,
    env: spec_fn(Seq<char>) -> int,
    id: int,
) -> int
    decreases fs, fs.len() - i,
{
    if i < 0 || i >= fs.len() {
        0
    } else {
        let c1 = c.asserting(fs[i])->Ok_0;
        if id < c1.fresh {
            pick_asserting(c, fs[i], env, id)
        } else {
            picks_asserting(c1, fs, i + 1, env, id)
        }
    }
}

/// What is needed of a script, an assignment and the values that it extends.
spec fn fits(c: Cvc5V, v: spec_fn(Seq<char>) -> int, env: spec_fn(Seq<char>) -> int) -> bool {
    &&& agrees(c, v, env)
    &&& truths_valued(c, v)
    &&& script_holds(c, v)
}

proof fn lemma_all_bits_in(c: Cvc5V, v: spec_fn(Seq<char>) -> int)
    requires
        chooses_bits(v),
    ensures
        bits_in(c, v),
{
}

/// What is written for a formula adds only conditions that hold.
proof fn lemma_written_holds(c: Cvc5V, d: Cvc5V, v: spec_fn(Seq<char>) -> int)
    requires
        is_large(c.modulus),
        writes(c, d),
        script_holds(c, v),
        truths_valued(d, v),
    ensures
        script_holds(d, v),
{
    lemma2_to64();
    lemma_writes_keeps(c, d);
    let p = c.modulus;
    assert forall|s: Seq<char>| #[trigger] d.asserts.contains(s) implies text_holds(s, v, p) by {
        reveal(writes);
        if !c.asserts.contains(s) {
            let name = choose|name: Seq<char>| #[trigger]
                is_truth(d, name) && s == bit_condition(name);
            lemma_bit_cond(name, v, p);
            lemma_small_mod(v(name) as nat, p as nat);
            assert(field_cond_text(bit_cond(name)) == s);
        }
    }
}

proof fn lemma_asserting_holds(
    c: Cvc5V,
    f: Formula,
    v: spec_fn(Seq<char>) -> int,
    env: spec_fn(Seq<char>) -> int,
)
    requires
        c.asserting(f) is Ok,
        fits(c, v, env),
        chooses_bits(v),
        formula_names_ok(f),
        ready(f, env, c.modulus, true),
        holds(f, env),
        forall|id: int|
            c.fresh <= id < c.asserting(f)->Ok_0.fresh ==> has_digits(
                v,
                id,
                #[trigger] pick_asserting(c, f, env, id),
            ),
    ensures
        fits(c.asserting(f)->Ok_0, v, env),
    decreases f, 0int,
{
    match f {
        Formula::And(fs) => {
            lemma_all_index(fs, env);
            assert forall|id: int| c.fresh <= id < c.asserting_from(fs, 0)->Ok_0.fresh implies
                has_digits(v, id, #[trigger] picks_asserting(c, fs, 0, env, id)) by {
                assert(pick_asserting(c, f, env, id) == picks_asserting(c, fs, 0, env, id));
            }
            lemma_asserting_list_holds(c, fs, 0, v, env);
        },
        _ => {
            let (s, c1) = c.formula(f)->Ok_0;
            let d = c.asserting(f)->Ok_0;
            lemma_formula(c, f);
            lemma_writes_keeps(c, c1);
            lemma_all_bits_in(c1, v);
            assert forall|id: int| c.fresh <= id < c1.fresh implies has_digits(
                v,
                id,
                #[trigger] pick(c, f, env, id),
            ) by {
                assert(pick_asserting(c, f, env, id) == pick(c, f, env, id));
            }
            lemma_formula_means(c, f, v, env, true);
            lemma_formula_hints(c, f, v);
            lemma_formula_valued(c, f, v, env, c.modulus);
            lemma_same_truths(c1, d, v);
            lemma_written_holds(c, c1, v);
            condition_text_is_field_text(c, f);
            assert forall|a: Seq<char>| #[trigger] d.asserts.contains(a) implies text_holds(
                a,
                v,
                d.modulus,
            ) by {
                let i = choose|i: int| 0 <= i < d.asserts.len() && d.asserts[i] == a;
                if i < c1.asserts.len() {
                    assert(c1.asserts[i] == a);
                    assert(c1.asserts.contains(a));
                } else {
                    assert(field_cond_text(cond_of(c, f)) == a);
                }
            }
        },
    }
}

proof fn lemma_asserting_list_holds(
    c: Cvc5V,
    fs: Seq<Formula>,
    i: int,
    v: spec_fn(Seq<char>) -> int,
    env: spec_fn(Seq<char>) -> int,
)
    requires
        0 <= i,
        c.asserting_from(fs, i) is Ok,
        fits(c, v, env),
        chooses_bits(v),
        formulas_names_ok(fs),
        all_ready(fs, env, c.modulus, true),
        forall|j: int| 0 <= j < fs.len() ==> holds(#[trigger] fs[j], env),
        forall|id: int|
            c.fresh <= id < c.asserting_from(fs, i)->Ok_0.fresh ==> has_digits(
                v,
                id,
                #[trigger] picks_asserting(c, fs, i, env, id),
            ),
    ensures
        fits(c.asserting_from(fs, i)->Ok_0, v, env),
    decreases fs, fs.len() - i,
{
    if i < fs.len() {
        let f = fs[i];
        let c1 = c.asserting(f)->Ok_0;
        let d = c.asserting_from(fs, i)->Ok_0;
        assert(d == c1.asserting_from(fs, i + 1)->Ok_0);
        asserting_keeps_script(c, f);
        lemma_asserting_from(c1, fs, i + 1);
        assert(c.fresh <= c1.fresh && c1.fresh <= d.fresh && c1.modulus == c.modulus) by {
            reveal(keeps);
        }
        lemma_formula_names_at(fs, i);
        lemma_formula_at(fs, i, env, c.modulus, true);
        assert forall|id: int| c.fresh <= id < c1.fresh implies has_digits(
            v,
            id,
            #[trigger] pick_asserting(c, f, env, id),
        ) by {
            assert(picks_asserting(c, fs, i, env, id) == pick_asserting(c, f, env, id));
        }
        lemma_asserting_holds(c, f, v, env);
        assert forall|id: int| c1.fresh <= id < d.fresh implies has_digits(
            v,
            id,
            #[trigger] picks_asserting(c1, fs, i + 1, env, id),
        ) by {
            assert(picks_asserting(c, fs, i, env, id) == picks_asserting(c1, fs, i + 1, env, id));
        }
        lemma_asserting_list_holds(c1, fs, i + 1, v, env);
    }
}

/// The name of a bit of the first three bytes of a decomposition.
spec fn is_bit_of(name: Seq<char>, id: int, i: int, j: int) -> bool {
    0 <= id && 0 <= i < 3 && 0 <= j < 8 && name == bit_name(id, i, j)
}

/// The assignment that extends `env` by the digits of the numbers that are decomposed.
spec fn with_digits(
    env: spec_fn(Seq<char>) -> int,
    numbers: spec_fn(int) -> int,
) -> spec_fn(Seq<char>) -> int {
    |name: Seq<char>|
        if exists|id: int, i: int, j: int| is_bit_of(name, id, i, j) {
            let (id, i, j) = choose|id: int, i: int, j: int| is_bit_of(name, id, i, j);
            bits_of(numbers(id))(i, j)
        } else if names_bit(name) {
            0
        } else {
            env(name)
        }
}

proof fn lemma_with_digits(env: spec_fn(Seq<char>) -> int, numbers: spec_fn(int) -> int)
    ensures
        extends(with_digits(env, numbers), env),
        chooses_bits(with_digits(env, numbers)),
        forall|id: int|
            0 <= id ==> has_digits(with_digits(env, numbers), id, #[trigger] numbers(id)),
{
    let v = with_digits(env, numbers);
    assert forall|name: Seq<char>| !names_bit(name) implies #[trigger] v(name) == env(name) by {
        assert forall|id: int, i: int, j: int| !is_bit_of(name, id, i, j) by {
            if is_bit_of(name, id, i, j) {
                assert(name == bit_name(id, i, j));
            }
        }
    }
    assert forall|name: Seq<char>| #[trigger] names_bit(name) implies 0 <= v(name) <= 1 by {
        let (id, i, j) = choose|id: int, i: int, j: int| is_bit_of(name, id, i, j);
        if 0 <= i && 0 <= j {
            lemma_mod_bound(numbers(id) / (pow2((8 * i + j) as nat) as int), 2);
        }
    }
    assert forall|id: int| 0 <= id implies has_digits(v, id, #[trigger] numbers(id)) by {
        assert forall|i: int, j: int| 0 <= i < 3 && 0 <= j < 8 implies v(
            #[trigger] bit_name(id, i, j),
        ) == bits_of(numbers(id))(i, j) by {
            let name = bit_name(id, i, j);
            assert(is_bit_of(name, id, i, j));
            let (a, b, c) = choose|a: int, b: int, c: int| is_bit_of(name, a, b, c);
            lemma_bit_names(id, i, j, a, b, c);
        }
    }
}

/// Every assignment under which a formula holds, and what is compared is a field element within
/// reach, extends by a choice of the bits to one under which the whole script holds.
pub proof fn solution_extends_to_script(p: int, f: Formula, env: spec_fn(Seq<char>) -> int)
    requires
        is_large(p),
        empty_cvc5(p).asserting(f) is Ok,
        formula_names_ok(f),
        ready(f, env, p, true),
        holds(f, env),
    ensures
        exists|v: spec_fn(Seq<char>) -> int| #[trigger]
            extends(v, env) && chooses_bits(v) && script_holds(empty_cvc5(p).asserting(f)->Ok_0, v),
{
    let c = empty_cvc5(p);
    let numbers = |id: int| pick_asserting(c, f, env, id);
    let v = with_digits(env, numbers);
    lemma_with_digits(env, numbers);
    assert(map_of(c.vars) == Map::<Seq<char>, SymType>::empty());
    assert(truths_valued(c, v)) by {
        assert forall|name: Seq<char>| !(#[trigger] is_truth(c, name)) by {}
    }
    assert forall|id: int| c.fresh <= id < c.asserting(f)->Ok_0.fresh implies has_digits(
        v,
        id,
        #[trigger] pick_asserting(c, f, env, id),
    ) by {
        assert(numbers(id) == pick_asserting(c, f, env, id));
    }
    lemma_asserting_holds(c, f, v, env);
}

/// A condition that holds says the same whatever term it was written for.
proof fn lemma_text_holds(cond: FieldCond, v: spec_fn(Seq<char>) -> int, p: int)
    requires
        p > 0,
        plain_cond(cond),
        text_holds(field_cond_text(cond), v, p),
    ensures
        field_holds(cond, v, p),
{
    let other = choose|other: FieldCond| #[trigger]
        field_cond_text(other) == field_cond_text(cond) && plain_cond(other) && field_holds(
            other,
            v,
            p,
        );
    text_tells_truth(other, cond, v, p);
}

proof fn lemma_asserting_sound(
    c: Cvc5V,
    f: Formula,
    d: Cvc5V,
    v: spec_fn(Seq<char>) -> int,
    env: spec_fn(Seq<char>) -> int,
)
    requires
        c.asserting(f) is Ok,
        keeps(c.asserting(f)->Ok_0, d),
        bits_in(d, v),
        script_holds(d, v),
        agrees(c, v, env),
        formula_names_ok(f),
        ready(f, env, c.modulus, false),
        is_positive(f),
    ensures
        holds(f, env),
        agrees(c.asserting(f)->Ok_0, v, env),
    decreases f, 0int,
{
    match f {
        Formula::And(fs) => {
            lemma_all_index(fs, env);
            lemma_asserting_list_sound(c, fs, 0, d, v, env);
        },
        _ => {
            let (s, c1) = c.formula(f)->Ok_0;
            let e = c.asserting(f)->Ok_0;
            lemma2_to64();
            lemma_formula(c, f);
            lemma_writes_keeps(c, c1);
            condition_text_is_field_text(c, f);
            assert(e.asserts[c1.asserts.len() as int] == s);
            assert(e.asserts.contains(s));
            assert(d.asserts.contains(s) && d.modulus == c.modulus) by {
                reveal(keeps);
            }
            lemma_text_holds(cond_of(c, f), v, c.modulus);
            assert(bits_in(c1, v)) by {
                assert forall|name: Seq<char>| #[trigger]
                    is_truth(c1, name) && names_bit(name) implies 0 <= v(name) <= 1 by {
                    reveal(keeps);
                    assert(map_of(e.vars).contains_key(name));
                    assert(is_truth(d, name));
                }
            }
            lemma_formula_hints(c, f, v);
            lemma_positive_means(c, f, v, env);
        },
    }
}

proof fn lemma_asserting_list_sound(
    c: Cvc5V,
    fs: Seq<Formula>,
    i: int,
    d: Cvc5V,
    v: spec_fn(Seq<char>) -> int,
    env: spec_fn(Seq<char>) -> int,
)
    requires
        0 <= i,
        c.asserting_from(fs, i) is Ok,
        keeps(c.asserting_from(fs, i)->Ok_0, d),
        bits_in(d, v),
        script_holds(d, v),
        agrees(c, v, env),
        formulas_names_ok(fs),
        all_ready(fs, env, c.modulus, false),
        all_positive(fs),
    ensures
        forall|j: int| i <= j < fs.len() ==> holds(#[trigger] fs[j], env),
        agrees(c.asserting_from(fs, i)->Ok_0, v, env),
    decreases fs, fs.len() - i,
{
    if i < fs.len() {
        let f = fs[i];
        let c1 = c.asserting(f)->Ok_0;
        let e = c.asserting_from(fs, i)->Ok_0;
        assert(e == c1.asserting_from(fs, i + 1)->Ok_0);
        asserting_keeps_script(c, f);
        lemma_asserting_from(c1, fs, i + 1);
        lemma_keeps_chain(c1, e, d);
        assert(c1.modulus == c.modulus) by {
            reveal(keeps);
        }
        lemma_formula_names_at(fs, i);
        lemma_formula_at(fs, i, env, c.modulus, false);
        lemma_asserting_sound(c, f, d, v, env);
        lemma_asserting_list_sound(c1, fs, i + 1, d, v, env);
    }
}

/// The bits are field elements.
pub open spec fn bits_in_field(v: spec_fn(Seq<char>) -> int, p: int) -> bool {
    forall|name: Seq<char>| #[trigger] names_bit(name) ==> 0 <= v(name) < p
}

/// Where a whole script holds under an assignment for which what is compared is a field element,
/// the formula holds, provided that no range or comparison stands under a negation or in the
/// condition of a term.
pub proof fn script_solution_is_right(
    p: int,
    f: Formula,
    v: spec_fn(Seq<char>) -> int,
    env: spec_fn(Seq<char>) -> int,
)
    requires
        is_large(p),
        empty_cvc5(p).asserting(f) is Ok,
        formula_names_ok(f),
        ready(f, env, p, false),
        is_positive(f),
        extends(v, env),
        bits_in_field(v, p),
        script_holds(empty_cvc5(p).asserting(f)->Ok_0, v),
    ensures
        holds(f, env),
{
    let c = empty_cvc5(p);
    let d = c.asserting(f)->Ok_0;
    lemma2_to64();
    asserting_keeps_script(c, f);
    truth_values_are_constrained(p, f);
    assert(d.modulus == p && keeps(d, d)) by {
        reveal(keeps);
    }
    assert(bits_in(d, v)) by {
        assert forall|name: Seq<char>| #[trigger] is_truth(d, name) && names_bit(name) implies 0
            <= v(name) <= 1 by {
            assert(d.asserts.contains(bit_condition(name)));
            let (id, i, j) = choose|id: int, i: int, j: int|
                name == #[trigger] bit_name(id, i, j);
            lemma_bit_name_plain(id, i, j);
            lemma_bit_cond(name, v, p);
            lemma_text_holds(bit_cond(name), v, p);
            lemma_small_mod(v(name) as nat, p as nat);
        }
    }
    lemma_asserting_sound(c, f, d, v, env);
}

/// A whole script has a solution that extends an assignment exactly where the formula holds under
/// it, provided that what is compared is a field element within reach, and that no range or
/// comparison stands under a negation or in the condition of a term.
pub proof fn script_says_formula(p: int, f: Formula, env: spec_fn(Seq<char>) -> int)
    requires
        is_large(p),
        empty_cvc5(p).asserting(f) is Ok,
        formula_names_ok(f),
        ready(f, env, p, true),
        is_positive(f),
    ensures
        (exists|v: spec_fn(Seq<char>) -> int| #[trigger]
            extends(v, env) && bits_in_field(v, p) && script_holds(
                empty_cvc5(p).asserting(f)->Ok_0,
                v,
            )) <==> holds(f, env),
{
    lemma2_to64();
    let d = empty_cvc5(p).asserting(f)->Ok_0;
    if holds(f, env) {
        solution_extends_to_script(p, f, env);
        let v = choose|v: spec_fn(Seq<char>) -> int| #[trigger]
            extends(v, env) && chooses_bits(v) && script_holds(d, v);
        assert(bits_in_field(v, p)) by {
            assert forall|name: Seq<char>| #[trigger] names_bit(name) implies 0 <= v(name) < p by {}
        }
    }
    if exists|v: spec_fn(Seq<char>) -> int| #[trigger]
        extends(v, env) && bits_in_field(v, p) && script_holds(d, v) {
        let v = choose|v: spec_fn(Seq<char>) -> int| #[trigger]
            extends(v, env) && bits_in_field(v, p) && script_holds(d, v);
        lemma_ready(f, env, p);
        script_solution_is_right(p, f, v, env);
    }
}

/// The field of the checker is large.
pub proof fn field_is_large()
    ensures
        is_large(FIELD_MODULUS as int),
{
    lemma2_to64();
}

} // verus!
