//! What writing a formula keeps of a script for cvc5.

use vstd::arithmetic::power2::pow2;
use vstd::prelude::*;
use crate::checker::solver::cvc5::{
    bit_condition, bit_name, empty_cvc5, gathered, offset, order_plan, plain_const, remainder_to,
    scaled, with_hints, Cvc5V, Order, OrderPlan,
};
use crate::checker::symbolic::expr::{Formula, SymType, Term};
use crate::name_map::{lemma_set_pair, map_of};

verus! {

/// A variable of the script is used as a truth value.
pub open spec fn is_truth(c: Cvc5V, name: Seq<char>) -> bool {
    map_of(c.vars).contains_key(name) && map_of(c.vars)[name] == SymType::Bool
}

/// For every variable that is used as a truth value, the script says that it is zero or one.
pub open spec fn constrained(c: Cvc5V) -> bool {
    forall|name: Seq<char>| #[trigger]
        is_truth(c, name) ==> c.asserts.contains(bit_condition(name))
}

/// Of a script, another keeps the field, the variables with their sorts, the conditions, and that
/// truth values are zero or one.
#[verifier::opaque]
pub open spec fn keeps(c: Cvc5V, d: Cvc5V) -> bool {
    &&& d.modulus == c.modulus
    &&& c.fresh <= d.fresh
    &&& forall|name: Seq<char>| #[trigger]
        map_of(c.vars).contains_key(name) ==> map_of(d.vars).contains_key(name) && map_of(
            d.vars,
        )[name] == map_of(c.vars)[name]
    &&& forall|s: Seq<char>| #[trigger] c.asserts.contains(s) ==> d.asserts.contains(s)
    &&& constrained(c) ==> constrained(d)
}

/// What is written behind a script: besides keeping it, every condition that is added says of a
/// truth value that it is zero or one.
#[verifier::opaque]
pub open spec fn writes(c: Cvc5V, d: Cvc5V) -> bool {
    &&& keeps(c, d)
    &&& forall|s: Seq<char>| #[trigger]
        d.asserts.contains(s) ==> c.asserts.contains(s) || says_bit(d, s)
}

/// A condition that a truth value is zero or one.
pub open spec fn says_bit(d: Cvc5V, s: Seq<char>) -> bool {
    exists|name: Seq<char>| #[trigger] is_truth(d, name) && s == bit_condition(name)
}

proof fn lemma_writes_nothing(c: Cvc5V)
    ensures
        writes(c, c),
{
    reveal(keeps);
    reveal(writes);
}

pub proof fn lemma_keeps_chain(a: Cvc5V, b: Cvc5V, c: Cvc5V)
    requires
        keeps(a, b),
        keeps(b, c),
    ensures
        keeps(a, c),
{
    reveal(keeps);
    assert forall|name: Seq<char>| #[trigger] map_of(a.vars).contains_key(name) implies map_of(
        c.vars,
    ).contains_key(name) && map_of(c.vars)[name] == map_of(a.vars)[name] by {
        assert(map_of(b.vars).contains_key(name));
    }
}

pub proof fn lemma_writes_chain(a: Cvc5V, b: Cvc5V, c: Cvc5V)
    requires
        writes(a, b),
        writes(b, c),
    ensures
        writes(a, c),
{
    reveal(writes);
    lemma_keeps_chain(a, b, c);
    assert forall|s: Seq<char>| #[trigger] c.asserts.contains(s) implies a.asserts.contains(s)
        || says_bit(c, s) by {
        if b.asserts.contains(s) && !a.asserts.contains(s) {
            let name = choose|name: Seq<char>| #[trigger]
                is_truth(b, name) && s == bit_condition(name);
            lemma_truth_kept(b, c, name);
        }
    }
}

pub proof fn lemma_writes_keeps(c: Cvc5V, d: Cvc5V)
    requires
        writes(c, d),
    ensures
        keeps(c, d),
        d.modulus == c.modulus,
        c.fresh <= d.fresh,
{
    reveal(writes);
    reveal(keeps);
}

/// The hints play no part in what is written.
pub proof fn lemma_writes_hints(c: Cvc5V, d: Cvc5V, hints: Map<Seq<char>, usize>)
    requires
        writes(c, d),
    ensures
        writes(c, (Cvc5V { hints, ..d })),
{
    reveal(keeps);
    reveal(writes);
    let e = Cvc5V { hints, ..d };
    assert forall|name: Seq<char>| #[trigger] is_truth(e, name) == is_truth(d, name) by {}
    assert forall|s: Seq<char>| says_bit(d, s) implies #[trigger] says_bit(e, s) by {
        let name = choose|name: Seq<char>| #[trigger] is_truth(d, name) && s == bit_condition(name);
        assert(is_truth(e, name));
    }
}

pub proof fn lemma_truth_kept(c: Cvc5V, d: Cvc5V, name: Seq<char>)
    requires
        keeps(c, d),
        is_truth(c, name),
    ensures
        is_truth(d, name),
{
    reveal(keeps);
    assert(map_of(c.vars).contains_key(name));
}

pub proof fn lemma_ensured(c: Cvc5V, name: Seq<char>, sort: SymType)
    requires
        c.ensured(name, sort) is Ok,
    ensures
        writes(c, c.ensured(name, sort)->Ok_0),
        sort == SymType::Bool ==> is_truth(c.ensured(name, sort)->Ok_0, name),
        c.ensured(name, sort)->Ok_0.fresh == c.fresh,
        c.ensured(name, sort)->Ok_0.hints == c.hints,
{
    reveal(keeps);
    reveal(writes);
    let d = c.ensured(name, sort)->Ok_0;
    if !map_of(c.vars).contains_key(name) {
        let as_sort = if sort == SymType::Bool {
            SymType::Bool
        } else {
            SymType::F
        };
        lemma_set_pair(c.vars, name, as_sort);
        assert forall|a: Seq<char>| #[trigger] d.asserts.contains(a) implies c.asserts.contains(a)
            || says_bit(d, a) by {
            if sort == SymType::Bool {
                let i = choose|i: int| 0 <= i < d.asserts.len() && d.asserts[i] == a;
                if i < c.asserts.len() {
                    assert(c.asserts[i] == a);
                } else {
                    assert(is_truth(d, name));
                }
            }
        }
        if sort == SymType::Bool {
            let s = bit_condition(name);
            assert(d.asserts == c.asserts.push(s));
            assert(d.asserts[c.asserts.len() as int] == s);
            assert forall|a: Seq<char>| #[trigger] c.asserts.contains(a) implies
                d.asserts.contains(a) by {
                let i = choose|i: int| 0 <= i < c.asserts.len() && c.asserts[i] == a;
                assert(d.asserts[i] == a);
            }
        }
        if constrained(c) {
            assert forall|n: Seq<char>| #[trigger] is_truth(d, n) implies d.asserts.contains(
                bit_condition(n),
            ) by {
                if n != name {
                    assert(is_truth(c, n));
                }
            }
        }
    }
}

pub proof fn lemma_bits(c: Cvc5V, id: int, i: int, j: int, n: int, parts: Seq<Seq<char>>)
    requires
        0 <= j <= n,
        c.bits_from(id, i, j, n, parts) is Ok,
    ensures
        writes(c, c.bits_from(id, i, j, n, parts)->Ok_0.1),
        c.bits_from(id, i, j, n, parts)->Ok_0.1.fresh == c.fresh,
        c.bits_from(id, i, j, n, parts)->Ok_0.1.hints == c.hints,
        forall|k: int|
            j <= k < n ==> is_truth(
                c.bits_from(id, i, j, n, parts)->Ok_0.1,
                #[trigger] bit_name(id, i, k),
            ),
    decreases n - j,
{
    if j < n {
        let name = bit_name(id, i, j);
        lemma_ensured(c, name, SymType::Bool);
        let c1 = c.ensured(name, SymType::Bool)->Ok_0;
        let next = parts.push(scaled(pow2(j as nat) as int, name));
        lemma_bits(c1, id, i, j + 1, n, next);
        let d = c.bits_from(id, i, j, n, parts)->Ok_0.1;
        lemma_writes_chain(c, c1, d);
        lemma_writes_keeps(c1, d);
        lemma_truth_kept(c1, d, name);
    } else {
        lemma_writes_nothing(c);
    }
}

pub proof fn lemma_bytes(c: Cvc5V, id: int, i: int, remaining: int, parts: Seq<Seq<char>>)
    requires
        0 <= i,
        c.bytes_from(id, i, remaining, parts) is Ok,
    ensures
        writes(c, c.bytes_from(id, i, remaining, parts)->Ok_0.1),
        c.bytes_from(id, i, remaining, parts)->Ok_0.1.fresh == c.fresh,
        c.bytes_from(id, i, remaining, parts)->Ok_0.1.hints == c.hints,
        forall|a: int, b: int|
            i <= a && 0 <= b < 8 && 8 * (a - i) + b < remaining ==> is_truth(
                c.bytes_from(id, i, remaining, parts)->Ok_0.1,
                #[trigger] bit_name(id, a, b),
            ),
    decreases remaining,
{
    if remaining > 0 {
        let n = if remaining < 8 {
            remaining
        } else {
            8
        };
        lemma_bits(c, id, i, 0, n, seq![]);
        let (bits, c1) = c.bits_from(id, i, 0, n, seq![])->Ok_0;
        let sum = gathered("ff.add"@, bits);
        let part = if i == 0 {
            sum
        } else {
            scaled(pow2((8 * i) as nat) as int, sum)
        };
        lemma_bytes(c1, id, i + 1, remaining - n, parts.push(part));
        let d = c.bytes_from(id, i, remaining, parts)->Ok_0.1;
        lemma_writes_chain(c, c1, d);
        lemma_writes_keeps(c1, d);
        assert forall|a: int, b: int|
            i <= a && 0 <= b < 8 && 8 * (a - i) + b < remaining implies is_truth(
            d,
            #[trigger] bit_name(id, a, b),
        ) by {
            if a == i {
                lemma_truth_kept(c1, d, bit_name(id, a, b));
            }
        }
    } else {
        lemma_writes_nothing(c);
    }
}

pub proof fn lemma_decomposed(c: Cvc5V, target: Seq<char>, bits: usize)
    requires
        c.decomposed(target, bits) is Ok,
    ensures
        writes(c, c.decomposed(target, bits)->Ok_0.1),
        c.decomposed(target, bits)->Ok_0.1.fresh == c.fresh + 1,
        c.decomposed(target, bits)->Ok_0.1.hints == c.hints.insert(target, bits),
        forall|a: int, b: int|
            0 <= a && 0 <= b < 8 && 8 * a + b < bits ==> is_truth(
                c.decomposed(target, bits)->Ok_0.1,
                #[trigger] bit_name(c.fresh as int, a, b),
            ),
{
    let c1 = Cvc5V {
        hints: c.hints.insert(target, bits),
        fresh: (c.fresh + 1) as usize,
        ..c
    };
    assert(writes(c, c1)) by {
        reveal(keeps);
        reveal(writes);
        assert forall|name: Seq<char>| #[trigger] is_truth(c1, name) implies is_truth(c, name) by {}
    }
    lemma_bytes(c1, c.fresh as int, 0, bits as int, seq![]);
    lemma_writes_chain(c, c1, c.decomposed(target, bits)->Ok_0.1);
}

pub proof fn lemma_term(c: Cvc5V, t: Term)
    requires
        c.term(t) is Ok,
    ensures
        writes(c, c.term(t)->Ok_0.1),
        c.term(t)->Ok_0.1.hints == c.hints,
    decreases t, 0int,
{
    match t {
        Term::Int(_) => lemma_writes_nothing(c),
        Term::Var(name, sort) => lemma_ensured(c, name, sort),
        Term::Neg(a) => lemma_term(c, *a),
        Term::Add(xs) | Term::Mul(xs) => {
            lemma_writes_nothing(c);
            if xs.len() > 0 {
                lemma_terms(c, xs, 0, seq![]);
            }
        },
        Term::Sub(a, b) | Term::Div(a, b) => {
            lemma_term(c, *a);
            let c1 = c.term(*a)->Ok_0.1;
            lemma_term(c1, *b);
            lemma_writes_chain(c, c1, c1.term(*b)->Ok_0.1);
        },
        Term::Mod(a, _) => lemma_term(c, *a),
        Term::Ite(f, a, b) => {
            lemma_formula(c, *f);
            lemma_writes_hints(c, c.formula(*f)->Ok_0.1, c.hints);
            let c1 = with_hints(c.hints, c.formula(*f))->Ok_0.1;
            lemma_term(c1, *a);
            let c2 = c1.term(*a)->Ok_0.1;
            lemma_term(c2, *b);
            lemma_writes_chain(c, c1, c2);
            lemma_writes_chain(c, c2, c2.term(*b)->Ok_0.1);
        },
    }
}

pub proof fn lemma_terms(c: Cvc5V, xs: Seq<Term>, i: int, parts: Seq<Seq<char>>)
    requires
        0 <= i,
        c.terms(xs, i, parts) is Ok,
    ensures
        writes(c, c.terms(xs, i, parts)->Ok_0.1),
        c.terms(xs, i, parts)->Ok_0.1.hints == c.hints,
    decreases xs, xs.len() - i,
{
    if i < xs.len() {
        lemma_term(c, xs[i]);
        let (s, c1) = c.term(xs[i])->Ok_0;
        lemma_terms(c1, xs, i + 1, parts.push(s));
        lemma_writes_chain(c, c1, c.terms(xs, i, parts)->Ok_0.1);
    } else {
        lemma_writes_nothing(c);
    }
}

pub proof fn lemma_range(c: Cvc5V, t: Term, start: Option<int>, bits: usize)
    requires
        c.range(t, start, bits) is Ok,
    ensures
        writes(c, c.range(t, start, bits)->Ok_0.1),
    decreases t, 1int,
{
    lemma_term(c, t);
    let (s, c1) = c.term(t)->Ok_0;
    let target = match start {
        None => s,
        Some(k) => offset(s, k),
    };
    lemma_decomposed(c1, target, bits);
    lemma_writes_chain(c, c1, c.range(t, start, bits)->Ok_0.1);
}

pub proof fn lemma_between(c: Cvc5V, t: Term, bound: int, bits: usize)
    requires
        c.between(t, bound, bits) is Ok,
    ensures
        writes(c, c.between(t, bound, bits)->Ok_0.1),
    decreases t, 1int,
{
    lemma_term(c, t);
    let (s, c1) = c.term(t)->Ok_0;
    lemma_decomposed(c1, offset(s, 0), bits);
    let c2 = c1.decomposed(offset(s, 0), bits)->Ok_0.1;
    lemma_decomposed(c2, remainder_to(bound, s), bits);
    lemma_writes_chain(c, c1, c2);
    lemma_writes_chain(c, c2, c.between(t, bound, bits)->Ok_0.1);
}

pub proof fn lemma_order(c: Cvc5V, op: Order, t: Term, k: int)
    requires
        c.order(op, t, k) is Ok,
    ensures
        writes(c, c.order(op, t, k)->Ok_0.1),
    decreases t, 2int,
{
    lemma_term(c, t);
    let (s, c1) = c.term(t)->Ok_0;
    let hint = if c1.hints.contains_key(s) {
        Some(c1.hints[s])
    } else {
        None
    };
    let d = c.order(op, t, k)->Ok_0.1;
    match order_plan(op, k, hint) {
        OrderPlan::Within { start, bits } => {
            lemma_range(c1, t, Some(start as int), bits);
            lemma_writes_chain(c, c1, d);
        },
        OrderPlan::Between { bound, bits } => {
            lemma_between(c1, t, bound as int, bits);
            lemma_writes_chain(c, c1, d);
        },
        _ => {},
    }
}

pub proof fn lemma_formula(c: Cvc5V, f: Formula)
    requires
        c.formula(f) is Ok,
    ensures
        writes(c, c.formula(f)->Ok_0.1),
    decreases f, 0int,
{
    match f {
        Formula::Bool(_) => lemma_writes_nothing(c),
        Formula::Not(a) => {
            lemma_formula(c, *a);
            lemma_writes_hints(c, c.formula(*a)->Ok_0.1, c.hints);
        },
        Formula::And(fs) => {
            lemma_writes_nothing(c);
            if fs.len() > 0 {
                lemma_formulas(c, fs, 0, seq![]);
            }
        },
        Formula::Or(fs) => {
            lemma_writes_nothing(c);
            if fs.len() > 0 {
                lemma_alternatives(c, fs, 0, seq![]);
            }
        },
        Formula::Eq(a, b) | Formula::Ne(a, b) => {
            lemma_term(c, a);
            let c1 = c.term(a)->Ok_0.1;
            lemma_term(c1, b);
            lemma_writes_chain(c, c1, c1.term(b)->Ok_0.1);
        },
        Formula::Le(a, b) => if plain_const(b) is Some {
            lemma_order(c, Order::Le, a, plain_const(b)->0);
        } else {
            lemma_order(c, Order::Ge, b, plain_const(a)->0);
        },
        Formula::Lt(_, _) => {},
        Formula::Ge(a, b) => if plain_const(b) is Some {
            lemma_order(c, Order::Ge, a, plain_const(b)->0);
        } else {
            lemma_order(c, Order::Le, b, plain_const(a)->0);
        },
        Formula::Gt(a, b) => if plain_const(b) is Some {
            lemma_order(c, Order::Gt, a, plain_const(b)->0);
        } else {
            lemma_order(c, Order::Lt, b, plain_const(a)->0);
        },
        Formula::Range { value, bits, .. } => {
            lemma_range(c, value, None, bits->0);
        },
    }
}

pub proof fn lemma_formulas(c: Cvc5V, fs: Seq<Formula>, i: int, parts: Seq<Seq<char>>)
    requires
        0 <= i,
        c.formulas(fs, i, parts) is Ok,
    ensures
        writes(c, c.formulas(fs, i, parts)->Ok_0.1),
    decreases fs, fs.len() - i,
{
    if i < fs.len() {
        lemma_formula(c, fs[i]);
        let (s, c1) = c.formula(fs[i])->Ok_0;
        lemma_formulas(c1, fs, i + 1, parts.push(s));
        lemma_writes_chain(c, c1, c.formulas(fs, i, parts)->Ok_0.1);
    } else {
        lemma_writes_nothing(c);
    }
}

pub proof fn lemma_alternatives(c: Cvc5V, fs: Seq<Formula>, i: int, parts: Seq<Seq<char>>)
    requires
        0 <= i,
        c.alternatives(fs, i, parts) is Ok,
    ensures
        writes(c, c.alternatives(fs, i, parts)->Ok_0.1),
        c.alternatives(fs, i, parts)->Ok_0.1.hints == c.hints,
    decreases fs, fs.len() - i,
{
    if i < fs.len() {
        lemma_formula(c, fs[i]);
        lemma_writes_hints(c, c.formula(fs[i])->Ok_0.1, c.hints);
        let (s, c1) = with_hints(c.hints, c.formula(fs[i]))->Ok_0;
        lemma_alternatives(c1, fs, i + 1, parts.push(s));
        lemma_writes_chain(c, c1, c.alternatives(fs, i, parts)->Ok_0.1);
    } else {
        lemma_writes_nothing(c);
    }
}

/// Asserting a formula keeps the field, the variables with their sorts, the conditions that were
/// asserted before, and that every truth value is said to be zero or one.
pub proof fn asserting_keeps_script(c: Cvc5V, f: Formula)
    requires
        c.asserting(f) is Ok,
    ensures
        keeps(c, c.asserting(f)->Ok_0),
    decreases f, 0int,
{
    match f {
        Formula::And(fs) => lemma_asserting_from(c, fs, 0),
        _ => {
            lemma_formula(c, f);
            let (s, c1) = c.formula(f)->Ok_0;
            let d = c.asserting(f)->Ok_0;
            assert(keeps(c1, d)) by {
                reveal(keeps);
                assert forall|a: Seq<char>| #[trigger] c1.asserts.contains(a) implies
                    d.asserts.contains(a) by {
                    let i = choose|i: int| 0 <= i < c1.asserts.len() && c1.asserts[i] == a;
                    assert(d.asserts[i] == a);
                }
                assert forall|name: Seq<char>| #[trigger] is_truth(d, name) implies is_truth(
                    c1,
                    name,
                ) by {}
            }
            reveal(writes);
            lemma_keeps_chain(c, c1, d);
        },
    }
}

pub proof fn lemma_asserting_from(c: Cvc5V, fs: Seq<Formula>, i: int)
    requires
        0 <= i,
        c.asserting_from(fs, i) is Ok,
    ensures
        keeps(c, c.asserting_from(fs, i)->Ok_0),
    decreases fs, fs.len() - i,
{
    if i < fs.len() {
        asserting_keeps_script(c, fs[i]);
        let c1 = c.asserting(fs[i])->Ok_0;
        lemma_asserting_from(c1, fs, i + 1);
        lemma_keeps_chain(c, c1, c.asserting_from(fs, i)->Ok_0);
    } else {
        reveal(keeps);
    }
}

/// In a script that started empty, every truth value is said to be zero or one.
pub proof fn truth_values_are_constrained(p: int, f: Formula)
    requires
        empty_cvc5(p).asserting(f) is Ok,
    ensures
        constrained(empty_cvc5(p).asserting(f)->Ok_0),
{
    let c = empty_cvc5(p);
    asserting_keeps_script(c, f);
    reveal(keeps);
    assert(constrained(c)) by {
        assert forall|name: Seq<char>| !(#[trigger] is_truth(c, name)) by {}
    }
}

/// The bits of a range are truth values of the script.
pub proof fn range_bits_are_truth_values(
    c: Cvc5V,
    t: Term,
    start: Option<int>,
    bits: usize,
    i: int,
    j: int,
)
    requires
        c.range(t, start, bits) is Ok,
        0 <= i,
        0 <= j < 8,
        8 * i + j < bits,
    ensures
        is_truth(
            c.range(t, start, bits)->Ok_0.1,
            bit_name(c.term(t)->Ok_0.1.fresh as int, i, j),
        ),
{
    let (s, c1) = c.term(t)->Ok_0;
    let target = match start {
        None => s,
        Some(k) => offset(s, k),
    };
    lemma_decomposed(c1, target, bits);
}

} // verus!
