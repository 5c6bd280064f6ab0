//! The script for Z3 means what the formula means.

use vstd::prelude::*;
use crate::checker::solver::smt::{
    compared, cond_script, every_cond, grown, range_conds, sides, smt_holds, smt_value, some_cond, sound,
    text_is_of_encoding, written_by, SmtCond, SmtTerm, SmtV,
};
use crate::checker::solver::z3::{
    idle_mod_keeps_value, merged_range, mod_is_idle, place_from, preloaded, ranged, script_with,
};
use crate::checker::solver::SolveError;
use crate::checker::symbolic::expr::{Formula, SymType, Term};
use crate::checker::symbolic::meaning::{
    all_hold, holds, product_value, some_holds, sum_value, value,
};
use crate::checker::symbolic::range::{
    all_respect_sorts, respects_hints, respects_sorts, type_range, Hints,
};

verus! {

/// The variables of a script have the values that `env` gives to their names.
pub open spec fn matching(
    vars: Seq<(Seq<char>, SymType)>,
    env: spec_fn(Seq<char>) -> int,
    v: spec_fn(int) -> int,
) -> bool {
    forall|i: int| 0 <= i < vars.len() ==> v(i) == env((#[trigger] vars[i]).0)
}

/// A variable has a value of its sort.
pub open spec fn of_sort(k: int, sort: SymType) -> bool {
    match type_range(sort) {
        Some((lo, hi)) => lo <= k <= hi,
        None => true,
    }
}

/// `env` lies within the hints and the sorts.
#[verifier::opaque]
pub open spec fn fits(z: SmtV, env: spec_fn(Seq<char>) -> int) -> bool {
    &&& respects_hints(z.hints, env)
    &&& forall|i: int|
        0 <= i < z.vars.len() ==> of_sort(env((#[trigger] z.vars[i]).0), z.vars[i].1)
}

/// `b` has all that `a` has.
#[verifier::opaque]
spec fn grows(a: SmtV, b: SmtV) -> bool {
    &&& a.vars.is_prefix_of(b.vars)
    &&& a.asserts.is_prefix_of(b.asserts)
    &&& a.hints == b.hints
}

proof fn lemma_grows_self(a: SmtV)
    ensures
        grows(a, a),
{
    reveal(grows);
}

proof fn lemma_grows_chain(a: SmtV, b: SmtV, c: SmtV)
    requires
        grows(a, b),
        grows(b, c),
    ensures
        grows(a, c),
{
    reveal(grows);
    assert(a.vars =~= c.vars.take(a.vars.len() as int));
    assert(a.asserts =~= c.asserts.take(a.asserts.len() as int));
}

proof fn lemma_fits_less(a: SmtV, b: SmtV, env: spec_fn(Seq<char>) -> int)
    requires
        grows(a, b),
        fits(b, env),
    ensures
        fits(a, env),
{
    reveal(fits);
    reveal(grows);
    assert forall|i: int| 0 <= i < a.vars.len() implies of_sort(
        env((#[trigger] a.vars[i]).0),
        a.vars[i].1,
    ) by {
        assert(a.vars[i] == b.vars[i]);
    }
}

proof fn lemma_sound_less(a: SmtV, b: SmtV, v: spec_fn(int) -> int)
    requires
        grows(a, b),
        sound(b, v),
    ensures
        sound(a, v),
{
    reveal(sound);
    reveal(grows);
    assert forall|i: int| 0 <= i < a.asserts.len() implies smt_holds(
        #[trigger] a.asserts[i],
        v,
    ) by {
        assert(a.asserts[i] == b.asserts[i]);
    }
}

proof fn lemma_place(vars: Seq<(Seq<char>, SymType)>, i: int, name: Seq<char>)
    requires
        0 <= i,
    ensures
        match place_from(vars, i, name) {
            Some(k) => i <= k < vars.len() && vars[k].0 == name,
            None => true,
        },
    decreases vars.len() - i,
{
    if i < vars.len() && vars[i].0 != name {
        lemma_place(vars, i + 1, name);
    }
}

proof fn lemma_var_grows(z: SmtV, name: Seq<char>, sort: SymType)
    ensures
        z.var(name, sort) matches Ok((_, z2)) ==> grows(z, z2),
{
    reveal(grows);
}

proof fn lemma_term_grows(z: SmtV, t: Term)
    ensures
        z.term(t) matches Ok((_, z2)) ==> grows(z, z2),
    decreases t, 0int,
{
    lemma_grows_self(z);
    match t {
        Term::Int(_) => {},
        Term::Var(name, sort) => lemma_var_grows(z, name, sort),
        Term::Neg(a) => lemma_term_grows(z, *a),
        Term::Add(xs) => {
            if xs.len() > 0 {
                lemma_term_grows(z, xs[0]);
                if let Ok((s, z1)) = z.term(xs[0]) {
                    lemma_fold_grows(z1, true, xs, 1, s);
                    if let Ok((_, z2)) = z1.fold(true, xs, 1, s) {
                        lemma_grows_chain(z, z1, z2);
                    }
                }
            }
        },
        Term::Mul(xs) => {
            if xs.len() > 0 {
                lemma_term_grows(z, xs[0]);
                if let Ok((s, z1)) = z.term(xs[0]) {
                    lemma_fold_grows(z1, false, xs, 1, s);
                    if let Ok((_, z2)) = z1.fold(false, xs, 1, s) {
                        lemma_grows_chain(z, z1, z2);
                    }
                }
            }
        },
        Term::Sub(a, b) => {
            lemma_term_grows(z, *a);
            if let Ok((_, za)) = z.term(*a) {
                lemma_term_grows(za, *b);
                if let Ok((_, zb)) = za.term(*b) {
                    lemma_grows_chain(z, za, zb);
                }
            }
        },
        Term::Div(a, b) => {
            lemma_term_grows(z, *a);
            if let Ok((_, za)) = z.term(*a) {
                lemma_term_grows(za, *b);
                if let Ok((_, zb)) = za.term(*b) {
                    lemma_grows_chain(z, za, zb);
                }
            }
        },
        Term::Mod(a, b) => {
            if mod_is_idle(*a, *b, z.hints) {
                lemma_term_grows(z, *a);
            } else {
                lemma_term_grows(z, *a);
                if let Ok((_, za)) = z.term(*a) {
                    lemma_term_grows(za, *b);
                    if let Ok((_, zb)) = za.term(*b) {
                        lemma_grows_chain(z, za, zb);
                    }
                }
            }
        },
        Term::Ite(c, a, b) => {
            lemma_formula_grows(z, *c);
            if let Ok((_, z1)) = z.formula(*c) {
                lemma_term_grows(z1, *a);
                if let Ok((_, z2)) = z1.term(*a) {
                    lemma_grows_chain(z, z1, z2);
                    lemma_term_grows(z2, *b);
                    if let Ok((_, z3)) = z2.term(*b) {
                        lemma_grows_chain(z, z2, z3);
                    }
                }
            }
        },
    }
}

proof fn lemma_fold_grows(z: SmtV, sum: bool, xs: Seq<Term>, i: int, acc: SmtTerm)
    ensures
        z.fold(sum, xs, i, acc) matches Ok((_, z2)) ==> grows(z, z2),
    decreases xs, xs.len() - i,
{
    lemma_grows_self(z);
    if 0 <= i < xs.len() {
        lemma_term_grows(z, xs[i]);
        if let Ok((s, z1)) = z.term(xs[i]) {
            lemma_fold_grows(z1, sum, xs, i + 1, grown(sum, acc, s));
            if let Ok((_, z2)) = z1.fold(sum, xs, i + 1, grown(sum, acc, s)) {
                lemma_grows_chain(z, z1, z2);
            }
        }
    }
}

proof fn lemma_formula_grows(z: SmtV, f: Formula)
    ensures
        z.formula(f) matches Ok((_, z2)) ==> grows(z, z2),
    decreases f, 0int,
{
    lemma_grows_self(z);
    match f {
        Formula::Bool(_) => {},
        Formula::Not(a) => lemma_formula_grows(z, *a),
        Formula::And(fs) => lemma_all_grows(z, fs, 0, seq![]),
        Formula::Or(fs) => lemma_all_grows(z, fs, 0, seq![]),
        Formula::Range { value: t, .. } => lemma_term_grows(z, t),
        _ => {
            let (a, b) = sides(f);
            lemma_term_grows(z, a);
            if let Ok((_, za)) = z.term(a) {
                lemma_term_grows(za, b);
                if let Ok((_, zb)) = za.term(b) {
                    lemma_grows_chain(z, za, zb);
                }
            }
        },
    }
}

proof fn lemma_all_grows(z: SmtV, fs: Seq<Formula>, i: int, parts: Seq<SmtCond>)
    ensures
        z.all(fs, i, parts) matches Ok((_, z2)) ==> grows(z, z2),
    decreases fs, fs.len() - i,
{
    lemma_grows_self(z);
    if 0 <= i < fs.len() {
        lemma_formula_grows(z, fs[i]);
        if let Ok((s, z1)) = z.formula(fs[i]) {
            lemma_all_grows(z1, fs, i + 1, parts.push(s));
            if let Ok((_, z2)) = z1.all(fs, i + 1, parts.push(s)) {
                lemma_grows_chain(z, z1, z2);
            }
        }
    }
}

/// `env` gives every variable of `t` a value of its sort.
pub open spec fn sorts_kept(t: Term, env: spec_fn(Seq<char>) -> int) -> bool
    decreases t,
{
    match t {
        Term::Int(_) => true,
        Term::Var(name, sort) => of_sort(env(name), sort),
        Term::Neg(a) => sorts_kept(*a, env),
        Term::Add(xs) => all_sorts_kept(xs, env),
        Term::Mul(xs) => all_sorts_kept(xs, env),
        Term::Sub(a, b) => sorts_kept(*a, env) && sorts_kept(*b, env),
        Term::Div(a, b) => sorts_kept(*a, env) && sorts_kept(*b, env),
        Term::Mod(a, b) => sorts_kept(*a, env) && sorts_kept(*b, env),
        Term::Ite(c, a, b) => sorts_respected(*c, env) && sorts_kept(*a, env) && sorts_kept(
            *b,
            env,
        ),
    }
}

/// `env` gives every variable of `xs` a value of its sort.
pub open spec fn all_sorts_kept(xs: Seq<Term>, env: spec_fn(Seq<char>) -> int) -> bool
    decreases xs,
{
    xs.len() == 0 || (all_sorts_kept(xs.drop_last(), env) && sorts_kept(xs.last(), env))
}

/// `env` gives every variable of `f` a value of its sort.
pub open spec fn sorts_respected(f: Formula, env: spec_fn(Seq<char>) -> int) -> bool
    decreases f,
{
    match f {
        Formula::Bool(_) => true,
        Formula::Not(a) => sorts_respected(*a, env),
        Formula::And(fs) => all_sorts_respected(fs, env),
        Formula::Or(fs) => all_sorts_respected(fs, env),
        Formula::Eq(a, b) => sorts_kept(a, env) && sorts_kept(b, env),
        Formula::Ne(a, b) => sorts_kept(a, env) && sorts_kept(b, env),
        Formula::Le(a, b) => sorts_kept(a, env) && sorts_kept(b, env),
        Formula::Lt(a, b) => sorts_kept(a, env) && sorts_kept(b, env),
        Formula::Ge(a, b) => sorts_kept(a, env) && sorts_kept(b, env),
        Formula::Gt(a, b) => sorts_kept(a, env) && sorts_kept(b, env),
        Formula::Range { value: t, .. } => sorts_kept(t, env),
    }
}

/// `env` gives every variable of `fs` a value of its sort.
pub open spec fn all_sorts_respected(fs: Seq<Formula>, env: spec_fn(Seq<char>) -> int) -> bool
    decreases fs,
{
    fs.len() == 0 || (all_sorts_respected(fs.drop_last(), env) && sorts_respected(fs.last(), env))
}

proof fn lemma_sorts_kept(t: Term, hints: Hints, env: spec_fn(Seq<char>) -> int)
    requires
        sorts_kept(t, env),
    ensures
        respects_sorts(t, hints, env),
    decreases t, 0int,
{
    match t {
        Term::Int(_) => {},
        Term::Var(_, _) => {},
        Term::Neg(a) => lemma_sorts_kept(*a, hints, env),
        Term::Add(xs) => lemma_all_sorts_kept(xs, hints, env),
        Term::Mul(xs) => lemma_all_sorts_kept(xs, hints, env),
        Term::Sub(a, b) | Term::Div(a, b) | Term::Mod(a, b) => {
            lemma_sorts_kept(*a, hints, env);
            lemma_sorts_kept(*b, hints, env);
        },
        Term::Ite(_, a, b) => {
            lemma_sorts_kept(*a, hints, env);
            lemma_sorts_kept(*b, hints, env);
        },
    }
}

proof fn lemma_all_sorts_kept(xs: Seq<Term>, hints: Hints, env: spec_fn(Seq<char>) -> int)
    requires
        all_sorts_kept(xs, env),
    ensures
        all_respect_sorts(xs, hints, env),
    decreases xs, 0int,
{
    if xs.len() > 0 {
        lemma_all_sorts_kept(xs.drop_last(), hints, env);
        lemma_sorts_kept(xs.last(), hints, env);
    }
}

/// The encoded term has the value of the term; what was asserted with it holds.
#[verifier::opaque]
spec fn means_term(z: SmtV, t: Term, env: spec_fn(Seq<char>) -> int, v: spec_fn(int) -> int) -> bool {
    match z.term(t) {
        Ok((u, z2)) => {
            &&& smt_value(u, v) == value(t, env)
            &&& sorts_kept(t, env)
            &&& sound(z, v) ==> sound(z2, v)
        },
        Err(_) => true,
    }
}

/// The encoded formula holds where the formula does; what was asserted with it holds.
#[verifier::opaque]
spec fn means_formula(z: SmtV, f: Formula, env: spec_fn(Seq<char>) -> int, v: spec_fn(int) -> int) -> bool {
    match z.formula(f) {
        Ok((c, z2)) => {
            &&& smt_holds(c, v) == holds(f, env)
            &&& sorts_respected(f, env)
            &&& sound(z, v) ==> sound(z2, v)
        },
        Err(_) => true,
    }
}

proof fn lemma_var_means(
    z: SmtV,
    name: Seq<char>,
    sort: SymType,
    end: SmtV,
    env: spec_fn(Seq<char>) -> int,
    v: spec_fn(int) -> int,
)
    requires
        z.var(name, sort) is Ok,
        grows(z.var(name, sort)->Ok_0.1, end),
        fits(end, env),
        matching(end.vars, env, v),
    ensures
        means_term(z, Term::Var(name, sort), env, v),
{
    reveal(means_term);
    reveal(fits);
    reveal(sound);
    let z2 = z.var(name, sort)->Ok_0.1;
    lemma_place(z.vars, 0, name);
    lemma_fits_less(z2, end, env);
    reveal(grows);
    match place_from(z.vars, 0, name) {
        Some(i) => {
            assert(end.vars[i] == z2.vars[i]);
            assert(of_sort(env(z2.vars[i].0), z2.vars[i].1));
        },
        None => {
            let i = z.vars.len() as int;
            assert(z2.vars[i] == (name, sort));
            assert(end.vars[i] == z2.vars[i]);
            assert(of_sort(env(z2.vars[i].0), z2.vars[i].1));
            assert(v(i) == env(name));
            assert(z2.hints == z.hints);
            if sound(z, v) {
                assert forall|k: int| 0 <= k < z2.asserts.len() implies smt_holds(
                    #[trigger] z2.asserts[k],
                    v,
                ) by {
                    if k < z.asserts.len() {
                        assert(z2.asserts[k] == z.asserts[k]);
                    } else {
                        lemma_range_holds(z, i, name, sort, v, k - z.asserts.len());
                    }
                }
            }
        },
    }
}

proof fn lemma_range_holds(
    z: SmtV,
    i: int,
    name: Seq<char>,
    sort: SymType,
    v: spec_fn(int) -> int,
    k: int,
)
    requires
        of_sort(v(i), sort),
        z.hints.contains_key(name) ==> z.hints[name].0 <= v(i) <= z.hints[name].1,
        0 <= k < range_conds(i, merged_range(z.hint(name), sort)).len(),
    ensures
        smt_holds(range_conds(i, merged_range(z.hint(name), sort))[k], v),
{
    let c = range_conds(i, merged_range(z.hint(name), sort))[k];
    let (lo, hi) = merged_range(z.hint(name), sort)->Some_0;
    assert(lo <= v(i) <= hi);
    assert(smt_value(SmtTerm::Var(i), v) == v(i));
    assert(smt_value(SmtTerm::Num(lo), v) == lo);
    assert(smt_value(SmtTerm::Num(hi), v) == hi);
    assert(c == SmtCond::Ge(SmtTerm::Var(i), SmtTerm::Num(lo)) || c == SmtCond::Le(
        SmtTerm::Var(i),
        SmtTerm::Num(hi),
    ));
}

/// Encoding the two operands one after the other ends within `end`.
spec fn both_within(z: SmtV, a: Term, b: Term, end: SmtV) -> bool {
    match z.term(a) {
        Ok((_, za)) => grows(za, end) && match za.term(b) {
            Ok((_, zb)) => grows(zb, end),
            Err(_) => false,
        },
        Err(_) => false,
    }
}

proof fn lemma_both_within(z: SmtV, a: Term, b: Term, end: SmtV)
    requires
        z.term(a) matches Ok((_, za)) && za.term(b) matches Ok((_, zb)) && grows(zb, end),
    ensures
        both_within(z, a, b, end),
{
    let za = z.term(a)->Ok_0.1;
    lemma_term_grows(za, b);
    lemma_grows_chain(za, za.term(b)->Ok_0.1, end);
}

/// Both operands of an operation have their values.
proof fn lemma_operation_means(
    z: SmtV,
    t: Term,
    a: Term,
    b: Term,
    end: SmtV,
    env: spec_fn(Seq<char>) -> int,
    v: spec_fn(int) -> int,
)
    requires
        t == Term::Sub(Box::new(a), Box::new(b)) || t == Term::Div(Box::new(a), Box::new(b)) || (t
            == Term::Mod(Box::new(a), Box::new(b)) && !mod_is_idle(a, b, z.hints)),
        both_within(z, a, b, end),
        means_term(z, a, env, v),
        means_term(z.term(a)->Ok_0.1, b, env, v),
    ensures
        means_term(z, t, env, v),
{
    reveal(means_term);
}

/// A reduction that is left out would not have changed the value.
proof fn lemma_idle_means(
    z: SmtV,
    a: Term,
    b: Term,
    end: SmtV,
    env: spec_fn(Seq<char>) -> int,
    v: spec_fn(int) -> int,
)
    requires
        mod_is_idle(a, b, z.hints),
        z.term(a) is Ok,
        grows(z, end),
        fits(end, env),
        means_term(z, a, env, v),
    ensures
        means_term(z, Term::Mod(Box::new(a), Box::new(b)), env, v),
{
    reveal(means_term);
    lemma_fits_less(z, end, env);
    reveal(fits);
    lemma_sorts_kept(a, z.hints, env);
    idle_mod_keeps_value(a, b, z.hints, env);
    assert(sorts_kept(b, env));
}

/// The condition and both branches of a choice have their meanings.
proof fn lemma_choice_means(
    z: SmtV,
    c: Formula,
    a: Term,
    b: Term,
    end: SmtV,
    env: spec_fn(Seq<char>) -> int,
    v: spec_fn(int) -> int,
)
    requires
        z.formula(c) is Ok,
        both_within(z.formula(c)->Ok_0.1, a, b, end),
        means_formula(z, c, env, v),
        means_term(z.formula(c)->Ok_0.1, a, env, v),
        means_term(z.formula(c)->Ok_0.1.term(a)->Ok_0.1, b, env, v),
    ensures
        means_term(z, Term::Ite(Box::new(c), Box::new(a), Box::new(b)), env, v),
{
    reveal(means_term);
    reveal(means_formula);
}

/// The first of several operands and the rest have their values.
proof fn lemma_list_means(
    z: SmtV,
    sum: bool,
    xs: Seq<Term>,
    end: SmtV,
    env: spec_fn(Seq<char>) -> int,
    v: spec_fn(int) -> int,
)
    requires
        xs.len() > 0 ==> z.term(xs[0]) is Ok,
        xs.len() > 0 ==> means_term(z, xs[0], env, v),
        xs.len() > 0 ==> z.term(xs[0])->Ok_0.1.fold(sum, xs, 1, z.term(xs[0])->Ok_0.0) is Ok,
        xs.len() > 0 ==> rest_means(
            z.term(xs[0])->Ok_0.1,
            sum,
            xs,
            1,
            z.term(xs[0])->Ok_0.0,
            env,
            v,
        ),
    ensures
        means_term(
            z,
            if sum {
                Term::Add(xs)
            } else {
                Term::Mul(xs)
            },
            env,
            v,
        ),
{
    reveal(means_term);
    if xs.len() == 0 {
        assert(sum_value(xs, env) == 0);
        assert(product_value(xs, env) == 1);
        assert(all_sorts_kept(xs, env));
    }
    if sum {
        assert(value(Term::Add(xs), env) == sum_value(xs, env));
        assert(sorts_kept(Term::Add(xs), env));
    } else {
        assert(value(Term::Mul(xs), env) == product_value(xs, env));
        assert(sorts_kept(Term::Mul(xs), env));
    }
}

proof fn lemma_term_means(z: SmtV, t: Term, end: SmtV, env: spec_fn(Seq<char>) -> int, v: spec_fn(int) -> int)
    requires
        z.term(t) is Ok,
        grows(z.term(t)->Ok_0.1, end),
        fits(end, env),
        matching(end.vars, env, v),
    ensures
        means_term(z, t, env, v),
    decreases t, 0int,
{
    match t {
        Term::Int(_) => {
            reveal(means_term);
        },
        Term::Var(name, sort) => lemma_var_means(z, name, sort, end, env, v),
        Term::Neg(a) => {
            lemma_term_means(z, *a, end, env, v);
            reveal(means_term);
        },
        Term::Add(xs) => {
            if xs.len() > 0 {
                let (u, z1) = z.term(xs[0])->Ok_0;
                lemma_fold_grows(z1, true, xs, 1, u);
                lemma_grows_chain(z1, z1.fold(true, xs, 1, u)->Ok_0.1, end);
                lemma_term_means(z, xs[0], end, env, v);
                lemma_one_item(z, xs, end, env, v);
                lemma_fold_means(z1, true, xs, 1, u, end, env, v);
            }
            lemma_list_means(z, true, xs, end, env, v);
        },
        Term::Mul(xs) => {
            if xs.len() > 0 {
                let (u, z1) = z.term(xs[0])->Ok_0;
                lemma_fold_grows(z1, false, xs, 1, u);
                lemma_grows_chain(z1, z1.fold(false, xs, 1, u)->Ok_0.1, end);
                lemma_term_means(z, xs[0], end, env, v);
                lemma_one_item(z, xs, end, env, v);
                lemma_fold_means(z1, false, xs, 1, u, end, env, v);
            }
            lemma_list_means(z, false, xs, end, env, v);
        },
        Term::Sub(a, b) | Term::Div(a, b) => {
            lemma_both_within(z, *a, *b, end);
            lemma_term_means(z, *a, end, env, v);
            lemma_term_means(z.term(*a)->Ok_0.1, *b, end, env, v);
            lemma_operation_means(z, t, *a, *b, end, env, v);
        },
        Term::Mod(a, b) => {
            if mod_is_idle(*a, *b, z.hints) {
                lemma_term_grows(z, *a);
                lemma_grows_chain(z, z.term(*a)->Ok_0.1, end);
                lemma_term_means(z, *a, end, env, v);
                lemma_idle_means(z, *a, *b, end, env, v);
            } else {
                lemma_both_within(z, *a, *b, end);
                lemma_term_means(z, *a, end, env, v);
                lemma_term_means(z.term(*a)->Ok_0.1, *b, end, env, v);
                lemma_operation_means(z, t, *a, *b, end, env, v);
            }
        },
        Term::Ite(c, a, b) => {
            let z1 = z.formula(*c)->Ok_0.1;
            let z2 = z1.term(*a)->Ok_0.1;
            lemma_both_within(z1, *a, *b, end);
            lemma_term_grows(z1, *a);
            lemma_grows_chain(z1, z2, end);
            lemma_formula_means(z, *c, end, env, v);
            lemma_term_means(z1, *a, end, env, v);
            lemma_term_means(z2, *b, end, env, v);
            lemma_choice_means(z, *c, *a, *b, end, env, v);
        },
    }
}

/// The sum or the product of terms.
spec fn folded(sum: bool, xs: Seq<Term>, env: spec_fn(Seq<char>) -> int) -> int {
    if sum {
        sum_value(xs, env)
    } else {
        product_value(xs, env)
    }
}

/// What has been taken together so far has its value.
#[verifier::opaque]
spec fn taken_means(
    xs: Seq<Term>,
    sum: bool,
    i: int,
    acc: SmtTerm,
    env: spec_fn(Seq<char>) -> int,
    v: spec_fn(int) -> int,
) -> bool {
    &&& smt_value(acc, v) == folded(sum, xs.take(i), env)
    &&& all_sorts_kept(xs.take(i), env)
}

/// All operands taken together have their value.
spec fn rest_means(
    z: SmtV,
    sum: bool,
    xs: Seq<Term>,
    i: int,
    acc: SmtTerm,
    env: spec_fn(Seq<char>) -> int,
    v: spec_fn(int) -> int,
) -> bool {
    match z.fold(sum, xs, i, acc) {
        Ok((u, z2)) => {
            &&& smt_value(u, v) == folded(sum, xs, env)
            &&& all_sorts_kept(xs, env)
            &&& sound(z, v) ==> sound(z2, v)
        },
        Err(_) => true,
    }
}

proof fn lemma_one_item(z: SmtV, xs: Seq<Term>, end: SmtV, env: spec_fn(Seq<char>) -> int, v: spec_fn(int) -> int)
    requires
        xs.len() > 0,
        z.term(xs[0]) is Ok,
        means_term(z, xs[0], env, v),
    ensures
        taken_means(xs, true, 1, z.term(xs[0])->Ok_0.0, env, v),
        taken_means(xs, false, 1, z.term(xs[0])->Ok_0.0, env, v),
{
    reveal(means_term);
    reveal(taken_means);
    let one = xs.take(1);
    assert(one.drop_last().len() == 0);
    assert(one.last() == xs[0]);
    assert(sum_value(one.drop_last(), env) == 0);
    assert(product_value(one.drop_last(), env) == 1);
    assert(all_sorts_kept(one.drop_last(), env));
}

proof fn lemma_next_item(
    z: SmtV,
    sum: bool,
    xs: Seq<Term>,
    i: int,
    acc: SmtTerm,
    end: SmtV,
    env: spec_fn(Seq<char>) -> int,
    v: spec_fn(int) -> int,
)
    requires
        0 <= i < xs.len(),
        z.term(xs[i]) is Ok,
        means_term(z, xs[i], env, v),
        taken_means(xs, sum, i, acc, env, v),
    ensures
        taken_means(xs, sum, i + 1, grown(sum, acc, z.term(xs[i])->Ok_0.0), env, v),
        sound(z, v) ==> sound(
            z.term(xs[i])->Ok_0.1,
            v,
        ),
{
    reveal(means_term);
    reveal(taken_means);
    assert(xs.take(i + 1).drop_last() =~= xs.take(i));
    assert(xs.take(i + 1).last() == xs[i]);
}

proof fn lemma_fold_means(
    z: SmtV,
    sum: bool,
    xs: Seq<Term>,
    i: int,
    acc: SmtTerm,
    end: SmtV,
    env: spec_fn(Seq<char>) -> int,
    v: spec_fn(int) -> int,
)
    requires
        0 <= i <= xs.len(),
        z.fold(sum, xs, i, acc) is Ok,
        grows(z.fold(sum, xs, i, acc)->Ok_0.1, end),
        fits(end, env),
        matching(end.vars, env, v),
        taken_means(xs, sum, i, acc, env, v),
    ensures
        rest_means(z, sum, xs, i, acc, env, v),
    decreases xs, xs.len() - i,
{
    if i < xs.len() {
        let (u, z1) = z.term(xs[i])->Ok_0;
        let acc1 = grown(sum, acc, u);
        lemma_fold_grows(z1, sum, xs, i + 1, acc1);
        lemma_grows_chain(z1, z1.fold(sum, xs, i + 1, acc1)->Ok_0.1, end);
        lemma_term_means(z, xs[i], end, env, v);
        lemma_next_item(z, sum, xs, i, acc, end, env, v);
        lemma_fold_means(z1, sum, xs, i + 1, acc1, end, env, v);
    } else {
        reveal(taken_means);
        assert(xs.take(i) =~= xs);
    }
}

proof fn lemma_formula_means(z: SmtV, f: Formula, end: SmtV, env: spec_fn(Seq<char>) -> int, v: spec_fn(int) -> int)
    requires
        z.formula(f) is Ok,
        grows(z.formula(f)->Ok_0.1, end),
        fits(end, env),
        matching(end.vars, env, v),
    ensures
        means_formula(z, f, env, v),
    decreases f, 0int,
{
    reveal(means_formula);
    reveal(means_term);
    match f {
        Formula::Bool(_) => {},
        Formula::Not(a) => lemma_formula_means(z, *a, end, env, v),
        Formula::And(fs) => {
            lemma_all_means(z, fs, 0, seq![], end, env, v);
            let cs = z.all(fs, 0, seq![])->Ok_0.0;
            lemma_lists_agree(cs, fs, v, env);
        },
        Formula::Or(fs) => {
            lemma_all_means(z, fs, 0, seq![], end, env, v);
            let cs = z.all(fs, 0, seq![])->Ok_0.0;
            lemma_lists_agree(cs, fs, v, env);
        },
        Formula::Range { value: t, min, max, .. } => {
            lemma_term_means(z, t, end, env, v);
            let s = z.term(t)->Ok_0.0;
            let low = SmtCond::Ge(s, SmtTerm::Num(min));
            let high = SmtCond::Le(s, SmtTerm::Num(max));
            assert(smt_value(SmtTerm::Num(min), v) == min);
            assert(smt_value(SmtTerm::Num(max), v) == max);
            assert(smt_holds(low, v) == (smt_value(s, v) >= min));
            assert(smt_holds(high, v) == (smt_value(s, v) <= max));
            assert(smt_holds(SmtCond::Both(Box::new(low), Box::new(high)), v) == (smt_holds(low, v)
                && smt_holds(high, v)));
        },
        _ => {
            let (a, b) = sides(f);
            let (s, za) = z.term(a)->Ok_0;
            let (s2, zb) = za.term(b)->Ok_0;
            lemma_term_grows(za, b);
            lemma_grows_chain(za, zb, end);
            lemma_term_means(z, a, end, env, v);
            lemma_term_means(za, b, end, env, v);
            assert(smt_holds(compared(f, s, s2), v) == holds(f, env));
        },
    }
}

proof fn lemma_lists_agree(
    cs: Seq<SmtCond>,
    fs: Seq<Formula>,
    v: spec_fn(int) -> int,
    env: spec_fn(Seq<char>) -> int,
)
    requires
        cs.len() == fs.len(),
        forall|k: int|
            0 <= k < fs.len() ==> smt_holds(#[trigger] cs[k], v) == holds(#[trigger] fs[k], env),
    ensures
        every_cond(cs, v) == all_hold(fs, env),
        some_cond(cs, v) == some_holds(fs, env),
    decreases cs.len(),
{
    if cs.len() > 0 {
        let k = fs.len() - 1;
        assert(smt_holds(cs[k], v) == holds(fs[k], env));
        let cs1 = cs.drop_last();
        let fs1 = fs.drop_last();
        assert forall|k: int| 0 <= k < fs1.len() implies smt_holds(#[trigger] cs1[k], v) == holds(
            #[trigger] fs1[k],
            env,
        ) by {
            assert(smt_holds(cs[k], v) == holds(fs[k], env));
        }
        lemma_lists_agree(cs1, fs1, v, env);
    }
}

proof fn lemma_all_means(
    z: SmtV,
    fs: Seq<Formula>,
    i: int,
    parts: Seq<SmtCond>,
    end: SmtV,
    env: spec_fn(Seq<char>) -> int,
    v: spec_fn(int) -> int,
)
    requires
        0 <= i <= fs.len(),
        parts.len() == i,
        z.all(fs, i, parts) is Ok,
        grows(z.all(fs, i, parts)->Ok_0.1, end),
        fits(end, env),
        matching(end.vars, env, v),
        forall|k: int|
            0 <= k < i ==> smt_holds(#[trigger] parts[k], v) == holds(
                #[trigger] fs[k],
                env,
            ),
        all_sorts_respected(fs.take(i), env),
    ensures
        all_sorts_respected(fs, env),
        z.all(fs, i, parts)->Ok_0.0.len() == fs.len(),
        forall|k: int|
            0 <= k < fs.len() ==> smt_holds(
                #[trigger] z.all(fs, i, parts)->Ok_0.0[k],
                v,
            ) == holds(#[trigger] fs[k], env),
        sound(z, v) ==> sound(
            z.all(fs, i, parts)->Ok_0.1,
            v,
        ),
    decreases fs, fs.len() - i,
{
    reveal(means_formula);
    if i < fs.len() {
        let (s, z1) = z.formula(fs[i])->Ok_0;
        lemma_all_grows(z1, fs, i + 1, parts.push(s));
        lemma_grows_chain(z1, z1.all(fs, i + 1, parts.push(s))->Ok_0.1, end);
        lemma_formula_means(z, fs[i], end, env, v);
        assert(fs.take(i + 1).drop_last() =~= fs.take(i));
        assert(fs.take(i + 1).last() == fs[i]);
        lemma_all_means(z1, fs, i + 1, parts.push(s), end, env, v);
    } else {
        assert(fs.take(i) =~= fs);
    }
}

/// The back end with the hints that a formula gives.
pub open spec fn prepared(z: SmtV, f: Formula) -> SmtV {
    SmtV { hints: ranged(f, preloaded(f, z.hints)), ..z }
}

/// The back end after the question whether a formula is satisfiable has been written.
pub open spec fn asked(z: SmtV, f: Formula) -> SmtV {
    let (c, z2) = prepared(z, f).formula(f)->Ok_0;
    SmtV { asserts: z2.asserts.push(c), ..z2 }
}

/// The script that asks whether a formula is satisfiable asserts, besides what has been asserted
/// before, just what the formula says: under every assignment within the sorts and the hints all
/// its conditions hold where the formula and the earlier conditions hold, and only there.
pub proof fn script_says_formula(
    z: SmtV,
    f: Formula,
    env: spec_fn(Seq<char>) -> int,
    v: spec_fn(int) -> int,
)
    requires
        prepared(z, f).formula(f) is Ok,
        fits(asked(z, f), env),
        matching(asked(z, f).vars, env, v),
    ensures
        script_with(written_by(z), f) == Ok::<Seq<char>, SolveError>(
            written_by(asked(z, f)).script(),
        ),
        sorts_respected(f, env),
        sound(asked(z, f), v) <==> sound(z, v) && holds(f, env),
{
    reveal(means_formula);
    reveal(sound);
    let z1 = prepared(z, f);
    let (c, z2) = z1.formula(f)->Ok_0;
    let end = asked(z, f);
    lemma_asked_text(z, f);
    assert(fits(z2, env)) by {
        reveal(fits);
    }
    lemma_grows_self(z2);
    lemma_formula_grows(z1, f);
    lemma_formula_means(z1, f, z2, env, v);
    if sound(end, v) {
        assert forall|i: int| 0 <= i < z2.asserts.len() implies smt_holds(
            #[trigger] z2.asserts[i],
            v,
        ) by {
            assert(end.asserts[i] == z2.asserts[i]);
        }
        lemma_sound_less(z1, z2, v);
        assert(smt_holds(end.asserts[z2.asserts.len() as int], v));
        assert forall|i: int| 0 <= i < z.asserts.len() implies smt_holds(
            #[trigger] z.asserts[i],
            v,
        ) by {
            assert(z1.asserts[i] == z.asserts[i]);
        }
    }
    if sound(z, v) && holds(f, env) {
        assert(sound(z1, v));
        assert forall|i: int| 0 <= i < end.asserts.len() implies smt_holds(
            #[trigger] end.asserts[i],
            v,
        ) by {
            if i < z2.asserts.len() {
                assert(end.asserts[i] == z2.asserts[i]);
            }
        }
    }
}

/// The question is written where the formula can be encoded, and only there, and its text is that
/// of the encoding.
pub proof fn lemma_asked_text(z: SmtV, f: Formula)
    ensures
        prepared(z, f).formula(f) is Ok <==> script_with(written_by(z), f) is Ok,
        prepared(z, f).formula(f) is Ok ==> script_with(written_by(z), f) == Ok::<
            Seq<char>,
            SolveError,
        >(written_by(asked(z, f)).script()),
{
    let z1 = prepared(z, f);
    text_is_of_encoding(z1, f);
    if let Ok((c, z2)) = z1.formula(f) {
        let end = asked(z, f);
        assert(written_by(end).asserts =~= written_by(z2).asserts.push(cond_script(c)));
    }
}

} // verus!
