//! A script has a model where the formula has a solution, and only there.

use vstd::prelude::*;
use crate::checker::solver::smt::{
    closed, closed_cond, closed_conds, closed_term, compared, grown, range_conds, refuted, safe, safe_cond,
    safe_conds, safe_term, sides, smt_holds, smt_value, sound, witnessed, written_by, SmtCond, SmtTerm, SmtV,
};
use crate::checker::solver::smt_laws::{
    all_sorts_kept, all_sorts_respected, asked, fits, lemma_asked_text, of_sort, prepared,
    script_says_formula, sorts_kept, sorts_respected,
};
use crate::checker::solver::z3::{
    empty_z3, hinted, merged_range, mod_is_idle, place_from, preloaded, preloaded_from, ranged,
    ranged_from, script_with,
};
use crate::checker::symbolic::expr::{Formula, SymType, Term};
use crate::checker::symbolic::meaning::{all_hold, holds, lemma_all_index, value};
use crate::checker::symbolic::range::{respects_hints, Hints};

verus! {

/// Nothing declared, nothing asserted.
pub open spec fn empty_smt() -> SmtV {
    SmtV { vars: seq![], asserts: seq![], hints: Map::empty() }
}

/// No name is declared twice.
spec fn distinct_names(vars: Seq<(Seq<char>, SymType)>) -> bool {
    forall|i: int, j: int|
        0 <= i < j < vars.len() ==> (#[trigger] vars[i]).0 != (#[trigger] vars[j]).0
}

/// The values of the declared variables lie within their sorts and hints.
spec fn within(z: SmtV, v: spec_fn(int) -> int) -> bool {
    forall|i: int|
        0 <= i < z.vars.len() ==> of_sort(v(i), (#[trigger] z.vars[i]).1) && (
        z.hints.contains_key(z.vars[i].0) ==> z.hints[z.vars[i].0].0 <= v(i)
            <= z.hints[z.vars[i].0].1)
}

/// What has been declared is declared once, used only where it is declared, and bounded.
#[verifier::opaque]
spec fn good(z: SmtV, v: spec_fn(int) -> int) -> bool {
    &&& distinct_names(z.vars)
    &&& closed(z)
    &&& sound(z, v) ==> within(z, v)
}

/// What follows has at least as many variables and the same hints.
spec fn after(z: SmtV, z2: SmtV) -> bool {
    z.vars.len() <= z2.vars.len() && z.hints == z2.hints
}

proof fn lemma_closed_term(t: SmtTerm, n: int, m: int)
    requires
        closed_term(t, n),
        n <= m,
    ensures
        closed_term(t, m),
    decreases t,
{
    match t {
        SmtTerm::Num(_) => {},
        SmtTerm::Var(_) => {},
        SmtTerm::Neg(a) => lemma_closed_term(*a, n, m),
        SmtTerm::Plus(a, b) | SmtTerm::Times(a, b) | SmtTerm::Minus(a, b) | SmtTerm::Div(
            a,
            b,
        ) | SmtTerm::Mod(a, b) => {
            lemma_closed_term(*a, n, m);
            lemma_closed_term(*b, n, m);
        },
        SmtTerm::Ite(c, a, b) => {
            lemma_closed_cond(*c, n, m);
            lemma_closed_term(*a, n, m);
            lemma_closed_term(*b, n, m);
        },
    }
}

proof fn lemma_closed_cond(c: SmtCond, n: int, m: int)
    requires
        closed_cond(c, n),
        n <= m,
    ensures
        closed_cond(c, m),
    decreases c,
{
    match c {
        SmtCond::Truth(_) => {},
        SmtCond::Not(a) => lemma_closed_cond(*a, n, m),
        SmtCond::All(cs) => lemma_closed_conds(cs, n, m),
        SmtCond::Any(cs) => lemma_closed_conds(cs, n, m),
        SmtCond::Both(a, b) => {
            lemma_closed_cond(*a, n, m);
            lemma_closed_cond(*b, n, m);
        },
        SmtCond::Eq(a, b) | SmtCond::Distinct(a, b) | SmtCond::Le(a, b) | SmtCond::Lt(
            a,
            b,
        ) | SmtCond::Ge(a, b) | SmtCond::Gt(a, b) => {
            lemma_closed_term(a, n, m);
            lemma_closed_term(b, n, m);
        },
    }
}

proof fn lemma_closed_conds(cs: Seq<SmtCond>, n: int, m: int)
    requires
        closed_conds(cs, n),
        n <= m,
    ensures
        closed_conds(cs, m),
    decreases cs,
{
    if cs.len() > 0 {
        lemma_closed_conds(cs.drop_last(), n, m);
        lemma_closed_cond(cs.last(), n, m);
    }
}

proof fn lemma_place(vars: Seq<(Seq<char>, SymType)>, i: int, name: Seq<char>)
    requires
        0 <= i,
    ensures
        match place_from(vars, i, name) {
            Some(k) => i <= k < vars.len() && vars[k].0 == name,
            None => forall|k: int| i <= k < vars.len() ==> (#[trigger] vars[k]).0 != name,
        },
    decreases vars.len() - i,
{
    if i < vars.len() && vars[i].0 != name {
        lemma_place(vars, i + 1, name);
    }
}

proof fn lemma_var_good(z: SmtV, name: Seq<char>, sort: SymType, v: spec_fn(int) -> int)
    requires
        good(z, v),
        z.var(name, sort) is Ok,
    ensures
        ({
            let (u, z2) = z.var(name, sort)->Ok_0;
            good(z2, v) && after(z, z2) && closed_term(u, z2.vars.len() as int)
        }),
{
    reveal(good);
    reveal(sound);
    reveal(closed);
    lemma_place(z.vars, 0, name);
    let (u, z2) = z.var(name, sort)->Ok_0;
    if place_from(z.vars, 0, name) is None {
        let i = z.vars.len() as int;
        let range = merged_range(z.hint(name), sort);
        let conds = range_conds(i, range);
        assert forall|k: int| 0 <= k < z2.asserts.len() implies closed_cond(
            #[trigger] z2.asserts[k],
            z2.vars.len() as int,
        ) by {
            if k < z.asserts.len() {
                assert(z2.asserts[k] == z.asserts[k]);
                lemma_closed_cond(z.asserts[k], i, i + 1);
            } else {
                assert(z2.asserts[k] == conds[k - z.asserts.len()]);
                let (lo, hi) = range->Some_0;
                assert(closed_term(SmtTerm::Var(i), i + 1));
                assert(closed_term(SmtTerm::Num(lo), i + 1));
                assert(closed_term(SmtTerm::Num(hi), i + 1));
            }
        }
        if sound(z2, v) {
            assert forall|k: int| 0 <= k < z.asserts.len() implies smt_holds(
                #[trigger] z.asserts[k],
                v,
            ) by {
                assert(z2.asserts[k] == z.asserts[k]);
            }
            assert(sound(z, v));
            assert forall|j: int| 0 <= j < z2.vars.len() implies of_sort(
                v(j),
                (#[trigger] z2.vars[j]).1,
            ) && (z2.hints.contains_key(z2.vars[j].0) ==> z2.hints[z2.vars[j].0].0 <= v(j)
                <= z2.hints[z2.vars[j].0].1) by {
                if j < i {
                    assert(z2.vars[j] == z.vars[j]);
                } else if let Some((lo, hi)) = range {
                    let n = z.asserts.len() as int;
                    assert(z2.asserts[n] == conds[0]);
                    assert(z2.asserts[n + 1] == conds[1]);
                    assert(smt_value(SmtTerm::Var(i), v) == v(i));
                    assert(smt_value(SmtTerm::Num(lo), v) == lo);
                    assert(smt_value(SmtTerm::Num(hi), v) == hi);
                    assert(lo <= v(i) <= hi);
                }
            }
        }
    }
}

proof fn lemma_term_good(z: SmtV, t: Term, v: spec_fn(int) -> int)
    requires
        good(z, v),
        z.term(t) is Ok,
    ensures
        ({
            let (u, z2) = z.term(t)->Ok_0;
            good(z2, v) && after(z, z2) && closed_term(u, z2.vars.len() as int)
        }),
    decreases t, 0int,
{
    match t {
        Term::Int(_) => {},
        Term::Var(name, sort) => lemma_var_good(z, name, sort, v),
        Term::Neg(a) => lemma_term_good(z, *a, v),
        Term::Add(xs) => {
            if xs.len() > 0 {
                lemma_term_good(z, xs[0], v);
                let (u, z1) = z.term(xs[0])->Ok_0;
                lemma_fold_good(z1, true, xs, 1, u, v);
            }
        },
        Term::Mul(xs) => {
            if xs.len() > 0 {
                lemma_term_good(z, xs[0], v);
                let (u, z1) = z.term(xs[0])->Ok_0;
                lemma_fold_good(z1, false, xs, 1, u, v);
            }
        },
        Term::Sub(a, b) | Term::Div(a, b) => {
            lemma_term_good(z, *a, v);
            let (u, za) = z.term(*a)->Ok_0;
            lemma_term_good(za, *b, v);
            let (w, zb) = za.term(*b)->Ok_0;
            lemma_closed_term(u, za.vars.len() as int, zb.vars.len() as int);
        },
        Term::Mod(a, b) => {
            lemma_term_good(z, *a, v);
            if !mod_is_idle(*a, *b, z.hints) {
                let (u, za) = z.term(*a)->Ok_0;
                lemma_term_good(za, *b, v);
                let (w, zb) = za.term(*b)->Ok_0;
                lemma_closed_term(u, za.vars.len() as int, zb.vars.len() as int);
            }
        },
        Term::Ite(c, a, b) => {
            lemma_formula_good(z, *c, v);
            let (cs, z1) = z.formula(*c)->Ok_0;
            lemma_term_good(z1, *a, v);
            let (u, z2) = z1.term(*a)->Ok_0;
            lemma_term_good(z2, *b, v);
            let (w, z3) = z2.term(*b)->Ok_0;
            lemma_closed_cond(cs, z1.vars.len() as int, z3.vars.len() as int);
            lemma_closed_term(u, z2.vars.len() as int, z3.vars.len() as int);
        },
    }
}

proof fn lemma_fold_good(
    z: SmtV,
    sum: bool,
    xs: Seq<Term>,
    i: int,
    acc: SmtTerm,
    v: spec_fn(int) -> int,
)
    requires
        good(z, v),
        closed_term(acc, z.vars.len() as int),
        z.fold(sum, xs, i, acc) is Ok,
    ensures
        ({
            let (u, z2) = z.fold(sum, xs, i, acc)->Ok_0;
            good(z2, v) && after(z, z2) && closed_term(u, z2.vars.len() as int)
        }),
    decreases xs, xs.len() - i,
{
    if 0 <= i < xs.len() {
        lemma_term_good(z, xs[i], v);
        let (u, z1) = z.term(xs[i])->Ok_0;
        lemma_closed_term(acc, z.vars.len() as int, z1.vars.len() as int);
        lemma_fold_good(z1, sum, xs, i + 1, grown(sum, acc, u), v);
    }
}

proof fn lemma_formula_good(z: SmtV, f: Formula, v: spec_fn(int) -> int)
    requires
        good(z, v),
        z.formula(f) is Ok,
    ensures
        ({
            let (c, z2) = z.formula(f)->Ok_0;
            good(z2, v) && after(z, z2) && closed_cond(c, z2.vars.len() as int)
        }),
    decreases f, 0int,
{
    match f {
        Formula::Bool(_) => {},
        Formula::Not(a) => lemma_formula_good(z, *a, v),
        Formula::And(fs) => lemma_all_good(z, fs, 0, seq![], v),
        Formula::Or(fs) => lemma_all_good(z, fs, 0, seq![], v),
        Formula::Range { value: t, min, max, .. } => {
            lemma_term_good(z, t, v);
            let (u, z2) = z.term(t)->Ok_0;
            let n = z2.vars.len() as int;
            assert(closed_term(SmtTerm::Num(min), n));
            assert(closed_term(SmtTerm::Num(max), n));
            assert(closed_cond(SmtCond::Ge(u, SmtTerm::Num(min)), n));
            assert(closed_cond(SmtCond::Le(u, SmtTerm::Num(max)), n));
        },
        _ => {
            let (a, b) = sides(f);
            lemma_term_good(z, a, v);
            let (s, za) = z.term(a)->Ok_0;
            lemma_term_good(za, b, v);
            let (s2, zb) = za.term(b)->Ok_0;
            lemma_closed_term(s, za.vars.len() as int, zb.vars.len() as int);
            assert(closed_cond(compared(f, s, s2), zb.vars.len() as int));
        },
    }
}

proof fn lemma_all_good(
    z: SmtV,
    fs: Seq<Formula>,
    i: int,
    parts: Seq<SmtCond>,
    v: spec_fn(int) -> int,
)
    requires
        good(z, v),
        closed_conds(parts, z.vars.len() as int),
        z.all(fs, i, parts) is Ok,
    ensures
        ({
            let (cs, z2) = z.all(fs, i, parts)->Ok_0;
            good(z2, v) && after(z, z2) && closed_conds(cs, z2.vars.len() as int)
        }),
    decreases fs, fs.len() - i,
{
    if 0 <= i < fs.len() {
        lemma_formula_good(z, fs[i], v);
        let (s, z1) = z.formula(fs[i])->Ok_0;
        lemma_closed_conds(parts, z.vars.len() as int, z1.vars.len() as int);
        assert(parts.push(s).drop_last() =~= parts);
        lemma_all_good(z1, fs, i + 1, parts.push(s), v);
    }
}

/// The declared variables have values of their sorts.
spec fn of_sorts(vars: Seq<(Seq<char>, SymType)>, env: spec_fn(Seq<char>) -> int) -> bool {
    forall|i: int| 0 <= i < vars.len() ==> of_sort(env((#[trigger] vars[i]).0), vars[i].1)
}

proof fn lemma_term_sorts(z: SmtV, t: Term, env: spec_fn(Seq<char>) -> int)
    requires
        z.term(t) is Ok,
        of_sorts(z.vars, env),
        sorts_kept(t, env),
    ensures
        of_sorts(z.term(t)->Ok_0.1.vars, env),
    decreases t, 0int,
{
    match t {
        Term::Int(_) => {},
        Term::Var(_, _) => {},
        Term::Neg(a) => lemma_term_sorts(z, *a, env),
        Term::Add(xs) => {
            if xs.len() > 0 {
                lemma_sorts_at(xs, 0, env);
                lemma_term_sorts(z, xs[0], env);
                let (u, z1) = z.term(xs[0])->Ok_0;
                lemma_fold_sorts(z1, true, xs, 1, u, env);
            }
        },
        Term::Mul(xs) => {
            if xs.len() > 0 {
                lemma_sorts_at(xs, 0, env);
                lemma_term_sorts(z, xs[0], env);
                let (u, z1) = z.term(xs[0])->Ok_0;
                lemma_fold_sorts(z1, false, xs, 1, u, env);
            }
        },
        Term::Sub(a, b) | Term::Div(a, b) => {
            lemma_term_sorts(z, *a, env);
            lemma_term_sorts(z.term(*a)->Ok_0.1, *b, env);
        },
        Term::Mod(a, b) => {
            lemma_term_sorts(z, *a, env);
            if !mod_is_idle(*a, *b, z.hints) {
                lemma_term_sorts(z.term(*a)->Ok_0.1, *b, env);
            }
        },
        Term::Ite(c, a, b) => {
            lemma_formula_sorts(z, *c, env);
            let z1 = z.formula(*c)->Ok_0.1;
            lemma_term_sorts(z1, *a, env);
            lemma_term_sorts(z1.term(*a)->Ok_0.1, *b, env);
        },
    }
}

proof fn lemma_sorts_at(xs: Seq<Term>, i: int, env: spec_fn(Seq<char>) -> int)
    requires
        0 <= i < xs.len(),
        all_sorts_kept(xs, env),
    ensures
        sorts_kept(xs[i], env),
    decreases xs.len(),
{
    if i < xs.len() - 1 {
        lemma_sorts_at(xs.drop_last(), i, env);
    }
}

proof fn lemma_fold_sorts(
    z: SmtV,
    sum: bool,
    xs: Seq<Term>,
    i: int,
    acc: SmtTerm,
    env: spec_fn(Seq<char>) -> int,
)
    requires
        z.fold(sum, xs, i, acc) is Ok,
        of_sorts(z.vars, env),
        all_sorts_kept(xs, env),
    ensures
        of_sorts(z.fold(sum, xs, i, acc)->Ok_0.1.vars, env),
    decreases xs, xs.len() - i,
{
    if 0 <= i < xs.len() {
        lemma_sorts_at(xs, i, env);
        lemma_term_sorts(z, xs[i], env);
        let (u, z1) = z.term(xs[i])->Ok_0;
        lemma_fold_sorts(z1, sum, xs, i + 1, grown(sum, acc, u), env);
    }
}

proof fn lemma_formula_sorts(z: SmtV, f: Formula, env: spec_fn(Seq<char>) -> int)
    requires
        z.formula(f) is Ok,
        of_sorts(z.vars, env),
        sorts_respected(f, env),
    ensures
        of_sorts(z.formula(f)->Ok_0.1.vars, env),
    decreases f, 0int,
{
    match f {
        Formula::Bool(_) => {},
        Formula::Not(a) => lemma_formula_sorts(z, *a, env),
        Formula::And(fs) => lemma_all_sorts(z, fs, 0, seq![], env),
        Formula::Or(fs) => lemma_all_sorts(z, fs, 0, seq![], env),
        Formula::Range { value: t, .. } => lemma_term_sorts(z, t, env),
        _ => {
            let (a, b) = sides(f);
            lemma_term_sorts(z, a, env);
            lemma_term_sorts(z.term(a)->Ok_0.1, b, env);
        },
    }
}

proof fn lemma_respected_at(fs: Seq<Formula>, i: int, env: spec_fn(Seq<char>) -> int)
    requires
        0 <= i < fs.len(),
        all_sorts_respected(fs, env),
    ensures
        sorts_respected(fs[i], env),
    decreases fs.len(),
{
    if i < fs.len() - 1 {
        lemma_respected_at(fs.drop_last(), i, env);
    }
}

proof fn lemma_all_sorts(
    z: SmtV,
    fs: Seq<Formula>,
    i: int,
    parts: Seq<SmtCond>,
    env: spec_fn(Seq<char>) -> int,
)
    requires
        z.all(fs, i, parts) is Ok,
        of_sorts(z.vars, env),
        all_sorts_respected(fs, env),
    ensures
        of_sorts(z.all(fs, i, parts)->Ok_0.1.vars, env),
    decreases fs, fs.len() - i,
{
    if 0 <= i < fs.len() {
        lemma_respected_at(fs, i, env);
        lemma_formula_sorts(z, fs[i], env);
        let (s, z1) = z.formula(fs[i])->Ok_0;
        lemma_all_sorts(z1, fs, i + 1, parts.push(s), env);
    }
}

/// No hint is empty.
spec fn proper(h: Hints) -> bool {
    forall|name: Seq<char>| #[trigger] h.contains_key(name) ==> h[name].0 <= h[name].1
}

/// What hints are taken from holds.
spec fn follow(h: Hints, h2: Hints, truth: bool, env: spec_fn(Seq<char>) -> int) -> bool {
    &&& proper(h) ==> proper(h2)
    &&& truth && respects_hints(h, env) ==> respects_hints(h2, env)
}

proof fn lemma_hinted_follows(
    h: Hints,
    t: Term,
    min: int,
    max: int,
    truth: bool,
    env: spec_fn(Seq<char>) -> int,
)
    requires
        truth ==> min <= value(t, env) <= max,
    ensures
        follow(h, hinted(h, t, min, max), truth, env),
{
    let h2 = hinted(h, t, min, max);
    if let Term::Var(name, _) = t {
        if proper(h) {
            assert forall|n: Seq<char>| #[trigger] h2.contains_key(n) implies h2[n].0
                <= h2[n].1 by {
                if n != name {
                    assert(h.contains_key(n));
                } else if h.contains_key(n) {
                    assert(h[n].0 <= h[n].1);
                }
            }
        }
        if truth && respects_hints(h, env) {
            assert(value(t, env) == env(name));
            assert forall|n: Seq<char>| #[trigger] h2.contains_key(n) implies h2[n].0 <= env(n)
                <= h2[n].1 by {
                if n != name {
                    assert(h.contains_key(n));
                } else if h.contains_key(n) {
                    assert(h[n].0 <= env(n) <= h[n].1);
                }
            }
        }
    }
}

proof fn lemma_preloaded_follows(f: Formula, h: Hints, env: spec_fn(Seq<char>) -> int)
    ensures
        follow(h, preloaded(f, h), holds(f, env), env),
    decreases f, 0int,
{
    match f {
        Formula::Range { value: t, min, max, .. } => {
            lemma_hinted_follows(h, t, min, max, holds(f, env), env);
        },
        Formula::Eq(a, b) => {
            let first = match b {
                Term::Int(k) => hinted(h, a, k, k),
                _ => h,
            };
            if let Term::Int(k) = b {
                assert(value(b, env) == k);
                lemma_hinted_follows(h, a, k, k, holds(f, env), env);
            }
            if let Term::Int(k) = a {
                assert(value(a, env) == k);
                lemma_hinted_follows(first, b, k, k, holds(f, env), env);
            }
        },
        Formula::And(fs) => {
            lemma_all_index(fs, env);
            lemma_preloaded_all_follow(fs, 0, h, all_hold(fs, env), env);
        },
        _ => {},
    }
}

proof fn lemma_preloaded_all_follow(
    fs: Seq<Formula>,
    i: int,
    h: Hints,
    truth: bool,
    env: spec_fn(Seq<char>) -> int,
)
    requires
        0 <= i,
        truth ==> forall|k: int| 0 <= k < fs.len() ==> holds(#[trigger] fs[k], env),
    ensures
        follow(h, preloaded_from(fs, i, h), truth, env),
    decreases fs, fs.len() - i,
{
    if i < fs.len() {
        lemma_preloaded_follows(fs[i], h, env);
        lemma_preloaded_all_follow(fs, i + 1, preloaded(fs[i], h), truth, env);
    }
}

proof fn lemma_ranged_follows(f: Formula, h: Hints, env: spec_fn(Seq<char>) -> int)
    ensures
        follow(h, ranged(f, h), holds(f, env), env),
    decreases f, 0int,
{
    match f {
        Formula::Range { value: t, min, max, .. } => {
            lemma_hinted_follows(h, t, min, max, holds(f, env), env);
        },
        Formula::And(fs) => {
            lemma_all_index(fs, env);
            lemma_ranged_all_follow(fs, 0, h, all_hold(fs, env), env);
        },
        _ => {},
    }
}

proof fn lemma_ranged_all_follow(
    fs: Seq<Formula>,
    i: int,
    h: Hints,
    truth: bool,
    env: spec_fn(Seq<char>) -> int,
)
    requires
        0 <= i,
        truth ==> forall|k: int| 0 <= k < fs.len() ==> holds(#[trigger] fs[k], env),
    ensures
        follow(h, ranged_from(fs, i, h), truth, env),
    decreases fs, fs.len() - i,
{
    if i < fs.len() {
        lemma_ranged_follows(fs[i], h, env);
        lemma_ranged_all_follow(fs, i + 1, ranged(fs[i], h), truth, env);
    }
}

/// A formula has a solution: values of the sorts of its variables under which it holds.
pub open spec fn solves(f: Formula, env: spec_fn(Seq<char>) -> int) -> bool {
    sorts_respected(f, env) && holds(f, env)
}

/// The values of the variables of a script, as values of names.
spec fn named(z: SmtV, v: spec_fn(int) -> int) -> spec_fn(Seq<char>) -> int {
    |name: Seq<char>|
        match place_from(z.vars, 0, name) {
            Some(i) => v(i),
            None => if z.hints.contains_key(name) {
                z.hints[name].0
            } else {
                0
            },
        }
}

/// The values of names, as values of the variables of a script.
spec fn numbered(z: SmtV, env: spec_fn(Seq<char>) -> int) -> spec_fn(int) -> int {
    |i: int|
        if 0 <= i < z.vars.len() {
            env(z.vars[i].0)
        } else {
            0
        }
}

proof fn lemma_start_good(f: Formula, v: spec_fn(int) -> int)
    ensures
        good(prepared(empty_smt(), f), v),
{
    reveal(good);
    reveal(closed);
}

/// A solution of the formula is a model of the script.
proof fn lemma_solution_is_model(f: Formula, env: spec_fn(Seq<char>) -> int)
    requires
        prepared(empty_smt(), f).formula(f) is Ok,
        solves(f, env),
    ensures
        sound(asked(empty_smt(), f), numbered(asked(empty_smt(), f), env)),
{
    let start = prepared(empty_smt(), f);
    let end = asked(empty_smt(), f);
    let v = numbered(end, env);
    lemma_preloaded_follows(f, Map::empty(), env);
    lemma_ranged_follows(f, preloaded(f, Map::empty()), env);
    lemma_formula_sorts(start, f, env);
    lemma_start_good(f, v);
    lemma_formula_good(start, f, v);
    assert(fits(end, env)) by {
        reveal(fits);
    }
    assert(sound(empty_smt(), v)) by {
        reveal(sound);
    }
    script_says_formula(empty_smt(), f, env, v);
}

/// A model of the script is a solution of the formula.
proof fn lemma_model_is_solution(f: Formula, v: spec_fn(int) -> int)
    requires
        prepared(empty_smt(), f).formula(f) is Ok,
        sound(asked(empty_smt(), f), v),
    ensures
        solves(f, named(asked(empty_smt(), f), v)),
{
    let start = prepared(empty_smt(), f);
    let (c, z2) = start.formula(f)->Ok_0;
    let end = asked(empty_smt(), f);
    let env = named(end, v);
    lemma_preloaded_follows(f, Map::empty(), env);
    lemma_ranged_follows(f, preloaded(f, Map::empty()), env);
    lemma_start_good(f, v);
    lemma_formula_good(start, f, v);
    reveal(good);
    assert(sound(z2, v)) by {
        reveal(sound);
        assert forall|i: int| 0 <= i < z2.asserts.len() implies smt_holds(
            #[trigger] z2.asserts[i],
            v,
        ) by {
            assert(end.asserts[i] == z2.asserts[i]);
        }
    }
    assert forall|i: int| 0 <= i < end.vars.len() implies v(i) == env(
        (#[trigger] end.vars[i]).0,
    ) by {
        lemma_place(end.vars, 0, end.vars[i].0);
        let k = place_from(end.vars, 0, end.vars[i].0)->Some_0;
        assert(k == i) by {
            if k < i {
                assert(z2.vars[k].0 != z2.vars[i].0);
            }
            if i < k {
                assert(z2.vars[i].0 != z2.vars[k].0);
            }
        }
    }
    assert forall|name: Seq<char>| #[trigger] end.hints.contains_key(name) implies
        end.hints[name].0 <= env(name) <= end.hints[name].1 by {
        lemma_place(end.vars, 0, name);
        if let Some(i) = place_from(end.vars, 0, name) {
            assert(z2.vars[i].0 == name);
        }
    }
    assert(fits(end, env)) by {
        reveal(fits);
    }
    assert(sound(empty_smt(), v)) by {
        reveal(sound);
    }
    script_says_formula(empty_smt(), f, env, v);
}

/// The script that asks whether a formula is satisfiable has a model iff the formula has a
/// solution. Every variable that the script asserts something about is declared in it.
pub proof fn script_has_model_iff_formula_has(f: Formula)
    requires
        prepared(empty_smt(), f).formula(f) is Ok,
    ensures
        (exists|env: spec_fn(Seq<char>) -> int| #[trigger] solves(f, env)) <==> (exists|
            v: spec_fn(int) -> int,
        | #[trigger]
            sound(asked(empty_smt(), f), v)),
        closed(asked(empty_smt(), f)),
{
    let end = asked(empty_smt(), f);
    if exists|env: spec_fn(Seq<char>) -> int| #[trigger] solves(f, env) {
        let env = choose|env: spec_fn(Seq<char>) -> int| #[trigger] solves(f, env);
        lemma_solution_is_model(f, env);
    }
    if exists|v: spec_fn(int) -> int| #[trigger] sound(end, v) {
        let v = choose|v: spec_fn(int) -> int| #[trigger] sound(end, v);
        lemma_model_is_solution(f, v);
    }
    let v = |i: int| 0int;
    let start = prepared(empty_smt(), f);
    lemma_start_good(f, v);
    lemma_formula_good(start, f, v);
    reveal(good);
    reveal(closed);
    let (c, z2) = start.formula(f)->Ok_0;
    assert forall|i: int| 0 <= i < end.asserts.len() implies closed_cond(
        #[trigger] end.asserts[i],
        end.vars.len() as int,
    ) by {
        if i < z2.asserts.len() {
            assert(end.asserts[i] == z2.asserts[i]);
        }
    }
}

/// Every divisor of a term is a number other than zero.
pub open spec fn steady_term(t: Term) -> bool
    decreases t,
{
    match t {
        Term::Int(_) => true,
        Term::Var(_, _) => true,
        Term::Neg(a) => steady_term(*a),
        Term::Add(xs) => steady_terms(xs),
        Term::Mul(xs) => steady_terms(xs),
        Term::Sub(a, b) => steady_term(*a) && steady_term(*b),
        Term::Div(a, b) => steady_term(*a) && *b is Int && *b != Term::Int(0),
        Term::Mod(a, b) => steady_term(*a) && *b is Int && *b != Term::Int(0),
        Term::Ite(c, a, b) => steady(*c) && steady_term(*a) && steady_term(*b),
    }
}

/// Every divisor of the terms is a number other than zero.
pub open spec fn steady_terms(xs: Seq<Term>) -> bool
    decreases xs,
{
    xs.len() == 0 || (steady_terms(xs.drop_last()) && steady_term(xs.last()))
}

/// Every divisor of a formula is a number other than zero.
pub open spec fn steady(f: Formula) -> bool
    decreases f,
{
    match f {
        Formula::Bool(_) => true,
        Formula::Not(a) => steady(*a),
        Formula::And(fs) => all_steady(fs),
        Formula::Or(fs) => all_steady(fs),
        Formula::Eq(a, b) => steady_term(a) && steady_term(b),
        Formula::Ne(a, b) => steady_term(a) && steady_term(b),
        Formula::Le(a, b) => steady_term(a) && steady_term(b),
        Formula::Lt(a, b) => steady_term(a) && steady_term(b),
        Formula::Ge(a, b) => steady_term(a) && steady_term(b),
        Formula::Gt(a, b) => steady_term(a) && steady_term(b),
        Formula::Range { value: t, .. } => steady_term(t),
    }
}

/// Every divisor of the formulas is a number other than zero.
pub open spec fn all_steady(fs: Seq<Formula>) -> bool
    decreases fs,
{
    fs.len() == 0 || (all_steady(fs.drop_last()) && steady(fs.last()))
}

proof fn lemma_var_safe(z: SmtV, name: Seq<char>, sort: SymType)
    requires
        safe(z),
        z.var(name, sort) is Ok,
    ensures
        safe(z.var(name, sort)->Ok_0.1),
        safe_term(z.var(name, sort)->Ok_0.0),
{
    reveal(safe);
    let z2 = z.var(name, sort)->Ok_0.1;
    if place_from(z.vars, 0, name) is None {
        let i = z.vars.len() as int;
        let range = merged_range(z.hint(name), sort);
        let conds = range_conds(i, range);
        assert forall|k: int| 0 <= k < z2.asserts.len() implies safe_cond(
            #[trigger] z2.asserts[k],
        ) by {
            if k < z.asserts.len() {
                assert(z2.asserts[k] == z.asserts[k]);
            } else {
                assert(z2.asserts[k] == conds[k - z.asserts.len()]);
                let (lo, hi) = range->Some_0;
                assert(safe_term(SmtTerm::Var(i)));
                assert(safe_term(SmtTerm::Num(lo)));
                assert(safe_term(SmtTerm::Num(hi)));
            }
        }
    }
}

proof fn lemma_term_safe(z: SmtV, t: Term)
    requires
        safe(z),
        steady_term(t),
        z.term(t) is Ok,
    ensures
        safe(z.term(t)->Ok_0.1),
        safe_term(z.term(t)->Ok_0.0),
        t is Int ==> z.term(t)->Ok_0.0 == SmtTerm::Num(t->Int_0),
    decreases t, 0int,
{
    match t {
        Term::Int(_) => {},
        Term::Var(name, sort) => lemma_var_safe(z, name, sort),
        Term::Neg(a) => lemma_term_safe(z, *a),
        Term::Add(xs) => {
            if xs.len() > 0 {
                lemma_steady_at(xs, 0);
                lemma_term_safe(z, xs[0]);
                let (u, z1) = z.term(xs[0])->Ok_0;
                lemma_fold_safe(z1, true, xs, 1, u);
            }
        },
        Term::Mul(xs) => {
            if xs.len() > 0 {
                lemma_steady_at(xs, 0);
                lemma_term_safe(z, xs[0]);
                let (u, z1) = z.term(xs[0])->Ok_0;
                lemma_fold_safe(z1, false, xs, 1, u);
            }
        },
        Term::Sub(a, b) | Term::Div(a, b) => {
            lemma_term_safe(z, *a);
            lemma_term_safe(z.term(*a)->Ok_0.1, *b);
        },
        Term::Mod(a, b) => {
            lemma_term_safe(z, *a);
            if !mod_is_idle(*a, *b, z.hints) {
                lemma_term_safe(z.term(*a)->Ok_0.1, *b);
            }
        },
        Term::Ite(c, a, b) => {
            lemma_formula_safe(z, *c);
            let z1 = z.formula(*c)->Ok_0.1;
            lemma_term_safe(z1, *a);
            lemma_term_safe(z1.term(*a)->Ok_0.1, *b);
        },
    }
}

proof fn lemma_steady_at(xs: Seq<Term>, i: int)
    requires
        0 <= i < xs.len(),
        steady_terms(xs),
    ensures
        steady_term(xs[i]),
    decreases xs.len(),
{
    if i < xs.len() - 1 {
        lemma_steady_at(xs.drop_last(), i);
    }
}

proof fn lemma_fold_safe(z: SmtV, sum: bool, xs: Seq<Term>, i: int, acc: SmtTerm)
    requires
        safe(z),
        safe_term(acc),
        steady_terms(xs),
        z.fold(sum, xs, i, acc) is Ok,
    ensures
        safe(z.fold(sum, xs, i, acc)->Ok_0.1),
        safe_term(z.fold(sum, xs, i, acc)->Ok_0.0),
    decreases xs, xs.len() - i,
{
    if 0 <= i < xs.len() {
        lemma_steady_at(xs, i);
        lemma_term_safe(z, xs[i]);
        let (u, z1) = z.term(xs[i])->Ok_0;
        lemma_fold_safe(z1, sum, xs, i + 1, grown(sum, acc, u));
    }
}

proof fn lemma_formula_safe(z: SmtV, f: Formula)
    requires
        safe(z),
        steady(f),
        z.formula(f) is Ok,
    ensures
        safe(z.formula(f)->Ok_0.1),
        safe_cond(z.formula(f)->Ok_0.0),
    decreases f, 0int,
{
    match f {
        Formula::Bool(_) => {},
        Formula::Not(a) => lemma_formula_safe(z, *a),
        Formula::And(fs) => lemma_all_safe(z, fs, 0, seq![]),
        Formula::Or(fs) => lemma_all_safe(z, fs, 0, seq![]),
        Formula::Range { value: t, min, max, .. } => {
            lemma_term_safe(z, t);
            let (u, z2) = z.term(t)->Ok_0;
            assert(safe_term(SmtTerm::Num(min)));
            assert(safe_term(SmtTerm::Num(max)));
            assert(safe_cond(SmtCond::Ge(u, SmtTerm::Num(min))));
            assert(safe_cond(SmtCond::Le(u, SmtTerm::Num(max))));
        },
        _ => {
            let (a, b) = sides(f);
            lemma_term_safe(z, a);
            let (s, za) = z.term(a)->Ok_0;
            lemma_term_safe(za, b);
            let (s2, zb) = za.term(b)->Ok_0;
            assert(safe_cond(compared(f, s, s2)));
        },
    }
}

proof fn lemma_all_steady_at(fs: Seq<Formula>, i: int)
    requires
        0 <= i < fs.len(),
        all_steady(fs),
    ensures
        steady(fs[i]),
    decreases fs.len(),
{
    if i < fs.len() - 1 {
        lemma_all_steady_at(fs.drop_last(), i);
    }
}

proof fn lemma_all_safe(z: SmtV, fs: Seq<Formula>, i: int, parts: Seq<SmtCond>)
    requires
        safe(z),
        all_steady(fs),
        safe_conds(parts),
        z.all(fs, i, parts) is Ok,
    ensures
        safe(z.all(fs, i, parts)->Ok_0.1),
        safe_conds(z.all(fs, i, parts)->Ok_0.0),
    decreases fs, fs.len() - i,
{
    if 0 <= i < fs.len() {
        lemma_all_steady_at(fs, i);
        lemma_formula_safe(z, fs[i]);
        let (s, z1) = z.formula(fs[i])->Ok_0;
        assert(parts.push(s).drop_last() =~= parts);
        lemma_all_safe(z1, fs, i + 1, parts.push(s));
    }
}

/// What Z3 decides of the script of a formula is so of the formula: where it finds no model, the
/// formula has no solution, and where it finds one, the formula has one, provided that every
/// divisor is a number other than zero.
pub proof fn verdict_is_right(f: Formula)
    requires
        script_with(empty_z3(), f) is Ok,
    ensures
        refuted(script_with(empty_z3(), f)->Ok_0) ==> forall|env: spec_fn(Seq<char>) -> int|
            !#[trigger] solves(f, env),
        witnessed(script_with(empty_z3(), f)->Ok_0) && steady(f) ==> exists|
            env: spec_fn(Seq<char>) -> int,
        | #[trigger]
            solves(f, env),
{
    let z = empty_smt();
    assert(written_by(z).asserts =~= seq![]);
    assert(written_by(z) == empty_z3());
    lemma_asked_text(z, f);
    script_has_model_iff_formula_has(f);
    if steady(f) {
        let start = prepared(z, f);
        reveal(safe);
        lemma_formula_safe(start, f);
        let (c, z2) = start.formula(f)->Ok_0;
        let end = asked(z, f);
        assert forall|i: int| 0 <= i < end.asserts.len() implies safe_cond(
            #[trigger] end.asserts[i],
        ) by {
            if i < z2.asserts.len() {
                assert(end.asserts[i] == z2.asserts[i]);
            }
        }
    }
}

} // verus!
