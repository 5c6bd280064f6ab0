//! Path conditions mean what was added to them.

use vstd::prelude::*;
use crate::checker::symbolic::canonical::{canonical_formula, canonical_keeps_truth};
use crate::checker::symbolic::expr::{Formula, Term};
use crate::checker::symbolic::meaning::{all_hold, holds, lemma_single, value};
use crate::checker::symbolic::range::{respects_hints, Hints};
use crate::checker::symbolic::simplify::{simplified, Simp};
use crate::checker::symbolic::simplify_laws::{
    formula_size, formulas_size, hold_from, lemma_hold_from, lemma_push,
    lemma_size_member, simplification_keeps_truth, simplification_shrinks,
};
use crate::checker::symbolic::state::{compacted_from, contradicts, projected_var, StateV};

verus! {

/// Under `env`, the hints of the state follow from its path condition, and a state that is
/// marked as contradictory has a false path condition.
pub open spec fn sound_at(st: StateV, env: spec_fn(Seq<char>) -> int) -> bool {
    &&& all_hold(st.path_cond, env) ==> respects_hints(st.hints, env)
    &&& st.unsat ==> !all_hold(st.path_cond, env)
}

/// A projection has the value of its variable.
pub proof fn projection_has_value(t: Term, env: spec_fn(Seq<char>) -> int)
    ensures
        match projected_var(t) {
            Some(name) => value(t, env) == env(name),
            None => true,
        },
    decreases t,
{
    match t {
        Term::Var(_, _) => {},
        Term::Add(vs) => {
            if vs.len() == 1 {
                projection_has_value(vs[0], env);
                assert(vs =~= seq![vs[0]]);
                lemma_single(vs[0], Formula::Bool(true), env);
            }
        },
        Term::Mul(vs) => {
            if vs.len() == 1 {
                projection_has_value(vs[0], env);
                assert(vs =~= seq![vs[0]]);
                lemma_single(vs[0], Formula::Bool(true), env);
            }
        },
        Term::Ite(_, a, b) => {
            if *a == *b {
                projection_has_value(*a, env);
            }
        },
        _ => {},
    }
}

proof fn lemma_range_hint(st: StateV, v: Term, min: int, max: int, env: spec_fn(Seq<char>) -> int)
    requires
        respects_hints(st.hints, env),
        min <= value(v, env) <= max,
    ensures
        respects_hints(st.with_range_hint(v, min, max).hints, env),
        st.with_range_hint(v, min, max).unsat == st.unsat,
        st.with_range_hint(v, min, max).path_cond == st.path_cond,
{
    projection_has_value(v, env);
    let h = st.with_range_hint(v, min, max).hints;
    match projected_var(v) {
        Some(name) => {
            if st.hints.contains_key(name) {
                assert(st.hints[name].0 <= env(name) <= st.hints[name].1);
            }
            assert forall|n: Seq<char>| #[trigger] h.contains_key(n) implies h[n].0 <= env(n)
                <= h[n].1 by {
                if n != name {
                    assert(st.hints.contains_key(n));
                }
            }
        },
        None => {},
    }
}

proof fn lemma_harvest(st: StateV, f: Formula, env: spec_fn(Seq<char>) -> int)
    requires
        respects_hints(st.hints, env),
        holds(f, env),
    ensures
        respects_hints(st.harvested(f).hints, env),
        st.harvested(f).unsat == st.unsat,
        st.harvested(f).path_cond == st.path_cond,
{
    match f {
        Formula::Range { value: v, min, max, bits } => lemma_range_hint(st, v, min, max, env),
        Formula::Eq(a, b) => {
            let s1 = st.with_eq_hint(a, b);
            match b {
                Term::Int(k) => {
                    assert(value(b, env) == k);
                    lemma_range_hint(st, a, k, k, env);
                },
                _ => {},
            }
            match a {
                Term::Int(k) => {
                    assert(value(a, env) == k);
                    lemma_range_hint(s1, b, k, k, env);
                },
                _ => {},
            }
        },
        _ => {},
    }
}

proof fn lemma_harvest_keeps_pc(st: StateV, f: Formula)
    ensures
        st.harvested(f).path_cond == st.path_cond,
{
}

proof fn lemma_contradicts(f: Formula, h: Hints, env: spec_fn(Seq<char>) -> int)
    requires
        respects_hints(h, env),
        contradicts(f, h),
    ensures
        !holds(f, env),
{
    match f {
        Formula::Range { value: v, min, max, bits } => {
            match v {
                Term::Var(name, _) => {
                    assert(value(v, env) == env(name));
                },
                _ => {},
            }
        },
        Formula::Eq(a, b) => {
            match (a, b) {
                (Term::Int(x), Term::Int(y)) => {
                    assert(value(a, env) == x && value(b, env) == y);
                },
                (Term::Var(name, _), Term::Int(k)) => {
                    assert(value(a, env) == env(name) && value(b, env) == k);
                },
                (Term::Int(k), Term::Var(name, _)) => {
                    assert(value(a, env) == k && value(b, env) == env(name));
                },
                _ => {},
            }
        },
        Formula::Ne(a, b) => {
            match (a, b) {
                (Term::Int(x), Term::Int(y)) => {
                    assert(value(a, env) == x && value(b, env) == y);
                },
                _ => {},
            }
        },
        _ => {},
    }
}

/// Whatever was seen follows from what was kept.
spec fn seen_follows(
    seen: Seq<Formula>,
    acc: Seq<Formula>,
    env: spec_fn(Seq<char>) -> int,
) -> bool {
    all_hold(acc, env) ==> forall|f: Formula| #[trigger] seen.contains(f) ==> holds(f, env)
}

proof fn lemma_compacted(
    pcs: Seq<Formula>,
    i: int,
    seen: Seq<Formula>,
    acc: Seq<Formula>,
    env: spec_fn(Seq<char>) -> int,
)
    requires
        0 <= i,
        seen_follows(seen, acc, env),
    ensures
        all_hold(compacted_from(pcs, i, seen, acc).0, env) == (all_hold(acc, env) && hold_from(
            pcs,
            i,
            env,
        )),
        compacted_from(pcs, i, seen, acc).1 ==> !hold_from(pcs, i, env),
    decreases pcs.len() - i,
{
    if i < pcs.len() {
        let f = pcs[i];
        match f {
            Formula::Bool(b) => {
                assert(holds(f, env) == b);
                if b {
                    lemma_compacted(pcs, i + 1, seen, acc, env);
                } else {
                    lemma_single(Term::Int(0), Formula::Bool(false), env);
                    assert(holds(Formula::Bool(false), env) == false);
                }
            },
            _ => {
                let c = canonical_formula(f);
                canonical_keeps_truth(f, env);
                if seen.contains(c) {
                    lemma_compacted(pcs, i + 1, seen, acc, env);
                } else {
                    lemma_push(acc, f, env);
                    let seen2 = seen.push(c);
                    let acc2 = acc.push(f);
                    if all_hold(acc2, env) {
                        assert forall|g: Formula| #[trigger] seen2.contains(g) implies holds(
                            g,
                            env,
                        ) by {
                            let j = choose|j: int| 0 <= j < seen2.len() && seen2[j] == g;
                            if j < seen.len() {
                                assert(seen[j] == g);
                                assert(seen.contains(g));
                            }
                        }
                    }
                    lemma_compacted(pcs, i + 1, seen2, acc2, env);
                }
            },
        }
    }
}

/// Compacting a path condition keeps its truth.
pub proof fn compaction_keeps_truth(st: StateV, env: spec_fn(Seq<char>) -> int)
    ensures
        all_hold(st.compacted().path_cond, env) == all_hold(st.path_cond, env),
        sound_at(st, env) ==> sound_at(st.compacted(), env),
{
    lemma_compacted(st.path_cond, 0, seq![], seq![], env);
    lemma_hold_from(st.path_cond, 0, env);
    assert(st.path_cond.take(0) =~= seq![]);
}

/// Adding a condition never makes a false path condition true.
pub proof fn lemma_stays_false(st: StateV, cond: Formula, env: spec_fn(Seq<char>) -> int)
    requires
        !all_hold(st.path_cond, env),
    ensures
        !all_hold(st.with_cond(cond).path_cond, env),
    decreases formula_size(cond), 0int,
{
    reveal(StateV::with_cond);
    match simplified(cond, st.hints).0 {
        Simp::Known(b) => {
            lemma_push(st.path_cond, Formula::Bool(false), env);
        },
        Simp::Open(f) => {
            simplification_shrinks(cond, st.hints);
            match f {
                Formula::And(vs) => {
                    assert(formula_size(f) == 1 + formulas_size(vs));
                    lemma_all_stay_false(st, vs, 0, env);
                },
                _ => {
                    lemma_push(st.path_cond, Formula::Bool(false), env);
                    let s = st.harvested(f);
                    lemma_harvest_keeps_pc(st, f);
                    lemma_push(st.path_cond, f, env);
                    let t = StateV { path_cond: s.path_cond.push(f), ..s };
                    compaction_keeps_truth(t, env);
                },
            }
        },
    }
}

proof fn lemma_all_stay_false(
    st: StateV,
    vs: Seq<Formula>,
    i: int,
    env: spec_fn(Seq<char>) -> int,
)
    requires
        !all_hold(st.path_cond, env),
        0 <= i,
    ensures
        !all_hold(st.with_conds(vs, i).path_cond, env),
    decreases formulas_size(vs), vs.len() - i,
{
    reveal(StateV::with_cond);
    if i < vs.len() {
        lemma_size_member(vs, i);
        lemma_stays_false(st, vs[i], env);
        if !st.with_cond(vs[i]).unsat {
            lemma_all_stay_false(st.with_cond(vs[i]), vs, i + 1, env);
        }
    }
}

proof fn lemma_atom(st: StateV, f: Formula, env: spec_fn(Seq<char>) -> int)
    requires
        sound_at(st, env),
        all_hold(st.path_cond, env),
    ensures
        sound_at(st.with_atom(f), env),
        all_hold(st.with_atom(f).path_cond, env) == holds(f, env),
{
    lemma_push(st.path_cond, Formula::Bool(false), env);
    assert(!holds(Formula::Bool(false), env));
    if contradicts(f, st.hints) {
        lemma_contradicts(f, st.hints, env);
    } else {
        let s = st.harvested(f);
        lemma_harvest_keeps_pc(st, f);
        lemma_push(st.path_cond, f, env);
        if holds(f, env) {
            lemma_harvest(st, f, env);
        }
        let t = StateV { path_cond: s.path_cond.push(f), ..s };
        compaction_keeps_truth(t, env);
    }
}

/// After a condition has been added, the path condition holds exactly where it held before and
/// the condition holds; the hints still follow from it, and a state marked as contradictory is.
pub proof fn adding_is_conjunction(st: StateV, cond: Formula, env: spec_fn(Seq<char>) -> int)
    requires
        sound_at(st, env),
    ensures
        all_hold(st.with_cond(cond).path_cond, env) == (all_hold(st.path_cond, env) && holds(
            cond,
            env,
        )),
        sound_at(st.with_cond(cond), env),
    decreases formula_size(cond), 0int,
{
    reveal(StateV::with_cond);
    if !all_hold(st.path_cond, env) {
        lemma_stays_false(st, cond, env);
    } else {
        simplification_keeps_truth(cond, st.hints, env);
        match simplified(cond, st.hints).0 {
            Simp::Known(b) => {
                lemma_push(st.path_cond, Formula::Bool(false), env);
                assert(!holds(Formula::Bool(false), env));
            },
            Simp::Open(f) => {
                simplification_shrinks(cond, st.hints);
                match f {
                    Formula::And(vs) => {
                        assert(formula_size(f) == 1 + formulas_size(vs));
                        lemma_all_add(st, vs, 0, env);
                        lemma_hold_from(vs, 0, env);
                        assert(vs.take(0) =~= seq![]);
                        assert(holds(f, env) == all_hold(vs, env));
                    },
                    _ => lemma_atom(st, f, env),
                }
            },
        }
    }
}

proof fn lemma_all_add(st: StateV, vs: Seq<Formula>, i: int, env: spec_fn(Seq<char>) -> int)
    requires
        sound_at(st, env),
        0 <= i,
    ensures
        all_hold(st.with_conds(vs, i).path_cond, env) == (all_hold(st.path_cond, env) && hold_from(
            vs,
            i,
            env,
        )),
        sound_at(st.with_conds(vs, i), env),
    decreases formulas_size(vs), vs.len() - i,
{
    reveal(StateV::with_cond);
    if i < vs.len() {
        lemma_size_member(vs, i);
        adding_is_conjunction(st, vs[i], env);
        if !st.with_cond(vs[i]).unsat {
            lemma_all_add(st.with_cond(vs[i]), vs, i + 1, env);
        }
    }
}

} // verus!
