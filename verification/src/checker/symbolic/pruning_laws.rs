//! Paths whose conditions cannot hold are found, and conditions narrow what is known of a path.

use vstd::prelude::*;
use crate::checker::symbolic::decision_laws::{
    compares_atoms, decided_comparisons_are_known, intervals_hold_numbers, is_always,
};
use crate::checker::symbolic::expr::{Formula, SymType, Term};
use crate::checker::symbolic::range::respects_hints;
use crate::checker::symbolic::simplify::{simplified, Simp};
use crate::checker::symbolic::state::StateV;

verus! {

/// A path ends where a comparison is added that is false for all values that the path admits; one
/// that is true for all of them changes nothing.
pub proof fn decided_comparisons_decide_paths(st: StateV, f: Formula)
    requires
        intervals_hold_numbers(st.hints),
        compares_atoms(f),
    ensures
        is_always(f, st.hints, false) ==> st.with_cond(f).unsat,
        is_always(f, st.hints, true) ==> st.with_cond(f) == st,
{
    reveal(StateV::with_cond);
    if is_always(f, st.hints, false) {
        decided_comparisons_are_known(f, st.hints, false);
    }
    if is_always(f, st.hints, true) {
        decided_comparisons_are_known(f, st.hints, true);
    }
}

proof fn lemma_compaction_keeps_hints(st: StateV)
    ensures
        st.compacted().hints == st.hints,
        st.unsat ==> st.compacted().unsat,
{
}

/// A variable that is found to lie in an interval is known to lie there from then on, and nothing
/// else is known of any variable that was not known before.
pub proof fn conditions_narrow_intervals(
    st: StateV,
    name: Seq<char>,
    ty: SymType,
    min: int,
    max: int,
    bits: Option<usize>,
    env: spec_fn(Seq<char>) -> int,
)
    requires
        !st.unsat,
    ensures
        ({
            let f = Formula::Range { value: Term::Var(name, ty), min, max, bits };
            let after = st.with_cond(f);
            !after.unsat ==> (respects_hints(after.hints, env) <==> respects_hints(st.hints, env)
                && min <= env(name) <= max)
        }),
{
    reveal(StateV::with_cond);
    let v = Term::Var(name, ty);
    let f = Formula::Range { value: v, min, max, bits };
    let after = st.with_cond(f);
    if !after.unsat {
        if simplified(f, st.hints).0 == Simp::Known(true) {
            assert(st.hints.contains_key(name));
        } else {
            assert(simplified(f, st.hints).0 == Simp::Open(f));
            let s = st.harvested(f);
            let pushed = StateV { path_cond: s.path_cond.push(f), ..s };
            assert(after == pushed.compacted());
            lemma_compaction_keeps_hints(pushed);
            assert(after.hints == s.hints);
            assert(s == st.with_range_hint(v, min, max));
            assert(s.hints.contains_key(name));
            if respects_hints(s.hints, env) {
                assert forall|n: Seq<char>| #[trigger] st.hints.contains_key(n) implies st.hints[n].0
                    <= env(n) <= st.hints[n].1 by {
                    assert(s.hints.contains_key(n));
                }
            }
            if respects_hints(st.hints, env) && min <= env(name) <= max {
                assert forall|n: Seq<char>| #[trigger] s.hints.contains_key(n) implies s.hints[n].0
                    <= env(n) <= s.hints[n].1 by {
                    if n != name {
                        assert(st.hints.contains_key(n));
                    }
                }
            }
        }
    }
}

} // verus!
