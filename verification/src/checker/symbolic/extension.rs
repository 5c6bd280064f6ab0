//! States that can follow each other in an execution.

use vstd::prelude::*;
use crate::checker::symbolic::context::MemoryEventKind;
use crate::checker::symbolic::expr::{Formula, SymType, Term};
use crate::checker::symbolic::meaning::all_hold;
use crate::checker::symbolic::state::{ExecStatus, StateV};
use crate::checker::symbolic::state_laws::{adding_is_conjunction, lemma_stays_false, sound_at};
use crate::checker::symbolic::state_ops::lemma_cond_keeps;
use crate::checker::symbolic::store::NodeV;

verus! {

/// Memory events that begin with others.
pub open spec fn begins_with_events<T>(a: Seq<T>, b: Seq<T>) -> bool {
    a.len() <= b.len() && b.take(a.len() as int) == a
}

/// `b` can follow `a` in an execution: it has the same context, at least as many symbols used up,
/// the events of `a` and perhaps more behind them, a path condition that holds at most where that
/// of `a` does, and hints that follow from it if those of `a` did.
#[verifier::opaque]
pub open spec fn extends(a: StateV, b: StateV) -> bool {
    &&& b.ctx == a.ctx
    &&& a.fresh <= b.fresh
    &&& begins_with_events(a.events, b.events)
    &&& forall|env: spec_fn(Seq<char>) -> int|
        #[trigger] all_hold(b.path_cond, env) ==> all_hold(a.path_cond, env)
    &&& forall|env: spec_fn(Seq<char>) -> int| sound_at(a, env) ==> #[trigger] sound_at(b, env)
}

/// What a state that follows another has of it.
pub proof fn lemma_follows(a: StateV, b: StateV, env: spec_fn(Seq<char>) -> int)
    requires
        extends(a, b),
    ensures
        b.ctx == a.ctx,
        begins_with_events(a.events, b.events),
        all_hold(b.path_cond, env) ==> all_hold(a.path_cond, env),
        sound_at(a, env) ==> sound_at(b, env),
{
    reveal(extends);
}

pub proof fn lemma_same(a: StateV, b: StateV)
    requires
        b.ctx == a.ctx,
        b.fresh == a.fresh,
        b.events == a.events,
        b.path_cond == a.path_cond,
        b.hints == a.hints,
        b.unsat == a.unsat,
    ensures
        extends(a, b),
{
    reveal(extends);
    assert(a.events.take(a.events.len() as int) =~= a.events);
}

pub broadcast proof fn lemma_refl(a: StateV)
    ensures
        #[trigger] extends(a, a),
{
    lemma_same(a, a);
}

pub broadcast proof fn lemma_trans(a: StateV, b: StateV, c: StateV)
    requires
        #[trigger] extends(a, b),
        #[trigger] extends(b, c),
    ensures
        extends(a, c),
{
    reveal(extends);
    assert(c.events.take(a.events.len() as int) =~= b.events.take(a.events.len() as int));
    assert forall|env: spec_fn(Seq<char>) -> int| #[trigger]
        all_hold(c.path_cond, env) implies all_hold(a.path_cond, env) by {
        assert(all_hold(b.path_cond, env));
    }
    assert forall|env: spec_fn(Seq<char>) -> int| sound_at(a, env) implies #[trigger] sound_at(
        c,
        env,
    ) by {
        assert(sound_at(b, env));
    }
}

pub broadcast proof fn lemma_cond(st: StateV, f: Formula)
    ensures
        extends(st, #[trigger] st.with_cond(f)),
{
    reveal(extends);
    lemma_cond_keeps(st, f);
    assert(st.events.take(st.events.len() as int) =~= st.events);
    assert forall|env: spec_fn(Seq<char>) -> int| #[trigger]
        all_hold(st.with_cond(f).path_cond, env) implies all_hold(st.path_cond, env) by {
        if !all_hold(st.path_cond, env) {
            lemma_stays_false(st, f, env);
        }
    }
    assert forall|env: spec_fn(Seq<char>) -> int| sound_at(st, env) implies #[trigger] sound_at(
        st.with_cond(f),
        env,
    ) by {
        adding_is_conjunction(st, f, env);
    }
}

pub broadcast proof fn lemma_binding(st: StateV, id: i64, node: NodeV)
    ensures
        extends(st, #[trigger] st.with_binding(id, node)),
{
    lemma_same(st, st.with_binding(id, node));
}

pub broadcast proof fn lemma_status(st: StateV, status: ExecStatus)
    ensures
        extends(st, #[trigger] st.in_status(status)),
{
    lemma_same(st, st.in_status(status));
}

pub broadcast proof fn lemma_event(st: StateV, kind: MemoryEventKind, clk: Term, addr: Term, value: Term)
    ensures
        extends(st, #[trigger] st.with_event(kind, clk, addr, value)),
{
    reveal(extends);
    let s = st.with_event(kind, clk, addr, value);
    assert(s.events.take(st.events.len() as int) =~= st.events);
}

pub broadcast proof fn lemma_fresh(st: StateV, hint: Seq<char>, ty: SymType)
    ensures
        match #[trigger] st.fresh_var(hint, ty) {
            Ok((_, s)) => extends(st, s),
            Err(_) => true,
        },
{
    reveal(extends);
    assert(st.events.take(st.events.len() as int) =~= st.events);
}

pub broadcast group group_growth {
    lemma_refl,
    lemma_trans,
    lemma_cond,
    lemma_binding,
    lemma_status,
    lemma_event,
    lemma_fresh,
}

} // verus!
