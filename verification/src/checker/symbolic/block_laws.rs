//! Which paths lists of statements and loops have.

use vstd::prelude::*;
use crate::ast::{FuncV, StmtV};
use crate::checker::symbolic::expr::Term;
use crate::checker::symbolic::place::scalar_node;
use crate::checker::symbolic::results::OutcomeV;
use crate::checker::symbolic::semantics::{
    block_of, branch_of, finished, iteration_of, loop_of, routed, run_of, step_of, Flow, InterpV,
};
use crate::checker::symbolic::state::{ExecStatus, StateV};

verus! {

/// One of the outcomes of a statement.
pub open spec fn is_outcome(m: InterpV, s: StmtV, st: StateV, o: OutcomeV) -> bool {
    (m.run)(s, st) is Ok && (m.run)(s, st)->Ok_0.contains(o)
}

/// After an outcome, control leaves the list of statements.
pub open spec fn leaves(flow: Flow, o: OutcomeV) -> bool {
    o.1.status != ExecStatus::Step || (flow == Flow::Loop && o.0 is Some)
}

/// The outcome with which control leaves the list; a value leaves a loop as that of a return.
pub open spec fn leaving(flow: Flow, o: OutcomeV) -> OutcomeV {
    if flow == Flow::Loop && o.0 is Some {
        (o.0, StateV { status: ExecStatus::Return, ..o.1 })
    } else {
        o
    }
}

/// A state to which nothing happens any more in a branch or a loop: control has left it, or its
/// path condition is contradictory.
pub open spec fn is_over(flow: Flow, st: StateV) -> bool {
    flow != Flow::Function && (st.status != ExecStatus::Step || st.unsat)
}

/// A statement takes a state to another, from which the list goes on.
pub open spec fn steps_to(m: InterpV, flow: Flow, s: StmtV, st: StateV, to: StateV) -> bool {
    if is_over(flow, st) {
        to == st
    } else {
        exists|o: OutcomeV| #[trigger] is_outcome(m, s, st, o) && !leaves(flow, o) && o.1 == to
    }
}

/// A statement makes control leave the list.
pub open spec fn leaves_with(m: InterpV, flow: Flow, s: StmtV, st: StateV, out: OutcomeV) -> bool {
    !is_over(flow, st) && exists|o: OutcomeV| #[trigger]
        is_outcome(m, s, st, o) && leaves(flow, o) && leaving(flow, o) == out
}

/// The statements from `i` on, one after the other, take a state to another.
pub open spec fn reaches_end(
    m: InterpV,
    flow: Flow,
    body: Seq<StmtV>,
    i: int,
    st: StateV,
    end: StateV,
) -> bool
    decreases body.len() - i,
{
    if i < 0 || i >= body.len() {
        end == st
    } else {
        exists|mid: StateV| #[trigger]
            steps_to(m, flow, body[i], st, mid) && reaches_end(m, flow, body, i + 1, mid, end)
    }
}

/// One of the statements from `i` on is reached and makes control leave the list.
pub open spec fn leaves_early(
    m: InterpV,
    flow: Flow,
    body: Seq<StmtV>,
    i: int,
    st: StateV,
    out: OutcomeV,
) -> bool
    decreases body.len() - i,
{
    if i < 0 || i >= body.len() {
        false
    } else {
        leaves_with(m, flow, body[i], st, out) || exists|mid: StateV| #[trigger]
            steps_to(m, flow, body[i], st, mid) && leaves_early(m, flow, body, i + 1, mid, out)
    }
}

pub proof fn lemma_finished(live: Seq<StateV>, acc: Seq<OutcomeV>, o: OutcomeV)
    ensures
        finished(live, acc).contains(o) <==> acc.contains(o) || (o.0 is None && live.contains(o.1)),
    decreases live.len(),
{
    reveal(finished);
    if live.len() > 0 {
        let first = (None::<Term>, live[0]);
        let rest = live.drop_first();
        lemma_finished(rest, acc.push(first), o);
        lemma_pushed(acc, first, o);
        lemma_first(live, o.1);
    }
}

pub proof fn lemma_pushed<A>(s: Seq<A>, a: A, x: A)
    ensures
        s.push(a).contains(x) <==> s.contains(x) || x == a,
{
    if s.contains(x) {
        let i = choose|i: int| 0 <= i < s.len() && s[i] == x;
        assert(s.push(a)[i] == x);
    }
    assert(s.push(a)[s.len() as int] == a);
    if s.push(a).contains(x) {
        let i = choose|i: int| 0 <= i < s.push(a).len() && s.push(a)[i] == x;
        if i < s.len() {
            assert(s[i] == x);
        }
    }
}

pub proof fn lemma_first<A>(s: Seq<A>, x: A)
    requires
        s.len() > 0,
    ensures
        s.contains(x) <==> x == s[0] || s.drop_first().contains(x),
{
    if s.contains(x) {
        let i = choose|i: int| 0 <= i < s.len() && s[i] == x;
        if i > 0 {
            assert(s.drop_first()[i - 1] == x);
        }
    }
    if s.drop_first().contains(x) {
        let i = choose|i: int| 0 <= i < s.drop_first().len() && s.drop_first()[i] == x;
        assert(s[i + 1] == x);
    }
}

pub proof fn lemma_firsts<A>(s: Seq<A>)
    requires
        s.len() > 0,
    ensures
        s.contains(s[0]),
        forall|x: A|
            #![trigger s.contains(x)]
            #![trigger s.drop_first().contains(x)]
            s.contains(x) <==> x == s[0] || s.drop_first().contains(x),
{
    assert forall|x: A|
        #![trigger s.contains(x)]
        #![trigger s.drop_first().contains(x)]
        s.contains(x) <==> x == s[0] || s.drop_first().contains(x) by {
        lemma_first(s, x);
    }
}

pub proof fn lemma_joined<A>(a: Seq<A>, b: Seq<A>, x: A)
    ensures
        (a + b).contains(x) <==> a.contains(x) || b.contains(x),
{
    if a.contains(x) {
        let i = choose|i: int| 0 <= i < a.len() && a[i] == x;
        assert((a + b)[i] == x);
    }
    if b.contains(x) {
        let i = choose|i: int| 0 <= i < b.len() && b[i] == x;
        assert((a + b)[a.len() + i] == x);
    }
    if (a + b).contains(x) {
        let i = choose|i: int| 0 <= i < (a + b).len() && (a + b)[i] == x;
        if i < a.len() {
            assert(a[i] == x);
        } else {
            assert(b[i - a.len()] == x);
        }
    }
}

proof fn lemma_routed(flow: Flow, rs: Seq<OutcomeV>, outs: Seq<OutcomeV>, next: Seq<StateV>)
    ensures
        ({
            let (o2, n2) = routed(flow, rs, outs, next);
            &&& forall|out: OutcomeV|
                o2.contains(out) <==> outs.contains(out) || exists|r: OutcomeV|
                    #![trigger rs.contains(r)]
                    rs.contains(r) && leaves(flow, r) && leaving(flow, r) == out
            &&& forall|x: StateV|
                n2.contains(x) <==> next.contains(x) || exists|r: OutcomeV|
                    #![trigger rs.contains(r)]
                    rs.contains(r) && !leaves(flow, r) && r.1 == x
        }),
    decreases rs.len(),
{
    reveal(routed);
    if rs.len() > 0 {
        let r = rs[0];
        let rest = rs.drop_first();
        let (o2, n2) = routed(flow, rs, outs, next);
        assert(rs.contains(r));
        assert forall|x: OutcomeV| rs.contains(x) <==> x == r || rest.contains(x) by {
            lemma_first(rs, x);
        }
        let outs2 = if leaves(flow, r) {
            outs.push(leaving(flow, r))
        } else {
            outs
        };
        let next2 = if leaves(flow, r) {
            next
        } else {
            next.push(r.1)
        };
        assert(routed(flow, rs, outs, next) == routed(flow, rest, outs2, next2));
        lemma_routed(flow, rest, outs2, next2);
        assert forall|out: OutcomeV|
            o2.contains(out) <==> outs.contains(out) || exists|r: OutcomeV|
                #![trigger rs.contains(r)]
                rs.contains(r) && leaves(flow, r) && leaving(flow, r) == out by {
            lemma_pushed(outs, leaving(flow, r), out);
            if exists|q: OutcomeV|
                #![trigger rest.contains(q)]
                rest.contains(q) && leaves(flow, q) && leaving(flow, q) == out {
                let q = choose|q: OutcomeV|
                    #![trigger rest.contains(q)]
                    rest.contains(q) && leaves(flow, q) && leaving(flow, q) == out;
                assert(rs.contains(q));
            }
        }
        assert forall|x: StateV|
            n2.contains(x) <==> next.contains(x) || exists|r: OutcomeV|
                #![trigger rs.contains(r)]
                rs.contains(r) && !leaves(flow, r) && r.1 == x by {
            lemma_pushed(next, r.1, x);
            if exists|q: OutcomeV|
                #![trigger rest.contains(q)]
                rest.contains(q) && !leaves(flow, q) && q.1 == x {
                let q = choose|q: OutcomeV|
                    #![trigger rest.contains(q)]
                    rest.contains(q) && !leaves(flow, q) && q.1 == x;
                assert(rs.contains(q));
            }
        }
    }
}

/// Some of the states leaves the list at a statement with an outcome.
spec fn one_leaves(m: InterpV, flow: Flow, s: StmtV, live: Seq<StateV>, out: OutcomeV) -> bool {
    exists|st: StateV| #[trigger] live.contains(st) && leaves_with(m, flow, s, st, out)
}

/// Some of the states goes on behind a statement to another.
spec fn one_steps(m: InterpV, flow: Flow, s: StmtV, live: Seq<StateV>, to: StateV) -> bool {
    exists|st: StateV| #[trigger] live.contains(st) && steps_to(m, flow, s, st, to)
}

proof fn lemma_step(
    m: InterpV,
    flow: Flow,
    s: StmtV,
    live: Seq<StateV>,
    outs: Seq<OutcomeV>,
    next: Seq<StateV>,
)
    requires
        step_of(flow, s, live, outs, next, m) is Ok,
    ensures
        ({
            let (o2, n2) = step_of(flow, s, live, outs, next, m)->Ok_0;
            &&& forall|out: OutcomeV|
                #![trigger o2.contains(out)]
                o2.contains(out) <==> outs.contains(out) || one_leaves(m, flow, s, live, out)
            &&& forall|to: StateV|
                #![trigger n2.contains(to)]
                n2.contains(to) <==> next.contains(to) || one_steps(m, flow, s, live, to)
        }),
    decreases live.len(),
{
    reveal(step_of);
    if live.len() > 0 {
        let st = live[0];
        let rest = live.drop_first();
        let (o2, n2) = step_of(flow, s, live, outs, next, m)->Ok_0;
        assert(live.contains(st));
        assert forall|x: StateV| live.contains(x) <==> x == st || rest.contains(x) by {
            lemma_first(live, x);
        }
        if is_over(flow, st) {
            lemma_step(m, flow, s, rest, outs, next.push(st));
            assert forall|to: StateV|
                #![trigger n2.contains(to)]
                n2.contains(to) <==> next.contains(to) || one_steps(m, flow, s, live, to) by {
                lemma_pushed(next, st, to);
                if one_steps(m, flow, s, rest, to) {
                    let y = choose|y: StateV| #[trigger]
                        rest.contains(y) && steps_to(m, flow, s, y, to);
                    assert(live.contains(y));
                }
            }
            assert forall|out: OutcomeV|
                #![trigger o2.contains(out)]
                o2.contains(out) <==> outs.contains(out) || one_leaves(m, flow, s, live, out) by {
                if one_leaves(m, flow, s, rest, out) {
                    let y = choose|y: StateV| #[trigger]
                        rest.contains(y) && leaves_with(m, flow, s, y, out);
                    assert(live.contains(y));
                }
            }
        } else {
            let rs = (m.run)(s, st)->Ok_0;
            assert((m.run)(s, st) is Ok);
            lemma_routed(flow, rs, outs, next);
            let (outs2, next2) = routed(flow, rs, outs, next);
            lemma_step(m, flow, s, rest, outs2, next2);
            assert forall|r: OutcomeV| rs.contains(r) <==> is_outcome(m, s, st, r) by {}
            assert forall|to: StateV|
                #![trigger n2.contains(to)]
                n2.contains(to) <==> next.contains(to) || one_steps(m, flow, s, live, to) by {
                if one_steps(m, flow, s, rest, to) {
                    let y = choose|y: StateV| #[trigger]
                        rest.contains(y) && steps_to(m, flow, s, y, to);
                    assert(live.contains(y));
                }
                if steps_to(m, flow, s, st, to) {
                    let r = choose|r: OutcomeV| #[trigger]
                        is_outcome(m, s, st, r) && !leaves(flow, r) && r.1 == to;
                    assert(rs.contains(r));
                }
                if exists|r: OutcomeV|
                    #![trigger rs.contains(r)]
                    rs.contains(r) && !leaves(flow, r) && r.1 == to {
                    let r = choose|r: OutcomeV|
                        #![trigger rs.contains(r)]
                        rs.contains(r) && !leaves(flow, r) && r.1 == to;
                    assert(is_outcome(m, s, st, r));
                    assert(steps_to(m, flow, s, st, to));
                }
            }
            assert forall|out: OutcomeV|
                #![trigger o2.contains(out)]
                o2.contains(out) <==> outs.contains(out) || one_leaves(m, flow, s, live, out) by {
                if one_leaves(m, flow, s, rest, out) {
                    let y = choose|y: StateV| #[trigger]
                        rest.contains(y) && leaves_with(m, flow, s, y, out);
                    assert(live.contains(y));
                }
                if leaves_with(m, flow, s, st, out) {
                    let r = choose|r: OutcomeV| #[trigger]
                        is_outcome(m, s, st, r) && leaves(flow, r) && leaving(flow, r) == out;
                    assert(rs.contains(r));
                }
                if exists|r: OutcomeV|
                    #![trigger rs.contains(r)]
                    rs.contains(r) && leaves(flow, r) && leaving(flow, r) == out {
                    let r = choose|r: OutcomeV|
                        #![trigger rs.contains(r)]
                        rs.contains(r) && leaves(flow, r) && leaving(flow, r) == out;
                    assert(is_outcome(m, s, st, r));
                    assert(leaves_with(m, flow, s, st, out));
                }
            }
        }
    }
}

/// Some of the states leaves the statements from `i` on with an outcome.
pub open spec fn some_leaves(
    m: InterpV,
    flow: Flow,
    body: Seq<StmtV>,
    i: int,
    live: Seq<StateV>,
    out: OutcomeV,
) -> bool {
    exists|st: StateV| #[trigger] live.contains(st) && leaves_early(m, flow, body, i, st, out)
}

/// Some of the states is taken by the statements from `i` on to another.
pub open spec fn some_reaches(
    m: InterpV,
    flow: Flow,
    body: Seq<StmtV>,
    i: int,
    live: Seq<StateV>,
    end: StateV,
) -> bool {
    exists|st: StateV| #[trigger] live.contains(st) && reaches_end(m, flow, body, i, st, end)
}

/// The paths through a list of statements are those that its statements make up, one after the
/// other, up to one that makes control leave the list. None is lost and none is added.
pub proof fn blocks_have_the_paths_of_their_statements(
    m: InterpV,
    flow: Flow,
    body: Seq<StmtV>,
    i: int,
    live: Seq<StateV>,
    outs: Seq<OutcomeV>,
)
    requires
        0 <= i,
        block_of(flow, body, i, live, outs, m) is Ok,
    ensures
        forall|out: OutcomeV|
            #![trigger block_of(flow, body, i, live, outs, m)->Ok_0.0.contains(out)]
            block_of(flow, body, i, live, outs, m)->Ok_0.0.contains(out) <==> outs.contains(out)
                || some_leaves(m, flow, body, i, live, out),
        forall|end: StateV|
            #![trigger block_of(flow, body, i, live, outs, m)->Ok_0.1.contains(end)]
            block_of(flow, body, i, live, outs, m)->Ok_0.1.contains(end) <==> some_reaches(
                m,
                flow,
                body,
                i,
                live,
                end,
            ),
    decreases body.len() - i,
{
    reveal(block_of);
    let (o2, l2) = block_of(flow, body, i, live, outs, m)->Ok_0;
    if i < body.len() && live.len() > 0 {
        let s = body[i];
        let (outs2, next) = step_of(flow, s, live, outs, seq![], m)->Ok_0;
        lemma_step(m, flow, s, live, outs, seq![]);
        blocks_have_the_paths_of_their_statements(m, flow, body, i + 1, next, outs2);
        assert forall|out: OutcomeV|
            #![trigger o2.contains(out)]
            o2.contains(out) <==> outs.contains(out) || some_leaves(
                m,
                flow,
                body,
                i,
                live,
                out,
            ) by {
            lemma_leaves_unfolds(m, flow, body, i, live, next, out);
        }
        assert forall|end: StateV|
            #![trigger l2.contains(end)]
            l2.contains(end) <==> some_reaches(m, flow, body, i, live, end) by {
            lemma_reaches_unfolds(m, flow, body, i, live, next, end);
        }
    } else {
        assert forall|end: StateV|
            #![trigger l2.contains(end)]
            l2.contains(end) <==> some_reaches(m, flow, body, i, live, end) by {
            if l2.contains(end) {
                assert(reaches_end(m, flow, body, i, end, end));
            }
        }
        assert forall|out: OutcomeV|
            #![trigger o2.contains(out)]
            o2.contains(out) <==> outs.contains(out) || some_leaves(
                m,
                flow,
                body,
                i,
                live,
                out,
            ) by {}
    }
}

proof fn lemma_leaves_unfolds(
    m: InterpV,
    flow: Flow,
    body: Seq<StmtV>,
    i: int,
    live: Seq<StateV>,
    next: Seq<StateV>,
    out: OutcomeV,
)
    requires
        0 <= i < body.len(),
        forall|to: StateV|
            #![trigger next.contains(to)]
            next.contains(to) <==> one_steps(m, flow, body[i], live, to),
    ensures
        some_leaves(m, flow, body, i, live, out) <==> one_leaves(m, flow, body[i], live, out)
            || some_leaves(m, flow, body, i + 1, next, out),
{
    let s = body[i];
    if some_leaves(m, flow, body, i, live, out) {
        let st = choose|st: StateV| #[trigger]
            live.contains(st) && leaves_early(m, flow, body, i, st, out);
        if !leaves_with(m, flow, s, st, out) {
            let mid = choose|mid: StateV| #[trigger]
                steps_to(m, flow, s, st, mid) && leaves_early(m, flow, body, i + 1, mid, out);
            assert(one_steps(m, flow, s, live, mid));
            assert(next.contains(mid));
        }
    }
    if one_leaves(m, flow, s, live, out) {
        let st = choose|st: StateV| #[trigger]
            live.contains(st) && leaves_with(m, flow, s, st, out);
        assert(leaves_early(m, flow, body, i, st, out));
    }
    if some_leaves(m, flow, body, i + 1, next, out) {
        let mid = choose|mid: StateV| #[trigger]
            next.contains(mid) && leaves_early(m, flow, body, i + 1, mid, out);
        let st = choose|st: StateV| #[trigger] live.contains(st) && steps_to(m, flow, s, st, mid);
        assert(leaves_early(m, flow, body, i, st, out));
    }
}

proof fn lemma_reaches_unfolds(
    m: InterpV,
    flow: Flow,
    body: Seq<StmtV>,
    i: int,
    live: Seq<StateV>,
    next: Seq<StateV>,
    end: StateV,
)
    requires
        0 <= i < body.len(),
        forall|to: StateV|
            #![trigger next.contains(to)]
            next.contains(to) <==> one_steps(m, flow, body[i], live, to),
    ensures
        some_reaches(m, flow, body, i, live, end) <==> some_reaches(
            m,
            flow,
            body,
            i + 1,
            next,
            end,
        ),
{
    let s = body[i];
    if some_reaches(m, flow, body, i, live, end) {
        let st = choose|st: StateV| #[trigger]
            live.contains(st) && reaches_end(m, flow, body, i, st, end);
        let mid = choose|mid: StateV| #[trigger]
            steps_to(m, flow, s, st, mid) && reaches_end(m, flow, body, i + 1, mid, end);
        assert(one_steps(m, flow, s, live, mid));
        assert(next.contains(mid));
    }
    if some_reaches(m, flow, body, i + 1, next, end) {
        let mid = choose|mid: StateV| #[trigger]
            next.contains(mid) && reaches_end(m, flow, body, i + 1, mid, end);
        let st = choose|st: StateV| #[trigger] live.contains(st) && steps_to(m, flow, s, st, mid);
        assert(reaches_end(m, flow, body, i, st, end));
    }
}

/// An outcome of a list of statements: control leaves it early, or reaches its end.
pub open spec fn is_path(
    m: InterpV,
    flow: Flow,
    body: Seq<StmtV>,
    st: StateV,
    o: OutcomeV,
) -> bool {
    leaves_early(m, flow, body, 0, st, o) || (o.0 is None && reaches_end(
        m,
        flow,
        body,
        0,
        st,
        o.1,
    ))
}

pub proof fn lemma_one_start(st: StateV)
    ensures
        forall|x: StateV| #[trigger] seq![st].contains(x) <==> x == st,
{
    assert forall|x: StateV| #[trigger] seq![st].contains(x) <==> x == st by {
        assert(seq![st][0] == st);
    }
}

proof fn lemma_paths_from(
    m: InterpV,
    flow: Flow,
    body: Seq<StmtV>,
    st: StateV,
    outs: Seq<OutcomeV>,
)
    requires
        block_of(flow, body, 0, seq![st], outs, m) is Ok,
    ensures
        ({
            let (o2, l2) = block_of(flow, body, 0, seq![st], outs, m)->Ok_0;
            &&& forall|out: OutcomeV|
                #![trigger o2.contains(out)]
                o2.contains(out) <==> outs.contains(out) || leaves_early(m, flow, body, 0, st, out)
            &&& forall|end: StateV|
                #![trigger l2.contains(end)]
                l2.contains(end) <==> reaches_end(m, flow, body, 0, st, end)
        }),
{
    blocks_have_the_paths_of_their_statements(m, flow, body, 0, seq![st], outs);
    lemma_one_start(st);
    let (o2, l2) = block_of(flow, body, 0, seq![st], outs, m)->Ok_0;
    assert forall|out: OutcomeV|
        #![trigger o2.contains(out)]
        o2.contains(out) <==> outs.contains(out) || leaves_early(m, flow, body, 0, st, out) by {
        assert(seq![st].contains(st));
    }
    assert forall|end: StateV|
        #![trigger l2.contains(end)]
        l2.contains(end) <==> reaches_end(m, flow, body, 0, st, end) by {
        assert(seq![st].contains(st));
    }
}

/// The outcomes of a branch of a conditional are the paths through it.
pub proof fn branches_have_their_paths(m: InterpV, body: Seq<StmtV>, st: StateV, o: OutcomeV)
    requires
        branch_of(body, st, m) is Ok,
    ensures
        branch_of(body, st, m)->Ok_0.contains(o) <==> is_path(m, Flow::Branch, body, st, o),
{
    reveal(branch_of);
    lemma_paths_from(m, Flow::Branch, body, st, seq![]);
    let (outs, live) = block_of(Flow::Branch, body, 0, seq![st], seq![], m)->Ok_0;
    lemma_finished(live, outs, o);
}

/// The outcomes of a function are the paths through its body.
pub proof fn functions_have_their_paths(m: InterpV, func: FuncV, st: StateV, o: OutcomeV)
    requires
        run_of(func, st, m) is Ok,
    ensures
        run_of(func, st, m)->Ok_0.contains(o) <==> is_path(m, Flow::Function, func.body, st, o),
{
    reveal(run_of);
    lemma_paths_from(m, Flow::Function, func.body, st, seq![]);
    let (outs, live) = block_of(Flow::Function, func.body, 0, seq![st], seq![], m)->Ok_0;
    lemma_finished(live, outs, o);
}

/// The state in which an iteration of a loop starts: the loop variable has the number of the
/// iteration.
pub open spec fn iteration_start(vid: i64, k: int, st: StateV) -> StateV {
    StateV { store: st.store.insert(vid as int, scalar_node(Term::Int(k))), ..st }
}

/// Iteration `k` of a loop takes a state to another.
pub open spec fn iterates(
    m: InterpV,
    vid: i64,
    k: int,
    body: Seq<StmtV>,
    st: StateV,
    to: StateV,
) -> bool {
    if is_over(Flow::Loop, st) {
        to == st
    } else {
        reaches_end(m, Flow::Loop, body, 0, iteration_start(vid, k, st), to)
    }
}

/// Control leaves a loop in iteration `k`.
pub open spec fn breaks_out(
    m: InterpV,
    vid: i64,
    k: int,
    body: Seq<StmtV>,
    st: StateV,
    out: OutcomeV,
) -> bool {
    !is_over(Flow::Loop, st) && leaves_early(
        m,
        Flow::Loop,
        body,
        0,
        iteration_start(vid, k, st),
        out,
    )
}

/// The iterations from `k` up to `hi`, one after the other, take a state to another.
pub open spec fn iterated(
    m: InterpV,
    vid: i64,
    k: int,
    hi: int,
    body: Seq<StmtV>,
    st: StateV,
    to: StateV,
) -> bool
    decreases hi - k,
{
    if k >= hi {
        to == st
    } else {
        exists|mid: StateV| #[trigger]
            iterates(m, vid, k, body, st, mid) && iterated(m, vid, k + 1, hi, body, mid, to)
    }
}

/// Some of the states leaves the loop in iteration `k`.
spec fn one_breaks(
    m: InterpV,
    vid: i64,
    k: int,
    body: Seq<StmtV>,
    live: Seq<StateV>,
    out: OutcomeV,
) -> bool {
    exists|st: StateV| #[trigger] live.contains(st) && breaks_out(m, vid, k, body, st, out)
}

/// Some of the states is taken by iteration `k` to another.
spec fn one_iterates(
    m: InterpV,
    vid: i64,
    k: int,
    body: Seq<StmtV>,
    live: Seq<StateV>,
    to: StateV,
) -> bool {
    exists|st: StateV| #[trigger] live.contains(st) && iterates(m, vid, k, body, st, to)
}

proof fn lemma_iteration(
    m: InterpV,
    vid: i64,
    k: int,
    body: Seq<StmtV>,
    live: Seq<StateV>,
    outs: Seq<OutcomeV>,
    next: Seq<StateV>,
)
    requires
        iteration_of(vid, k, body, live, outs, next, m) is Ok,
    ensures
        ({
            let (o2, n2) = iteration_of(vid, k, body, live, outs, next, m)->Ok_0;
            &&& forall|out: OutcomeV|
                #![trigger o2.contains(out)]
                o2.contains(out) <==> outs.contains(out) || one_breaks(m, vid, k, body, live, out)
            &&& forall|to: StateV|
                #![trigger n2.contains(to)]
                n2.contains(to) <==> next.contains(to) || one_iterates(m, vid, k, body, live, to)
        }),
    decreases live.len(),
{
    reveal(iteration_of);
    if live.len() > 0 {
        let st = live[0];
        let rest = live.drop_first();
        let (o2, n2) = iteration_of(vid, k, body, live, outs, next, m)->Ok_0;
        assert(live.contains(st));
        assert forall|x: StateV| live.contains(x) <==> x == st || rest.contains(x) by {
            lemma_first(live, x);
        }
        let over = is_over(Flow::Loop, st);
        let start = st.with_binding(vid, scalar_node(Term::Int(k)));
        assert(start == iteration_start(vid, k, st));
        let (outs2, ends) = if over {
            (outs, seq![st])
        } else {
            block_of(Flow::Loop, body, 0, seq![start], outs, m)->Ok_0
        };
        if over {
            assert(next.push(st) =~= next + ends);
            lemma_one_start(st);
        } else {
            lemma_paths_from(m, Flow::Loop, body, start, outs);
        }
        lemma_iteration(m, vid, k, body, rest, outs2, next + ends);
        assert forall|out: OutcomeV|
            #![trigger o2.contains(out)]
            o2.contains(out) <==> outs.contains(out) || one_breaks(m, vid, k, body, live, out) by {
            assert(outs2.contains(out) <==> outs.contains(out) || breaks_out(
                m,
                vid,
                k,
                body,
                st,
                out,
            ));
            if one_breaks(m, vid, k, body, rest, out) {
                let y = choose|y: StateV| #[trigger]
                    rest.contains(y) && breaks_out(m, vid, k, body, y, out);
                assert(live.contains(y));
            }
        }
        assert forall|to: StateV|
            #![trigger n2.contains(to)]
            n2.contains(to) <==> next.contains(to) || one_iterates(
                m,
                vid,
                k,
                body,
                live,
                to,
            ) by {
            lemma_joined(next, ends, to);
            assert(ends.contains(to) <==> iterates(m, vid, k, body, st, to));
            if one_iterates(m, vid, k, body, rest, to) {
                let y = choose|y: StateV| #[trigger]
                    rest.contains(y) && iterates(m, vid, k, body, y, to);
                assert(live.contains(y));
            }
        }
    }
}

/// Some state is taken by the iterations from `k` up to `j` to one that leaves the loop in the next
/// iteration.
pub open spec fn leaves_loop(
    m: InterpV,
    vid: i64,
    k: int,
    j: int,
    body: Seq<StmtV>,
    live: Seq<StateV>,
    out: OutcomeV,
) -> bool {
    exists|st: StateV, mid: StateV|
        live.contains(st) && #[trigger] iterated(m, vid, k, j, body, st, mid) && breaks_out(
            m,
            vid,
            j,
            body,
            mid,
            out,
        )
}

/// Some state is taken by the iterations from `k` up to `j` to another.
pub open spec fn goes_through(
    m: InterpV,
    vid: i64,
    k: int,
    j: int,
    body: Seq<StmtV>,
    live: Seq<StateV>,
    to: StateV,
) -> bool {
    exists|st: StateV| #[trigger] live.contains(st) && iterated(m, vid, k, j, body, st, to)
}

/// The number of the iteration in which the first of the paths leaves a loop; its upper bound if
/// none does.
pub open spec fn last_iteration(
    m: InterpV,
    vid: i64,
    k: int,
    hi: int,
    j: int,
    body: Seq<StmtV>,
    live: Seq<StateV>,
) -> bool {
    &&& k <= j <= hi
    &&& forall|i: int, out: OutcomeV|
        k <= i < j ==> !#[trigger] leaves_loop(m, vid, k, i, body, live, out)
    &&& j < hi ==> (exists|out: OutcomeV| #[trigger] leaves_loop(m, vid, k, j, body, live, out))
        || forall|to: StateV| !#[trigger] goes_through(m, vid, k, j + 1, body, live, to)
}

/// A loop runs its body once for each number from the lower bound up to but not including the
/// upper bound, in order and with the loop variable set to it, until the first of its paths
/// leaves it. The outcomes are the paths that leave it then and the ends of the others.
pub proof fn loops_count_up(
    m: InterpV,
    vid: i64,
    k: int,
    hi: int,
    body: Seq<StmtV>,
    live: Seq<StateV>,
) -> (j: int)
    requires
        k <= hi,
        loop_of(vid, k, hi, body, live, m) is Ok,
    ensures
        last_iteration(m, vid, k, hi, j, body, live),
        forall|o: OutcomeV|
            #![trigger loop_of(vid, k, hi, body, live, m)->Ok_0.contains(o)]
            loop_of(vid, k, hi, body, live, m)->Ok_0.contains(o) <==> if j < hi {
                leaves_loop(m, vid, k, j, body, live, o) || (o.0 is None && goes_through(
                    m,
                    vid,
                    k,
                    j + 1,
                    body,
                    live,
                    o.1,
                ))
            } else {
                o.0 is None && goes_through(m, vid, k, hi, body, live, o.1)
            },
    decreases hi - k,
{
    reveal(loop_of);
    let all = loop_of(vid, k, hi, body, live, m)->Ok_0;
    if k >= hi {
        assert forall|o: OutcomeV| #![trigger all.contains(o)]
            all.contains(o) <==> o.0 is None && goes_through(
            m,
            vid,
            k,
            hi,
            body,
            live,
            o.1,
        ) by {
            lemma_finished(live, seq![], o);
            if live.contains(o.1) {
                assert(iterated(m, vid, k, hi, body, o.1, o.1));
            }
        }
        k
    } else {
        let (outs, next) = iteration_of(vid, k, body, live, seq![], seq![], m)->Ok_0;
        lemma_iteration(m, vid, k, body, live, seq![], seq![]);
        assert forall|o: OutcomeV| outs.contains(o) <==> #[trigger] leaves_loop(
            m,
            vid,
            k,
            k,
            body,
            live,
            o,
        ) by {
            if outs.contains(o) {
                let st = choose|st: StateV| #[trigger]
                    live.contains(st) && breaks_out(m, vid, k, body, st, o);
                assert(iterated(m, vid, k, k, body, st, st));
            }
            if leaves_loop(m, vid, k, k, body, live, o) {
                let (st, mid) = choose|st: StateV, mid: StateV|
                    live.contains(st) && #[trigger] iterated(m, vid, k, k, body, st, mid)
                        && breaks_out(m, vid, k, body, mid, o);
                assert(one_breaks(m, vid, k, body, live, o));
            }
        }
        if outs.len() > 0 || next.len() == 0 {
            assert forall|x: StateV| next.contains(x) <==> #[trigger] goes_through(
                m,
                vid,
                k,
                k + 1,
                body,
                live,
                x,
            ) by {
                lemma_first_iteration(m, vid, k, k + 1, body, live, next, x);
                if next.contains(x) {
                    assert(iterated(m, vid, k + 1, k + 1, body, x, x));
                    assert(goes_through(m, vid, k + 1, k + 1, body, next, x));
                }
                if goes_through(m, vid, k + 1, k + 1, body, next, x) {
                    let y = choose|y: StateV| #[trigger]
                        next.contains(y) && iterated(m, vid, k + 1, k + 1, body, y, x);
                    assert(x == y);
                }
            }
            if outs.len() > 0 {
                assert(outs.contains(outs[0]));
                assert(leaves_loop(m, vid, k, k, body, live, outs[0]));
            }
            assert forall|o: OutcomeV| #![trigger all.contains(o)]
                all.contains(o) <==> (leaves_loop(m, vid, k, k, body, live, o) || (o.0 is None
                    && goes_through(m, vid, k, k + 1, body, live, o.1))) by {
                lemma_finished(next, outs, o);
            }
            k
        } else {
            let j = loops_count_up(m, vid, k + 1, hi, body, next);
            assert forall|i: int, o: OutcomeV| k < i implies (leaves_loop(
                m,
                vid,
                k + 1,
                i,
                body,
                next,
                o,
            ) <==> #[trigger] leaves_loop(m, vid, k, i, body, live, o)) by {
                lemma_first_leaving(m, vid, k, i, body, live, next, o);
            }
            assert forall|i: int, x: StateV| k < i implies (goes_through(
                m,
                vid,
                k + 1,
                i,
                body,
                next,
                x,
            ) <==> #[trigger] goes_through(m, vid, k, i, body, live, x)) by {
                lemma_first_iteration(m, vid, k, i, body, live, next, x);
            }
            assert forall|i: int, out: OutcomeV| k <= i < j implies !#[trigger] leaves_loop(
                m,
                vid,
                k,
                i,
                body,
                live,
                out,
            ) by {
                if i == k {
                    assert(!outs.contains(out));
                } else {
                    assert(!leaves_loop(m, vid, k + 1, i, body, next, out));
                }
            }
            if j < hi {
                if exists|out: OutcomeV| #[trigger] leaves_loop(m, vid, k + 1, j, body, next, out) {
                    let out = choose|out: OutcomeV| #[trigger]
                        leaves_loop(m, vid, k + 1, j, body, next, out);
                    assert(leaves_loop(m, vid, k, j, body, live, out));
                } else {
                    assert forall|to: StateV| !#[trigger] goes_through(
                        m,
                        vid,
                        k,
                        j + 1,
                        body,
                        live,
                        to,
                    ) by {
                        assert(!goes_through(m, vid, k + 1, j + 1, body, next, to));
                    }
                }
            }
            j
        }
    }
}

proof fn lemma_first_iteration(
    m: InterpV,
    vid: i64,
    k: int,
    i: int,
    body: Seq<StmtV>,
    live: Seq<StateV>,
    next: Seq<StateV>,
    x: StateV,
)
    requires
        k < i,
        forall|to: StateV|
            #![trigger next.contains(to)]
            next.contains(to) <==> one_iterates(m, vid, k, body, live, to),
    ensures
        goes_through(m, vid, k + 1, i, body, next, x) <==> goes_through(
            m,
            vid,
            k,
            i,
            body,
            live,
            x,
        ),
{
    if goes_through(m, vid, k + 1, i, body, next, x) {
        let mid = choose|mid: StateV| #[trigger]
            next.contains(mid) && iterated(m, vid, k + 1, i, body, mid, x);
        let st = choose|st: StateV| #[trigger]
            live.contains(st) && iterates(m, vid, k, body, st, mid);
        assert(iterated(m, vid, k, i, body, st, x));
    }
    if goes_through(m, vid, k, i, body, live, x) {
        let st = choose|st: StateV| #[trigger]
            live.contains(st) && iterated(m, vid, k, i, body, st, x);
        let mid = choose|mid: StateV| #[trigger]
            iterates(m, vid, k, body, st, mid) && iterated(m, vid, k + 1, i, body, mid, x);
        assert(one_iterates(m, vid, k, body, live, mid));
        assert(next.contains(mid));
    }
}

proof fn lemma_first_leaving(
    m: InterpV,
    vid: i64,
    k: int,
    i: int,
    body: Seq<StmtV>,
    live: Seq<StateV>,
    next: Seq<StateV>,
    o: OutcomeV,
)
    requires
        k < i,
        forall|to: StateV|
            #![trigger next.contains(to)]
            next.contains(to) <==> one_iterates(m, vid, k, body, live, to),
    ensures
        leaves_loop(m, vid, k + 1, i, body, next, o) <==> leaves_loop(m, vid, k, i, body, live, o),
{
    if leaves_loop(m, vid, k + 1, i, body, next, o) {
        let (st, mid) = choose|st: StateV, mid: StateV|
            next.contains(st) && #[trigger] iterated(m, vid, k + 1, i, body, st, mid)
                && breaks_out(m, vid, i, body, mid, o);
        let first = choose|first: StateV| #[trigger]
            live.contains(first) && iterates(m, vid, k, body, first, st);
        assert(iterated(m, vid, k, i, body, first, mid));
    }
    if leaves_loop(m, vid, k, i, body, live, o) {
        let (st, mid) = choose|st: StateV, mid: StateV|
            live.contains(st) && #[trigger] iterated(m, vid, k, i, body, st, mid) && breaks_out(
                m,
                vid,
                i,
                body,
                mid,
                o,
            );
        let first = choose|first: StateV| #[trigger]
            iterates(m, vid, k, body, st, first) && iterated(m, vid, k + 1, i, body, first, mid);
        assert(one_iterates(m, vid, k, body, live, first));
        assert(next.contains(first));
        assert(iterated(m, vid, k + 1, i, body, first, mid));
    }
}

} // verus!
