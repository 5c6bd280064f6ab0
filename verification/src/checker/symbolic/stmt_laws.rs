//! What statements do to the values that take a path.

use vstd::arithmetic::power2::pow2;
use vstd::prelude::*;
use crate::ast::{BinOp, ExprV, LValueV, StmtV, TypeV};
use crate::checker::symbolic::block_laws::{
    branches_have_their_paths, goes_through, is_outcome, is_path, iterated, last_iteration,
    leaves_loop, lemma_finished, lemma_firsts, lemma_joined, lemma_one_start, lemma_pushed,
    loops_count_up,
};
use crate::checker::symbolic::builtins::{
    bool_factor, both_nonzero, bounds_of, condition, split_covers,
};
use crate::checker::symbolic::context::ContextV;
use crate::checker::symbolic::error::ExecError;
use crate::checker::symbolic::expr::{as_int_term, disj, Formula, SymType, Term};
use crate::checker::symbolic::extension::lemma_follows;
use crate::checker::symbolic::growth::{execution_only_adds, values_extend};
use crate::checker::symbolic::index::index_of;
use crate::checker::symbolic::meaning::{
    all_hold, as_int_is_indicator, disj_keeps_truth, holds, some_holds, value,
};
use crate::checker::symbolic::operator_laws::conditions_mean_comparisons;
use crate::checker::symbolic::place::{assigned, read_of, scalar_node};
use crate::checker::symbolic::results::{OutcomeV, ValueStepV};
use crate::checker::symbolic::semantics::{
    and_assign_of, assert_bool_of, assert_eq_of, assert_range_of, assert_zero_of, assign_of,
    branch_of, condition_at, conjoined, decl_of, declared_all, exec_of, interp, interp_exec,
    is_condition, loop_of, ranged, return_of, returning, update_of, InterpV,
};
use crate::checker::symbolic::semantics::Flow;
use crate::checker::symbolic::state::{ExecStatus, StateV};
use crate::checker::symbolic::state_laws::{adding_is_conjunction, sound_at};
use crate::checker::symbolic::state_ops::{in_range, lemma_cond_keeps};
use crate::checker::symbolic::store::NodeV;

verus! {

/// One of the values of an expression, with the state after its evaluation.
pub open spec fn is_value(m: InterpV, e: ExprV, st: StateV, v: ValueStepV) -> bool {
    (m.eval)(e, st) is Ok && (m.eval)(e, st)->Ok_0.contains(v)
}

/// The only value of an expression, with the state after its evaluation.
pub open spec fn is_sole_value(m: InterpV, e: ExprV, st: StateV, v: ValueStepV) -> bool {
    (m.eval)(e, st) is Ok && (m.eval)(e, st)->Ok_0 == seq![v]
}

/// Two states with the same variables, memory events and status.
pub open spec fn same_memory(a: StateV, b: StateV) -> bool {
    &&& a.store == b.store
    &&& a.events == b.events
    &&& a.ctx == b.ctx
    &&& a.status == b.status
}

/// A comparison of two integers, or a connective on two integers of which all but zero are true.
pub open spec fn is_true(op: BinOp, x: int, y: int) -> bool {
    match op {
        BinOp::Eq => x == y,
        BinOp::Ne => x != y,
        BinOp::Lt => x < y,
        BinOp::Le => x <= y,
        BinOp::Gt => x > y,
        BinOp::Ge => x >= y,
        BinOp::And => x != 0 && y != 0,
        BinOp::Or => x != 0 || y != 0,
        _ => false,
    }
}

/// Evaluating a condition leads to a state, and under `env` the condition is true, or it is false.
pub open spec fn decides(
    m: InterpV,
    e: ExprV,
    st: StateV,
    after: StateV,
    truth: bool,
    env: spec_fn(Seq<char>) -> int,
) -> bool
    decreases e,
{
    match e {
        ExprV::Bool(b) => truth == b && after == st,
        ExprV::Paren(inner) => decides(m, *inner, st, after, truth, env),
        ExprV::Binary { op, lhs, rhs } => exists|l: ValueStepV, r: ValueStepV|
            #![trigger is_sole_value(m, *lhs, st, l), is_sole_value(m, *rhs, l.1, r)]
            is_sole_value(m, *lhs, st, l) && is_sole_value(m, *rhs, l.1, r) && after == r.1 && truth
                == is_true(op, value(l.0, env), value(r.0, env)),
        _ => false,
    }
}

pub proof fn lemma_sole(m: InterpV, e: ExprV, st: StateV)
    requires
        (m.eval)(e, st) is Ok,
        (m.eval)(e, st)->Ok_0.len() == 1,
    ensures
        is_sole_value(m, e, st, (m.eval)(e, st)->Ok_0[0]),
{
    let vs = (m.eval)(e, st)->Ok_0;
    assert(vs =~= seq![vs[0]]);
}

/// What evaluating an expression keeps of the state before.
pub proof fn lemma_eval_follows(
    n: nat,
    e: ExprV,
    st: StateV,
    v: ValueStepV,
    env: spec_fn(Seq<char>) -> int,
)
    requires
        is_value(interp(n), e, st, v) || is_sole_value(interp(n), e, st, v),
    ensures
        v.1.ctx == st.ctx,
        sound_at(st, env) ==> sound_at(v.1, env),
        all_hold(v.1.path_cond, env) ==> all_hold(st.path_cond, env),
{
    execution_only_adds(n);
    let vs = (interp(n).eval)(e, st)->Ok_0;
    if is_sole_value(interp(n), e, st, v) {
        assert(vs[0] == v);
    }
    let i = choose|i: int| 0 <= i < vs.len() && vs[i] == v;
    assert(values_extend(st, vs));
    lemma_follows(st, vs[i].1, env);
}

proof fn lemma_condition_at(n: nat, e: ExprV, st: StateV, env: spec_fn(Seq<char>) -> int)
    requires
        condition_at(e, st, interp(n)) is Ok,
    ensures
        ({
            let (f, s) = condition_at(e, st, interp(n))->Ok_0;
            &&& decides(interp(n), e, st, s, holds(f, env), env)
            &&& s.ctx == st.ctx
            &&& sound_at(st, env) ==> sound_at(s, env)
            &&& all_hold(s.path_cond, env) ==> all_hold(st.path_cond, env)
        }),
    decreases e,
{
    reveal(condition_at);
    let m = interp(n);
    match e {
        ExprV::Paren(inner) => lemma_condition_at(n, *inner, st, env),
        ExprV::Binary { op, lhs, rhs } => {
            let l = (m.eval)(*lhs, st)->Ok_0[0];
            lemma_sole(m, *lhs, st);
            let r = (m.eval)(*rhs, l.1)->Ok_0[0];
            lemma_sole(m, *rhs, l.1);
            conditions_mean_comparisons(op, l.0, r.0, env);
            assert(holds(condition(op, l.0, r.0)->Ok_0, env) == is_true(
                op,
                value(l.0, env),
                value(r.0, env),
            )) by {
                reveal(condition);
            }
            lemma_eval_follows(n, *lhs, st, l, env);
            lemma_eval_follows(n, *rhs, l.1, r, env);
            assert(is_sole_value(m, *lhs, st, l) && is_sole_value(m, *rhs, l.1, r));
        },
        _ => {},
    }
}

proof fn lemma_decided_once(
    m: InterpV,
    e: ExprV,
    st: StateV,
    s1: StateV,
    b1: bool,
    s2: StateV,
    b2: bool,
    env: spec_fn(Seq<char>) -> int,
)
    requires
        decides(m, e, st, s1, b1, env),
        decides(m, e, st, s2, b2, env),
    ensures
        s1 == s2,
        b1 == b2,
    decreases e,
{
    match e {
        ExprV::Paren(inner) => lemma_decided_once(m, *inner, st, s1, b1, s2, b2, env),
        ExprV::Binary { op, lhs, rhs } => {
            let (l1, r1) = choose|l: ValueStepV, r: ValueStepV|
                #![trigger is_sole_value(m, *lhs, st, l), is_sole_value(m, *rhs, l.1, r)]
                is_sole_value(m, *lhs, st, l) && is_sole_value(m, *rhs, l.1, r) && s1 == r.1 && b1
                    == is_true(op, value(l.0, env), value(r.0, env));
            let (l2, r2) = choose|l: ValueStepV, r: ValueStepV|
                #![trigger is_sole_value(m, *lhs, st, l), is_sole_value(m, *rhs, l.1, r)]
                is_sole_value(m, *lhs, st, l) && is_sole_value(m, *rhs, l.1, r) && s2 == r.1 && b2
                    == is_true(op, value(l.0, env), value(r.0, env));
            assert(seq![l1][0] == seq![l2][0]);
            assert(seq![r1][0] == seq![r2][0]);
        },
        _ => {},
    }
}

/// The branch that a truth value selects.
spec fn chosen(truth: bool, a: Seq<StmtV>, b: Seq<StmtV>) -> Seq<StmtV> {
    if truth {
        a
    } else {
        b
    }
}

/// A conditional takes the branch that its condition selects: values that take a path through
/// `if c { a } else { b }` take it through `a` where the condition is true under them, and through
/// `b` where it is false. The branch starts with the variables and events that the evaluation of
/// the condition leaves.
pub proof fn conditionals_follow_their_condition(
    n: nat,
    cond: ExprV,
    a: Seq<StmtV>,
    b: Seq<StmtV>,
    st: StateV,
    o: OutcomeV,
    env: spec_fn(Seq<char>) -> int,
)
    requires
        sound_at(st, env),
        is_outcome(
            interp(n + 1),
            StmtV::If { cond, then_branch: a, else_branch: b },
            st,
            o,
        ),
        all_hold(o.1.path_cond, env),
    ensures
        exists|after: StateV, truth: bool| #[trigger]
            decides(interp(n), cond, st, after, truth, env),
        forall|after: StateV| #[trigger]
            decides(interp(n), cond, st, after, true, env) ==> exists|start: StateV|
                same_memory(after, start) && all_hold(start.path_cond, env) && #[trigger] is_path(
                    interp(n),
                    Flow::Branch,
                    a,
                    start,
                    o,
                ),
        forall|after: StateV| #[trigger]
            decides(interp(n), cond, st, after, false, env) ==> exists|start: StateV|
                same_memory(after, start) && all_hold(start.path_cond, env) && #[trigger] is_path(
                    interp(n),
                    Flow::Branch,
                    b,
                    start,
                    o,
                ),
{
    let m = interp(n);
    let s = StmtV::If { cond, then_branch: a, else_branch: b };
    interp_exec(n + 1, s, st);
    reveal(exec_of);
    assert(st.active()) by {
        if !st.active() {
            assert((interp(n + 1).run)(s, st)->Ok_0.len() == 0);
        }
    }
    let (f, s1) = condition_at(cond, st, m)->Ok_0;
    lemma_condition_at(n, cond, st, env);
    let nf = Formula::Not(Box::new(f));
    adding_is_conjunction(s1, f, env);
    adding_is_conjunction(s1, nf, env);
    lemma_cond_keeps(s1, f);
    lemma_cond_keeps(s1, nf);
    assert(holds(nf, env) == !holds(f, env));
    let then_start = s1.with_cond(f);
    let else_start = s1.with_cond(nf);
    let all = (interp(n + 1).run)(s, st)->Ok_0;
    let from_then = f != Formula::Bool(false) && branch_of(a, then_start, m) is Ok && branch_of(
        a,
        then_start,
        m,
    )->Ok_0.contains(o);
    let from_else = f != Formula::Bool(true) && branch_of(b, else_start, m) is Ok && branch_of(
        b,
        else_start,
        m,
    )->Ok_0.contains(o);
    assert(from_then || from_else) by {
        if f != Formula::Bool(true) && f != Formula::Bool(false) {
            lemma_joined(
                branch_of(a, then_start, m)->Ok_0,
                branch_of(b, else_start, m)->Ok_0,
                o,
            );
        }
    }
    assert forall|after: StateV, truth: bool| #[trigger]
        decides(m, cond, st, after, truth, env) implies exists|start: StateV|
        same_memory(after, start) && all_hold(start.path_cond, env) && #[trigger] is_path(
            m,
            Flow::Branch,
            chosen(truth, a, b),
            start,
            o,
        ) by {
        lemma_decided_once(m, cond, st, s1, holds(f, env), after, truth, env);
        if from_then {
            branches_have_their_paths(m, a, then_start, o);
            lemma_path_follows(n, a, then_start, o, env);
            assert(truth);
            assert(same_memory(after, then_start));
            assert(is_path(m, Flow::Branch, chosen(truth, a, b), then_start, o));
        } else {
            branches_have_their_paths(m, b, else_start, o);
            lemma_path_follows(n, b, else_start, o, env);
            assert(!truth);
            assert(same_memory(after, else_start));
            assert(is_path(m, Flow::Branch, chosen(truth, a, b), else_start, o));
        }
    }
    lemma_chosen(m, cond, a, b, st, o, env);
}

proof fn lemma_chosen(
    m: InterpV,
    cond: ExprV,
    a: Seq<StmtV>,
    b: Seq<StmtV>,
    st: StateV,
    o: OutcomeV,
    env: spec_fn(Seq<char>) -> int,
)
    requires
        forall|after: StateV, truth: bool| #[trigger]
            decides(m, cond, st, after, truth, env) ==> exists|start: StateV|
                same_memory(after, start) && all_hold(start.path_cond, env) && #[trigger] is_path(
                    m,
                    Flow::Branch,
                    chosen(truth, a, b),
                    start,
                    o,
                ),
    ensures
        forall|after: StateV| #[trigger]
            decides(m, cond, st, after, true, env) ==> exists|start: StateV|
                same_memory(after, start) && all_hold(start.path_cond, env) && #[trigger] is_path(
                    m,
                    Flow::Branch,
                    a,
                    start,
                    o,
                ),
        forall|after: StateV| #[trigger]
            decides(m, cond, st, after, false, env) ==> exists|start: StateV|
                same_memory(after, start) && all_hold(start.path_cond, env) && #[trigger] is_path(
                    m,
                    Flow::Branch,
                    b,
                    start,
                    o,
                ),
{
    assert(chosen(true, a, b) == a);
    assert(chosen(false, a, b) == b);
}

proof fn lemma_path_follows(
    n: nat,
    body: Seq<StmtV>,
    st: StateV,
    o: OutcomeV,
    env: spec_fn(Seq<char>) -> int,
)
    requires
        branch_of(body, st, interp(n)) is Ok,
        branch_of(body, st, interp(n))->Ok_0.contains(o),
        all_hold(o.1.path_cond, env),
    ensures
        all_hold(st.path_cond, env),
{
    execution_only_adds(n);
    crate::checker::symbolic::growth::lemma_branch_of(interp(n), body, st);
    let rs = branch_of(body, st, interp(n))->Ok_0;
    let i = choose|i: int| 0 <= i < rs.len() && rs[i] == o;
    lemma_follows(st, rs[i].1, env);
}

/// No path of a conditional is lost: for values that reach it, all paths through the branch that
/// its condition selects are paths of the conditional.
pub proof fn conditionals_keep_all_paths(
    n: nat,
    cond: ExprV,
    a: Seq<StmtV>,
    b: Seq<StmtV>,
    st: StateV,
    after: StateV,
    truth: bool,
    env: spec_fn(Seq<char>) -> int,
)
    requires
        sound_at(st, env),
        st.active(),
        (interp(n + 1).run)(StmtV::If { cond, then_branch: a, else_branch: b }, st) is Ok,
        decides(interp(n), cond, st, after, truth, env),
        all_hold(after.path_cond, env),
    ensures
        truth ==> exists|start: StateV|
            same_memory(after, start) && all_hold(start.path_cond, env) && #[trigger] all_paths_in(
                interp(n),
                a,
                start,
                interp(n + 1),
                StmtV::If { cond, then_branch: a, else_branch: b },
                st,
            ),
        !truth ==> exists|start: StateV|
            same_memory(after, start) && all_hold(start.path_cond, env) && #[trigger] all_paths_in(
                interp(n),
                b,
                start,
                interp(n + 1),
                StmtV::If { cond, then_branch: a, else_branch: b },
                st,
            ),
{
    let m = interp(n);
    let s = StmtV::If { cond, then_branch: a, else_branch: b };
    interp_exec(n + 1, s, st);
    reveal(exec_of);
    let (f, s1) = condition_at(cond, st, m)->Ok_0;
    lemma_condition_at(n, cond, st, env);
    lemma_decided_once(m, cond, st, s1, holds(f, env), after, truth, env);
    let nf = Formula::Not(Box::new(f));
    adding_is_conjunction(s1, f, env);
    adding_is_conjunction(s1, nf, env);
    lemma_cond_keeps(s1, f);
    lemma_cond_keeps(s1, nf);
    assert(holds(nf, env) == !holds(f, env));
    let start = if truth {
        s1.with_cond(f)
    } else {
        s1.with_cond(nf)
    };
    let body = chosen(truth, a, b);
    assert(holds(Formula::Bool(true), env));
    assert(!holds(Formula::Bool(false), env));
    assert(branch_of(body, start, m) is Ok);
    assert forall|o: OutcomeV| #[trigger]
        is_path(m, Flow::Branch, body, start, o) implies is_outcome(interp(n + 1), s, st, o) by {
        branches_have_their_paths(m, body, start, o);
        if f != Formula::Bool(true) && f != Formula::Bool(false) {
            lemma_joined(
                branch_of(a, s1.with_cond(f), m)->Ok_0,
                branch_of(b, s1.with_cond(nf), m)->Ok_0,
                o,
            );
        }
    }
    assert(same_memory(after, start));
    assert(all_paths_in(m, body, start, interp(n + 1), s, st));
}

/// Every path through a branch is an outcome of a statement.
pub open spec fn all_paths_in(
    m: InterpV,
    body: Seq<StmtV>,
    start: StateV,
    above: InterpV,
    s: StmtV,
    st: StateV,
) -> bool {
    forall|o: OutcomeV| #[trigger]
        is_path(m, Flow::Branch, body, start, o) ==> is_outcome(above, s, st, o)
}

/// The Boolean factor by which an equation is split is 0 or 1.
pub open spec fn factor_is_bit(l: Term, r: Term, env: spec_fn(Seq<char>) -> int) -> bool {
    match bool_factor(Formula::Eq(l, r)) {
        Some((b, _)) => value(b, env) == 0 || value(b, env) == 1,
        None => true,
    }
}

proof fn lemma_split(st: StateV, l: Term, r: Term, env: spec_fn(Seq<char>) -> int)
    requires
        sound_at(st, env),
    ensures
        forall|s: StateV| #[trigger]
            st.split(Formula::Eq(l, r)).contains(s) ==> same_memory(st, s) && sound_at(s, env) && (
            all_hold(s.path_cond, env) ==> all_hold(st.path_cond, env) && value(l, env) == value(
                r,
                env,
            )),
        all_hold(st.path_cond, env) && value(l, env) == value(r, env) && factor_is_bit(l, r, env)
            ==> exists|s: StateV| #[trigger]
            st.split(Formula::Eq(l, r)).contains(s) && all_hold(s.path_cond, env),
{
    reveal(StateV::split);
    let eq = Formula::Eq(l, r);
    let all = st.split(eq);
    assert(holds(eq, env) == (value(l, env) == value(r, env)));
    match bool_factor(eq) {
        Some((b, rest)) => {
            let f0 = Formula::Eq(b, Term::Int(0));
            let f1 = Formula::Eq(b, Term::Int(1));
            let f2 = Formula::Eq(rest, Term::Int(0));
            assert(value(Term::Int(0), env) == 0);
            assert(value(Term::Int(1), env) == 1);
            assert(holds(f0, env) == (value(b, env) == 0));
            assert(holds(f1, env) == (value(b, env) == 1));
            adding_is_conjunction(st, f0, env);
            lemma_cond_keeps(st, f0);
            adding_is_conjunction(st, f1, env);
            lemma_cond_keeps(st, f1);
            let s1 = st.with_cond(f1);
            adding_is_conjunction(s1, f2, env);
            lemma_cond_keeps(s1, f2);
            if value(b, env) == 0 || value(b, env) == 1 {
                split_covers(eq, env);
            }
            assert(all[0] == st.with_cond(f0));
            assert(all[1] == s1.with_cond(f2));
            assert(all.contains(all[0]) && all.contains(all[1]));
        },
        None => {
            adding_is_conjunction(st, eq, env);
            lemma_cond_keeps(st, eq);
            assert(all[0] == st.with_cond(eq));
            assert(all.contains(all[0]));
        },
    }
}

/// An equation between the values of two expressions, evaluated one after the other, holds.
pub open spec fn equated(
    m: InterpV,
    a: ExprV,
    b: ExprV,
    st: StateV,
    after: StateV,
    env: spec_fn(Seq<char>) -> int,
) -> bool {
    exists|l: ValueStepV, r: ValueStepV|
        #![trigger is_sole_value(m, a, st, l), is_sole_value(m, b, l.1, r)]
        is_sole_value(m, a, st, l) && is_sole_value(m, b, l.1, r) && after == r.1 && value(l.0, env)
            == value(r.0, env)
}

/// Values that take a path behind an asserted equation give both sides the same value; nothing but
/// the path condition changes.
pub proof fn asserted_equations_hold(
    n: nat,
    a: ExprV,
    b: ExprV,
    st: StateV,
    o: OutcomeV,
    env: spec_fn(Seq<char>) -> int,
)
    requires
        sound_at(st, env),
        is_outcome(interp(n + 1), StmtV::AssertEq(a, b), st, o),
        all_hold(o.1.path_cond, env),
    ensures
        o.0 is None,
        exists|after: StateV| #[trigger]
            equated(interp(n), a, b, st, after, env) && same_memory(after, o.1) && all_hold(
                after.path_cond,
                env,
            ),
{
    let m = interp(n);
    interp_exec(n + 1, StmtV::AssertEq(a, b), st);
    reveal(exec_of);
    reveal(assert_eq_of);
    let l = (m.eval)(a, st)->Ok_0[0];
    lemma_sole(m, a, st);
    let r = (m.eval)(b, l.1)->Ok_0[0];
    lemma_sole(m, b, l.1);
    lemma_eval_follows(n, a, st, l, env);
    lemma_eval_follows(n, b, l.1, r, env);
    lemma_finished(r.1.split(Formula::Eq(l.0, r.0)), seq![], o);
    lemma_split(r.1, l.0, r.0, env);
    assert(is_sole_value(m, a, st, l) && is_sole_value(m, b, l.1, r));
    assert(equated(m, a, b, st, r.1, env));
}

/// Values that satisfy an asserted equation take one of the paths behind it.
pub proof fn asserted_equations_keep_solutions(
    n: nat,
    a: ExprV,
    b: ExprV,
    st: StateV,
    l: ValueStepV,
    r: ValueStepV,
    env: spec_fn(Seq<char>) -> int,
)
    requires
        sound_at(st, env),
        st.active(),
        (interp(n + 1).run)(StmtV::AssertEq(a, b), st) is Ok,
        is_sole_value(interp(n), a, st, l),
        is_sole_value(interp(n), b, l.1, r),
        all_hold(r.1.path_cond, env),
        value(l.0, env) == value(r.0, env),
        factor_is_bit(l.0, r.0, env),
    ensures
        exists|o: OutcomeV| #[trigger]
            is_outcome(interp(n + 1), StmtV::AssertEq(a, b), st, o) && all_hold(
                o.1.path_cond,
                env,
            ),
{
    let m = interp(n);
    interp_exec(n + 1, StmtV::AssertEq(a, b), st);
    reveal(exec_of);
    reveal(assert_eq_of);
    assert((m.eval)(a, st)->Ok_0[0] == l);
    assert((m.eval)(b, l.1)->Ok_0[0] == r);
    lemma_eval_follows(n, a, st, l, env);
    lemma_eval_follows(n, b, l.1, r, env);
    lemma_split(r.1, l.0, r.0, env);
    let all = r.1.split(Formula::Eq(l.0, r.0));
    let s = choose|s: StateV| #[trigger] all.contains(s) && all_hold(s.path_cond, env);
    let o = (None::<Term>, s);
    lemma_finished(all, seq![], o);
    assert(is_outcome(interp(n + 1), StmtV::AssertEq(a, b), st, o));
}

/// Values that take a path behind the assertion that an expression is zero make it zero, and values
/// that make it zero take such a path.
pub proof fn asserted_zeros_are_zero(
    n: nat,
    e: ExprV,
    st: StateV,
    v: ValueStepV,
    o: OutcomeV,
    env: spec_fn(Seq<char>) -> int,
)
    requires
        sound_at(st, env),
        st.active(),
        (interp(n + 1).run)(StmtV::AssertZero(e), st) is Ok,
        is_sole_value(interp(n), e, st, v),
    ensures
        is_outcome(interp(n + 1), StmtV::AssertZero(e), st, o) ==> o.0 is None && same_memory(
            v.1,
            o.1,
        ),
        is_outcome(interp(n + 1), StmtV::AssertZero(e), st, o) && all_hold(o.1.path_cond, env)
            ==> all_hold(v.1.path_cond, env) && value(v.0, env) == 0,
        all_hold(v.1.path_cond, env) && value(v.0, env) == 0 && factor_is_bit(
            v.0,
            Term::Int(0),
            env,
        ) ==> exists|p: OutcomeV| #[trigger]
            is_outcome(interp(n + 1), StmtV::AssertZero(e), st, p) && all_hold(
                p.1.path_cond,
                env,
            ),
{
    let m = interp(n);
    let s = StmtV::AssertZero(e);
    interp_exec(n + 1, s, st);
    reveal(exec_of);
    reveal(assert_zero_of);
    assert((m.eval)(e, st)->Ok_0[0] == v);
    lemma_eval_follows(n, e, st, v, env);
    lemma_split(v.1, v.0, Term::Int(0), env);
    assert(value(Term::Int(0), env) == 0);
    let all = v.1.split(Formula::Eq(v.0, Term::Int(0)));
    lemma_finished(all, seq![], o);
    if all_hold(v.1.path_cond, env) && value(v.0, env) == 0 && factor_is_bit(
        v.0,
        Term::Int(0),
        env,
    ) {
        let t = choose|t: StateV| #[trigger] all.contains(t) && all_hold(t.path_cond, env);
        lemma_finished(all, seq![], (None::<Term>, t));
        assert(is_outcome(interp(n + 1), s, st, (None::<Term>, t)));
    }
}

/// An asserted condition is true of exactly the values that go on behind it.
pub proof fn asserted_conditions_hold(
    n: nat,
    e: ExprV,
    st: StateV,
    o: OutcomeV,
    env: spec_fn(Seq<char>) -> int,
)
    requires
        sound_at(st, env),
        is_condition(e),
        is_outcome(interp(n + 1), StmtV::AssertBool(e), st, o),
    ensures
        o.0 is None,
        exists|after: StateV, truth: bool| #[trigger]
            decides(interp(n), e, st, after, truth, env) && same_memory(after, o.1) && (all_hold(
                o.1.path_cond,
                env,
            ) <==> all_hold(after.path_cond, env) && truth),
{
    let m = interp(n);
    interp_exec(n + 1, StmtV::AssertBool(e), st);
    reveal(exec_of);
    reveal(assert_bool_of);
    let (f, s1) = condition_at(e, st, m)->Ok_0;
    lemma_condition_at(n, e, st, env);
    adding_is_conjunction(s1, f, env);
    lemma_cond_keeps(s1, f);
    let all = seq![(None::<Term>, s1.with_cond(f))];
    let i = choose|i: int| 0 <= i < all.len() && all[i] == o;
    assert(decides(m, e, st, s1, holds(f, env), env));
}

/// Asserting a variable, a field or an element says that it is 0 or 1.
pub proof fn asserted_places_are_bits(
    n: nat,
    e: ExprV,
    st: StateV,
    o: OutcomeV,
    env: spec_fn(Seq<char>) -> int,
)
    requires
        sound_at(st, env),
        !is_condition(e),
        is_outcome(interp(n + 1), StmtV::AssertBool(e), st, o),
    ensures
        o.0 is None,
        exists|v: ValueStepV| #[trigger]
            is_sole_value(interp(n), e, st, v) && same_memory(v.1, o.1) && (all_hold(
                o.1.path_cond,
                env,
            ) <==> all_hold(v.1.path_cond, env) && (value(v.0, env) == 0 || value(v.0, env) == 1)),
{
    let m = interp(n);
    interp_exec(n + 1, StmtV::AssertBool(e), st);
    reveal(exec_of);
    reveal(assert_bool_of);
    let v = (m.eval)(e, st)->Ok_0[0];
    lemma_sole(m, e, st);
    lemma_eval_follows(n, e, st, v, env);
    let zero = Formula::Eq(v.0, Term::Int(0));
    let one = Formula::Eq(v.0, Term::Int(1));
    let parts = seq![zero, one];
    disj_keeps_truth(parts, env);
    adding_is_conjunction(v.1, disj(parts), env);
    lemma_cond_keeps(v.1, disj(parts));
    assert(value(Term::Int(0), env) == 0);
    assert(value(Term::Int(1), env) == 1);
    assert(holds(zero, env) == (value(v.0, env) == 0));
    assert(holds(one, env) == (value(v.0, env) == 1));
    assert(some_holds(parts, env) == (holds(zero, env) || holds(one, env))) by {
        assert(parts.drop_last() =~= seq![zero]);
        assert(seq![zero].drop_last() =~= seq![]);
        reveal_with_fuel(some_holds, 3);
    }
    let all = seq![(None::<Term>, v.1.with_cond(disj(parts)))];
    let i = choose|i: int| 0 <= i < all.len() && all[i] == o;
    assert(is_sole_value(m, e, st, v));
}

/// An integer is a value of a sort of bounded integers.
pub open spec fn is_of_sort(x: int, sty: SymType) -> bool {
    match sty {
        SymType::Bool => x == 0 || x == 1,
        SymType::Uint(w) => 0 <= x < pow2(w as nat),
        SymType::Int(w) => w > 0 && -pow2((w - 1) as nat) <= x < pow2((w - 1) as nat),
        SymType::F => false,
    }
}

proof fn lemma_ranged(
    rs: Seq<ValueStepV>,
    min: int,
    max: int,
    bits: usize,
    acc: Seq<OutcomeV>,
    o: OutcomeV,
)
    ensures
        ranged(rs, min, max, bits, acc).contains(o) <==> acc.contains(o) || exists|v: ValueStepV|
            #[trigger] rs.contains(v) && o == (None::<Term>, v.1.with_cond(
                in_range(v.0, min, max, bits),
            )),
    decreases rs.len(),
{
    reveal(ranged);
    if rs.len() > 0 {
        let r = rs[0];
        let first = (None::<Term>, r.1.with_cond(in_range(r.0, min, max, bits)));
        lemma_ranged(rs.drop_first(), min, max, bits, acc.push(first), o);
        lemma_pushed(acc, first, o);
        lemma_firsts(rs);
    }
}

/// Asserting that an expression is of a type says that its value is one of the sort of that type:
/// one outcome for each value of the expression, with the same variables and events.
pub proof fn asserted_ranges_hold(
    n: nat,
    value_of: ExprV,
    ty: TypeV,
    st: StateV,
    o: OutcomeV,
    env: spec_fn(Seq<char>) -> int,
)
    requires
        sound_at(st, env),
        is_outcome(interp(n + 1), StmtV::AssertRange { value: value_of, ty }, st, o),
    ensures
        o.0 is None,
        st.ctx.sort_of(ty) is Some,
        exists|v: ValueStepV| #[trigger]
            is_value(interp(n), value_of, st, v) && same_memory(v.1, o.1) && (all_hold(
                o.1.path_cond,
                env,
            ) <==> all_hold(v.1.path_cond, env) && is_of_sort(
                value(v.0, env),
                st.ctx.sort_of(ty)->0,
            )),
{
    let m = interp(n);
    interp_exec(n + 1, StmtV::AssertRange { value: value_of, ty }, st);
    reveal(exec_of);
    reveal(assert_range_of);
    let rs = (m.eval)(value_of, st)->Ok_0;
    let sty = st.ctx.sort_of(ty)->0;
    let (lo, hi, w) = bounds_of(sty)->0;
    lemma_ranged(rs, lo, hi, w, seq![], o);
    let v = choose|v: ValueStepV| #[trigger]
        rs.contains(v) && o == (None::<Term>, v.1.with_cond(in_range(v.0, lo, hi, w)));
    assert(is_value(m, value_of, st, v));
    lemma_eval_follows(n, value_of, st, v, env);
    let f = in_range(v.0, lo, hi, w);
    adding_is_conjunction(v.1, f, env);
    lemma_cond_keeps(v.1, f);
    assert(holds(f, env) == (lo <= value(v.0, env) <= hi));
    reveal(bounds_of);
}

proof fn lemma_declared(
    rs: Seq<ValueStepV>,
    vid: i64,
    ty: TypeV,
    acc: Seq<OutcomeV>,
    o: OutcomeV,
)
    requires
        declared_all(rs, vid, ty, acc) is Ok,
    ensures
        declared_all(rs, vid, ty, acc)->Ok_0.contains(o) <==> acc.contains(o) || exists|
            v: ValueStepV,
        | #[trigger]
            rs.contains(v) && o == (None::<Term>, v.1.with_binding(vid, scalar_node(v.0))),
    decreases rs.len(),
{
    reveal(declared_all);
    if rs.len() > 0 {
        let r = rs[0];
        let first = (None::<Term>, r.1.with_binding(vid, scalar_node(r.0)));
        lemma_declared(rs.drop_first(), vid, ty, acc.push(first), o);
        lemma_pushed(acc, first, o);
        lemma_firsts(rs);
    }
}

/// A state with one variable set to a scalar and everything else as before.
pub open spec fn sets_variable(before: StateV, vid: i64, t: Term, after: StateV) -> bool {
    &&& after.store.contains_key(vid as int)
    &&& after.store[vid as int] is Scalar
    &&& after.store[vid as int]->Scalar_0.surface == t
    &&& forall|k: int|
        k != vid ==> (#[trigger] after.store.contains_key(k) <==> before.store.contains_key(k)) && (
        before.store.contains_key(k) ==> after.store[k] == before.store[k])
    &&& after.path_cond == before.path_cond
    &&& after.events == before.events
    &&& after.status == before.status
    &&& after.ctx == before.ctx
}

/// A declaration sets its variable to the initial value: one outcome for each value.
pub proof fn declarations_set_their_variable(
    n: nat,
    name: Seq<char>,
    id: Option<i64>,
    ty: TypeV,
    init: ExprV,
    st: StateV,
    o: OutcomeV,
)
    requires
        st.active(),
        (interp(n + 1).run)(StmtV::VarDecl { id, name, ty, init }, st) is Ok,
    ensures
        id is Some,
        is_outcome(interp(n + 1), StmtV::VarDecl { id, name, ty, init }, st, o) ==> o.0 is None
            && exists|v: ValueStepV| #[trigger]
            is_value(interp(n), init, st, v) && sets_variable(v.1, id->0, v.0, o.1),
        forall|v: ValueStepV| #[trigger]
            is_value(interp(n), init, st, v) ==> exists|p: OutcomeV| #[trigger]
                is_outcome(interp(n + 1), StmtV::VarDecl { id, name, ty, init }, st, p)
                    && sets_variable(v.1, id->0, v.0, p.1),
{
    let m = interp(n);
    let s = StmtV::VarDecl { id, name, ty, init };
    interp_exec(n + 1, s, st);
    reveal(exec_of);
    reveal(decl_of);
    let rs = (m.eval)(init, st)->Ok_0;
    let vid = id->0;
    lemma_declared(rs, vid, ty, seq![], o);
    if is_outcome(interp(n + 1), s, st, o) {
        let v = choose|v: ValueStepV| #[trigger]
            rs.contains(v) && o == (None::<Term>, v.1.with_binding(vid, scalar_node(v.0)));
        assert(is_value(m, init, st, v));
    }
    assert forall|v: ValueStepV| #[trigger] is_value(m, init, st, v) implies exists|p: OutcomeV|
        #[trigger]
        is_outcome(interp(n + 1), s, st, p) && sets_variable(v.1, vid, v.0, p.1) by {
        let p = (None::<Term>, v.1.with_binding(vid, scalar_node(v.0)));
        lemma_declared(rs, vid, ty, seq![], p);
        assert(is_outcome(interp(n + 1), s, st, p));
    }
}

/// A state with a place set to a scalar and everything but the store as before.
pub open spec fn sets_place(before: StateV, target: LValueV, t: Term, after: StateV) -> bool {
    &&& assigned(before.ctx, before.store, target, t) == Ok::<Map<int, NodeV>, ExecError>(
        after.store,
    )
    &&& after.path_cond == before.path_cond
    &&& after.events == before.events
    &&& after.status == before.status
    &&& after.ctx == before.ctx
}

/// An assignment sets its target to the value of the expression, evaluated before.
pub proof fn assignments_set_their_target(
    n: nat,
    target: LValueV,
    source: ExprV,
    st: StateV,
    o: OutcomeV,
)
    requires
        st.active(),
        (interp(n + 1).run)(StmtV::Assign { target, value: source }, st) is Ok,
    ensures
        exists|v: ValueStepV, p: OutcomeV|
            #![trigger is_sole_value(interp(n), source, st, v), is_outcome(interp(n + 1), (StmtV::Assign {
                target,
                value: source,
            }), st, p)]
            is_sole_value(interp(n), source, st, v) && is_outcome(
                interp(n + 1),
                (StmtV::Assign { target, value: source }),
                st,
                p,
            ) && sets_place(v.1, target, v.0, p.1),
        is_outcome(interp(n + 1), StmtV::Assign { target, value: source }, st, o) ==> o.0 is None
            && exists|v: ValueStepV| #[trigger]
            is_sole_value(interp(n), source, st, v) && sets_place(v.1, target, v.0, o.1),
{
    let m = interp(n);
    let s = StmtV::Assign { target, value: source };
    interp_exec(n + 1, s, st);
    reveal(exec_of);
    reveal(assign_of);
    let v = (m.eval)(source, st)->Ok_0[0];
    lemma_sole(m, source, st);
    let all = (interp(n + 1).run)(s, st)->Ok_0;
    assert(all.len() == 1);
    let p = all[0];
    assert(all.contains(p));
    assert(is_outcome(interp(n + 1), s, st, p));
    assert(sets_place(v.1, target, v.0, p.1));
    assert(is_sole_value(m, source, st, v));
    if is_outcome(interp(n + 1), s, st, o) {
        let i = choose|i: int| 0 <= i < all.len() && all[i] == o;
        assert(o == p);
    }
}

proof fn lemma_conjoined(
    target: LValueV,
    cur: Term,
    rs: Seq<ValueStepV>,
    acc: Seq<OutcomeV>,
    o: OutcomeV,
)
    requires
        conjoined(target, cur, rs, acc) is Ok,
    ensures
        conjoined(target, cur, rs, acc)->Ok_0.contains(o) ==> acc.contains(o) || (o.0 is None
            && exists|v: ValueStepV| #[trigger]
            rs.contains(v) && sets_place(
                v.1,
                target,
                as_int_term(both_nonzero(cur, v.0)),
                o.1,
            )),
        acc.contains(o) ==> conjoined(target, cur, rs, acc)->Ok_0.contains(o),
    decreases rs.len(),
{
    reveal(conjoined);
    if rs.len() > 0 {
        let r = rs[0];
        let s = r.1;
        let t = as_int_term(both_nonzero(cur, r.0));
        let store = assigned(s.ctx, s.store, target, t)->Ok_0;
        let first = (None::<Term>, StateV { store, ..s });
        lemma_conjoined(target, cur, rs.drop_first(), acc.push(first), o);
        lemma_pushed(acc, first, o);
        lemma_firsts(rs);
        assert(sets_place(s, target, t, first.1));
    }
}

/// A path of `target &= value`: the place is read, the value is evaluated, and the place is set.
pub open spec fn conjoins(
    m: InterpV,
    target: LValueV,
    source: ExprV,
    st: StateV,
    o: OutcomeV,
    c: ValueStepV,
    v: ValueStepV,
    t: Term,
) -> bool {
    &&& is_value(m, read_of(target), st, c)
    &&& is_value(m, source, c.1, v)
    &&& o.0 is None
    &&& sets_place(v.1, target, t, o.1)
}

proof fn lemma_and_assign(
    m: InterpV,
    target: LValueV,
    source: ExprV,
    curs: Seq<ValueStepV>,
    acc: Seq<OutcomeV>,
    o: OutcomeV,
)
    requires
        and_assign_of(target, source, curs, m, acc) is Ok,
    ensures
        and_assign_of(target, source, curs, m, acc)->Ok_0.contains(o) ==> acc.contains(o) || exists|
            c: ValueStepV,
            v: ValueStepV,
        |
            #![trigger curs.contains(c), is_value(m, source, c.1, v)]
            curs.contains(c) && is_value(m, source, c.1, v) && o.0 is None && sets_place(
                v.1,
                target,
                as_int_term(both_nonzero(c.0, v.0)),
                o.1,
            ),
    decreases curs.len(),
{
    reveal(and_assign_of);
    if curs.len() > 0 {
        let c = curs[0];
        let rs = (m.eval)(source, c.1)->Ok_0;
        let acc2 = conjoined(target, c.0, rs, acc)->Ok_0;
        lemma_and_assign(m, target, source, curs.drop_first(), acc2, o);
        lemma_conjoined(target, c.0, rs, acc, o);
        lemma_firsts(curs);
        if acc2.contains(o) && !acc.contains(o) {
            let v = choose|v: ValueStepV| #[trigger]
                rs.contains(v) && sets_place(
                    v.1,
                    target,
                    as_int_term(both_nonzero(c.0, v.0)),
                    o.1,
                );
            assert(is_value(m, source, c.1, v));
        }
    }
}

/// `target &= value` sets the target to one where its old value and the value are both other than
/// zero, and to zero otherwise.
pub proof fn conjunctions_set_their_target(
    n: nat,
    target: LValueV,
    source: ExprV,
    st: StateV,
    o: OutcomeV,
    env: spec_fn(Seq<char>) -> int,
)
    requires
        is_outcome(interp(n + 1), StmtV::AndAssign { target, value: source }, st, o),
    ensures
        exists|c: ValueStepV, v: ValueStepV, t: Term|
            #[trigger] conjoins(interp(n), target, source, st, o, c, v, t) && value(t, env) == (
            if value(c.0, env) != 0 && value(v.0, env) != 0 {
                1int
            } else {
                0
            }),
{
    let m = interp(n);
    interp_exec(n + 1, StmtV::AndAssign { target, value: source }, st);
    reveal(exec_of);
    reveal(update_of);
    let curs = (m.eval)(read_of(target), st)->Ok_0;
    lemma_and_assign(m, target, source, curs, seq![], o);
    let (c, v) = choose|c: ValueStepV, v: ValueStepV|
        #![trigger curs.contains(c), is_value(m, source, c.1, v)]
        curs.contains(c) && is_value(m, source, c.1, v) && o.0 is None && sets_place(
            v.1,
            target,
            as_int_term(both_nonzero(c.0, v.0)),
            o.1,
        );
    let f = both_nonzero(c.0, v.0);
    as_int_is_indicator(f, env);
    crate::checker::symbolic::operator_laws::lemma_nonzero(c.0, v.0, env);
    assert(conjoins(m, target, source, st, o, c, v, as_int_term(f)));
}

/// The number that a bound of a loop denotes: a literal, or a name of a constant.
pub open spec fn bound_is(ctx: ContextV, e: ExprV, k: int) -> bool
    decreases e,
{
    match e {
        ExprV::Int(x) => k == x,
        ExprV::Paren(inner) => bound_is(ctx, *inner, k),
        ExprV::Path { ref_id: Some(id), .. } => ctx.const_ints.contains_key(id) && k
            == ctx.const_ints[id],
        _ => false,
    }
}

proof fn lemma_bound(ctx: ContextV, e: ExprV)
    requires
        index_of(ctx, None, e) is Ok,
        index_of(ctx, None, e)->Ok_0 is Some,
    ensures
        bound_is(ctx, e, index_of(ctx, None, e)->Ok_0->0 as int),
    decreases e,
{
    if let ExprV::Paren(inner) = e {
        lemma_bound(ctx, *inner);
    }
}

/// The outcomes of a loop whose body runs with the loop variable at each number from `lo` up to but
/// not including `hi`, until the first path leaves it in iteration `j`; `j` is `hi` if none does.
pub open spec fn loop_outcome(
    m: InterpV,
    vid: i64,
    lo: int,
    hi: int,
    j: int,
    body: Seq<StmtV>,
    st: StateV,
    o: OutcomeV,
) -> bool {
    if j < hi {
        leaves_loop(m, vid, lo, j, body, seq![st], o) || (o.0 is None && iterated(
            m,
            vid,
            lo,
            j + 1,
            body,
            st,
            o.1,
        ))
    } else {
        o.0 is None && iterated(m, vid, lo, hi, body, st, o.1)
    }
}

/// A loop over a range runs its body once for each number of the range, in order.
pub proof fn loops_run_over_their_range(
    n: nat,
    id: Option<i64>,
    var: Seq<char>,
    from: ExprV,
    to: ExprV,
    body: Seq<StmtV>,
    st: StateV,
)
    requires
        st.active(),
        (interp(n + 1).run)(StmtV::For { id, var, start: from, end: to, body }, st) is Ok,
    ensures
        exists|lo: int, hi: int|
            #![trigger bound_is(st.ctx, from, lo), bound_is(st.ctx, to, hi)]
            bound_is(st.ctx, from, lo) && bound_is(st.ctx, to, hi) && (lo < hi ==> id is Some
                && exists|j: int| #[trigger]
                last_iteration(interp(n), id->0, lo, hi, j, body, seq![st]) && forall|o: OutcomeV|
                    #[trigger]
                    is_outcome(
                        interp(n + 1),
                        (StmtV::For { id, var, start: from, end: to, body }),
                        st,
                        o,
                    ) <==> loop_outcome(interp(n), id->0, lo, hi, j, body, st, o)) && (lo >= hi
                ==> (interp(n + 1).run)((StmtV::For { id, var, start: from, end: to, body }), st)
                == Ok::<Seq<OutcomeV>, ExecError>(seq![(None::<Term>, st)])),
{
    let m = interp(n);
    let s = StmtV::For { id, var, start: from, end: to, body };
    interp_exec(n + 1, s, st);
    reveal(exec_of);
    lemma_bound(st.ctx, from);
    lemma_bound(st.ctx, to);
    let lo = index_of(st.ctx, None, from)->Ok_0->0 as int;
    let hi = index_of(st.ctx, None, to)->Ok_0->0 as int;
    assert(bound_is(st.ctx, from, lo) && bound_is(st.ctx, to, hi));
    if lo < hi {
        let vid = id->0;
        let j = loops_count_up(m, vid, lo, hi, body, seq![st]);
        assert forall|o: OutcomeV| #[trigger] is_outcome(interp(n + 1), s, st, o) <==> loop_outcome(
            m,
            vid,
            lo,
            hi,
            j,
            body,
            st,
            o,
        ) by {
            let all = loop_of(vid, lo, hi, body, seq![st], m)->Ok_0;
            assert(is_outcome(interp(n + 1), s, st, o) <==> all.contains(o));
            lemma_one_start(st);
            assert(seq![st].contains(st));
            assert(goes_through(m, vid, lo, j + 1, body, seq![st], o.1) <==> iterated(
                m,
                vid,
                lo,
                j + 1,
                body,
                st,
                o.1,
            ));
            assert(goes_through(m, vid, lo, hi, body, seq![st], o.1) <==> iterated(
                m,
                vid,
                lo,
                hi,
                body,
                st,
                o.1,
            ));
        }
    }
}

proof fn lemma_returning(rs: Seq<ValueStepV>, acc: Seq<OutcomeV>, o: OutcomeV)
    ensures
        returning(rs, acc).contains(o) <==> acc.contains(o) || exists|v: ValueStepV| #[trigger]
            rs.contains(v) && o == (Some(v.0), v.1.in_status(ExecStatus::Return)),
    decreases rs.len(),
{
    reveal(returning);
    if rs.len() > 0 {
        let r = rs[0];
        let first = (Some(r.0), r.1.in_status(ExecStatus::Return));
        lemma_returning(rs.drop_first(), acc.push(first), o);
        lemma_pushed(acc, first, o);
        lemma_firsts(rs);
    }
}

/// A return yields each value of its expression, and control leaves the function.
pub proof fn returns_yield_their_value(n: nat, e: ExprV, st: StateV, o: OutcomeV)
    requires
        st.active(),
        (interp(n + 1).run)(StmtV::Return(e), st) is Ok,
    ensures
        is_outcome(interp(n + 1), StmtV::Return(e), st, o) <==> o.0 is Some && exists|
            v: ValueStepV,
        | #[trigger]
            is_value(interp(n), e, st, v) && o.0 == Some(v.0) && o.1 == (StateV {
                status: ExecStatus::Return,
                ..v.1
            }),
{
    let m = interp(n);
    interp_exec(n + 1, StmtV::Return(e), st);
    reveal(exec_of);
    reveal(return_of);
    let rs = (m.eval)(e, st)->Ok_0;
    lemma_returning(rs, seq![], o);
    assert forall|v: ValueStepV|
        #![trigger rs.contains(v)]
        #![trigger is_value(m, e, st, v)]
        rs.contains(v) <==> is_value(m, e, st, v) by {}
}

} // verus!
