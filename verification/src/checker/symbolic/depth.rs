//! The bound on nesting matters only where it is hit.

use vstd::prelude::*;
use crate::ast::{BinOp, ExprV, FuncV, LValueV, ParamV, StmtV, TypeV};
use crate::checker::symbolic::context::lookup;
use crate::checker::symbolic::error::ExecError;
use crate::checker::symbolic::expr::{Formula, Term};
use crate::checker::symbolic::index::index_of;
use crate::checker::symbolic::place::{loaded, read_of, scalar_node, PlaceV};
use crate::checker::symbolic::results::{OutcomeV, ValueStepV};
use crate::checker::symbolic::semantics::{
    and_assign_of, assert_bool_of, assert_eq_of, assert_range_of, assert_zero_of, assign_of,
    binary_of, bind_args, block_of, branch_of, builtin_of, call_of, call_stmt_of, combine_each,
    condition_at, conjoined, decl_of, eval_all, eval_of, exec_of, interp, interp_eval,
    interp_exec, is_condition, iteration_of, lookup_of, loop_of, map_pair_of, return_of, routed,
    run_of, single, step_of, update_of, Flow, InterpV,
};
use crate::checker::symbolic::state::{ExecStatus, StateV};

verus! {

/// Execution that stopped at the bound on nesting.
pub open spec fn stopped<T>(r: Result<T, ExecError>) -> bool {
    match r {
        Ok(_) => false,
        Err(x) => x == ExecError::TooDeep,
    }
}

spec fn no_builtin() -> Result<Option<Seq<ValueStepV>>, ExecError> {
    Ok(None)
}

/// Wherever `m` does not stop at the bound, `m2` does the same.
pub open spec fn refines(m: InterpV, m2: InterpV) -> bool {
    &&& forall|e: ExprV, st: StateV|
        !stopped(#[trigger] (m.eval)(e, st)) ==> (m2.eval)(e, st) == (m.eval)(e, st)
    &&& forall|s: StmtV, st: StateV|
        !stopped(#[trigger] (m.run)(s, st)) ==> (m2.run)(s, st) == (m.run)(s, st)
}

proof fn lemma_eval_all(args: Seq<ExprV>, i: int, st: StateV, vals: Seq<Term>, m: InterpV, m2: InterpV)
    requires
        refines(m, m2),
        !stopped(eval_all(args, i, st, m, vals)),
    ensures
        eval_all(args, i, st, m2, vals) == eval_all(args, i, st, m, vals),
    decreases args.len() - i,
{
    reveal(eval_all);
    if 0 <= i < args.len() {
        if let Ok((v, s)) = single((m.eval)(args[i], st)) {
            lemma_eval_all(args, i + 1, s, vals.push(v), m, m2);
        }
    }
}

proof fn lemma_binary_of(op: BinOp, modded: bool, ls: Seq<ValueStepV>, rhs: ExprV, acc: Seq<ValueStepV>, m: InterpV, m2: InterpV)
    requires
        refines(m, m2),
        !stopped(binary_of(op, modded, ls, rhs, m, acc)),
    ensures
        binary_of(op, modded, ls, rhs, m2, acc) == binary_of(op, modded, ls, rhs, m, acc),
    decreases ls.len(),
{
    reveal(binary_of);
    if ls.len() > 0 {
        if let Ok(rs) = (m.eval)(rhs, ls[0].1) {
            if rs.len() > 0 {
                if let Ok(acc2) = combine_each(op, modded, ls[0].0, rs, acc) {
                    lemma_binary_of(op, modded, ls.drop_first(), rhs, acc2, m, m2);
                }
            }
        }
    }
}

proof fn lemma_map_pair_of(e: ExprV, st: StateV, m: InterpV, m2: InterpV)
    requires
        refines(m, m2),
        !stopped(map_pair_of(e, st, m)),
    ensures
        map_pair_of(e, st, m2) == map_pair_of(e, st, m),
{
    reveal(map_pair_of);
}

proof fn lemma_builtin_of(e: ExprV, st: StateV, m: InterpV, m2: InterpV)
    requires
        refines(m, m2),
        !stopped(builtin_of(e, st, m)),
    ensures
        builtin_of(e, st, m2) == builtin_of(e, st, m),
{
    reveal(builtin_of);
    if let ExprV::Call(callee, args) = e {
        if !stopped(eval_all(args, 0, st, m, seq![])) {
            lemma_eval_all(args, 0, st, seq![], m, m2);
        }
    }
}

proof fn lemma_bind_args(params: Seq<ParamV>, p: int, args: Seq<ExprV>, a: int, place: Option<PlaceV>, receiver: Option<(PlaceV, i64)>, st: StateV, m: InterpV, m2: InterpV)
    requires
        refines(m, m2),
        !stopped(bind_args(params, p, args, a, place, receiver, st, m)),
    ensures
        bind_args(params, p, args, a, place, receiver, st, m2) == bind_args(params, p, args, a, place, receiver, st, m),
    decreases params.len() - p,
{
    reveal(bind_args);
    if 0 <= p < params.len() {
        match params[p] {
            ParamV::SelfParam { id } => {
                if let (Some(vid), Some(at)) = (id, place) {
                    if let Ok(node) = loaded(st.store, at) {
                        lemma_bind_args(
                            params,
                            p + 1,
                            args,
                            a,
                            place,
                            Some((at, vid)),
                            st.with_binding(vid, node),
                            m,
                            m2,
                        );
                    }
                }
            },
            ParamV::Typed { id, ty, .. } => {
                if let Some(vid) = id {
                    if 0 <= a < args.len() {
                        if st.ctx.scalar(ty) {
                            if let Ok((v, s)) = single((m.eval)(args[a], st)) {
                                lemma_bind_args(
                                    params,
                                    p + 1,
                                    args,
                                    a + 1,
                                    place,
                                    receiver,
                                    s.with_binding(vid, scalar_node(v)),
                                    m,
                                    m2,
                                );
                            }
                        } else if let Ok(Some(node)) = st.expr_node(args[a]) {
                            lemma_bind_args(
                                params,
                                p + 1,
                                args,
                                a + 1,
                                place,
                                receiver,
                                st.with_binding(vid, node),
                                m,
                                m2,
                            );
                        }
                    }
                }
            },
        }
    }
}

proof fn lemma_step_of(flow: Flow, s: StmtV, live: Seq<StateV>, outs: Seq<OutcomeV>, next: Seq<StateV>, m: InterpV, m2: InterpV)
    requires
        refines(m, m2),
        !stopped(step_of(flow, s, live, outs, next, m)),
    ensures
        step_of(flow, s, live, outs, next, m2) == step_of(flow, s, live, outs, next, m),
    decreases live.len(),
{
    reveal(step_of);
    if live.len() > 0 {
        if flow != Flow::Function && !live[0].active() {
            lemma_step_of(flow, s, live.drop_first(), outs, next.push(live[0]), m, m2);
        } else if let Ok(rs) = (m.run)(s, live[0]) {
            let (outs2, next2) = routed(flow, rs, outs, next);
            if !(flow != Flow::Function && rs.len() == 0) {
                lemma_step_of(flow, s, live.drop_first(), outs2, next2, m, m2);
            }
        }
    }
}

proof fn lemma_block_of(flow: Flow, body: Seq<StmtV>, i: int, live: Seq<StateV>, outs: Seq<OutcomeV>, m: InterpV, m2: InterpV)
    requires
        refines(m, m2),
        !stopped(block_of(flow, body, i, live, outs, m)),
    ensures
        block_of(flow, body, i, live, outs, m2) == block_of(flow, body, i, live, outs, m),
    decreases body.len() - i,
{
    reveal(block_of);
    if 0 <= i < body.len() && live.len() > 0 {
        if !stopped(step_of(flow, body[i], live, outs, seq![], m)) {
            lemma_step_of(flow, body[i], live, outs, seq![], m, m2);
        }
        if let Ok((outs2, next)) = step_of(flow, body[i], live, outs, seq![], m) {
            lemma_block_of(flow, body, i + 1, next, outs2, m, m2);
        }
    }
}

proof fn lemma_run_of(func: FuncV, st: StateV, m: InterpV, m2: InterpV)
    requires
        refines(m, m2),
        !stopped(run_of(func, st, m)),
    ensures
        run_of(func, st, m2) == run_of(func, st, m),
{
    reveal(run_of);
    if !stopped(block_of(Flow::Function, func.body, 0, seq![st], seq![], m)) {
        lemma_block_of(Flow::Function, func.body, 0, seq![st], seq![], m, m2);
    }
}

proof fn lemma_branch_of(body: Seq<StmtV>, st: StateV, m: InterpV, m2: InterpV)
    requires
        refines(m, m2),
        !stopped(branch_of(body, st, m)),
    ensures
        branch_of(body, st, m2) == branch_of(body, st, m),
{
    reveal(branch_of);
    if !stopped(block_of(Flow::Branch, body, 0, seq![st], seq![], m)) {
        lemma_block_of(Flow::Branch, body, 0, seq![st], seq![], m, m2);
    }
}

proof fn lemma_call_of(e: ExprV, st: StateV, m: InterpV, m2: InterpV)
    requires
        refines(m, m2),
        !stopped(call_of(e, st, m)),
    ensures
        call_of(e, st, m2) == call_of(e, st, m),
{
    reveal(call_of);
    if let ExprV::Call(callee, args) = e {
        if let Ok((fid, place)) = st.callee_of(*callee) {
            if let Some(func) = lookup(st.ctx.funcs, fid) {
                let start = st.in_status(ExecStatus::Step);
                if !stopped(bind_args(func.params, 0, args, 0, place, None, start, m)) {
                    lemma_bind_args(func.params, 0, args, 0, place, None, start, m, m2);
                }
                if let Ok((s, _, _)) = bind_args(func.params, 0, args, 0, place, None, start, m) {
                    if !stopped(run_of(func, s, m)) {
                        lemma_run_of(func, s, m, m2);
                    }
                }
            }
        }
    }
}

proof fn lemma_condition_at(e: ExprV, st: StateV, m: InterpV, m2: InterpV)
    requires
        refines(m, m2),
        !stopped(condition_at(e, st, m)),
    ensures
        condition_at(e, st, m2) == condition_at(e, st, m),
    decreases e,
{
    reveal(condition_at);
    if let ExprV::Paren(inner) = e {
        lemma_condition_at(*inner, st, m, m2);
    }
}

proof fn lemma_and_assign_of(target: LValueV, value: ExprV, curs: Seq<ValueStepV>, acc: Seq<OutcomeV>, m: InterpV, m2: InterpV)
    requires
        refines(m, m2),
        !stopped(and_assign_of(target, value, curs, m, acc)),
    ensures
        and_assign_of(target, value, curs, m2, acc) == and_assign_of(target, value, curs, m, acc),
    decreases curs.len(),
{
    reveal(and_assign_of);
    if curs.len() > 0 {
        if let Ok(rs) = (m.eval)(value, curs[0].1) {
            if rs.len() > 0 {
                if let Ok(acc2) = conjoined(target, curs[0].0, rs, acc) {
                    lemma_and_assign_of(target, value, curs.drop_first(), acc2, m, m2);
                }
            }
        }
    }
}

proof fn lemma_iteration_of(vid: i64, k: int, body: Seq<StmtV>, live: Seq<StateV>, outs: Seq<OutcomeV>, next: Seq<StateV>, m: InterpV, m2: InterpV)
    requires
        refines(m, m2),
        !stopped(iteration_of(vid, k, body, live, outs, next, m)),
    ensures
        iteration_of(vid, k, body, live, outs, next, m2) == iteration_of(vid, k, body, live, outs, next, m),
    decreases live.len(),
{
    reveal(iteration_of);
    if live.len() > 0 {
        if !live[0].active() {
            lemma_iteration_of(
                vid,
                k,
                body,
                live.drop_first(),
                outs,
                next.push(live[0]),
                m,
                m2,
            );
        } else {
            let start = seq![live[0].with_binding(vid, scalar_node(Term::Int(k)))];
            if !stopped(block_of(Flow::Loop, body, 0, start, outs, m)) {
                lemma_block_of(Flow::Loop, body, 0, start, outs, m, m2);
            }
            if let Ok((outs2, ends)) = block_of(Flow::Loop, body, 0, start, outs, m) {
                lemma_iteration_of(
                    vid,
                    k,
                    body,
                    live.drop_first(),
                    outs2,
                    next + ends,
                    m,
                    m2,
                );
            }
        }
    }
}

proof fn lemma_loop_of(vid: i64, k: int, hi: int, body: Seq<StmtV>, live: Seq<StateV>, m: InterpV, m2: InterpV)
    requires
        refines(m, m2),
        !stopped(loop_of(vid, k, hi, body, live, m)),
    ensures
        loop_of(vid, k, hi, body, live, m2) == loop_of(vid, k, hi, body, live, m),
    decreases hi - k,
{
    reveal(loop_of);
    if k < hi {
        if !stopped(iteration_of(vid, k, body, live, seq![], seq![], m)) {
            lemma_iteration_of(vid, k, body, live, seq![], seq![], m, m2);
        }
        if let Ok((outs, next)) = iteration_of(vid, k, body, live, seq![], seq![], m) {
            if !(outs.len() > 0 || next.len() == 0) {
                lemma_loop_of(vid, k + 1, hi, body, next, m, m2);
            }
        }
    }
}

proof fn lemma_lookup_of(chip: Seq<Seq<char>>, opcode: ExprV, args: Seq<ExprV>, st: StateV, m: InterpV, m2: InterpV)
    requires
        refines(m, m2),
        !stopped(lookup_of(chip, opcode, args, st, m)),
    ensures
        lookup_of(chip, opcode, args, st, m2) == lookup_of(chip, opcode, args, st, m),
{
    reveal(lookup_of);
    if let Ok((op, s1)) = single((m.eval)(opcode, st)) {
        if !stopped(eval_all(args, 0, s1, m, seq![])) {
            lemma_eval_all(args, 0, s1, seq![], m, m2);
        }
    }
}

proof fn lemma_assert_eq_of(a: ExprV, b: ExprV, st: StateV, m: InterpV, m2: InterpV)
    requires
        refines(m, m2),
        !stopped(assert_eq_of(a, b, st, m)),
    ensures
        assert_eq_of(a, b, st, m2) == assert_eq_of(a, b, st, m),
{
    reveal(assert_eq_of);
}

proof fn lemma_assert_zero_of(e: ExprV, st: StateV, m: InterpV, m2: InterpV)
    requires
        refines(m, m2),
        !stopped(assert_zero_of(e, st, m)),
    ensures
        assert_zero_of(e, st, m2) == assert_zero_of(e, st, m),
{
    reveal(assert_zero_of);
}

proof fn lemma_assert_range_of(value: ExprV, ty: TypeV, st: StateV, m: InterpV, m2: InterpV)
    requires
        refines(m, m2),
        !stopped(assert_range_of(value, ty, st, m)),
    ensures
        assert_range_of(value, ty, st, m2) == assert_range_of(value, ty, st, m),
{
    reveal(assert_range_of);
}

proof fn lemma_decl_of(id: Option<i64>, ty: TypeV, init: ExprV, st: StateV, m: InterpV, m2: InterpV)
    requires
        refines(m, m2),
        !stopped(decl_of(id, ty, init, st, m)),
    ensures
        decl_of(id, ty, init, st, m2) == decl_of(id, ty, init, st, m),
{
    reveal(decl_of);
}

proof fn lemma_assign_of(target: LValueV, value: ExprV, st: StateV, m: InterpV, m2: InterpV)
    requires
        refines(m, m2),
        !stopped(assign_of(target, value, st, m)),
    ensures
        assign_of(target, value, st, m2) == assign_of(target, value, st, m),
{
    reveal(assign_of);
}

proof fn lemma_return_of(e: ExprV, st: StateV, m: InterpV, m2: InterpV)
    requires
        refines(m, m2),
        !stopped(return_of(e, st, m)),
    ensures
        return_of(e, st, m2) == return_of(e, st, m),
{
    reveal(return_of);
}

proof fn lemma_assert_bool_of(e: ExprV, st: StateV, m: InterpV, m2: InterpV)
    requires
        refines(m, m2),
        !stopped(assert_bool_of(e, st, m)),
    ensures
        assert_bool_of(e, st, m2) == assert_bool_of(e, st, m),
{
    reveal(assert_bool_of);
    if is_condition(e) && !stopped(condition_at(e, st, m)) {
        lemma_condition_at(e, st, m, m2);
    }
}

proof fn lemma_update_of(target: LValueV, value: ExprV, st: StateV, m: InterpV, m2: InterpV)
    requires
        refines(m, m2),
        !stopped(update_of(target, value, st, m)),
    ensures
        update_of(target, value, st, m2) == update_of(target, value, st, m),
{
    reveal(update_of);
    if let Ok(curs) = (m.eval)(read_of(target), st) {
        if curs.len() > 0 {
            lemma_and_assign_of(target, value, curs, seq![], m, m2);
        }
    }
}

proof fn lemma_call_stmt_of(callee: LValueV, args: Seq<ExprV>, st: StateV, m: InterpV, m2: InterpV)
    requires
        refines(m, m2),
        !stopped(call_stmt_of(callee, args, st, m)),
    ensures
        call_stmt_of(callee, args, st, m2) == call_stmt_of(callee, args, st, m),
{
    reveal(call_stmt_of);
    let e = ExprV::Call(Box::new(read_of(callee)), args);
    if !stopped(builtin_of(e, st, m)) {
        lemma_builtin_of(e, st, m, m2);
    }
    if builtin_of(e, st, m) == no_builtin() && !stopped(call_of(e, st, m)) {
        lemma_call_of(e, st, m, m2);
    }
}

proof fn lemma_eval_of(e: ExprV, st: StateV, m: InterpV, m2: InterpV)
    requires
        refines(m, m2),
        !stopped(eval_of(e, st, m)),
    ensures
        eval_of(e, st, m2) == eval_of(e, st, m),
{
    reveal(eval_of);
    match e {
        ExprV::Field { base, .. } => {
            if *base is MapIndex && !stopped(map_pair_of(*base, st, m)) {
                lemma_map_pair_of(*base, st, m, m2);
            }
        },
        ExprV::Binary { op, lhs, rhs } => {
            if let Ok(modded) = st.needs_mod(e) {
                if let Ok(ls) = (m.eval)(*lhs, st) {
                    if ls.len() > 0 {
                        lemma_binary_of(op, modded, ls, *rhs, seq![], m, m2);
                    }
                }
            }
        },
        ExprV::Call(_, _) => {
            if !stopped(builtin_of(e, st, m)) {
                lemma_builtin_of(e, st, m, m2);
            }
            if builtin_of(e, st, m) == no_builtin() && !stopped(call_of(e, st, m)) {
                lemma_call_of(e, st, m, m2);
            }
        },
        _ => {},
    }
}

proof fn lemma_exec_of(s: StmtV, st: StateV, m: InterpV, m2: InterpV)
    requires
        refines(m, m2),
        !stopped(exec_of(s, st, m)),
    ensures
        exec_of(s, st, m2) == exec_of(s, st, m),
{
    reveal(exec_of);
    if st.active() {
        match s {
            StmtV::AssertEq(a, b) => lemma_assert_eq_of(a, b, st, m, m2),
            StmtV::AssertBool(e) => lemma_assert_bool_of(e, st, m, m2),
            StmtV::AssertZero(e) => lemma_assert_zero_of(e, st, m, m2),
            StmtV::AssertRange { value, ty } => lemma_assert_range_of(value, ty, st, m, m2),
            StmtV::VarDecl { id, ty, init, .. } => lemma_decl_of(id, ty, init, st, m, m2),
            StmtV::Assign { target, value } => lemma_assign_of(target, value, st, m, m2),
            StmtV::AndAssign { target, value } => lemma_update_of(target, value, st, m, m2),
            StmtV::If { cond, then_branch, else_branch } => {
                if !stopped(condition_at(cond, st, m)) {
                    lemma_condition_at(cond, st, m, m2);
                }
                if let Ok((f, s1)) = condition_at(cond, st, m) {
                    let a = s1.with_cond(f);
                    let b = s1.with_cond(Formula::Not(Box::new(f)));
                    if !stopped(branch_of(then_branch, a, m)) {
                        lemma_branch_of(then_branch, a, m, m2);
                    }
                    if !stopped(branch_of(else_branch, b, m)) {
                        lemma_branch_of(else_branch, b, m, m2);
                    }
                }
            },
            StmtV::For { id, start, end, body, .. } => {
                if let (Ok(Some(lo)), Ok(Some(hi))) = (
                    index_of(st.ctx, None, start),
                    index_of(st.ctx, None, end),
                ) {
                    if lo < hi {
                        if let Some(vid) = id {
                            lemma_loop_of(vid, lo as int, hi as int, body, seq![st], m, m2);
                        }
                    }
                }
            },
            StmtV::Lookup { chip, opcode, args } => lemma_lookup_of(chip, opcode, args, st, m, m2),
            StmtV::Call { callee, args } => lemma_call_stmt_of(callee, args, st, m, m2),
            StmtV::Return(e) => lemma_return_of(e, st, m, m2),
        }
    }
}

proof fn lemma_next(n: nat)
    ensures
        refines(interp(n), interp(n + 1)),
    decreases n,
{
    let m = interp(n);
    let m2 = interp(n + 1);
    assert forall|e: ExprV, st: StateV| !stopped(#[trigger] (m.eval)(e, st)) implies (
    m2.eval)(e, st) == (m.eval)(e, st) by {
        interp_eval(n, e, st);
        interp_eval(n + 1, e, st);
        if n > 0 {
            lemma_next((n - 1) as nat);
            lemma_eval_of(e, st, interp((n - 1) as nat), m);
        }
    }
    assert forall|s: StmtV, st: StateV| !stopped(#[trigger] (m.run)(s, st)) implies (m2.run)(
        s,
        st,
    ) == (m.run)(s, st) by {
        interp_exec(n, s, st);
        interp_exec(n + 1, s, st);
        if n > 0 {
            lemma_next((n - 1) as nat);
            lemma_exec_of(s, st, interp((n - 1) as nat), m);
        }
    }
}

/// What does not stop at a bound on nesting is the same under every greater bound.
pub proof fn bound_matters_only_when_hit(n: nat, k: nat)
    requires
        n <= k,
    ensures
        refines(interp(n), interp(k)),
    decreases k - n,
{
    if n < k {
        bound_matters_only_when_hit(n, (k - 1) as nat);
        lemma_next((k - 1) as nat);
        let m = interp(n);
        let mid = interp((k - 1) as nat);
        assert forall|e: ExprV, st: StateV| !stopped(#[trigger] (m.eval)(e, st)) implies (
        interp(k).eval)(e, st) == (m.eval)(e, st) by {
            assert((mid.eval)(e, st) == (m.eval)(e, st));
        }
        assert forall|s: StmtV, st: StateV| !stopped(#[trigger] (m.run)(s, st)) implies (
        interp(k).run)(s, st) == (m.run)(s, st) by {
            assert((mid.run)(s, st) == (m.run)(s, st));
        }
    }
}

/// The outcomes of a function that does not stop at a bound on nesting are the same under every
/// greater bound.
pub proof fn function_outcomes_are_stable(func: FuncV, st: StateV, n: nat, k: nat)
    requires
        n <= k,
        !stopped(run_of(func, st, interp(n))),
    ensures
        run_of(func, st, interp(k)) == run_of(func, st, interp(n)),
{
    bound_matters_only_when_hit(n, k);
    lemma_run_of(func, st, interp(n), interp(k));
}

} // verus!
