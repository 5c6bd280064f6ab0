//! Execution only adds: the context stays, symbols are never used up twice, memory events are only
//! appended and path conditions only strengthened.

use vstd::prelude::*;
use crate::ast::{BinOp, ExprV, FuncV, LValueV, ParamV, StmtV, TypeV};
use crate::checker::symbolic::builtins::{bounds_of, both_nonzero};
use crate::checker::symbolic::context::{lookup, MemoryEventKind};
use crate::checker::symbolic::extension::{extends, group_growth, lemma_same};
use crate::checker::symbolic::expr::{as_int_term, Formula, SymType, Term};
use crate::checker::symbolic::index::index_of;
use crate::checker::symbolic::place::{assigned, loaded, read_of, scalar_node, PlaceV};
use crate::checker::symbolic::results::{OutcomeV, ValueStepV};
use crate::checker::symbolic::semantics::{
    after_call, and_assign_of, assert_bool_of, assert_eq_of, assert_range_of, assert_zero_of,
    assign_of, binary_of, bind_args, block_of, branch_of, builtin_of, byte_lookup, call_of,
    call_stmt_of, combine_each, condition_at, conjoined, decl_of, declared_all, discarded, dropped,
    eval_all, eval_of, exec_of, finished, interp, interp_eval, interp_exec, iteration_of, lookup_of,
    loop_of, map_pair_of, method_value, path_id, path_key, ranged, return_of, returned, returning,
    routed, run_of, single, step_of, update_of, written_back, Flow, InterpV,
};
use crate::checker::symbolic::state::{ExecStatus, StateV};
use crate::checker::symbolic::state_ops::in_range;

verus! {

broadcast use group_growth;


/// Values whose states extend a state.
pub open spec fn values_extend(st: StateV, vs: Seq<ValueStepV>) -> bool {
    forall|i: int| 0 <= i < vs.len() ==> extends(st, (#[trigger] vs[i]).1)
}

/// Outcomes whose states extend a state.
pub open spec fn outcomes_extend(st: StateV, rs: Seq<OutcomeV>) -> bool {
    forall|i: int| 0 <= i < rs.len() ==> extends(st, (#[trigger] rs[i]).1)
}

/// States that extend a state.
pub open spec fn states_extend(st: StateV, ss: Seq<StateV>) -> bool {
    forall|i: int| 0 <= i < ss.len() ==> extends(st, #[trigger] ss[i])
}

/// Expressions and statements only add to the states that they start from.
pub open spec fn only_adds(m: InterpV) -> bool {
    &&& forall|e: ExprV, st: StateV|
        match #[trigger] (m.eval)(e, st) {
            Ok(vs) => values_extend(st, vs),
            Err(_) => true,
        }
    &&& forall|s: StmtV, st: StateV|
        match #[trigger] (m.run)(s, st) {
            Ok(rs) => outcomes_extend(st, rs),
            Err(_) => true,
        }
}

proof fn lemma_bits_from(st: StateV, prefix: Seq<char>, i: int, n: int, bits: Seq<Term>, acc: Term)
    ensures
        match st.bits_from(prefix, i, n, bits, acc) {
            Ok((_, _, s)) => extends(st, s),
            Err(_) => true,
        },
    decreases n - i,
{
    if 0 <= i < n {
        let hint = prefix + "_"@ + crate::text::decimal(i as nat);
        if let Ok((bit, s)) = st.fresh_var(hint, SymType::Bool) {
            let add = crate::checker::symbolic::state_ops::product(
                bit,
                Term::Int(vstd::arithmetic::power2::pow2(i as nat) as int),
            );
            if let Ok(sum) = crate::checker::symbolic::state_ops::plus(acc, add) {
                lemma_bits_from(
                    s.with_cond(in_range(bit, 0, 1, 1)),
                    prefix,
                    i + 1,
                    n,
                    bits.push(bit),
                    sum,
                );
            }
        }
    }
}

proof fn lemma_bits_of(st: StateV, t: Term, prefix: Seq<char>)
    ensures
        match st.bits_of(t, prefix) {
            Ok((_, s)) => extends(st, s),
            Err(_) => true,
        },
{
    lemma_bits_from(st, prefix, 0, 32, seq![], Term::Int(0));
    if let Ok((bits, acc, s)) = st.bits_from(prefix, 0, 32, seq![], Term::Int(0)) {
        let s2 = s.with_cond(in_range(t, 0, 0xffff_ffff, 32)).with_cond(Formula::Eq(t, acc));
        if let Ok((_, s3)) = st.bits_of(t, prefix) {
            if s3 != st {
                lemma_same(s2, s3);
            }
        }
    }
}

proof fn lemma_bit_products(st: StateV, l: Seq<Term>, r: Seq<Term>, out: Seq<Term>, i: int)
    ensures
        extends(st, st.with_bit_products(l, r, out, i)),
    decreases out.len() - i,
{
    if 0 <= i < l.len() && i < r.len() && i < out.len() {
        lemma_bit_products(
            st.with_cond(Formula::Eq(out[i], Term::Mul(seq![l[i], r[i]]))),
            l,
            r,
            out,
            i + 1,
        );
    }
}

proof fn lemma_byte_and(st: StateV, out: Term, l: Term, r: Term)
    ensures
        match st.with_byte_and(out, l, r) {
            Ok(s) => extends(st, s),
            Err(_) => true,
        },
{
    reveal(StateV::with_byte_and);
    let s = st.with_cond(in_range(out, 0, 255, 8)).with_cond(in_range(l, 0, 255, 8)).with_cond(
        in_range(r, 0, 255, 8),
    );
    lemma_bits_from(s, "byte_and_l"@, 0, 8, seq![], Term::Int(0));
    if let Ok((lb, la, s1)) = s.bits_from("byte_and_l"@, 0, 8, seq![], Term::Int(0)) {
        lemma_bits_from(s1, "byte_and_r"@, 0, 8, seq![], Term::Int(0));
        if let Ok((rb, ra, s2)) = s1.bits_from("byte_and_r"@, 0, 8, seq![], Term::Int(0)) {
            lemma_bits_from(s2, "byte_and_out"@, 0, 8, seq![], Term::Int(0));
            if let Ok((ob, oa, s3)) = s2.bits_from("byte_and_out"@, 0, 8, seq![], Term::Int(0)) {
                lemma_bit_products(s3, lb, rb, ob, 0);
            }
        }
    }
}

proof fn lemma_word_from(st: StateV, i: int, bytes: Seq<Term>)
    ensures
        match st.word_from(i, bytes) {
            Ok((_, s)) => extends(st, s),
            Err(_) => true,
        },
    decreases crate::checker::symbolic::expr::WORD_BYTES - i,
{
    if 0 <= i < crate::checker::symbolic::expr::WORD_BYTES {
        let hint = "to_word"@ + "_b"@ + crate::text::decimal(i as nat);
        if let Ok((b, s)) = st.fresh_var(hint, SymType::Uint(8)) {
            lemma_word_from(
                s.with_cond(Formula::Ge(b, Term::Int(0))).with_cond(
                    Formula::Le(b, Term::Int(255)),
                ),
                i + 1,
                bytes.push(b),
            );
        }
    }
}

proof fn lemma_builtin_value(st: StateV, name: Seq<char>, args: Seq<ExprV>, vals: Seq<Term>)
    ensures
        match st.builtin_value(name, args, vals) {
            Ok((_, s)) => extends(st, s),
            Err(_) => true,
        },
{
    reveal(StateV::builtin_value);
    reveal(StateV::worded);
    lemma_word_from(st, 0, seq![]);
    if vals.len() > 0 {
        lemma_bits_of(st, vals[0], "extract_bit"@);
    }
    if vals.len() == 2 {
        if let Ok((v, s)) = st.fresh_var("and"@, SymType::Uint(8)) {
            lemma_byte_and(s, v, vals[0], vals[1]);
        }
    }
}

proof fn lemma_map_access(st: StateV, base: ExprV, types: (TypeV, TypeV), clk: Term, addr: Term)
    ensures
        match st.map_access(base, types, clk, addr) {
            Ok((_, _, s)) => extends(st, s),
            Err(_) => true,
        },
{
    reveal(StateV::map_access);
    if let (Some(ts), Some(vs)) = (st.ctx.sort_of(types.0), st.ctx.sort_of(types.1)) {
        if let Ok((prev, s1)) = st.fresh_var("map_clk_prev"@, ts) {
            if let Ok((val, s2)) = s1.fresh_var("map_val"@, vs) {
                let s3 = s2.with_event(MemoryEventKind::Send, prev, addr, val).with_event(
                    MemoryEventKind::Receive,
                    clk,
                    addr,
                    val,
                );
                lemma_same(
                    s3,
                    s3.with_map_read(path_id(base), path_key(base), clk, addr, prev, val),
                );
            }
        }
    }
}

proof fn lemma_split(st: StateV, cond: Formula)
    ensures
        states_extend(st, st.split(cond)),
{
    reveal(StateV::split);
}

proof fn lemma_values_trans(a: StateV, b: StateV, vs: Seq<ValueStepV>)
    requires
        extends(a, b),
        values_extend(b, vs),
    ensures
        values_extend(a, vs),
{
}

proof fn lemma_outcomes_trans(a: StateV, b: StateV, rs: Seq<OutcomeV>)
    requires
        extends(a, b),
        outcomes_extend(b, rs),
    ensures
        outcomes_extend(a, rs),
{
}

proof fn lemma_combine_each(
    st: StateV,
    op: BinOp,
    modded: bool,
    l: Term,
    rs: Seq<ValueStepV>,
    acc: Seq<ValueStepV>,
)
    requires
        values_extend(st, rs),
        values_extend(st, acc),
    ensures
        match combine_each(op, modded, l, rs, acc) {
            Ok(vs) => values_extend(st, vs),
            Err(_) => true,
        },
    decreases rs.len(),
{
    reveal(combine_each);
    if rs.len() > 0 {
        if let Ok(t) = rs[0].1.combined(op, modded, l, rs[0].0) {
            lemma_combine_each(st, op, modded, l, rs.drop_first(), acc.push((t, rs[0].1)));
        }
    }
}

proof fn lemma_finished(st: StateV, live: Seq<StateV>, acc: Seq<OutcomeV>)
    requires
        states_extend(st, live),
        outcomes_extend(st, acc),
    ensures
        outcomes_extend(st, finished(live, acc)),
    decreases live.len(),
{
    reveal(finished);
    if live.len() > 0 {
        lemma_finished(st, live.drop_first(), acc.push((None, live[0])));
    }
}

proof fn lemma_routed(
    st: StateV,
    flow: Flow,
    rs: Seq<OutcomeV>,
    outs: Seq<OutcomeV>,
    next: Seq<StateV>,
)
    requires
        outcomes_extend(st, rs),
        outcomes_extend(st, outs),
        states_extend(st, next),
    ensures
        outcomes_extend(st, routed(flow, rs, outs, next).0),
        states_extend(st, routed(flow, rs, outs, next).1),
    decreases rs.len(),
{
    reveal(routed);
    if rs.len() > 0 {
        if flow == Flow::Loop && rs[0].0 is Some {
            lemma_routed(
                st,
                flow,
                rs.drop_first(),
                outs.push((rs[0].0, rs[0].1.in_status(ExecStatus::Return))),
                next,
            );
        } else if rs[0].1.terminal() {
            lemma_routed(st, flow, rs.drop_first(), outs.push(rs[0]), next);
        } else {
            lemma_routed(st, flow, rs.drop_first(), outs, next.push(rs[0].1));
        }
    }
}

proof fn lemma_written_back(
    st: StateV,
    rs: Seq<OutcomeV>,
    receiver: Option<(PlaceV, i64)>,
    acc: Seq<OutcomeV>,
)
    requires
        outcomes_extend(st, rs),
        outcomes_extend(st, acc),
    ensures
        match written_back(rs, receiver, acc) {
            Ok(v) => outcomes_extend(st, v),
            Err(_) => true,
        },
    decreases rs.len(),
{
    reveal(written_back);
    reveal(after_call);
    if rs.len() > 0 {
        if let Ok(s) = after_call(rs[0].1, receiver) {
            lemma_same(rs[0].1, s);
            lemma_written_back(st, rs.drop_first(), receiver, acc.push((rs[0].0, s)));
        }
    }
}

proof fn lemma_returned(st: StateV, rs: Seq<OutcomeV>, acc: Seq<ValueStepV>)
    requires
        outcomes_extend(st, rs),
        values_extend(st, acc),
    ensures
        match returned(rs, acc) {
            Ok(v) => values_extend(st, v),
            Err(_) => true,
        },
    decreases rs.len(),
{
    reveal(returned);
    if rs.len() > 0 {
        if let Some(v) = rs[0].0 {
            lemma_returned(st, rs.drop_first(), acc.push((v, rs[0].1)));
        }
    }
}

proof fn lemma_discarded(st: StateV, rs: Seq<OutcomeV>, acc: Seq<OutcomeV>)
    requires
        outcomes_extend(st, rs),
        outcomes_extend(st, acc),
    ensures
        outcomes_extend(st, discarded(rs, acc)),
    decreases rs.len(),
{
    reveal(discarded);
    if rs.len() > 0 {
        lemma_discarded(st, rs.drop_first(), acc.push((None, rs[0].1)));
    }
}

proof fn lemma_dropped(st: StateV, rs: Seq<ValueStepV>, acc: Seq<OutcomeV>)
    requires
        values_extend(st, rs),
        outcomes_extend(st, acc),
    ensures
        outcomes_extend(st, dropped(rs, acc)),
    decreases rs.len(),
{
    reveal(dropped);
    if rs.len() > 0 {
        lemma_dropped(st, rs.drop_first(), acc.push((None, rs[0].1)));
    }
}

proof fn lemma_ranged(
    st: StateV,
    rs: Seq<ValueStepV>,
    min: int,
    max: int,
    bits: usize,
    acc: Seq<OutcomeV>,
)
    requires
        values_extend(st, rs),
        outcomes_extend(st, acc),
    ensures
        outcomes_extend(st, ranged(rs, min, max, bits, acc)),
    decreases rs.len(),
{
    reveal(ranged);
    if rs.len() > 0 {
        lemma_ranged(
            st,
            rs.drop_first(),
            min,
            max,
            bits,
            acc.push((None, rs[0].1.with_cond(in_range(rs[0].0, min, max, bits)))),
        );
    }
}

proof fn lemma_declared_all(
    st: StateV,
    rs: Seq<ValueStepV>,
    vid: i64,
    ty: TypeV,
    acc: Seq<OutcomeV>,
)
    requires
        values_extend(st, rs),
        outcomes_extend(st, acc),
    ensures
        match declared_all(rs, vid, ty, acc) {
            Ok(v) => outcomes_extend(st, v),
            Err(_) => true,
        },
    decreases rs.len(),
{
    reveal(declared_all);
    if rs.len() > 0 && rs[0].1.ctx.scalar(ty) {
        lemma_declared_all(
            st,
            rs.drop_first(),
            vid,
            ty,
            acc.push((None, rs[0].1.with_binding(vid, scalar_node(rs[0].0)))),
        );
    }
}

proof fn lemma_returning(st: StateV, rs: Seq<ValueStepV>, acc: Seq<OutcomeV>)
    requires
        values_extend(st, rs),
        outcomes_extend(st, acc),
    ensures
        outcomes_extend(st, returning(rs, acc)),
    decreases rs.len(),
{
    reveal(returning);
    if rs.len() > 0 {
        lemma_returning(
            st,
            rs.drop_first(),
            acc.push((Some(rs[0].0), rs[0].1.in_status(ExecStatus::Return))),
        );
    }
}

proof fn lemma_conjoined(
    st: StateV,
    target: LValueV,
    cur: Term,
    rs: Seq<ValueStepV>,
    acc: Seq<OutcomeV>,
)
    requires
        values_extend(st, rs),
        outcomes_extend(st, acc),
    ensures
        match conjoined(target, cur, rs, acc) {
            Ok(v) => outcomes_extend(st, v),
            Err(_) => true,
        },
    decreases rs.len(),
{
    reveal(conjoined);
    if rs.len() > 0 {
        let s = rs[0].1;
        if let Ok(store) = assigned(
            s.ctx,
            s.store,
            target,
            as_int_term(both_nonzero(cur, rs[0].0)),
        ) {
            let s2 = StateV { store, ..s };
            lemma_same(s, s2);
            lemma_conjoined(st, target, cur, rs.drop_first(), acc.push((None, s2)));
        }
    }
}

proof fn lemma_byte_lookup(st: StateV, opcode: Term, vals: Seq<Term>)
    ensures
        match byte_lookup(st, opcode, vals) {
            Ok(s) => extends(st, s),
            Err(_) => true,
        },
{
    reveal(byte_lookup);
    if vals.len() >= 3 {
        lemma_byte_and(st, vals[0], vals[1], vals[2]);
    }
}

proof fn lemma_single(m: InterpV, e: ExprV, st: StateV)
    requires
        only_adds(m),
    ensures
        match single((m.eval)(e, st)) {
            Ok((_, s)) => extends(st, s),
            Err(_) => true,
        },
{
    if let Ok(vs) = (m.eval)(e, st) {
        if vs.len() > 0 {
            assert(extends(st, vs[0].1));
        }
    }
}

proof fn lemma_eval_all(m: InterpV, args: Seq<ExprV>, i: int, st: StateV, vals: Seq<Term>)
    requires
        only_adds(m),
    ensures
        match eval_all(args, i, st, m, vals) {
            Ok((_, s)) => extends(st, s),
            Err(_) => true,
        },
    decreases args.len() - i,
{
    reveal(eval_all);
    if 0 <= i < args.len() {
        lemma_single(m, args[i], st);
        if let Ok((v, s)) = single((m.eval)(args[i], st)) {
            lemma_eval_all(m, args, i + 1, s, vals.push(v));
        }
    }
}

proof fn lemma_map_pair_of(m: InterpV, e: ExprV, st: StateV)
    requires
        only_adds(m),
    ensures
        match map_pair_of(e, st, m) {
            Ok((_, _, s)) => extends(st, s),
            Err(_) => true,
        },
{
    reveal(map_pair_of);
    if let ExprV::MapIndex { base, keys } = e {
        lemma_single(m, *base, st);
        if let Ok((_, s0)) = single((m.eval)(*base, st)) {
            lemma_single(m, keys[0], s0);
            if let Ok((clk, s1)) = single((m.eval)(keys[0], s0)) {
                lemma_single(m, keys[1], s1);
                if let Ok((addr, s2)) = single((m.eval)(keys[1], s1)) {
                    if let Ok(types) = s0.map_types(*base) {
                        lemma_map_access(s2, *base, types, clk, addr);
                    }
                }
            }
        }
    }
}

proof fn lemma_binary_of(
    m: InterpV,
    st: StateV,
    op: BinOp,
    modded: bool,
    ls: Seq<ValueStepV>,
    rhs: ExprV,
    acc: Seq<ValueStepV>,
)
    requires
        only_adds(m),
        values_extend(st, ls),
        values_extend(st, acc),
    ensures
        match binary_of(op, modded, ls, rhs, m, acc) {
            Ok(vs) => values_extend(st, vs),
            Err(_) => true,
        },
    decreases ls.len(),
{
    reveal(binary_of);
    if ls.len() > 0 {
        if let Ok(rs) = (m.eval)(rhs, ls[0].1) {
            lemma_values_trans(st, ls[0].1, rs);
            lemma_combine_each(st, op, modded, ls[0].0, rs, acc);
            if let Ok(acc2) = combine_each(op, modded, ls[0].0, rs, acc) {
                lemma_binary_of(m, st, op, modded, ls.drop_first(), rhs, acc2);
            }
        }
    }
}

proof fn lemma_builtin_of(m: InterpV, e: ExprV, st: StateV)
    requires
        only_adds(m),
    ensures
        match builtin_of(e, st, m) {
            Ok(Some(vs)) => values_extend(st, vs),
            _ => true,
        },
{
    reveal(builtin_of);
    reveal(method_value);
    reveal(StateV::inverse_of);
    if let ExprV::Call(callee, args) = e {
        lemma_eval_all(m, args, 0, st, seq![]);
        if let Ok((vals, s1)) = eval_all(args, 0, st, m, seq![]) {
            match *callee {
                ExprV::Field { base, .. } => {
                    lemma_single(m, *base, s1);
                },
                ExprV::Path { segments, .. } => {
                    if segments.len() > 0 {
                        lemma_builtin_value(s1, segments.last(), args, vals);
                    }
                },
                _ => {},
            }
        }
    }
}

proof fn lemma_bind_args(
    m: InterpV,
    params: Seq<ParamV>,
    p: int,
    args: Seq<ExprV>,
    a: int,
    place: Option<PlaceV>,
    receiver: Option<(PlaceV, i64)>,
    st: StateV,
)
    requires
        only_adds(m),
    ensures
        match bind_args(params, p, args, a, place, receiver, st, m) {
            Ok((s, _, _)) => extends(st, s),
            Err(_) => true,
        },
    decreases params.len() - p,
{
    reveal(bind_args);
    if 0 <= p < params.len() {
        match params[p] {
            ParamV::SelfParam { id } => {
                if let (Some(vid), Some(at)) = (id, place) {
                    if let Ok(node) = loaded(st.store, at) {
                        lemma_bind_args(
                            m,
                            params,
                            p + 1,
                            args,
                            a,
                            place,
                            Some((at, vid)),
                            st.with_binding(vid, node),
                        );
                    }
                }
            },
            ParamV::Typed { id, ty, .. } => {
                if let Some(vid) = id {
                    if 0 <= a < args.len() {
                        if st.ctx.scalar(ty) {
                            lemma_single(m, args[a], st);
                            if let Ok((v, s)) = single((m.eval)(args[a], st)) {
                                lemma_bind_args(
                                    m,
                                    params,
                                    p + 1,
                                    args,
                                    a + 1,
                                    place,
                                    receiver,
                                    s.with_binding(vid, scalar_node(v)),
                                );
                            }
                        } else if let Ok(Some(node)) = st.expr_node(args[a]) {
                            lemma_bind_args(
                                m,
                                params,
                                p + 1,
                                args,
                                a + 1,
                                place,
                                receiver,
                                st.with_binding(vid, node),
                            );
                        }
                    }
                }
            },
        }
    }
}

proof fn lemma_step_of(
    m: InterpV,
    st: StateV,
    flow: Flow,
    s: StmtV,
    live: Seq<StateV>,
    outs: Seq<OutcomeV>,
    next: Seq<StateV>,
)
    requires
        only_adds(m),
        states_extend(st, live),
        outcomes_extend(st, outs),
        states_extend(st, next),
    ensures
        match step_of(flow, s, live, outs, next, m) {
            Ok((o, n)) => outcomes_extend(st, o) && states_extend(st, n),
            Err(_) => true,
        },
    decreases live.len(),
{
    reveal(step_of);
    if live.len() > 0 {
        if flow != Flow::Function && !live[0].active() {
            lemma_step_of(m, st, flow, s, live.drop_first(), outs, next.push(live[0]));
        } else if let Ok(rs) = (m.run)(s, live[0]) {
            lemma_outcomes_trans(st, live[0], rs);
            lemma_routed(st, flow, rs, outs, next);
            let (outs2, next2) = routed(flow, rs, outs, next);
            lemma_step_of(m, st, flow, s, live.drop_first(), outs2, next2);
        }
    }
}

proof fn lemma_block_of(
    m: InterpV,
    st: StateV,
    flow: Flow,
    body: Seq<StmtV>,
    i: int,
    live: Seq<StateV>,
    outs: Seq<OutcomeV>,
)
    requires
        only_adds(m),
        states_extend(st, live),
        outcomes_extend(st, outs),
    ensures
        match block_of(flow, body, i, live, outs, m) {
            Ok((o, n)) => outcomes_extend(st, o) && states_extend(st, n),
            Err(_) => true,
        },
    decreases body.len() - i,
{
    reveal(block_of);
    if 0 <= i < body.len() && live.len() > 0 {
        lemma_step_of(m, st, flow, body[i], live, outs, seq![]);
        if let Ok((outs2, next)) = step_of(flow, body[i], live, outs, seq![], m) {
            lemma_block_of(m, st, flow, body, i + 1, next, outs2);
        }
    }
}

proof fn lemma_run_of(m: InterpV, func: FuncV, st: StateV)
    requires
        only_adds(m),
    ensures
        match run_of(func, st, m) {
            Ok(rs) => outcomes_extend(st, rs),
            Err(_) => true,
        },
{
    reveal(run_of);
    lemma_block_of(m, st, Flow::Function, func.body, 0, seq![st], seq![]);
    if let Ok((outs, live)) = block_of(Flow::Function, func.body, 0, seq![st], seq![], m) {
        lemma_finished(st, live, outs);
    }
}

pub proof fn lemma_branch_of(m: InterpV, body: Seq<StmtV>, st: StateV)
    requires
        only_adds(m),
    ensures
        match branch_of(body, st, m) {
            Ok(rs) => outcomes_extend(st, rs),
            Err(_) => true,
        },
{
    reveal(branch_of);
    lemma_block_of(m, st, Flow::Branch, body, 0, seq![st], seq![]);
    if let Ok((outs, live)) = block_of(Flow::Branch, body, 0, seq![st], seq![], m) {
        lemma_finished(st, live, outs);
    }
}

proof fn lemma_call_of(m: InterpV, e: ExprV, st: StateV)
    requires
        only_adds(m),
    ensures
        match call_of(e, st, m) {
            Ok(rs) => outcomes_extend(st, rs),
            Err(_) => true,
        },
{
    reveal(call_of);
    if let ExprV::Call(callee, args) = e {
        if let Ok((fid, place)) = st.callee_of(*callee) {
            if let Some(func) = lookup(st.ctx.funcs, fid) {
                let start = st.in_status(ExecStatus::Step);
                lemma_bind_args(m, func.params, 0, args, 0, place, None, start);
                if let Ok((s, _, receiver)) = bind_args(
                    func.params,
                    0,
                    args,
                    0,
                    place,
                    None,
                    start,
                    m,
                ) {
                    lemma_run_of(m, func, s);
                    if let Ok(rs) = run_of(func, s, m) {
                        lemma_outcomes_trans(st, s, rs);
                        lemma_written_back(st, rs, receiver, seq![]);
                    }
                }
            }
        }
    }
}

proof fn lemma_condition_at(m: InterpV, e: ExprV, st: StateV)
    requires
        only_adds(m),
    ensures
        match condition_at(e, st, m) {
            Ok((_, s)) => extends(st, s),
            Err(_) => true,
        },
    decreases e,
{
    reveal(condition_at);
    match e {
        ExprV::Paren(inner) => lemma_condition_at(m, *inner, st),
        ExprV::Binary { lhs, rhs, .. } => {
            lemma_single(m, *lhs, st);
            if let Ok((_, s1)) = single((m.eval)(*lhs, st)) {
                lemma_single(m, *rhs, s1);
            }
        },
        _ => {},
    }
}

proof fn lemma_and_assign_of(
    m: InterpV,
    st: StateV,
    target: LValueV,
    value: ExprV,
    curs: Seq<ValueStepV>,
    acc: Seq<OutcomeV>,
)
    requires
        only_adds(m),
        values_extend(st, curs),
        outcomes_extend(st, acc),
    ensures
        match and_assign_of(target, value, curs, m, acc) {
            Ok(rs) => outcomes_extend(st, rs),
            Err(_) => true,
        },
    decreases curs.len(),
{
    reveal(and_assign_of);
    if curs.len() > 0 {
        if let Ok(rs) = (m.eval)(value, curs[0].1) {
            lemma_values_trans(st, curs[0].1, rs);
            lemma_conjoined(st, target, curs[0].0, rs, acc);
            if let Ok(acc2) = conjoined(target, curs[0].0, rs, acc) {
                lemma_and_assign_of(m, st, target, value, curs.drop_first(), acc2);
            }
        }
    }
}

proof fn lemma_iteration_of(
    m: InterpV,
    st: StateV,
    vid: i64,
    k: int,
    body: Seq<StmtV>,
    live: Seq<StateV>,
    outs: Seq<OutcomeV>,
    next: Seq<StateV>,
)
    requires
        only_adds(m),
        states_extend(st, live),
        outcomes_extend(st, outs),
        states_extend(st, next),
    ensures
        match iteration_of(vid, k, body, live, outs, next, m) {
            Ok((o, n)) => outcomes_extend(st, o) && states_extend(st, n),
            Err(_) => true,
        },
    decreases live.len(),
{
    reveal(iteration_of);
    if live.len() > 0 {
        if !live[0].active() {
            lemma_iteration_of(
                m,
                st,
                vid,
                k,
                body,
                live.drop_first(),
                outs,
                next.push(live[0]),
            );
        } else {
            let start = seq![live[0].with_binding(vid, scalar_node(Term::Int(k)))];
            assert(states_extend(st, start));
            lemma_block_of(m, st, Flow::Loop, body, 0, start, outs);
            if let Ok((outs2, ends)) = block_of(Flow::Loop, body, 0, start, outs, m) {
                lemma_iteration_of(
                    m,
                    st,
                    vid,
                    k,
                    body,
                    live.drop_first(),
                    outs2,
                    next + ends,
                );
            }
        }
    }
}

proof fn lemma_loop_of(
    m: InterpV,
    st: StateV,
    vid: i64,
    k: int,
    hi: int,
    body: Seq<StmtV>,
    live: Seq<StateV>,
)
    requires
        only_adds(m),
        states_extend(st, live),
    ensures
        match loop_of(vid, k, hi, body, live, m) {
            Ok(rs) => outcomes_extend(st, rs),
            Err(_) => true,
        },
    decreases hi - k,
{
    reveal(loop_of);
    if k >= hi {
        lemma_finished(st, live, seq![]);
    } else {
        lemma_iteration_of(m, st, vid, k, body, live, seq![], seq![]);
        if let Ok((outs, next)) = iteration_of(vid, k, body, live, seq![], seq![], m) {
            lemma_finished(st, next, outs);
            if !(outs.len() > 0 || next.len() == 0) {
                lemma_loop_of(m, st, vid, k + 1, hi, body, next);
            }
        }
    }
}

proof fn lemma_lookup_of(
    m: InterpV,
    chip: Seq<Seq<char>>,
    opcode: ExprV,
    args: Seq<ExprV>,
    st: StateV,
)
    requires
        only_adds(m),
    ensures
        match lookup_of(chip, opcode, args, st, m) {
            Ok(rs) => outcomes_extend(st, rs),
            Err(_) => true,
        },
{
    reveal(lookup_of);
    lemma_single(m, opcode, st);
    if let Ok((op, s1)) = single((m.eval)(opcode, st)) {
        lemma_eval_all(m, args, 0, s1, seq![]);
        if let Ok((vals, s2)) = eval_all(args, 0, s1, m, seq![]) {
            lemma_byte_lookup(s2, op, vals);
        }
    }
}

proof fn lemma_eval_of(m: InterpV, e: ExprV, st: StateV)
    requires
        only_adds(m),
    ensures
        match eval_of(e, st, m) {
            Ok(vs) => values_extend(st, vs),
            Err(_) => true,
        },
{
    reveal(eval_of);
    match e {
        ExprV::Field { base, .. } => {
            lemma_map_pair_of(m, *base, st);
        },
        ExprV::Binary { op, lhs, rhs } => {
            if let Ok(modded) = st.needs_mod(e) {
                if let Ok(ls) = (m.eval)(*lhs, st) {
                    lemma_binary_of(m, st, op, modded, ls, *rhs, seq![]);
                }
            }
        },
        ExprV::Call(_, _) => {
            lemma_builtin_of(m, e, st);
            lemma_call_of(m, e, st);
            if let Ok(rs) = call_of(e, st, m) {
                lemma_returned(st, rs, seq![]);
            }
        },
        _ => {},
    }
}

proof fn lemma_asserts(m: InterpV, s: StmtV, st: StateV)
    requires
        only_adds(m),
        s is AssertEq || s is AssertBool || s is AssertZero || s is AssertRange,
        st.active(),
    ensures
        match exec_of(s, st, m) {
            Ok(rs) => outcomes_extend(st, rs),
            Err(_) => true,
        },
{
    reveal(exec_of);
    match s {
        StmtV::AssertEq(a, b) => {
            reveal(assert_eq_of);
            lemma_single(m, a, st);
            if let Ok((av, s1)) = single((m.eval)(a, st)) {
                lemma_single(m, b, s1);
                if let Ok((bv, s2)) = single((m.eval)(b, s1)) {
                    lemma_split(s2, Formula::Eq(av, bv));
                    assert(states_extend(st, s2.split(Formula::Eq(av, bv))));
                    lemma_finished(st, s2.split(Formula::Eq(av, bv)), seq![]);
                }
            }
        },
        StmtV::AssertBool(e) => {
            reveal(assert_bool_of);
            lemma_single(m, e, st);
            lemma_condition_at(m, e, st);
        },
        StmtV::AssertZero(e) => {
            reveal(assert_zero_of);
            lemma_single(m, e, st);
            if let Ok((v, s1)) = single((m.eval)(e, st)) {
                let f = Formula::Eq(v, Term::Int(0));
                lemma_split(s1, f);
                assert(states_extend(st, s1.split(f)));
                lemma_finished(st, s1.split(f), seq![]);
            }
        },
        StmtV::AssertRange { value, ty } => {
            reveal(assert_range_of);
            if let Ok(rs) = (m.eval)(value, st) {
                if let Some(sty) = st.ctx.sort_of(ty) {
                    if let Some((lo, hi, w)) = bounds_of(sty) {
                        lemma_ranged(st, rs, lo, hi, w, seq![]);
                    }
                }
            }
        },
        _ => {},
    }
}

proof fn lemma_writes(m: InterpV, s: StmtV, st: StateV)
    requires
        only_adds(m),
        s is VarDecl || s is Assign || s is AndAssign || s is Return,
        st.active(),
    ensures
        match exec_of(s, st, m) {
            Ok(rs) => outcomes_extend(st, rs),
            Err(_) => true,
        },
{
    reveal(exec_of);
    match s {
        StmtV::VarDecl { id, ty, init, .. } => {
            reveal(decl_of);
            if let Ok(rs) = (m.eval)(init, st) {
                if let Some(vid) = id {
                    lemma_declared_all(st, rs, vid, ty, seq![]);
                }
            }
        },
        StmtV::Assign { target, value } => {
            reveal(assign_of);
            lemma_single(m, value, st);
            if let Ok((v, s1)) = single((m.eval)(value, st)) {
                if let Ok(store) = assigned(s1.ctx, s1.store, target, v) {
                    lemma_same(s1, StateV { store, ..s1 });
                }
            }
        },
        StmtV::AndAssign { target, value } => {
            reveal(update_of);
            if let Ok(curs) = (m.eval)(read_of(target), st) {
                lemma_and_assign_of(m, st, target, value, curs, seq![]);
            }
        },
        StmtV::Return(e) => {
            reveal(return_of);
            if let Ok(rs) = (m.eval)(e, st) {
                lemma_returning(st, rs, seq![]);
            }
        },
        _ => {},
    }
}

proof fn lemma_exec_of(m: InterpV, s: StmtV, st: StateV)
    requires
        only_adds(m),
    ensures
        match exec_of(s, st, m) {
            Ok(rs) => outcomes_extend(st, rs),
            Err(_) => true,
        },
{
    if st.active() {
        match s {
            StmtV::If { cond, then_branch, else_branch } => {
                reveal(exec_of);
                lemma_condition_at(m, cond, st);
                if let Ok((f, s1)) = condition_at(cond, st, m) {
                    let a = s1.with_cond(f);
                    let b = s1.with_cond(Formula::Not(Box::new(f)));
                    lemma_branch_of(m, then_branch, a);
                    lemma_branch_of(m, else_branch, b);
                    if let Ok(rs) = branch_of(then_branch, a, m) {
                        lemma_outcomes_trans(st, a, rs);
                    }
                    if let Ok(rs) = branch_of(else_branch, b, m) {
                        lemma_outcomes_trans(st, b, rs);
                    }
                }
            },
            StmtV::For { id, start, end, body, .. } => {
                reveal(exec_of);
                if let (Ok(Some(lo)), Ok(Some(hi))) = (
                    index_of(st.ctx, None, start),
                    index_of(st.ctx, None, end),
                ) {
                    if let Some(vid) = id {
                        lemma_loop_of(m, st, vid, lo as int, hi as int, body, seq![st]);
                    }
                }
            },
            StmtV::Lookup { chip, opcode, args } => {
                reveal(exec_of);
                lemma_lookup_of(m, chip, opcode, args, st);
            },
            StmtV::Call { callee, args } => {
                reveal(exec_of);
                reveal(call_stmt_of);
                let e = ExprV::Call(Box::new(read_of(callee)), args);
                lemma_builtin_of(m, e, st);
                lemma_call_of(m, e, st);
                if let Ok(Some(rs)) = builtin_of(e, st, m) {
                    lemma_dropped(st, rs, seq![]);
                }
                if let Ok(rs) = call_of(e, st, m) {
                    lemma_discarded(st, rs, seq![]);
                }
            },
            StmtV::AssertEq(_, _) | StmtV::AssertBool(_) | StmtV::AssertZero(_) => {
                lemma_asserts(m, s, st);
            },
            StmtV::AssertRange { .. } => lemma_asserts(m, s, st),
            _ => lemma_writes(m, s, st),
        }
    } else {
        reveal(exec_of);
    }
}

/// Whatever an expression or a statement does, the states after it extend the state before it:
/// the context is the same, no symbol number is given back, no memory event is lost, and inputs
/// that were ruled out before stay ruled out.
pub proof fn execution_only_adds(n: nat)
    ensures
        only_adds(interp(n)),
    decreases n,
{
    let m = interp(n);
    assert forall|e: ExprV, st: StateV|
        match #[trigger] (m.eval)(e, st) {
            Ok(vs) => values_extend(st, vs),
            Err(_) => true,
        } by {
        interp_eval(n, e, st);
        if n > 0 {
            execution_only_adds((n - 1) as nat);
            lemma_eval_of(interp((n - 1) as nat), e, st);
        }
    }
    assert forall|s: StmtV, st: StateV|
        match #[trigger] (m.run)(s, st) {
            Ok(rs) => outcomes_extend(st, rs),
            Err(_) => true,
        } by {
        interp_exec(n, s, st);
        if n > 0 {
            execution_only_adds((n - 1) as nat);
            lemma_exec_of(interp((n - 1) as nat), s, st);
        }
    }
}

/// The states at the ends of a function extend the state at its start.
pub proof fn functions_only_add(func: FuncV, st: StateV, n: nat)
    ensures
        match run_of(func, st, interp(n)) {
            Ok(rs) => outcomes_extend(st, rs),
            Err(_) => true,
        },
{
    execution_only_adds(n);
    lemma_run_of(interp(n), func, st);
}

} // verus!
