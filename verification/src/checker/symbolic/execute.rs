//! The symbolic executor.

use vstd::prelude::*;
use vstd::string::*;
use crate::ast::{
    clone_expr_list, expr_of, exprs_of, params_of, stmts_of, BinOp, Expr, ExprV, Func, LValue,
    Member, Param, Stmt, Type, TypeV,
};
use crate::ast::helpers::member_func;
use crate::checker::symbolic::builtins::{
    builtin_function, condition_of, constrain_byte_and, either, eval_builtin_free_fn_call,
    fresh_inverse, split_on_bool_mul_eq_zero, sym_bounds, uses_mod,
};
use crate::checker::symbolic::context::{MemoryEventKind, PathKind};
use crate::checker::symbolic::error::ExecError;
use crate::checker::symbolic::expr::{terms_of, BoolExpr, Formula, SymExpr, SymType, Term};
use crate::checker::symbolic::index::{eval_index_const_or_err, index_of};
use crate::checker::symbolic::place::{
    load_receiver_node, lvalue_to_expr, resolve_callee_expr, write_to_lvalue, PlaceV,
    ReceiverPlace,
};
use crate::checker::symbolic::results::{
    append_outcomes, expect_single, flow_step, new_outcomes, new_states, new_values, no_outcomes,
    no_states, no_values, one_outcome, one_state, one_value, outcome_count, outcomes_in,
    outcomes_step, pop_state, pop_value, push_state, state_count, states_in, term_step,
    value_count, values_in, values_step, OutcomeV, Outcomes, States, Values,
};
use crate::checker::symbolic::routing::{
    combine_with_each, conjoin_each, declare_each, discard_returns, drop_values, finish,
    range_each, receiver_view, return_each, return_values, route, write_back,
};
use crate::checker::symbolic::semantics::{
    and_assign_of, assert_bool_of, assert_eq_of, assert_range_of, assert_zero_of, assign_of,
    binary_of, bind_args, block_of, branch_of, builtin_of, byte_lookup, call_of, call_stmt_of,
    condition_at, decl_of, eval_all, eval_of, exec_of, interp, interp_eval, interp_exec,
    is_condition, iteration_of, lookup_of,
    loop_of, map_pair_of, method_value, path_key, projected, return_of, run_of, segments_key,
    single, step_of, update_of, Flow, InterpV,
};
use crate::checker::symbolic::state::{ExecStatus, StateV, SymState};
use crate::checker::symbolic::state_nodes::state_step;
use crate::checker::symbolic::state_ops::{range_cond, terms_step};
use crate::checker::symbolic::store::StoreNode;
use crate::checker::symbolic::value::SymValue;
use crate::text::{lower_text, push_nat, same_text, texts};
use crate::view::{ok_view, some_view};

verus! {

broadcast use {
    crate::ast::lists::group_lists,
    crate::checker::symbolic::expr_lists::group_lists,
};

fn path_scalar(st: &SymState, e: &Expr) -> (r: Result<SymExpr, ExecError>)
    requires
        e@ is Path,
    ensures
        ok_view(r) == st@.path_value(e@->Path_segments, e@->Path_ref_id),
{
    proof {
        reveal(StateV::path_value);
    }
    match e {
        Expr::Path { segments, ref_id } => {
            if let Some(v) = st.store.query_scalar(e)? {
                return Ok(v.surface);
            }
            let n = segments.len();
            proof {
                assert(n > 0 ==> texts(segments@).last() == segments@[n - 1]@);
            }
            match *ref_id {
                Some(id) => {
                    if let Some(k) = st.ctx.const_int(id) {
                        return Ok(SymExpr::Int(k as i128));
                    }
                    match st.ctx.query_type(id) {
                        Some(ty) => {
                            let sty = match st.type_map(ty) {
                                Ok(s) => s,
                                Err(_) => SymType::F,
                            };
                            let name = if n > 0 {
                                segments[n - 1].clone()
                            } else {
                                "tmp".to_string()
                            };
                            Ok(SymExpr::Var(name, sty))
                        },
                        None => Err(ExecError::NoStaticType),
                    }
                },
                None => {
                    if n > 0 {
                        if let Some((val, _)) = st.ctx.builtin_const(segments[n - 1].as_str()) {
                            return Ok(val);
                        }
                    }
                    Err(ExecError::UnresolvedPath)
                },
            }
        },
        _ => Err(ExecError::UnresolvedPath),
    }
}

fn field_scalar(st: &SymState, base: &Expr, name: &str) -> (r: Result<SymExpr, ExecError>)
    ensures
        ok_view(r) == st@.field_value(base@, name@),
{
    proof {
        reveal(StateV::field_value);
    }
    let sid = match st.infer_expr_type(base)? {
        Some(Type::Path { ref_id: Some(sid), .. }) => sid,
        _ => return Err(ExecError::FieldOnNonStruct),
    };
    let fid = match st.ctx.field_id_of(sid, name) {
        Some(fid) => fid,
        None => return Err(ExecError::UnknownField),
    };
    match st.query_expr_node(base)? {
        None => Err(ExecError::UnboundVariable),
        Some(StoreNode::Struct { fields }) => match fields.get(fid) {
            None => Err(ExecError::FieldNotMaterialized),
            Some(StoreNode::Scalar(v)) => Ok(v.surface.clone()),
            Some(_) => Err(ExecError::NotAScalar),
        },
        Some(_) => Err(ExecError::FieldOnNonStruct),
    }
}

fn index_scalar(st: &SymState, base: &Expr, idx: &Expr) -> (r: Result<SymExpr, ExecError>)
    ensures
        ok_view(r) == st@.index_value(base@, idx@),
{
    proof {
        reveal(StateV::index_value);
    }
    let i = match eval_index_const_or_err(&st.ctx, Some(&st.store), idx)? {
        Some(i) => i,
        None => return Err(ExecError::IndexNotConcrete),
    };
    match st.query_expr_node(base)? {
        None => Err(ExecError::UnboundVariable),
        Some(StoreNode::Array { elems, .. }) => match elems.get(i) {
            None => Err(ExecError::ElementNotMaterialized),
            Some(StoreNode::Scalar(v)) => Ok(v.surface.clone()),
            Some(_) => Err(ExecError::NotAScalar),
        },
        Some(_) => Err(ExecError::IndexOnNonArray),
    }
}

fn key_of_segments(segments: &Vec<String>) -> (r: String)
    ensures
        r@ == segments_key(texts(segments@)),
{
    let ghost ts = texts(segments@);
    let mut out = String::new();
    #[verifier::loop_isolation(false)]
    for i in 0..segments.len()
        invariant
            out@ == segments_key(ts.take(i as int)),
    {
        proof {
            assert(ts.take(i + 1).drop_last() =~= ts.take(i as int));
            assert(ts.take(i + 1).last() == segments@[i as int]@);
        }
        let seg = segments[i].as_str();
        push_nat(&mut out, seg.unicode_len() as u128);
        out.append(":");
        out.append(seg);
    }
    proof {
        assert(ts.take(ts.len() as int) =~= ts);
    }
    out
}

fn key_of_path(e: &Expr) -> (r: String)
    ensures
        r@ == path_key(e@),
{
    proof {
        reveal(path_key);
    }
    match e {
        Expr::Path { segments, .. } => key_of_segments(segments),
        _ => String::new(),
    }
}

/// The types of the pair that an access to a map yields.
fn pair_types(st: &SymState, base: &Expr) -> (r: Result<(Type, Type), ExecError>)
    ensures
        match r {
            Ok((a, b)) => st@.map_types(base@) == Ok::<(TypeV, TypeV), ExecError>((a@, b@)),
            Err(x) => st@.map_types(base@) == Err::<(TypeV, TypeV), ExecError>(x),
        },
{
    proof {
        reveal(StateV::map_types);
    }
    match base {
        Expr::Path { ref_id: Some(vid), .. } => match st.ctx.query_type(*vid) {
            Some(Type::Mapping { timestamp, value, .. }) => Ok(
                st.ctx.map_return_pair_types(timestamp, value),
            ),
            _ => Err(ExecError::NotAMap),
        },
        _ => Err(ExecError::NotAMap),
    }
}

/// The outcome of a map access.
pub open spec fn access_step(r: Result<(SymExpr, SymExpr, SymState), ExecError>) -> Result<
    (Term, Term, StateV),
    ExecError,
> {
    match r {
        Ok((p, v, s)) => Ok((p@, v@, s@)),
        Err(x) => Err(x),
    }
}

fn access_map(st: SymState, base: &Expr, types: &(Type, Type), clk: SymExpr, addr: SymExpr) -> (r: Result<
    (SymExpr, SymExpr, SymState),
    ExecError,
>)
    ensures
        access_step(r) == st@.map_access(base@, (types.0@, types.1@), clk@, addr@),
{
    proof {
        reveal(StateV::map_access);
    }
    let id = match base {
        Expr::Path { ref_id, .. } => *ref_id,
        _ => None,
    };
    let repr = key_of_path(base);
    if let Some((prev, val)) = st.find_map_read(id, repr.as_str(), &clk, &addr) {
        return Ok((prev, val, st));
    }
    let ts = st.type_map(&types.0)?;
    let vs = st.type_map(&types.1)?;
    let mut s = st;
    let prev = s.fresh_sym("map_clk_prev", ts)?;
    let val = s.fresh_sym("map_val", vs)?;
    let s = s.add_memory_event(MemoryEventKind::Send, prev.clone(), addr.clone(), val.clone());
    let s = s.add_memory_event(MemoryEventKind::Receive, clk.clone(), addr.clone(), val.clone());
    let s = s.record_map_read(id, repr, clk, addr, prev.clone(), val.clone());
    Ok((prev, val, s))
}

fn project(name: &str, prev: SymExpr, val: SymExpr) -> (r: Result<SymExpr, ExecError>)
    ensures
        ok_view(r) == projected(name@, prev@, val@),
{
    proof {
        reveal(projected);
    }
    if same_text(name, "clk_prev") || same_text(name, "0") {
        Ok(prev)
    } else if same_text(name, "value") || same_text(name, "1") {
        Ok(val)
    } else {
        Err(ExecError::UnknownProjection)
    }
}

/// Evaluate a map access projection `map[clk, addr].{clk_prev|value}` while caching the pair.
fn eval_map_index_projection(e: &Expr, st: SymState, d: usize) -> (r: Result<
    (SymExpr, SymExpr, SymState),
    ExecError,
>)
    ensures
        access_step(r) == map_pair_of(e@, st@, interp(d as nat)),
    decreases d, 1int, Some(0int),
{
    proof {
        reveal(map_pair_of);
    }
    match e {
        Expr::MapIndex { base, keys } => {
            proof {
                assert(exprs_of(keys@).len() == keys@.len());
            }
            if keys.len() != 2 {
                return Err(ExecError::MapArity);
            }
            proof {
                assert(exprs_of(keys@)[0] == keys@[0]@);
                assert(exprs_of(keys@)[1] == keys@[1]@);
            }
            let (_, s0) = expect_single(eval_expr(base, st, d)?)?;
            let types = pair_types(&s0, base)?;
            let (clk, s1) = expect_single(eval_expr(&keys[0], s0, d)?)?;
            let (addr, s2) = expect_single(eval_expr(&keys[1], s1, d)?)?;
            access_map(s2, base, &types, clk, addr)
        },
        _ => Err(ExecError::NotAMap),
    }
}

/// Sequential evaluation of a right operand on each left result.
fn eval_right(op: BinOp, modded: bool, ls: Values, rhs: &Expr, d: usize) -> (r: Result<
    Values,
    ExecError,
>)
    ensures
        values_step(r) == binary_of(op, modded, values_in(ls), rhs@, interp(d as nat), no_values()),
    decreases d, 1int, Some(0int),
{
    proof {
        reveal(binary_of);
    }
    let ghost total = binary_of(op, modded, values_in(ls), rhs@, interp(d as nat), no_values());
    let mut rest = ls;
    let mut out = new_values();
    #[verifier::loop_isolation(false)]
    loop
        invariant
            total == binary_of(op, modded, values_in(rest), rhs@, interp(d as nat), values_in(out)),
        decreases values_in(rest).len(),
    {
        match pop_value(&mut rest) {
            None => {
                return Ok(out);
            },
            Some((l, s)) => {
                let rs = eval_expr(rhs, s, d)?;
                if value_count(&rs) == 0 {
                    return Err(ExecError::NoValue);
                }
                out = combine_with_each(op, modded, &l, rs, out)?;
            },
        }
    }
}

/// Evaluate call arguments sequentially and return values with the final state.
fn eval_call_args(args: &Vec<Expr>, st: SymState, d: usize) -> (r: Result<
    (Vec<SymExpr>, SymState),
    ExecError,
>)
    ensures
        terms_step(r) == eval_all(exprs_of(args@), 0, st@, interp(d as nat), Seq::empty()),
    decreases d, 1int, Some(0int),
{
    proof {
        reveal(eval_all);
    }
    let ghost es = exprs_of(args@);
    let ghost start = st@;
    let mut s = st;
    let mut vals: Vec<SymExpr> = Vec::new();
    #[verifier::loop_isolation(false)]
    for i in 0..args.len()
        invariant
            eval_all(es, 0, start, interp(d as nat), Seq::empty()) == eval_all(
                es,
                i as int,
                s@,
                interp(d as nat),
                terms_of(vals@),
            ),
    {
        proof {
            assert(es[i as int] == args@[i as int]@);
        }
        let (v, s2) = expect_single(eval_expr(&args[i], s, d)?)?;
        vals.push(v);
        s = s2;
    }
    Ok((vals, s))
}

/// Evaluate a builtin scalar method like `field.inverse()`.
fn eval_builtin_method(ty: &Type, name: &str, recv: SymExpr, vals: &Vec<SymExpr>, st: SymState) -> (r: Result<
    (SymExpr, SymState),
    ExecError,
>)
    ensures
        term_step(r) == method_value(ty@, name@, recv@, terms_of(vals@), st@),
{
    proof {
        reveal(method_value);
    }
    proof {
        assert(terms_of(vals@).len() == vals@.len());
    }
    if vals.len() != 0 {
        return Err(ExecError::BuiltinArity);
    }
    match st.type_map(ty)? {
        SymType::F => if same_text(name, "inverse") {
            fresh_inverse(st, recv)
        } else {
            Err(ExecError::UnsupportedBuiltin)
        },
        _ => Err(ExecError::UnsupportedBuiltin),
    }
}

/// The values of a built-in call, if it is one.
pub open spec fn builtin_step(r: Result<Option<Values>, ExecError>) -> Result<
    Option<Seq<(Term, StateV)>>,
    ExecError,
> {
    match r {
        Ok(Some(v)) => Ok(Some(values_in(v))),
        Ok(None) => Ok(None),
        Err(x) => Err(x),
    }
}

/// Try to evaluate a builtin call (scalar method or free function).
/// Arguments are evaluated as scalars only when the callee is recognized as builtin.
fn try_eval_builtin_call(e: &Expr, st: &SymState, d: usize) -> (r: Result<Option<Values>, ExecError>)
    ensures
        builtin_step(r) == builtin_of(e@, st@, interp(d as nat)),
    decreases d, 2int, Some(0int),
{
    proof {
        reveal(builtin_of);
    }
    match e {
        Expr::Call(callee, args) => match &**callee {
            Expr::Field { base, name, .. } => {
                proof {
                    assert(callee@ == expr_of(**callee));
                }
                let ty = match st.infer_expr_type(base)? {
                    Some(ty) => ty,
                    None => return Ok(None),
                };
                match st.ctx.classify_type(&ty) {
                    Ok(PathKind::Builtin) => {},
                    _ => return Ok(None),
                }
                let (vals, s1) = eval_call_args(args, st.clone(), d)?;
                let (recv, s2) = expect_single(eval_expr(base, s1, d)?)?;
                let (v, s3) = eval_builtin_method(&ty, name.as_str(), recv, &vals, s2)?;
                Ok(Some(one_value(v, s3)))
            },
            Expr::Path { segments, .. } => {
                let n = segments.len();
                proof {
                    assert(callee@ == expr_of(**callee));
                }
                if n == 0 {
                    return Ok(None);
                }
                proof {
                    assert(texts(segments@).last() == segments@[n - 1]@);
                }
                let name = segments[n - 1].as_str();
                if !builtin_function(name) {
                    return Ok(None);
                }
                let (vals, s1) = eval_call_args(args, st.clone(), d)?;
                let (v, s2) = eval_builtin_free_fn_call(s1, name, args, &vals)?;
                Ok(Some(one_value(v, s2)))
            },
            _ => Ok(None),
        },
        _ => Ok(None),
    }
}

/// The outcome of binding arguments.
pub open spec fn bind_step(
    r: Result<(SymState, usize, Option<i64>), ExecError>,
    place: Option<ReceiverPlace>,
) -> Result<(StateV, int, Option<(PlaceV, i64)>), ExecError> {
    match r {
        Ok((s, a, vid)) => Ok((s@, a as int, receiver_view(place, vid))),
        Err(x) => Err(x),
    }
}

/// Bind the parameters of a callee to the arguments of a call.
fn bind_call_args(
    func: &Func,
    args: &Vec<Expr>,
    place: &Option<ReceiverPlace>,
    st: SymState,
    d: usize,
) -> (r: Result<(SymState, usize, Option<i64>), ExecError>)
    ensures
        bind_step(r, *place) == bind_args(
            func@.params,
            0,
            exprs_of(args@),
            0,
            some_view(*place),
            None,
            st@,
            interp(d as nat),
        ),
    decreases d, 1int, Some(0int),
{
    proof {
        reveal(bind_args);
    }
    let ghost ps = params_of(func.params@);
    let ghost es = exprs_of(args@);
    let ghost at = some_view(*place);
    let ghost total = bind_args(ps, 0, es, 0, at, None, st@, interp(d as nat));
    let mut s = st;
    let mut a: usize = 0;
    let mut vid: Option<i64> = None;
    #[verifier::loop_isolation(false)]
    for p in 0..func.params.len()
        invariant
            a <= args@.len(),
            vid is Some ==> place is Some,
            total == bind_args(
                ps,
                p as int,
                es,
                a as int,
                at,
                receiver_view(*place, vid),
                s@,
                interp(d as nat),
            ),
    {
        proof {
            assert(ps[p as int] == func.params@[p as int]@);
            assert(es.len() == args@.len());
        }
        match &func.params[p] {
            Param::SelfParam { id } => {
                let v = match *id {
                    Some(v) => v,
                    None => return Err(ExecError::UnresolvedId),
                };
                let node = match place {
                    Some(pl) => load_receiver_node(&s.store, pl)?,
                    None => return Err(ExecError::NoReceiver),
                };
                s = s.set_binding(v, node);
                vid = Some(v);
            },
            Param::Typed { id, ty, .. } => {
                let v = match *id {
                    Some(v) => v,
                    None => return Err(ExecError::UnresolvedId),
                };
                if a >= args.len() {
                    return Err(ExecError::TooFewArguments);
                }
                proof {
                    assert(es[a as int] == args@[a as int]@);
                }
                if ty.is_scalar(&s.ctx) {
                    let (val, s1) = expect_single(eval_expr(&args[a], s, d)?)?;
                    s = s1.set_binding(v, StoreNode::scalar(SymValue::plain(val)));
                } else {
                    let node = match s.query_expr_node(&args[a])? {
                        Some(n) => n.clone(),
                        None => return Err(ExecError::ArgumentNotAPlace),
                    };
                    s = s.set_binding(v, node);
                }
                a = a + 1;
            },
        }
    }
    Ok((s, a, vid))
}

/// Evaluate a regular function or struct method call (non-builtin).
/// The return value is optional to support both void-returning and value-returning callees.
fn eval_regular_call(e: &Expr, st: SymState, d: usize) -> (r: Result<Outcomes, ExecError>)
    ensures
        outcomes_step(r) == call_of(e@, st@, interp(d as nat)),
    decreases d, 4int, Some(0int),
{
    proof {
        reveal(call_of);
    }
    match e {
        Expr::Call(callee, args) => {
            let (fid, place) = resolve_callee_expr(&st, callee)?;
            let func = match st.ctx.func_def(fid) {
                Some(f) => f.clone(),
                None => return Err(ExecError::MissingFunction),
            };
            let start = st.with_status(ExecStatus::Step);
            let (s, used, vid) = bind_call_args(&func, args, &place, start, d)?;
            proof {
                assert(exprs_of(args@).len() == args@.len());
            }
            if used < args.len() {
                return Err(ExecError::TooManyArguments);
            }
            let results = run_func(&func, s, d)?;
            if outcome_count(&results) == 0 {
                return Err(ExecError::NoSuccessor);
            }
            write_back(results, &place, vid)
        },
        _ => Err(ExecError::UnsupportedCallee),
    }
}

fn eval_expr(e: &Expr, st: SymState, d: usize) -> (r: Result<Values, ExecError>)
    ensures
        values_step(r) == (interp(d as nat).eval)(e@, st@),
    decreases d, 0int, Some(0int),
{
    proof {
        interp_eval(d as nat, e@, st@);
        reveal(eval_of);
    }
    if d == 0 {
        return Err(ExecError::TooDeep);
    }
    let d = d - 1;
    match e {
        Expr::Int(k) => Ok(one_value(SymExpr::Int(*k as i128), st)),
        Expr::Bool(b) => Ok(one_value(BoolExpr::Bool(*b).as_int(), st)),
        Expr::Paren(inner) => eval_expr(inner, st, d),
        Expr::Path { .. } => {
            let v = path_scalar(&st, e)?;
            Ok(one_value(v, st))
        },
        Expr::Field { base, name, .. } => {
            if let Expr::MapIndex { .. } = &**base {
                let (prev, val, s) = eval_map_index_projection(base, st, d)?;
                let v = project(name.as_str(), prev, val)?;
                return Ok(one_value(v, s));
            }
            let v = field_scalar(&st, base, name.as_str())?;
            Ok(one_value(v, st))
        },
        Expr::Index(base, idx) => {
            let v = index_scalar(&st, base, idx)?;
            Ok(one_value(v, st))
        },
        Expr::MapIndex { .. } => Err(ExecError::MapNeedsProjection),
        Expr::Binary { op, lhs, rhs } => {
            let modded = uses_mod(&st, e)?;
            let ls = eval_expr(lhs, st, d)?;
            if value_count(&ls) == 0 {
                return Err(ExecError::NoValue);
            }
            eval_right(*op, modded, ls, rhs, d)
        },
        Expr::Call(_, _) => {
            if let Some(rs) = try_eval_builtin_call(e, &st, d)? {
                return Ok(rs);
            }
            let rs = eval_regular_call(e, st, d)?;
            return_values(rs)
        },
    }
}

fn run_func(func: &Func, st: SymState, d: usize) -> (r: Result<Outcomes, ExecError>)
    ensures
        outcomes_step(r) == run_of(func@, st@, interp(d as nat)),
    decreases d, 3int, Some(0int),
{
    proof {
        reveal(run_of);
    }
    let (outs, live) = exec_block(Flow::Function, &func.body, st, new_outcomes(), d)?;
    Ok(finish(live, outs))
}

/// Execute a list of statements on a state, with multi-path propagation.
fn exec_block(flow: Flow, body: &Vec<Stmt>, st: SymState, outs: Outcomes, d: usize) -> (r: Result<
    (Outcomes, States),
    ExecError,
>)
    ensures
        flow_step(r) == block_of(
            flow,
            stmts_of(body@),
            0,
            seq![st@],
            outcomes_in(outs),
            interp(d as nat),
        ),
    decreases d, 2int, Some(0int),
{
    proof {
        reveal(block_of);
    }
    let ghost ss = stmts_of(body@);
    let ghost total = block_of(flow, ss, 0, seq![st@], outcomes_in(outs), interp(d as nat));
    let mut live = one_state(st);
    let mut out = outs;
    let mut i: usize = 0;
    #[verifier::loop_isolation(false)]
    while i < body.len() && state_count(&live) != 0
        invariant
            i <= body@.len(),
            total == block_of(
                flow,
                ss,
                i as int,
                states_in(live),
                outcomes_in(out),
                interp(d as nat),
            ),
        decreases body@.len() - i,
    {
        proof {
            assert(ss[i as int] == body@[i as int]@);
        }
        let (out2, next) = exec_step(flow, &body[i], live, out, d)?;
        out = out2;
        live = next;
        i = i + 1;
    }
    Ok((out, live))
}

fn exec_step(flow: Flow, stmt: &Stmt, live: States, outs: Outcomes, d: usize) -> (r: Result<
    (Outcomes, States),
    ExecError,
>)
    ensures
        flow_step(r) == step_of(
            flow,
            stmt@,
            states_in(live),
            outcomes_in(outs),
            no_states(),
            interp(d as nat),
        ),
    decreases d, 1int, Some(0int),
{
    proof {
        reveal(step_of);
    }
    let ghost total = step_of(
        flow,
        stmt@,
        states_in(live),
        outcomes_in(outs),
        no_states(),
        interp(d as nat),
    );
    let mut rest = live;
    let mut out = outs;
    let mut next = new_states();
    #[verifier::loop_isolation(false)]
    loop
        invariant
            total == step_of(
                flow,
                stmt@,
                states_in(rest),
                outcomes_in(out),
                states_in(next),
                interp(d as nat),
            ),
        decreases states_in(rest).len(),
    {
        match pop_state(&mut rest) {
            None => {
                return Ok((out, next));
            },
            Some(s) => {
                if flow != Flow::Function && !s.is_active() {
                    push_state(&mut next, s);
                } else {
                    let rs = exec_stmt(stmt, s, d)?;
                    if flow != Flow::Function && outcome_count(&rs) == 0 {
                        return Err(ExecError::NoSuccessor);
                    }
                    let (out2, next2) = route(flow, rs, out, next);
                    out = out2;
                    next = next2;
                }
            },
        }
    }
}

/// The outcome of a condition.
pub open spec fn condition_step(r: Result<(BoolExpr, SymState), ExecError>) -> Result<
    (Formula, StateV),
    ExecError,
> {
    match r {
        Ok((f, s)) => Ok((f@, s@)),
        Err(x) => Err(x),
    }
}

/// Evaluate Boolean expressions with sequential semantics.
fn eval_bool_expr(e: &Expr, st: SymState, d: usize) -> (r: Result<(BoolExpr, SymState), ExecError>)
    ensures
        condition_step(r) == condition_at(e@, st@, interp(d as nat)),
    decreases d, 1int, e,
{
    proof {
        reveal(condition_at);
    }
    match e {
        Expr::Bool(b) => Ok((BoolExpr::Bool(*b), st)),
        Expr::Paren(inner) => eval_bool_expr(inner, st, d),
        Expr::Binary { op, lhs, rhs } => {
            let (l, s1) = expect_single(eval_expr(lhs, st, d)?)?;
            let (r, s2) = expect_single(eval_expr(rhs, s1, d)?)?;
            let f = condition_of(*op, l, r)?;
            Ok((f, s2))
        },
        _ => Err(ExecError::UnsupportedCondition),
    }
}

/// Evaluate a scalar compound assignment with branching: for each current value, the right-hand
/// side is evaluated on the state after the read.
fn eval_scalar_assign_update(target: &LValue, value: &Expr, curs: Values, d: usize) -> (r: Result<
    Outcomes,
    ExecError,
>)
    ensures
        outcomes_step(r) == and_assign_of(
            target@,
            value@,
            values_in(curs),
            interp(d as nat),
            no_outcomes(),
        ),
    decreases d, 1int, Some(0int),
{
    proof {
        reveal(and_assign_of);
    }
    let ghost total = and_assign_of(target@, value@, values_in(curs), interp(d as nat), no_outcomes());
    let mut rest = curs;
    let mut out = new_outcomes();
    #[verifier::loop_isolation(false)]
    loop
        invariant
            total == and_assign_of(
                target@,
                value@,
                values_in(rest),
                interp(d as nat),
                outcomes_in(out),
            ),
        decreases values_in(rest).len(),
    {
        match pop_value(&mut rest) {
            None => {
                return Ok(out);
            },
            Some((cur, s)) => {
                let rs = eval_expr(value, s, d)?;
                if value_count(&rs) == 0 {
                    return Err(ExecError::NoValue);
                }
                out = conjoin_each(target, &cur, rs, out)?;
            },
        }
    }
}

fn exec_branch(body: &Vec<Stmt>, st: SymState, d: usize) -> (r: Result<Outcomes, ExecError>)
    ensures
        outcomes_step(r) == branch_of(stmts_of(body@), st@, interp(d as nat)),
    decreases d, 3int, Some(0int),
{
    proof {
        reveal(branch_of);
    }
    let (outs, live) = exec_block(Flow::Branch, body, st, new_outcomes(), d)?;
    Ok(finish(live, outs))
}

fn append_states(a: States, b: States) -> (r: States)
    ensures
        states_in(r) == states_in(a) + states_in(b),
{
    let ghost total = states_in(a) + states_in(b);
    let mut out = a;
    let mut rest = b;
    #[verifier::loop_isolation(false)]
    loop
        invariant
            total == states_in(out) + states_in(rest),
        decreases states_in(rest).len(),
    {
        let ghost before = states_in(out) + states_in(rest);
        match pop_state(&mut rest) {
            None => {
                proof {
                    assert(states_in(out) + states_in(rest) =~= states_in(out));
                }
                return out;
            },
            Some(s) => {
                push_state(&mut out, s);
                proof {
                    assert(before =~= states_in(out) + states_in(rest));
                }
            },
        }
    }
}

fn exec_iteration(vid: i64, k: usize, body: &Vec<Stmt>, live: States, d: usize) -> (r: Result<
    (Outcomes, States),
    ExecError,
>)
    ensures
        flow_step(r) == iteration_of(
            vid,
            k as int,
            stmts_of(body@),
            states_in(live),
            no_outcomes(),
            no_states(),
            interp(d as nat),
        ),
    decreases d, 3int, Some(0int),
{
    proof {
        reveal(iteration_of);
    }
    let ghost ss = stmts_of(body@);
    let ghost total = iteration_of(
        vid,
        k as int,
        ss,
        states_in(live),
        no_outcomes(),
        no_states(),
        interp(d as nat),
    );
    let mut rest = live;
    let mut out = new_outcomes();
    let mut next = new_states();
    #[verifier::loop_isolation(false)]
    loop
        invariant
            total == iteration_of(
                vid,
                k as int,
                ss,
                states_in(rest),
                outcomes_in(out),
                states_in(next),
                interp(d as nat),
            ),
        decreases states_in(rest).len(),
    {
        match pop_state(&mut rest) {
            None => {
                return Ok((out, next));
            },
            Some(s) => {
                if !s.is_active() {
                    push_state(&mut next, s);
                } else {
                    let value = StoreNode::scalar(SymValue::plain(SymExpr::Int(k as i128)));
                    let start = s.set_binding(vid, value);
                    let (out2, ends) = exec_block(Flow::Loop, body, start, out, d)?;
                    out = out2;
                    next = append_states(next, ends);
                }
            },
        }
    }
}

fn exec_loop(vid: i64, lo: usize, hi: usize, body: &Vec<Stmt>, st: SymState, d: usize) -> (r: Result<
    Outcomes,
    ExecError,
>)
    requires
        lo <= hi,
    ensures
        outcomes_step(r) == loop_of(
            vid,
            lo as int,
            hi as int,
            stmts_of(body@),
            seq![st@],
            interp(d as nat),
        ),
    decreases d, 4int, Some(0int),
{
    proof {
        reveal(loop_of);
    }
    let ghost ss = stmts_of(body@);
    let ghost total = loop_of(vid, lo as int, hi as int, ss, seq![st@], interp(d as nat));
    let mut live = one_state(st);
    let mut k: usize = lo;
    #[verifier::loop_isolation(false)]
    while k < hi
        invariant
            lo <= k <= hi,
            total == loop_of(vid, k as int, hi as int, ss, states_in(live), interp(d as nat)),
        decreases hi - k,
    {
        let (outs, next) = exec_iteration(vid, k, body, live, d)?;
        if outcome_count(&outs) != 0 || state_count(&next) == 0 {
            return Ok(finish(next, outs));
        }
        live = next;
        k = k + 1;
    }
    Ok(finish(live, new_outcomes()))
}

/// The state after a lookup in the byte table.
fn exec_byte_lookup(st: SymState, opcode: &SymExpr, vals: &Vec<SymExpr>) -> (r: Result<
    SymState,
    ExecError,
>)
    ensures
        state_step(r) == byte_lookup(st@, opcode@, terms_of(vals@)),
{
    proof {
        reveal(byte_lookup);
    }
    let ghost ts = terms_of(vals@);
    let n = vals.len();
    proof {
        assert(ts.len() == n);
        assert(n >= 2 ==> ts[n - 2] == vals@[n - 2]@ && ts[n - 1] == vals@[n - 1]@);
        assert(n >= 3 ==> ts[0] == vals@[0]@ && ts[1] == vals@[1]@ && ts[2] == vals@[2]@);
    }
    match opcode {
        SymExpr::Int(k) => if *k == 0 {
            if n < 2 {
                return Err(ExecError::LookupArity);
            }
            let s = st.with_pc(range_cond(vals[n - 2].clone(), 0, 255, 8));
            Ok(s.with_pc(range_cond(vals[n - 1].clone(), 0, 255, 8)))
        } else if *k == 1 {
            if n < 3 {
                return Err(ExecError::LookupArity);
            }
            constrain_byte_and(st, vals[0].clone(), vals[1].clone(), vals[2].clone())
        } else {
            Err(ExecError::UnsupportedOpcode)
        },
        _ => Err(ExecError::OpcodeNotConcrete),
    }
}

proof fn lemma_eval_all_len(
    args: Seq<ExprV>,
    i: int,
    st: StateV,
    m: InterpV,
    vals: Seq<Term>,
)
    requires
        0 <= i <= args.len(),
        eval_all(args, i, st, m, vals) is Ok,
    ensures
        eval_all(args, i, st, m, vals)->Ok_0.0.len() == vals.len() + args.len() - i,
    decreases args.len() - i,
{
    reveal(eval_all);
    if i < args.len() {
        let one = single((m.eval)(args[i], st))->Ok_0;
        lemma_eval_all_len(args, i + 1, one.1, m, vals.push(one.0));
    }
}

fn exec_lookup(chip: &Vec<String>, opcode: &Expr, args: &Vec<Expr>, st: SymState, d: usize) -> (r: Result<
    Outcomes,
    ExecError,
>)
    ensures
        outcomes_step(r) == lookup_of(
            texts(chip@),
            opcode@,
            exprs_of(args@),
            st@,
            interp(d as nat),
        ),
    decreases d, 2int, Some(0int),
{
    proof {
        reveal(lookup_of);
    }
    let n = chip.len();
    proof {
        assert(n > 0 ==> texts(chip@).last() == chip@[n - 1]@);
        assert(exprs_of(args@).len() == args@.len());
    }
    let name = if n > 0 {
        lower_text(chip[n - 1].as_str())
    } else {
        "".to_string()
    };
    if same_text(name.as_str(), "bytechip") {
        if args.len() < 2 {
            return Err(ExecError::LookupArity);
        }
        let (op, s1) = expect_single(eval_expr(opcode, st, d)?)?;
        match op {
            SymExpr::Int(_) => {},
            _ => return Err(ExecError::OpcodeNotConcrete),
        }
        let (vals, s2) = eval_call_args(args, s1, d)?;
        let s3 = exec_byte_lookup(s2, &op, &vals)?;
        Ok(one_outcome(s3))
    } else {
        let kind = match st.ctx.memory_chip(name.as_str()) {
            Some(meta) => meta.kind,
            None => return Err(ExecError::UnsupportedChip),
        };
        if args.len() < 3 {
            return Err(ExecError::LookupArity);
        }
        let (op, s1) = expect_single(eval_expr(opcode, st, d)?)?;
        match op {
            SymExpr::Int(_) => {},
            _ => return Err(ExecError::OpcodeNotConcrete),
        }
        let ghost before = s1@;
        let (vals, s2) = eval_call_args(args, s1, d)?;
        proof {
            lemma_eval_all_len(exprs_of(args@), 0, before, interp(d as nat), Seq::empty());
            assert(terms_of(vals@).len() == vals@.len());
            assert(terms_of(vals@)[0] == vals@[0]@);
            assert(terms_of(vals@)[1] == vals@[1]@);
            assert(terms_of(vals@)[2] == vals@[2]@);
        }
        let s3 = s2.add_memory_event(kind, vals[0].clone(), vals[1].clone(), vals[2].clone());
        Ok(one_outcome(s3))
    }
}

fn asserted_as_condition(e: &Expr) -> (r: bool)
    ensures
        r == is_condition(e@),
{
    match e {
        Expr::Bool(_) => true,
        Expr::Binary { op, .. } => match *op {
            BinOp::Eq | BinOp::Ne | BinOp::Lt | BinOp::Le | BinOp::Gt | BinOp::Ge | BinOp::And
            | BinOp::Or => true,
            _ => false,
        },
        _ => false,
    }
}

fn exec_assert_bool(e: &Expr, st: SymState, d: usize) -> (r: Result<Outcomes, ExecError>)
    ensures
        outcomes_step(r) == assert_bool_of(e@, st@, interp(d as nat)),
    decreases d, 2int, Some(0int),
{
    proof {
        reveal(assert_bool_of);
    }
    if asserted_as_condition(e) {
        let (f, s1) = eval_bool_expr(e, st, d)?;
        return Ok(one_outcome(s1.with_pc(f)));
    }
    match e {
        Expr::Path { .. } | Expr::Field { .. } | Expr::Index(..) => {
            let (v, s1) = expect_single(eval_expr(e, st, d)?)?;
            let is_zero = v.clone().eq_to(SymExpr::Int(0));
            let is_one = v.eq_to(SymExpr::Int(1));
            Ok(one_outcome(s1.with_pc(either(is_zero, is_one))))
        },
        _ => Err(ExecError::UnsupportedCondition),
    }
}

fn exec_assert_eq(a: &Expr, b: &Expr, st: SymState, d: usize) -> (r: Result<Outcomes, ExecError>)
    ensures
        outcomes_step(r) == assert_eq_of(a@, b@, st@, interp(d as nat)),
    decreases d, 1int, Some(0int),
{
    proof {
        reveal(assert_eq_of);
    }
    let (av, s1) = expect_single(eval_expr(a, st, d)?)?;
    let (bv, s2) = expect_single(eval_expr(b, s1, d)?)?;
    Ok(finish(split_on_bool_mul_eq_zero(s2, av.eq_to(bv)), new_outcomes()))
}

fn exec_assert_zero(e: &Expr, st: SymState, d: usize) -> (r: Result<Outcomes, ExecError>)
    ensures
        outcomes_step(r) == assert_zero_of(e@, st@, interp(d as nat)),
    decreases d, 1int, Some(0int),
{
    proof {
        reveal(assert_zero_of);
    }
    let (v, s1) = expect_single(eval_expr(e, st, d)?)?;
    Ok(finish(split_on_bool_mul_eq_zero(s1, v.eq_to(SymExpr::Int(0))), new_outcomes()))
}

fn exec_assert_range(value: &Expr, ty: &Type, st: SymState, d: usize) -> (r: Result<
    Outcomes,
    ExecError,
>)
    ensures
        outcomes_step(r) == assert_range_of(value@, ty@, st@, interp(d as nat)),
    decreases d, 1int, Some(0int),
{
    proof {
        reveal(assert_range_of);
    }
    let sty = match st.ctx.builtin_type_to_sym_type(ty) {
        Some(s) => s,
        None => return Err(ExecError::UnmappableType),
    };
    let rs = eval_expr(value, st, d)?;
    if value_count(&rs) == 0 {
        return Err(ExecError::NoValue);
    }
    match sym_bounds(&sty) {
        None => Err(ExecError::UnboundedType),
        Some((lo, hi, w)) => Ok(range_each(rs, lo, hi, w)),
    }
}

fn exec_var_decl(id: Option<i64>, ty: &Type, init: &Expr, st: SymState, d: usize) -> (r: Result<
    Outcomes,
    ExecError,
>)
    ensures
        outcomes_step(r) == decl_of(id, ty@, init@, st@, interp(d as nat)),
    decreases d, 1int, Some(0int),
{
    proof {
        reveal(decl_of);
    }
    let vid = match id {
        Some(v) => v,
        None => return Err(ExecError::UnresolvedId),
    };
    ty.assert_not_function()?;
    let rs = eval_expr(init, st, d)?;
    if value_count(&rs) == 0 {
        return Err(ExecError::NoValue);
    }
    declare_each(rs, vid, ty)
}

fn exec_assign(target: &LValue, value: &Expr, st: SymState, d: usize) -> (r: Result<
    Outcomes,
    ExecError,
>)
    ensures
        outcomes_step(r) == assign_of(target@, value@, st@, interp(d as nat)),
    decreases d, 1int, Some(0int),
{
    proof {
        reveal(assign_of);
    }
    let (v, s1) = expect_single(eval_expr(value, st, d)?)?;
    let store = write_to_lvalue(&s1.ctx, s1.store.clone(), target, v)?;
    Ok(one_outcome(SymState { store, ..s1 }))
}

fn exec_and_assign(target: &LValue, value: &Expr, st: SymState, d: usize) -> (r: Result<
    Outcomes,
    ExecError,
>)
    ensures
        outcomes_step(r) == update_of(target@, value@, st@, interp(d as nat)),
    decreases d, 2int, Some(0int),
{
    proof {
        reveal(update_of);
    }
    let read = lvalue_to_expr(target);
    let curs = eval_expr(&read, st, d)?;
    if value_count(&curs) == 0 {
        return Err(ExecError::NoValue);
    }
    eval_scalar_assign_update(target, value, curs, d)
}

fn exec_call(callee: &LValue, args: &Vec<Expr>, st: SymState, d: usize) -> (r: Result<
    Outcomes,
    ExecError,
>)
    ensures
        outcomes_step(r) == call_stmt_of(callee@, exprs_of(args@), st@, interp(d as nat)),
    decreases d, 5int, Some(0int),
{
    proof {
        reveal(call_stmt_of);
    }
    let e = Expr::Call(Box::new(lvalue_to_expr(callee)), clone_expr_list(args));
    if let Some(rs) = try_eval_builtin_call(&e, &st, d)? {
        return Ok(drop_values(rs));
    }
    let rs = eval_regular_call(&e, st, d)?;
    Ok(discard_returns(rs))
}

fn exec_return(e: &Expr, st: SymState, d: usize) -> (r: Result<Outcomes, ExecError>)
    ensures
        outcomes_step(r) == return_of(e@, st@, interp(d as nat)),
    decreases d, 1int, Some(0int),
{
    proof {
        reveal(return_of);
    }
    let rs = eval_expr(e, st, d)?;
    if value_count(&rs) == 0 {
        return Err(ExecError::NoValue);
    }
    Ok(return_each(rs))
}

fn loop_bound(st: &SymState, e: &Expr) -> (r: Result<usize, ExecError>)
    ensures
        r == match index_of(st@.ctx, None, e@) {
            Err(x) => Err(x),
            Ok(None) => Err(ExecError::BoundNotConcrete),
            Ok(Some(k)) => Ok(k),
        },
{
    match eval_index_const_or_err(&st.ctx, None, e)? {
        Some(k) => Ok(k),
        None => Err(ExecError::BoundNotConcrete),
    }
}

fn exec_stmt(stmt: &Stmt, st: SymState, d: usize) -> (r: Result<Outcomes, ExecError>)
    ensures
        outcomes_step(r) == (interp(d as nat).run)(stmt@, st@),
    decreases d, 0int, Some(0int),
{
    proof {
        interp_exec(d as nat, stmt@, st@);
        reveal(exec_of);
    }
    if d == 0 {
        return Err(ExecError::TooDeep);
    }
    let d = d - 1;
    if !st.is_active() {
        return Ok(new_outcomes());
    }
    match stmt {
        Stmt::AssertEq(a, b) => exec_assert_eq(a, b, st, d),
        Stmt::AssertBool(e) => exec_assert_bool(e, st, d),
        Stmt::AssertZero(e) => exec_assert_zero(e, st, d),
        Stmt::AssertRange { value, ty } => exec_assert_range(value, ty, st, d),
        Stmt::VarDecl { id, ty, init, .. } => exec_var_decl(*id, ty, init, st, d),
        Stmt::Assign { target, value } => exec_assign(target, value, st, d),
        Stmt::AndAssign { target, value } => exec_and_assign(target, value, st, d),
        Stmt::If { cond, then_branch, else_branch } => {
            let (f, s1) = eval_bool_expr(cond, st, d)?;
            let known = match &f {
                BoolExpr::Bool(b) => Some(*b),
                _ => None,
            };
            let then_start = s1.clone().with_pc(f.clone());
            let else_start = s1.with_pc(f.not());
            match known {
                Some(true) => exec_branch(then_branch, then_start, d),
                Some(false) => exec_branch(else_branch, else_start, d),
                None => {
                    let mut a = exec_branch(then_branch, then_start, d)?;
                    let b = exec_branch(else_branch, else_start, d)?;
                    append_outcomes(&mut a, b);
                    Ok(a)
                },
            }
        },
        Stmt::For { id, start, end, body, .. } => {
            let lo = loop_bound(&st, start)?;
            let hi = loop_bound(&st, end)?;
            if lo >= hi {
                return Ok(one_outcome(st));
            }
            match *id {
                None => Err(ExecError::UnresolvedId),
                Some(vid) => exec_loop(vid, lo, hi, body, st, d),
            }
        },
        Stmt::Lookup { chip, opcode, args } => exec_lookup(chip, opcode, args, st, d),
        Stmt::Call { callee, args } => exec_call(callee, args, st, d),
        Stmt::Return(e) => exec_return(e, st, d),
    }
}

/// A part of a program that can be executed symbolically.
pub trait SymbolicExecutor: Sized {
    /// The outcomes of an execution, with expressions, statements and calls nested
    /// at most `depth` deep.
    spec fn outcomes(&self, st: StateV, depth: nat) -> Result<Seq<OutcomeV>, ExecError>;

    /// Execute one step and produce successor states.
    /// For non-return statements/expressions, the first item is None.
    fn execute(self, state: SymState, depth: usize) -> (r: Result<Outcomes, ExecError>)
        ensures
            outcomes_step(r) == self.outcomes(state@, depth as nat),
    ;
}

impl SymbolicExecutor for Stmt {
    open spec fn outcomes(&self, st: StateV, depth: nat) -> Result<Seq<OutcomeV>, ExecError> {
        (interp(depth).run)(self@, st)
    }

    fn execute(self, state: SymState, depth: usize) -> (r: Result<Outcomes, ExecError>) {
        exec_stmt(&self, state, depth)
    }
}

impl SymbolicExecutor for Func {
    open spec fn outcomes(&self, st: StateV, depth: nat) -> Result<Seq<OutcomeV>, ExecError> {
        run_of(self@, st, interp(depth))
    }

    fn execute(self, state: SymState, depth: usize) -> (r: Result<Outcomes, ExecError>) {
        run_func(&self, state, depth)
    }
}

impl SymbolicExecutor for Member {
    open spec fn outcomes(&self, st: StateV, depth: nat) -> Result<Seq<OutcomeV>, ExecError> {
        run_of(member_func(self@), st, interp(depth))
    }

    fn execute(self, state: SymState, depth: usize) -> (r: Result<Outcomes, ExecError>) {
        run_func(self.as_func(), state, depth)
    }
}

impl Expr {
    /// The values of an expression, each with the state after its evaluation, with calls nested at
    /// most `depth` deep.
    pub fn eval(self, state: SymState, depth: usize) -> (r: Result<Values, ExecError>)
        ensures
            values_step(r) == (interp(depth as nat).eval)(self@, state@),
    {
        eval_expr(&self, state, depth)
    }
}

} // verus!
