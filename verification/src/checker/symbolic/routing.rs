//! Lists of results turned into others.

use vstd::prelude::*;
use crate::ast::{BinOp, LValue, Type};
use crate::checker::symbolic::builtins::{both_as_int, combine};
use crate::checker::symbolic::error::ExecError;
use crate::checker::symbolic::expr::SymExpr;
use crate::checker::symbolic::place::{
    store_receiver_node, write_to_lvalue, PlaceV, ReceiverPlace,
};
use crate::checker::symbolic::results::{
    new_outcomes, new_values, no_outcomes, no_values, outcomes_in, outcomes_step, pop_outcome,
    pop_state, pop_value, push_outcome, push_state, push_value, states_in, values_in, values_step,
    Outcomes, States, Values,
};
use crate::checker::symbolic::semantics::{
    after_call, combine_each, conjoined, declared_all, discarded, dropped, finished, ranged,
    returned, returning, routed, written_back, Flow,
};
use crate::checker::symbolic::state::{ExecStatus, SymState};
use crate::checker::symbolic::state_nodes::state_step;
use crate::checker::symbolic::state_ops::range_cond;
use crate::checker::symbolic::store::StoreNode;
use crate::checker::symbolic::value::SymValue;

verus! {

/// A left operand combined with each right operand, behind `acc`.
pub(crate) fn combine_with_each(
    op: BinOp,
    modded: bool,
    l: &SymExpr,
    rs: Values,
    acc: Values,
) -> (r: Result<Values, ExecError>)
    ensures
        values_step(r) == combine_each(op, modded, l@, values_in(rs), values_in(acc)),
{
    proof {
        reveal(combine_each);
    }
    let ghost total = combine_each(op, modded, l@, values_in(rs), values_in(acc));
    let mut rest = rs;
    let mut out = acc;
    #[verifier::loop_isolation(false)]
    loop
        invariant
            total == combine_each(op, modded, l@, values_in(rest), values_in(out)),
        decreases values_in(rest).len(),
    {
        match pop_value(&mut rest) {
            None => {
                return Ok(out);
            },
            Some((v, s)) => {
                let t = combine(op, modded, l.clone(), v, &s)?;
                push_value(&mut out, (t, s));
            },
        }
    }
}

/// The states as outcomes without a return value, behind `acc`.
pub(crate) fn finish(live: States, acc: Outcomes) -> (r: Outcomes)
    ensures
        outcomes_in(r) == finished(states_in(live), outcomes_in(acc)),
{
    proof {
        reveal(finished);
    }
    let ghost total = finished(states_in(live), outcomes_in(acc));
    let mut rest = live;
    let mut out = acc;
    #[verifier::loop_isolation(false)]
    loop
        invariant
            total == finished(states_in(rest), outcomes_in(out)),
        decreases states_in(rest).len(),
    {
        match pop_state(&mut rest) {
            None => {
                return out;
            },
            Some(s) => {
                push_outcome(&mut out, (None, s));
            },
        }
    }
}

/// Outcomes split into those that leave the list of statements, behind `outs`, and the states
/// that go on, behind `next`.
pub(crate) fn route(flow: Flow, rs: Outcomes, outs: Outcomes, next: States) -> (r: (
    Outcomes,
    States,
))
    ensures
        (outcomes_in(r.0), states_in(r.1)) == routed(
            flow,
            outcomes_in(rs),
            outcomes_in(outs),
            states_in(next),
        ),
{
    proof {
        reveal(routed);
    }
    let ghost total = routed(flow, outcomes_in(rs), outcomes_in(outs), states_in(next));
    let mut rest = rs;
    let mut out = outs;
    let mut on = next;
    #[verifier::loop_isolation(false)]
    loop
        invariant
            total == routed(flow, outcomes_in(rest), outcomes_in(out), states_in(on)),
        decreases outcomes_in(rest).len(),
    {
        match pop_outcome(&mut rest) {
            None => {
                return (out, on);
            },
            Some((ret, s)) => {
                if flow == Flow::Loop && ret.is_some() {
                    push_outcome(&mut out, (ret, s.with_status(ExecStatus::Return)));
                } else if s.is_terminal() {
                    push_outcome(&mut out, (ret, s));
                } else {
                    push_state(&mut on, s);
                }
            },
        }
    }
}

/// The receiver of a call and its binding.
pub open spec fn receiver_view(place: Option<ReceiverPlace>, vid: Option<i64>) -> Option<
    (PlaceV, i64),
> {
    match (place, vid) {
        (Some(p), Some(v)) => Some((p@, v)),
        _ => None,
    }
}

fn put_back(s: SymState, place: &Option<ReceiverPlace>, vid: Option<i64>) -> (r: Result<
    SymState,
    ExecError,
>)
    ensures
        state_step(r) == after_call(s@, receiver_view(*place, vid)),
{
    proof {
        reveal(after_call);
    }
    if let Some(p) = place {
        if let Some(v) = vid {
            let node = match s.store.get(v) {
                Some(n) => n.clone(),
                None => return Err(ExecError::UnboundVariable),
            };
            let store = store_receiver_node(s.store.clone(), p, node)?;
            return Ok(SymState { store, status: ExecStatus::Step, ..s });
        }
    }
    Ok(s.with_status(ExecStatus::Step))
}

/// The outcomes of a call with the receiver written back.
pub(crate) fn write_back(rs: Outcomes, place: &Option<ReceiverPlace>, vid: Option<i64>) -> (r: Result<
    Outcomes,
    ExecError,
>)
    ensures
        outcomes_step(r) == written_back(
            outcomes_in(rs),
            receiver_view(*place, vid),
            no_outcomes(),
        ),
{
    proof {
        reveal(written_back);
    }
    let ghost receiver = receiver_view(*place, vid);
    let ghost total = written_back(outcomes_in(rs), receiver, no_outcomes());
    let mut rest = rs;
    let mut out = new_outcomes();
    #[verifier::loop_isolation(false)]
    loop
        invariant
            total == written_back(outcomes_in(rest), receiver, outcomes_in(out)),
        decreases outcomes_in(rest).len(),
    {
        match pop_outcome(&mut rest) {
            None => {
                return Ok(out);
            },
            Some((ret, s)) => {
                let s2 = put_back(s, place, vid)?;
                push_outcome(&mut out, (ret, s2));
            },
        }
    }
}

/// The values that calls return.
pub(crate) fn return_values(rs: Outcomes) -> (r: Result<Values, ExecError>)
    ensures
        values_step(r) == returned(outcomes_in(rs), no_values()),
{
    proof {
        reveal(returned);
    }
    let ghost total = returned(outcomes_in(rs), no_values());
    let mut rest = rs;
    let mut out = new_values();
    #[verifier::loop_isolation(false)]
    loop
        invariant
            total == returned(outcomes_in(rest), values_in(out)),
        decreases outcomes_in(rest).len(),
    {
        match pop_outcome(&mut rest) {
            None => {
                return Ok(out);
            },
            Some((ret, s)) => match ret {
                None => {
                    return Err(ExecError::VoidValue);
                },
                Some(v) => {
                    push_value(&mut out, (v, s));
                },
            },
        }
    }
}

/// The states after calls, as outcomes without a return value.
pub(crate) fn discard_returns(rs: Outcomes) -> (r: Outcomes)
    ensures
        outcomes_in(r) == discarded(outcomes_in(rs), no_outcomes()),
{
    proof {
        reveal(discarded);
    }
    let ghost total = discarded(outcomes_in(rs), no_outcomes());
    let mut rest = rs;
    let mut out = new_outcomes();
    #[verifier::loop_isolation(false)]
    loop
        invariant
            total == discarded(outcomes_in(rest), outcomes_in(out)),
        decreases outcomes_in(rest).len(),
    {
        match pop_outcome(&mut rest) {
            None => {
                return out;
            },
            Some((_, s)) => {
                push_outcome(&mut out, (None, s));
            },
        }
    }
}

/// The states after evaluations, as outcomes without a return value.
pub(crate) fn drop_values(rs: Values) -> (r: Outcomes)
    ensures
        outcomes_in(r) == dropped(values_in(rs), no_outcomes()),
{
    proof {
        reveal(dropped);
    }
    let ghost total = dropped(values_in(rs), no_outcomes());
    let mut rest = rs;
    let mut out = new_outcomes();
    #[verifier::loop_isolation(false)]
    loop
        invariant
            total == dropped(values_in(rest), outcomes_in(out)),
        decreases values_in(rest).len(),
    {
        match pop_value(&mut rest) {
            None => {
                return out;
            },
            Some((_, s)) => {
                push_outcome(&mut out, (None, s));
            },
        }
    }
}

/// The states in which each value lies in an interval.
pub(crate) fn range_each(rs: Values, min: i128, max: i128, bits: usize) -> (r: Outcomes)
    ensures
        outcomes_in(r) == ranged(values_in(rs), min as int, max as int, bits, no_outcomes()),
{
    proof {
        reveal(ranged);
    }
    let ghost total = ranged(values_in(rs), min as int, max as int, bits, no_outcomes());
    let mut rest = rs;
    let mut out = new_outcomes();
    #[verifier::loop_isolation(false)]
    loop
        invariant
            total == ranged(values_in(rest), min as int, max as int, bits, outcomes_in(out)),
        decreases values_in(rest).len(),
    {
        match pop_value(&mut rest) {
            None => {
                return out;
            },
            Some((v, s)) => {
                push_outcome(&mut out, (None, s.with_pc(range_cond(v, min, max, bits))));
            },
        }
    }
}

/// The states in which a variable has each value.
pub(crate) fn declare_each(rs: Values, vid: i64, ty: &Type) -> (r: Result<Outcomes, ExecError>)
    ensures
        outcomes_step(r) == declared_all(values_in(rs), vid, ty@, no_outcomes()),
{
    proof {
        reveal(declared_all);
    }
    let ghost total = declared_all(values_in(rs), vid, ty@, no_outcomes());
    let mut rest = rs;
    let mut out = new_outcomes();
    #[verifier::loop_isolation(false)]
    loop
        invariant
            total == declared_all(values_in(rest), vid, ty@, outcomes_in(out)),
        decreases values_in(rest).len(),
    {
        match pop_value(&mut rest) {
            None => {
                return Ok(out);
            },
            Some((v, s)) => {
                if !ty.is_scalar(&s.ctx) {
                    return Err(ExecError::NonScalarVariable);
                }
                let s2 = s.set_binding(vid, StoreNode::scalar(SymValue::plain(v)));
                push_outcome(&mut out, (None, s2));
            },
        }
    }
}

/// The values that a return statement yields.
pub(crate) fn return_each(rs: Values) -> (r: Outcomes)
    ensures
        outcomes_in(r) == returning(values_in(rs), no_outcomes()),
{
    proof {
        reveal(returning);
    }
    let ghost total = returning(values_in(rs), no_outcomes());
    let mut rest = rs;
    let mut out = new_outcomes();
    #[verifier::loop_isolation(false)]
    loop
        invariant
            total == returning(values_in(rest), outcomes_in(out)),
        decreases values_in(rest).len(),
    {
        match pop_value(&mut rest) {
            None => {
                return out;
            },
            Some((v, s)) => {
                push_outcome(&mut out, (Some(v), s.with_status(ExecStatus::Return)));
            },
        }
    }
}

/// The states after `target = target & value` for each value, behind `acc`.
pub(crate) fn conjoin_each(target: &LValue, cur: &SymExpr, rs: Values, acc: Outcomes) -> (r: Result<
    Outcomes,
    ExecError,
>)
    ensures
        outcomes_step(r) == conjoined(target@, cur@, values_in(rs), outcomes_in(acc)),
{
    proof {
        reveal(conjoined);
    }
    let ghost total = conjoined(target@, cur@, values_in(rs), outcomes_in(acc));
    let mut rest = rs;
    let mut out = acc;
    #[verifier::loop_isolation(false)]
    loop
        invariant
            total == conjoined(target@, cur@, values_in(rest), outcomes_in(out)),
        decreases values_in(rest).len(),
    {
        match pop_value(&mut rest) {
            None => {
                return Ok(out);
            },
            Some((v, s)) => {
                let newv = both_as_int(cur.clone(), v);
                let store = write_to_lvalue(&s.ctx, s.store.clone(), target, newv)?;
                push_outcome(&mut out, (None, SymState { store, ..s }));
            },
        }
    }
}

} // verus!
