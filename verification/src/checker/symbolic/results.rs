//! Lists of results: the values of an expression, the outcomes of a statement and the states in
//! between.

use vstd::prelude::*;
use crate::checker::symbolic::error::ExecError;
use crate::checker::symbolic::expr::{SymExpr, Term};
use crate::checker::symbolic::state::{StateV, SymState};
use crate::view::some_view;

verus! {

/// A persistent list, opaque but for the names below.
#[verifier::external_type_specification]
#[verifier::external_body]
#[verifier::reject_recursive_types(A)]
pub struct ExVector<A>(im::Vector<A>);

/// The values of an expression, each with the state after it.
pub type Values = im::Vector<(SymExpr, SymState)>;

/// The outcomes of a statement: the returned value, if any, and the state after it.
pub type Outcomes = im::Vector<(Option<SymExpr>, SymState)>;

/// A list of states.
pub type States = im::Vector<SymState>;

/// The value of an expression and the state after it.
pub type ValueStepV = (Term, StateV);

/// The value that a statement returns, if any, and the state after it.
pub type OutcomeV = (Option<Term>, StateV);

/// The values of an expression that a list holds.
pub uninterp spec fn values_in(v: im::Vector<(SymExpr, SymState)>) -> Seq<ValueStepV>;

/// No values of an expression.
pub open spec fn no_values() -> Seq<ValueStepV> {
    Seq::empty()
}

/// `im::Vector::new`: the new list is empty.
#[verifier::external_body]
pub(crate) fn new_values() -> (r: im::Vector<(SymExpr, SymState)>)
    ensures
        values_in(r) == no_values(),
{
    im::Vector::new()
}

/// `im::Vector::push_back`: the list gets one more element at its end.
#[verifier::external_body]
pub(crate) fn push_value(v: &mut im::Vector<(SymExpr, SymState)>, x: (SymExpr, SymState))
    ensures
        values_in(*final(v)) == values_in(*old(v)).push((x.0@, x.1@)),
{
    v.push_back(x)
}

/// `im::Vector::pop_front`: the first element leaves the list, if there is one.
#[verifier::external_body]
pub(crate) fn pop_value(v: &mut im::Vector<(SymExpr, SymState)>) -> (r: Option<(SymExpr, SymState)>)
    ensures
        match r {
            Some(x) => values_in(*old(v)).len() > 0 && (x.0@, x.1@) == values_in(*old(v))[0]
                && values_in(*final(v)) == values_in(*old(v)).drop_first(),
            None => values_in(*old(v)).len() == 0 && *final(v) == *old(v),
        },
{
    v.pop_front()
}

/// `im::Vector::len`: the number of elements.
#[verifier::external_body]
pub(crate) fn value_count(v: &im::Vector<(SymExpr, SymState)>) -> (r: usize)
    ensures
        r == values_in(*v).len(),
{
    v.len()
}

/// The outcomes of a statement that a list holds.
pub uninterp spec fn outcomes_in(v: im::Vector<(Option<SymExpr>, SymState)>) -> Seq<OutcomeV>;

/// No outcomes of a statement.
pub open spec fn no_outcomes() -> Seq<OutcomeV> {
    Seq::empty()
}

/// `im::Vector::new`: the new list is empty.
#[verifier::external_body]
pub(crate) fn new_outcomes() -> (r: im::Vector<(Option<SymExpr>, SymState)>)
    ensures
        outcomes_in(r) == no_outcomes(),
{
    im::Vector::new()
}

/// `im::Vector::push_back`: the list gets one more element at its end.
#[verifier::external_body]
pub(crate) fn push_outcome(v: &mut im::Vector<(Option<SymExpr>, SymState)>, x: (Option<SymExpr>, SymState))
    ensures
        outcomes_in(*final(v)) == outcomes_in(*old(v)).push((some_view(x.0), x.1@)),
{
    v.push_back(x)
}

/// `im::Vector::pop_front`: the first element leaves the list, if there is one.
#[verifier::external_body]
pub(crate) fn pop_outcome(v: &mut im::Vector<(Option<SymExpr>, SymState)>) -> (r: Option<(Option<SymExpr>, SymState)>)
    ensures
        match r {
            Some(x) => outcomes_in(*old(v)).len() > 0 && (some_view(x.0), x.1@) == outcomes_in(*old(v))[0]
                && outcomes_in(*final(v)) == outcomes_in(*old(v)).drop_first(),
            None => outcomes_in(*old(v)).len() == 0 && *final(v) == *old(v),
        },
{
    v.pop_front()
}

/// `im::Vector::len`: the number of elements.
#[verifier::external_body]
pub(crate) fn outcome_count(v: &im::Vector<(Option<SymExpr>, SymState)>) -> (r: usize)
    ensures
        r == outcomes_in(*v).len(),
{
    v.len()
}

/// The states that a list holds.
pub uninterp spec fn states_in(v: im::Vector<SymState>) -> Seq<StateV>;

/// No states.
pub open spec fn no_states() -> Seq<StateV> {
    Seq::empty()
}

/// `im::Vector::new`: the new list is empty.
#[verifier::external_body]
pub(crate) fn new_states() -> (r: im::Vector<SymState>)
    ensures
        states_in(r) == no_states(),
{
    im::Vector::new()
}

/// `im::Vector::push_back`: the list gets one more element at its end.
#[verifier::external_body]
pub(crate) fn push_state(v: &mut im::Vector<SymState>, x: SymState)
    ensures
        states_in(*final(v)) == states_in(*old(v)).push(x@),
{
    v.push_back(x)
}

/// `im::Vector::pop_front`: the first element leaves the list, if there is one.
#[verifier::external_body]
pub(crate) fn pop_state(v: &mut im::Vector<SymState>) -> (r: Option<SymState>)
    ensures
        match r {
            Some(x) => states_in(*old(v)).len() > 0 && x@ == states_in(*old(v))[0]
                && states_in(*final(v)) == states_in(*old(v)).drop_first(),
            None => states_in(*old(v)).len() == 0 && *final(v) == *old(v),
        },
{
    v.pop_front()
}

/// `im::Vector::len`: the number of elements.
#[verifier::external_body]
pub(crate) fn state_count(v: &im::Vector<SymState>) -> (r: usize)
    ensures
        r == states_in(*v).len(),
{
    v.len()
}

/// `im::Vector::append`: the elements of the second list follow those of the first.
#[verifier::external_body]
pub(crate) fn append_outcomes(
    a: &mut im::Vector<(Option<SymExpr>, SymState)>,
    b: im::Vector<(Option<SymExpr>, SymState)>,
)
    ensures
        outcomes_in(*final(a)) == outcomes_in(*old(a)) + outcomes_in(b),
{
    a.append(b)
}

/// A list of one value.
pub(crate) fn one_value(v: SymExpr, s: SymState) -> (r: im::Vector<(SymExpr, SymState)>)
    ensures
        values_in(r) == seq![(v@, s@)],
{
    let mut out = new_values();
    push_value(&mut out, (v, s));
    out
}

/// A list of one outcome without a return value.
pub(crate) fn one_outcome(s: SymState) -> (r: im::Vector<(Option<SymExpr>, SymState)>)
    ensures
        outcomes_in(r) == seq![(None::<Term>, s@)],
{
    let mut out = new_outcomes();
    push_outcome(&mut out, (None, s));
    out
}

/// A list of one state.
pub(crate) fn one_state(s: SymState) -> (r: im::Vector<SymState>)
    ensures
        states_in(r) == seq![s@],
{
    let mut out = new_states();
    push_state(&mut out, s);
    out
}

/// The one value in a list.
pub open spec fn only(vs: Seq<ValueStepV>) -> Result<ValueStepV, ExecError> {
    if vs.len() == 1 {
        Ok(vs[0])
    } else {
        Err(ExecError::NotSingle)
    }
}

/// The outcome of an evaluation.
pub open spec fn values_step(r: Result<Values, ExecError>) -> Result<Seq<ValueStepV>, ExecError> {
    match r {
        Ok(v) => Ok(values_in(v)),
        Err(x) => Err(x),
    }
}

/// The outcome of an execution.
pub open spec fn outcomes_step(r: Result<Outcomes, ExecError>) -> Result<
    Seq<OutcomeV>,
    ExecError,
> {
    match r {
        Ok(v) => Ok(outcomes_in(v)),
        Err(x) => Err(x),
    }
}

/// The outcome of a part of a list of statements.
pub open spec fn flow_step(r: Result<(Outcomes, States), ExecError>) -> Result<
    (Seq<OutcomeV>, Seq<StateV>),
    ExecError,
> {
    match r {
        Ok((o, n)) => Ok((outcomes_in(o), states_in(n))),
        Err(x) => Err(x),
    }
}

/// The outcome of an operation that yields one value.
pub open spec fn term_step(r: Result<(SymExpr, SymState), ExecError>) -> Result<
    ValueStepV,
    ExecError,
> {
    match r {
        Ok((v, s)) => Ok((v@, s@)),
        Err(x) => Err(x),
    }
}

/// Helper to enforce single-result evaluations.
pub(crate) fn expect_single(vals: im::Vector<(SymExpr, SymState)>) -> (r: Result<
    (SymExpr, SymState),
    ExecError,
>)
    ensures
        term_step(r) == only(values_in(vals)),
{
    if value_count(&vals) != 1 {
        return Err(ExecError::NotSingle);
    }
    let mut rest = vals;
    match pop_value(&mut rest) {
        Some(x) => Ok(x),
        None => Err(ExecError::NotSingle),
    }
}

} // verus!
