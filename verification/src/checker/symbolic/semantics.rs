//! What it means to execute a program symbolically.

use vstd::prelude::*;
use crate::ast::{BinOp, ExprV, FuncV, LValueV, ParamV, StmtV, TypeV};
use crate::checker::symbolic::builtins::{
    both_nonzero, bounds_of, condition, is_builtin_function,
};
use crate::checker::symbolic::context::{
    builtin_const_value, lookup, map_pair, MemoryEventKind, PathKind,
};
use crate::checker::symbolic::error::ExecError;
use crate::checker::symbolic::expr::{as_int_term, disj, Formula, SymType, Term};
use crate::checker::symbolic::index::index_of;
use crate::checker::symbolic::place::{
    assigned, loaded, read_of, scalar_node, stored, PlaceV,
};
use crate::checker::symbolic::results::{only, OutcomeV, ValueStepV};
use crate::checker::symbolic::state::{ExecStatus, StateV};
use crate::checker::symbolic::state_ops::in_range;
use crate::checker::symbolic::store::{node_at, scalar_at, NodeV};
use crate::text::{decimal, lower};

verus! {

/// Where a list of statements stands.
#[derive(Clone, Copy, Debug, PartialEq, Eq, Structural)]
pub enum Flow {
    /// The body of a function.
    Function,
    /// A branch of a conditional.
    Branch,
    /// The body of a loop.
    Loop,
}

impl StateV {
    /// The next statement is executed in this state.
    pub open spec fn active(self) -> bool {
        self.status == ExecStatus::Step && !self.unsat
    }

    /// Control leaves the current list of statements in this state.
    pub open spec fn terminal(self) -> bool {
        self.status != ExecStatus::Step
    }

    /// The state with a status.
    pub open spec fn in_status(self, status: ExecStatus) -> StateV {
        StateV { status, ..self }
    }

    /// The value of a name.
    #[verifier::opaque]
    pub open spec fn path_value(self, segments: Seq<Seq<char>>, ref_id: Option<i64>) -> Result<
        Term,
        ExecError,
    > {
        match scalar_at(self.store, ref_id) {
            Err(x) => Err(x),
            Ok(Some(v)) => Ok(v.surface),
            Ok(None) => match ref_id {
                Some(id) => match lookup(self.ctx.const_ints, id) {
                    Some(k) => Ok(Term::Int(k as int)),
                    None => match self.ctx.declared(id) {
                        Some(ty) => Ok(
                            Term::Var(
                                if segments.len() > 0 {
                                    segments.last()
                                } else {
                                    "tmp"@
                                },
                                self.sort_or_field(ty),
                            ),
                        ),
                        None => Err(ExecError::NoStaticType),
                    },
                },
                None => if segments.len() > 0 {
                    match builtin_const_value(segments.last()) {
                        Some((t, _)) => Ok(t),
                        None => Err(ExecError::UnresolvedPath),
                    }
                } else {
                    Err(ExecError::UnresolvedPath)
                },
            },
        }
    }

    /// The value of a field of a struct.
    #[verifier::opaque]
    pub open spec fn field_value(self, base: ExprV, name: Seq<char>) -> Result<Term, ExecError> {
        match self.expr_type(base) {
            Err(x) => Err(x),
            Ok(Some(TypeV::Path { ref_id: Some(sid), .. })) => match self.ctx.field(sid, name) {
                None => Err(ExecError::UnknownField),
                Some(fid) => match self.expr_node(base) {
                    Err(x) => Err(x),
                    Ok(None) => Err(ExecError::UnboundVariable),
                    Ok(Some(NodeV::Struct { fields })) => match lookup(fields, fid as int) {
                        None => Err(ExecError::FieldNotMaterialized),
                        Some(NodeV::Scalar(v)) => Ok(v.surface),
                        Some(_) => Err(ExecError::NotAScalar),
                    },
                    Ok(Some(_)) => Err(ExecError::FieldOnNonStruct),
                },
            },
            Ok(_) => Err(ExecError::FieldOnNonStruct),
        }
    }

    /// The value of an element of an array.
    #[verifier::opaque]
    pub open spec fn index_value(self, base: ExprV, idx: ExprV) -> Result<Term, ExecError> {
        match index_of(self.ctx, Some(self.store), idx) {
            Err(x) => Err(x),
            Ok(None) => Err(ExecError::IndexNotConcrete),
            Ok(Some(i)) => match self.expr_node(base) {
                Err(x) => Err(x),
                Ok(None) => Err(ExecError::UnboundVariable),
                Ok(Some(NodeV::Array { elems, .. })) => match lookup(elems, i as int) {
                    None => Err(ExecError::ElementNotMaterialized),
                    Some(NodeV::Scalar(v)) => Ok(v.surface),
                    Some(_) => Err(ExecError::NotAScalar),
                },
                Ok(Some(_)) => Err(ExecError::IndexOnNonArray),
            },
        }
    }

    /// The types of the pair that an access to a map yields.
    #[verifier::opaque]
    pub open spec fn map_types(self, base: ExprV) -> Result<(TypeV, TypeV), ExecError> {
        match base {
            ExprV::Path { ref_id: Some(vid), .. } => match self.ctx.declared(vid) {
                Some(TypeV::Mapping { timestamp, value, .. }) => Ok(map_pair(*timestamp, *value)),
                _ => Err(ExecError::NotAMap),
            },
            _ => Err(ExecError::NotAMap),
        }
    }

    /// The previous clock and the value of a map at a clock and an address: those of an earlier
    /// access, or fresh ones, which are recorded.
    #[verifier::opaque]
    pub open spec fn map_access(
        self,
        base: ExprV,
        types: (TypeV, TypeV),
        clk: Term,
        addr: Term,
    ) -> Result<(Term, Term, StateV), ExecError> {
        let id = path_id(base);
        let repr = path_key(base);
        match self.map_read(id, repr, clk, addr) {
            Some((prev, val)) => Ok((prev, val, self)),
            None => match (self.ctx.sort_of(types.0), self.ctx.sort_of(types.1)) {
                (Some(ts), Some(vs)) => match self.fresh_var("map_clk_prev"@, ts) {
                    Err(x) => Err(x),
                    Ok((prev, s1)) => match s1.fresh_var("map_val"@, vs) {
                        Err(x) => Err(x),
                        Ok((val, s2)) => Ok(
                            (
                                prev,
                                val,
                                s2.with_event(MemoryEventKind::Send, prev, addr, val).with_event(
                                    MemoryEventKind::Receive,
                                    clk,
                                    addr,
                                    val,
                                ).with_map_read(id, repr, clk, addr, prev, val),
                            ),
                        ),
                    },
                },
                _ => Err(ExecError::UnmappableType),
            },
        }
    }
}

/// The binding that a name refers to.
pub open spec fn path_id(e: ExprV) -> Option<i64> {
    match e {
        ExprV::Path { ref_id, .. } => ref_id,
        _ => None,
    }
}

/// A text that tells names apart: each segment behind its length.
pub open spec fn segments_key(segments: Seq<Seq<char>>) -> Seq<char>
    decreases segments.len(),
{
    if segments.len() == 0 {
        seq![]
    } else {
        segments_key(segments.drop_last()) + decimal(segments.last().len()) + ":"@
            + segments.last()
    }
}

/// A text that tells names apart.
#[verifier::opaque]
pub open spec fn path_key(e: ExprV) -> Seq<char> {
    match e {
        ExprV::Path { segments, .. } => segments_key(segments),
        _ => seq![],
    }
}

/// The part of a pair that a projection selects.
#[verifier::opaque]
pub open spec fn projected(name: Seq<char>, prev: Term, val: Term) -> Result<Term, ExecError> {
    if name == "clk_prev"@ || name == "0"@ {
        Ok(prev)
    } else if name == "value"@ || name == "1"@ {
        Ok(val)
    } else {
        Err(ExecError::UnknownProjection)
    }
}

/// What expressions and statements do.
pub struct InterpV {
    pub eval: spec_fn(ExprV, StateV) -> Result<Seq<ValueStepV>, ExecError>,
    pub run: spec_fn(StmtV, StateV) -> Result<Seq<OutcomeV>, ExecError>,
}

/// What expressions and statements do when they and the calls they make are nested at most `n`
/// deep.
#[verifier::opaque]
pub open spec fn interp(n: nat) -> InterpV
    decreases n,
{
    InterpV {
        eval: |e: ExprV, st: StateV|
            if n == 0 {
                Err(ExecError::TooDeep)
            } else {
                eval_of(e, st, interp((n - 1) as nat))
            },
        run: |s: StmtV, st: StateV|
            if n == 0 {
                Err(ExecError::TooDeep)
            } else {
                exec_of(s, st, interp((n - 1) as nat))
            },
    }
}

/// What expressions do is given by what their parts do one level below.
pub proof fn interp_eval(n: nat, e: ExprV, st: StateV)
    ensures
        (interp(n).eval)(e, st) == if n == 0 {
            Err::<Seq<ValueStepV>, ExecError>(ExecError::TooDeep)
        } else {
            eval_of(e, st, interp((n - 1) as nat))
        },
{
    reveal(interp);
}

/// What statements do is given by what their parts do one level below.
pub proof fn interp_exec(n: nat, s: StmtV, st: StateV)
    ensures
        (interp(n).run)(s, st) == if n == 0 {
            Err::<Seq<OutcomeV>, ExecError>(ExecError::TooDeep)
        } else {
            exec_of(s, st, interp((n - 1) as nat))
        },
{
    reveal(interp);
}

/// A single value in an unchanged state.
pub open spec fn unchanged(r: Result<Term, ExecError>, st: StateV) -> Result<
    Seq<ValueStepV>,
    ExecError,
> {
    match r {
        Err(x) => Err(x),
        Ok(t) => Ok(seq![(t, st)]),
    }
}

/// A left operand combined with each right operand, behind `acc`.
#[verifier::opaque]
pub open spec fn combine_each(
    op: BinOp,
    modded: bool,
    l: Term,
    rs: Seq<ValueStepV>,
    acc: Seq<ValueStepV>,
) -> Result<Seq<ValueStepV>, ExecError>
    decreases rs.len(),
{
    if rs.len() == 0 {
        Ok(acc)
    } else {
        match rs[0].1.combined(op, modded, l, rs[0].0) {
            Err(x) => Err(x),
            Ok(t) => combine_each(op, modded, l, rs.drop_first(), acc.push((t, rs[0].1))),
        }
    }
}

/// The states as outcomes without a return value, behind `acc`.
#[verifier::opaque]
pub open spec fn finished(live: Seq<StateV>, acc: Seq<OutcomeV>) -> Seq<OutcomeV>
    decreases live.len(),
{
    if live.len() == 0 {
        acc
    } else {
        finished(live.drop_first(), acc.push((None, live[0])))
    }
}

/// Outcomes split into those that leave the list of statements, behind `outs`, and the states
/// that go on, behind `next`.
#[verifier::opaque]
pub open spec fn routed(
    flow: Flow,
    rs: Seq<OutcomeV>,
    outs: Seq<OutcomeV>,
    next: Seq<StateV>,
) -> (Seq<OutcomeV>, Seq<StateV>)
    decreases rs.len(),
{
    if rs.len() == 0 {
        (outs, next)
    } else if flow == Flow::Loop && rs[0].0 is Some {
        routed(
            flow,
            rs.drop_first(),
            outs.push((rs[0].0, rs[0].1.in_status(ExecStatus::Return))),
            next,
        )
    } else if rs[0].1.terminal() {
        routed(flow, rs.drop_first(), outs.push(rs[0]), next)
    } else {
        routed(flow, rs.drop_first(), outs, next.push(rs[0].1))
    }
}

/// The caller's state after a call: the receiver, if there is one, is written back.
#[verifier::opaque]
pub open spec fn after_call(s: StateV, receiver: Option<(PlaceV, i64)>) -> Result<StateV, ExecError> {
    match receiver {
        None => Ok(s.in_status(ExecStatus::Step)),
        Some((place, vid)) => match node_at(s.store, Some(vid)) {
            None => Err(ExecError::UnboundVariable),
            Some(node) => match stored(s.store, place, node) {
                Err(x) => Err(x),
                Ok(store) => Ok(StateV { store, status: ExecStatus::Step, ..s }),
            },
        },
    }
}

/// The outcomes of a call with the receiver written back, behind `acc`.
#[verifier::opaque]
pub open spec fn written_back(
    rs: Seq<OutcomeV>,
    receiver: Option<(PlaceV, i64)>,
    acc: Seq<OutcomeV>,
) -> Result<Seq<OutcomeV>, ExecError>
    decreases rs.len(),
{
    if rs.len() == 0 {
        Ok(acc)
    } else {
        match after_call(rs[0].1, receiver) {
            Err(x) => Err(x),
            Ok(s) => written_back(rs.drop_first(), receiver, acc.push((rs[0].0, s))),
        }
    }
}

/// The values that calls return, behind `acc`.
#[verifier::opaque]
pub open spec fn returned(rs: Seq<OutcomeV>, acc: Seq<ValueStepV>) -> Result<
    Seq<ValueStepV>,
    ExecError,
>
    decreases rs.len(),
{
    if rs.len() == 0 {
        Ok(acc)
    } else {
        match rs[0].0 {
            None => Err(ExecError::VoidValue),
            Some(v) => returned(rs.drop_first(), acc.push((v, rs[0].1))),
        }
    }
}

/// The states after calls, as outcomes without a return value, behind `acc`.
#[verifier::opaque]
pub open spec fn discarded(rs: Seq<OutcomeV>, acc: Seq<OutcomeV>) -> Seq<OutcomeV>
    decreases rs.len(),
{
    if rs.len() == 0 {
        acc
    } else {
        discarded(rs.drop_first(), acc.push((None, rs[0].1)))
    }
}

/// The states after evaluations, as outcomes without a return value, behind `acc`.
#[verifier::opaque]
pub open spec fn dropped(rs: Seq<ValueStepV>, acc: Seq<OutcomeV>) -> Seq<OutcomeV>
    decreases rs.len(),
{
    if rs.len() == 0 {
        acc
    } else {
        dropped(rs.drop_first(), acc.push((None, rs[0].1)))
    }
}

/// The states in which each value lies in an interval, behind `acc`.
#[verifier::opaque]
pub open spec fn ranged(rs: Seq<ValueStepV>, min: int, max: int, bits: usize, acc: Seq<OutcomeV>) -> Seq<
    OutcomeV,
>
    decreases rs.len(),
{
    if rs.len() == 0 {
        acc
    } else {
        ranged(
            rs.drop_first(),
            min,
            max,
            bits,
            acc.push((None, rs[0].1.with_cond(in_range(rs[0].0, min, max, bits)))),
        )
    }
}

/// The states in which a variable has each value, behind `acc`.
#[verifier::opaque]
pub open spec fn declared_all(rs: Seq<ValueStepV>, vid: i64, ty: TypeV, acc: Seq<OutcomeV>) -> Result<
    Seq<OutcomeV>,
    ExecError,
>
    decreases rs.len(),
{
    if rs.len() == 0 {
        Ok(acc)
    } else if !rs[0].1.ctx.scalar(ty) {
        Err(ExecError::NonScalarVariable)
    } else {
        declared_all(
            rs.drop_first(),
            vid,
            ty,
            acc.push((None, rs[0].1.with_binding(vid, scalar_node(rs[0].0)))),
        )
    }
}

/// The values that a return statement yields, behind `acc`.
#[verifier::opaque]
pub open spec fn returning(rs: Seq<ValueStepV>, acc: Seq<OutcomeV>) -> Seq<OutcomeV>
    decreases rs.len(),
{
    if rs.len() == 0 {
        acc
    } else {
        returning(
            rs.drop_first(),
            acc.push((Some(rs[0].0), rs[0].1.in_status(ExecStatus::Return))),
        )
    }
}

/// The states after `target = target & value` for each value, behind `acc`.
#[verifier::opaque]
pub open spec fn conjoined(
    target: LValueV,
    cur: Term,
    rs: Seq<ValueStepV>,
    acc: Seq<OutcomeV>,
) -> Result<Seq<OutcomeV>, ExecError>
    decreases rs.len(),
{
    if rs.len() == 0 {
        Ok(acc)
    } else {
        let s = rs[0].1;
        match assigned(s.ctx, s.store, target, as_int_term(both_nonzero(cur, rs[0].0))) {
            Err(x) => Err(x),
            Ok(store) => conjoined(
                target,
                cur,
                rs.drop_first(),
                acc.push((None, StateV { store, ..s })),
            ),
        }
    }
}

/// The last two values of a list are bytes.
pub open spec fn with_bytes(st: StateV, vals: Seq<Term>) -> StateV {
    st.with_cond(in_range(vals[vals.len() - 2], 0, 255, 8)).with_cond(
        in_range(vals[vals.len() - 1], 0, 255, 8),
    )
}

/// The state after a lookup in the byte table.
#[verifier::opaque]
pub open spec fn byte_lookup(st: StateV, opcode: Term, vals: Seq<Term>) -> Result<StateV, ExecError> {
    match opcode {
        Term::Int(k) => if k == 0 {
            if vals.len() < 2 {
                Err(ExecError::LookupArity)
            } else {
                Ok(with_bytes(st, vals))
            }
        } else if k == 1 {
            if vals.len() < 3 {
                Err(ExecError::LookupArity)
            } else {
                st.with_byte_and(vals[0], vals[1], vals[2])
            }
        } else {
            Err(ExecError::UnsupportedOpcode)
        },
        _ => Err(ExecError::OpcodeNotConcrete),
    }
}

/// The outcome of a state as a list.
pub open spec fn continuing(r: Result<StateV, ExecError>) -> Result<Seq<OutcomeV>, ExecError> {
    match r {
        Err(x) => Err(x),
        Ok(s) => Ok(seq![(None::<Term>, s)]),
    }
}

/// An expression that can be asserted as a condition.
pub open spec fn is_condition(e: ExprV) -> bool {
    match e {
        ExprV::Bool(_) => true,
        ExprV::Binary { op, .. } => match op {
            BinOp::Eq | BinOp::Ne | BinOp::Lt | BinOp::Le | BinOp::Gt | BinOp::Ge | BinOp::And
            | BinOp::Or => true,
            _ => false,
        },
        _ => false,
    }
}

/// The values of an expression, given what its parts do.
#[verifier::opaque]
pub open spec fn eval_of(e: ExprV, st: StateV, m: InterpV) -> Result<Seq<ValueStepV>, ExecError>
{
    match e {
        ExprV::Int(k) => Ok(seq![(Term::Int(k as int), st)]),
        ExprV::Bool(b) => Ok(seq![(as_int_term(Formula::Bool(b)), st)]),
        ExprV::Paren(inner) => (m.eval)(*inner, st),
        ExprV::Path { segments, ref_id } => unchanged(st.path_value(segments, ref_id), st),
        ExprV::Field { base, name, .. } => match *base {
            ExprV::MapIndex { .. } => match map_pair_of(*base, st, m) {
                Err(x) => Err(x),
                Ok((prev, val, s)) => unchanged(projected(name, prev, val), s),
            },
            _ => unchanged(st.field_value(*base, name), st),
        },
        ExprV::Index(base, idx) => unchanged(st.index_value(*base, *idx), st),
        ExprV::MapIndex { .. } => Err(ExecError::MapNeedsProjection),
        ExprV::Binary { op, lhs, rhs } => match st.needs_mod(e) {
            Err(x) => Err(x),
            Ok(modded) => match (m.eval)(*lhs, st) {
                Err(x) => Err(x),
                Ok(ls) => if ls.len() == 0 {
                    Err(ExecError::NoValue)
                } else {
                    binary_of(op, modded, ls, *rhs, m, seq![])
                },
            },
        },
        ExprV::Call(_, _) => match builtin_of(e, st, m) {
            Err(x) => Err(x),
            Ok(Some(rs)) => Ok(rs),
            Ok(None) => match call_of(e, st, m) {
                Err(x) => Err(x),
                Ok(rs) => returned(rs, seq![]),
            },
        },
    }
}

/// The previous clock and the value that a map access yields.
#[verifier::opaque]
pub open spec fn map_pair_of(e: ExprV, st: StateV, m: InterpV) -> Result<
    (Term, Term, StateV),
    ExecError,
>
{
    match e {
        ExprV::MapIndex { base, keys } => if keys.len() != 2 {
            Err(ExecError::MapArity)
        } else {
            match single((m.eval)(*base, st)) {
                Err(x) => Err(x),
                Ok((_, s0)) => match s0.map_types(*base) {
                    Err(x) => Err(x),
                    Ok(types) => match single((m.eval)(keys[0], s0)) {
                        Err(x) => Err(x),
                        Ok((clk, s1)) => match single((m.eval)(keys[1], s1)) {
                            Err(x) => Err(x),
                            Ok((addr, s2)) => s2.map_access(*base, types, clk, addr),
                        },
                    },
                },
            }
        },
        _ => Err(ExecError::NotAMap),
    }
}

/// The one value that an evaluation yields.
pub open spec fn single(r: Result<Seq<ValueStepV>, ExecError>) -> Result<ValueStepV, ExecError> {
    match r {
        Err(x) => Err(x),
        Ok(vs) => only(vs),
    }
}

/// The values of a binary operation for each left operand, behind `acc`.
#[verifier::opaque]
pub open spec fn binary_of(
    op: BinOp,
    modded: bool,
    ls: Seq<ValueStepV>,
    rhs: ExprV,
    m: InterpV,
    acc: Seq<ValueStepV>,
) -> Result<Seq<ValueStepV>, ExecError>
    decreases ls.len(),
{
    if ls.len() == 0 {
        Ok(acc)
    } else {
        match (m.eval)(rhs, ls[0].1) {
            Err(x) => Err(x),
            Ok(rs) => if rs.len() == 0 {
                Err(ExecError::NoValue)
            } else {
                match combine_each(op, modded, ls[0].0, rs, acc) {
                    Err(x) => Err(x),
                    Ok(acc2) => binary_of(op, modded, ls.drop_first(), rhs, m, acc2),
                }
            },
        }
    }
}

/// The values of the expressions from `i` on, one after the other, behind `vals`.
#[verifier::opaque]
pub open spec fn eval_all(args: Seq<ExprV>, i: int, st: StateV, m: InterpV, vals: Seq<Term>) -> Result<
    (Seq<Term>, StateV),
    ExecError,
>
    decreases args.len() - i,
{
    if i < 0 || i >= args.len() {
        Ok((vals, st))
    } else {
        match single((m.eval)(args[i], st)) {
            Err(x) => Err(x),
            Ok((v, s)) => eval_all(args, i + 1, s, m, vals.push(v)),
        }
    }
}

/// The values of a call of a built-in function or method; nothing for other calls.
#[verifier::opaque]
pub open spec fn builtin_of(e: ExprV, st: StateV, m: InterpV) -> Result<
    Option<Seq<ValueStepV>>,
    ExecError,
>
{
    match e {
        ExprV::Call(callee, args) => match *callee {
            ExprV::Field { base, name, .. } => match st.expr_type(*base) {
                Err(x) => Err(x),
                Ok(Some(ty)) => if st.ctx.classify(ty) == Ok::<
                    PathKind,
                    crate::checker::symbolic::context::ClassifyError,
                >(PathKind::Builtin) {
                    match eval_all(args, 0, st, m, seq![]) {
                        Err(x) => Err(x),
                        Ok((vals, s1)) => match single((m.eval)(*base, s1)) {
                            Err(x) => Err(x),
                            Ok((recv, s2)) => match method_value(ty, name, recv, vals, s2) {
                                Err(x) => Err(x),
                                Ok(v) => Ok(Some(seq![v])),
                            },
                        },
                    }
                } else {
                    Ok(None)
                },
                Ok(None) => Ok(None),
            },
            ExprV::Path { segments, .. } => if segments.len() > 0 && is_builtin_function(
                segments.last(),
            ) {
                match eval_all(args, 0, st, m, seq![]) {
                    Err(x) => Err(x),
                    Ok((vals, s1)) => match s1.builtin_value(segments.last(), args, vals) {
                        Err(x) => Err(x),
                        Ok(v) => Ok(Some(seq![v])),
                    },
                }
            } else {
                Ok(None)
            },
            _ => Ok(None),
        },
        _ => Ok(None),
    }
}

/// The value of a built-in method.
#[verifier::opaque]
pub open spec fn method_value(
    ty: TypeV,
    name: Seq<char>,
    recv: Term,
    vals: Seq<Term>,
    st: StateV,
) -> Result<ValueStepV, ExecError> {
    if vals.len() != 0 {
        Err(ExecError::BuiltinArity)
    } else {
        match st.ctx.sort_of(ty) {
            None => Err(ExecError::UnmappableType),
            Some(sty) => if sty == SymType::F && name == "inverse"@ {
                st.inverse_of(recv)
            } else {
                Err(ExecError::UnsupportedBuiltin)
            },
        }
    }
}

/// The state of a callee with the parameters from `p` on bound to the arguments from `a` on, and
/// the receiver with its binding.
#[verifier::opaque]
pub open spec fn bind_args(
    params: Seq<ParamV>,
    p: int,
    args: Seq<ExprV>,
    a: int,
    place: Option<PlaceV>,
    receiver: Option<(PlaceV, i64)>,
    st: StateV,
    m: InterpV,
) -> Result<(StateV, int, Option<(PlaceV, i64)>), ExecError>
    decreases params.len() - p,
{
    if p < 0 || p >= params.len() {
        Ok((st, a, receiver))
    } else {
        match params[p] {
            ParamV::SelfParam { id } => match (id, place) {
                (None, _) => Err(ExecError::UnresolvedId),
                (_, None) => Err(ExecError::NoReceiver),
                (Some(vid), Some(at)) => match loaded(st.store, at) {
                    Err(x) => Err(x),
                    Ok(node) => bind_args(
                        params,
                        p + 1,
                        args,
                        a,
                        place,
                        Some((at, vid)),
                        st.with_binding(vid, node),
                        m,
                    ),
                },
            },
            ParamV::Typed { id, ty, .. } => match id {
                None => Err(ExecError::UnresolvedId),
                Some(vid) => if a < 0 || a >= args.len() {
                    Err(ExecError::TooFewArguments)
                } else if st.ctx.scalar(ty) {
                    match single((m.eval)(args[a], st)) {
                        Err(x) => Err(x),
                        Ok((v, s)) => bind_args(
                            params,
                            p + 1,
                            args,
                            a + 1,
                            place,
                            receiver,
                            s.with_binding(vid, scalar_node(v)),
                            m,
                        ),
                    }
                } else {
                    match st.expr_node(args[a]) {
                        Err(x) => Err(x),
                        Ok(None) => Err(ExecError::ArgumentNotAPlace),
                        Ok(Some(node)) => bind_args(
                            params,
                            p + 1,
                            args,
                            a + 1,
                            place,
                            receiver,
                            st.with_binding(vid, node),
                            m,
                        ),
                    }
                },
            },
        }
    }
}

/// The outcomes of a call of a function or a method of the program.
#[verifier::opaque]
pub open spec fn call_of(e: ExprV, st: StateV, m: InterpV) -> Result<Seq<OutcomeV>, ExecError>
{
    match e {
        ExprV::Call(callee, args) => match st.callee_of(*callee) {
            Err(x) => Err(x),
            Ok((fid, place)) => match lookup(st.ctx.funcs, fid) {
                None => Err(ExecError::MissingFunction),
                Some(func) => match bind_args(
                    func.params,
                    0,
                    args,
                    0,
                    place,
                    None,
                    st.in_status(ExecStatus::Step),
                    m,
                ) {
                    Err(x) => Err(x),
                    Ok((s, used, receiver)) => if used < args.len() {
                        Err(ExecError::TooManyArguments)
                    } else {
                        match run_of(func, s, m) {
                            Err(x) => Err(x),
                            Ok(rs) => if rs.len() == 0 {
                                Err(ExecError::NoSuccessor)
                            } else {
                                written_back(rs, receiver, seq![])
                            },
                        }
                    },
                },
            },
        },
        _ => Err(ExecError::UnsupportedCallee),
    }
}

/// The outcomes of the body of a function.
#[verifier::opaque]
pub open spec fn run_of(func: FuncV, st: StateV, m: InterpV) -> Result<Seq<OutcomeV>, ExecError>
{
    match block_of(Flow::Function, func.body, 0, seq![st], seq![], m) {
        Err(x) => Err(x),
        Ok((outs, live)) => Ok(finished(live, outs)),
    }
}

/// What the statements from `i` on make of the live states: the outcomes that leave the list,
/// behind `outs`, and the states that reach its end.
#[verifier::opaque]
pub open spec fn block_of(
    flow: Flow,
    body: Seq<StmtV>,
    i: int,
    live: Seq<StateV>,
    outs: Seq<OutcomeV>,
    m: InterpV,
) -> Result<(Seq<OutcomeV>, Seq<StateV>), ExecError>
    decreases body.len() - i,
{
    if i < 0 || i >= body.len() || live.len() == 0 {
        Ok((outs, live))
    } else {
        match step_of(flow, body[i], live, outs, seq![], m) {
            Err(x) => Err(x),
            Ok((outs2, next)) => block_of(flow, body, i + 1, next, outs2, m),
        }
    }
}

/// What a statement makes of the live states: the outcomes that leave the list, behind `outs`,
/// and the states that go on, behind `next`.
#[verifier::opaque]
pub open spec fn step_of(
    flow: Flow,
    s: StmtV,
    live: Seq<StateV>,
    outs: Seq<OutcomeV>,
    next: Seq<StateV>,
    m: InterpV,
) -> Result<(Seq<OutcomeV>, Seq<StateV>), ExecError>
    decreases live.len(),
{
    if live.len() == 0 {
        Ok((outs, next))
    } else if flow != Flow::Function && !live[0].active() {
        step_of(flow, s, live.drop_first(), outs, next.push(live[0]), m)
    } else {
        match (m.run)(s, live[0]) {
            Err(x) => Err(x),
            Ok(rs) => if flow != Flow::Function && rs.len() == 0 {
                Err(ExecError::NoSuccessor)
            } else {
                let (outs2, next2) = routed(flow, rs, outs, next);
                step_of(flow, s, live.drop_first(), outs2, next2, m)
            },
        }
    }
}

/// The condition that an expression states, and the state after its evaluation.
#[verifier::opaque]
pub open spec fn condition_at(e: ExprV, st: StateV, m: InterpV) -> Result<(Formula, StateV), ExecError>
    decreases e,
{
    match e {
        ExprV::Bool(b) => Ok((Formula::Bool(b), st)),
        ExprV::Paren(inner) => condition_at(*inner, st, m),
        ExprV::Binary { op, lhs, rhs } => match single((m.eval)(*lhs, st)) {
            Err(x) => Err(x),
            Ok((l, s1)) => match single((m.eval)(*rhs, s1)) {
                Err(x) => Err(x),
                Ok((r, s2)) => match condition(op, l, r) {
                    Err(x) => Err(x),
                    Ok(f) => Ok((f, s2)),
                },
            },
        },
        _ => Err(ExecError::UnsupportedCondition),
    }
}

/// The outcomes of `target = target & value` for each current value, behind `acc`.
#[verifier::opaque]
pub open spec fn and_assign_of(
    target: LValueV,
    value: ExprV,
    curs: Seq<ValueStepV>,
    m: InterpV,
    acc: Seq<OutcomeV>,
) -> Result<Seq<OutcomeV>, ExecError>
    decreases curs.len(),
{
    if curs.len() == 0 {
        Ok(acc)
    } else {
        match (m.eval)(value, curs[0].1) {
            Err(x) => Err(x),
            Ok(rs) => if rs.len() == 0 {
                Err(ExecError::NoValue)
            } else {
                match conjoined(target, curs[0].0, rs, acc) {
                    Err(x) => Err(x),
                    Ok(acc2) => and_assign_of(target, value, curs.drop_first(), m, acc2),
                }
            },
        }
    }
}

/// The outcomes of a branch of a conditional.
#[verifier::opaque]
pub open spec fn branch_of(body: Seq<StmtV>, st: StateV, m: InterpV) -> Result<Seq<OutcomeV>, ExecError>
{
    match block_of(Flow::Branch, body, 0, seq![st], seq![], m) {
        Err(x) => Err(x),
        Ok((outs, live)) => Ok(finished(live, outs)),
    }
}

/// One iteration of a loop on the live states: the outcomes that leave the loop, behind `outs`,
/// and the states that go on, behind `next`.
#[verifier::opaque]
pub open spec fn iteration_of(
    vid: i64,
    k: int,
    body: Seq<StmtV>,
    live: Seq<StateV>,
    outs: Seq<OutcomeV>,
    next: Seq<StateV>,
    m: InterpV,
) -> Result<(Seq<OutcomeV>, Seq<StateV>), ExecError>
    decreases live.len(),
{
    if live.len() == 0 {
        Ok((outs, next))
    } else if !live[0].active() {
        iteration_of(vid, k, body, live.drop_first(), outs, next.push(live[0]), m)
    } else {
        match block_of(
            Flow::Loop,
            body,
            0,
            seq![live[0].with_binding(vid, scalar_node(Term::Int(k)))],
            outs,
            m,
        ) {
            Err(x) => Err(x),
            Ok((outs2, ends)) => iteration_of(
                vid,
                k,
                body,
                live.drop_first(),
                outs2,
                next + ends,
                m,
            ),
        }
    }
}

/// The outcomes of the iterations of a loop from `k` up to `hi`.
#[verifier::opaque]
pub open spec fn loop_of(vid: i64, k: int, hi: int, body: Seq<StmtV>, live: Seq<StateV>, m: InterpV) -> Result<
    Seq<OutcomeV>,
    ExecError,
>
    decreases hi - k,
{
    if k >= hi {
        Ok(finished(live, seq![]))
    } else {
        match iteration_of(vid, k, body, live, seq![], seq![], m) {
            Err(x) => Err(x),
            Ok((outs, next)) => if outs.len() > 0 || next.len() == 0 {
                Ok(finished(next, outs))
            } else {
                loop_of(vid, k + 1, hi, body, next, m)
            },
        }
    }
}

/// The outcomes of a lookup.
#[verifier::opaque]
pub open spec fn lookup_of(
    chip: Seq<Seq<char>>,
    opcode: ExprV,
    args: Seq<ExprV>,
    st: StateV,
    m: InterpV,
) -> Result<Seq<OutcomeV>, ExecError>
{
    let name = if chip.len() > 0 {
        lower(chip.last())
    } else {
        ""@
    };
    if name == "bytechip"@ {
        if args.len() < 2 {
            Err(ExecError::LookupArity)
        } else {
            match single((m.eval)(opcode, st)) {
                Err(x) => Err(x),
                Ok((op, s1)) => if !(op is Int) {
                    Err(ExecError::OpcodeNotConcrete)
                } else {
                    match eval_all(args, 0, s1, m, seq![]) {
                        Err(x) => Err(x),
                        Ok((vals, s2)) => continuing(byte_lookup(s2, op, vals)),
                    }
                },
            }
        }
    } else {
        match lookup(st.ctx.memory_chips, lower(name)) {
            None => Err(ExecError::UnsupportedChip),
            Some(meta) => if args.len() < 3 {
                Err(ExecError::LookupArity)
            } else {
                match single((m.eval)(opcode, st)) {
                    Err(x) => Err(x),
                    Ok((op, s1)) => if !(op is Int) {
                        Err(ExecError::OpcodeNotConcrete)
                    } else {
                        match eval_all(args, 0, s1, m, seq![]) {
                            Err(x) => Err(x),
                            Ok((vals, s2)) => Ok(
                                seq![
                                    (
                                        None::<Term>,
                                        s2.with_event(meta.kind, vals[0], vals[1], vals[2]),
                                    ),
                                ],
                            ),
                        }
                    },
                }
            },
        }
    }
}

/// The outcomes of an equation.
#[verifier::opaque]
pub open spec fn assert_eq_of(a: ExprV, b: ExprV, st: StateV, m: InterpV) -> Result<
    Seq<OutcomeV>,
    ExecError,
>
{
    match single((m.eval)(a, st)) {
        Err(x) => Err(x),
        Ok((av, s1)) => match single((m.eval)(b, s1)) {
            Err(x) => Err(x),
            Ok((bv, s2)) => Ok(finished(s2.split(Formula::Eq(av, bv)), seq![])),
        },
    }
}

/// The outcomes of an asserted condition, or of the assertion that a place holds a bit.
#[verifier::opaque]
pub open spec fn assert_bool_of(e: ExprV, st: StateV, m: InterpV) -> Result<Seq<OutcomeV>, ExecError>
{
    if is_condition(e) {
        match condition_at(e, st, m) {
            Err(x) => Err(x),
            Ok((f, s1)) => Ok(seq![(None::<Term>, s1.with_cond(f))]),
        }
    } else if e is Path || e is Field || e is Index {
        match single((m.eval)(e, st)) {
            Err(x) => Err(x),
            Ok((v, s1)) => Ok(
                seq![
                    (
                        None::<Term>,
                        s1.with_cond(
                            disj(
                                seq![Formula::Eq(v, Term::Int(0)), Formula::Eq(v, Term::Int(1))],
                            ),
                        ),
                    ),
                ],
            ),
        }
    } else {
        Err(ExecError::UnsupportedCondition)
    }
}

/// The outcomes of the assertion that a value is zero.
#[verifier::opaque]
pub open spec fn assert_zero_of(e: ExprV, st: StateV, m: InterpV) -> Result<Seq<OutcomeV>, ExecError>
{
    match single((m.eval)(e, st)) {
        Err(x) => Err(x),
        Ok((v, s1)) => Ok(finished(s1.split(Formula::Eq(v, Term::Int(0))), seq![])),
    }
}

/// The outcomes of the assertion that a value is of a type.
#[verifier::opaque]
pub open spec fn assert_range_of(value: ExprV, ty: TypeV, st: StateV, m: InterpV) -> Result<
    Seq<OutcomeV>,
    ExecError,
>
{
    match st.ctx.sort_of(ty) {
        None => Err(ExecError::UnmappableType),
        Some(sty) => match (m.eval)(value, st) {
            Err(x) => Err(x),
            Ok(rs) => if rs.len() == 0 {
                Err(ExecError::NoValue)
            } else {
                match bounds_of(sty) {
                    None => Err(ExecError::UnboundedType),
                    Some((lo, hi, w)) => Ok(ranged(rs, lo, hi, w, seq![])),
                }
            },
        },
    }
}

/// The outcomes of a declaration.
#[verifier::opaque]
pub open spec fn decl_of(id: Option<i64>, ty: TypeV, init: ExprV, st: StateV, m: InterpV) -> Result<
    Seq<OutcomeV>,
    ExecError,
>
{
    match id {
        None => Err(ExecError::UnresolvedId),
        Some(vid) => if ty is Function {
            Err(ExecError::FunctionTypeNotAllowed)
        } else {
            match (m.eval)(init, st) {
                Err(x) => Err(x),
                Ok(rs) => if rs.len() == 0 {
                    Err(ExecError::NoValue)
                } else {
                    declared_all(rs, vid, ty, seq![])
                },
            }
        },
    }
}

/// The outcomes of an assignment.
#[verifier::opaque]
pub open spec fn assign_of(target: LValueV, value: ExprV, st: StateV, m: InterpV) -> Result<
    Seq<OutcomeV>,
    ExecError,
>
{
    match single((m.eval)(value, st)) {
        Err(x) => Err(x),
        Ok((v, s1)) => match assigned(s1.ctx, s1.store, target, v) {
            Err(x) => Err(x),
            Ok(store) => Ok(seq![(None::<Term>, StateV { store, ..s1 })]),
        },
    }
}

/// The outcomes of `target &= value`.
#[verifier::opaque]
pub open spec fn update_of(target: LValueV, value: ExprV, st: StateV, m: InterpV) -> Result<
    Seq<OutcomeV>,
    ExecError,
>
{
    match (m.eval)(read_of(target), st) {
        Err(x) => Err(x),
        Ok(curs) => if curs.len() == 0 {
            Err(ExecError::NoValue)
        } else {
            and_assign_of(target, value, curs, m, seq![])
        },
    }
}

/// The outcomes of a call as a statement.
#[verifier::opaque]
pub open spec fn call_stmt_of(callee: LValueV, args: Seq<ExprV>, st: StateV, m: InterpV) -> Result<
    Seq<OutcomeV>,
    ExecError,
>
{
    let e = ExprV::Call(Box::new(read_of(callee)), args);
    match builtin_of(e, st, m) {
        Err(x) => Err(x),
        Ok(Some(rs)) => Ok(dropped(rs, seq![])),
        Ok(None) => match call_of(e, st, m) {
            Err(x) => Err(x),
            Ok(rs) => Ok(discarded(rs, seq![])),
        },
    }
}

/// The outcomes of a return.
#[verifier::opaque]
pub open spec fn return_of(e: ExprV, st: StateV, m: InterpV) -> Result<Seq<OutcomeV>, ExecError>
{
    match (m.eval)(e, st) {
        Err(x) => Err(x),
        Ok(rs) => if rs.len() == 0 {
            Err(ExecError::NoValue)
        } else {
            Ok(returning(rs, seq![]))
        },
    }
}

/// The outcomes of a statement, given what its parts do.
#[verifier::opaque]
pub open spec fn exec_of(s: StmtV, st: StateV, m: InterpV) -> Result<Seq<OutcomeV>, ExecError>
{
    if !st.active() {
        Ok(seq![])
    } else {
        match s {
            StmtV::AssertEq(a, b) => assert_eq_of(a, b, st, m),
            StmtV::AssertBool(e) => assert_bool_of(e, st, m),
            StmtV::AssertZero(e) => assert_zero_of(e, st, m),
            StmtV::AssertRange { value, ty } => assert_range_of(value, ty, st, m),
            StmtV::VarDecl { id, ty, init, .. } => decl_of(id, ty, init, st, m),
            StmtV::Assign { target, value } => assign_of(target, value, st, m),
            StmtV::AndAssign { target, value } => update_of(target, value, st, m),
            StmtV::If { cond, then_branch, else_branch } => match condition_at(cond, st, m) {
                Err(x) => Err(x),
                Ok((f, s1)) => {
                    let then_start = s1.with_cond(f);
                    let else_start = s1.with_cond(Formula::Not(Box::new(f)));
                    if f == Formula::Bool(true) {
                        branch_of(then_branch, then_start, m)
                    } else if f == Formula::Bool(false) {
                        branch_of(else_branch, else_start, m)
                    } else {
                        match branch_of(then_branch, then_start, m) {
                            Err(x) => Err(x),
                            Ok(a) => match branch_of(else_branch, else_start, m) {
                                Err(x) => Err(x),
                                Ok(b) => Ok(a + b),
                            },
                        }
                    }
                },
            },
            StmtV::For { id, start, end, body, .. } => match index_of(st.ctx, None, start) {
                Err(x) => Err(x),
                Ok(None) => Err(ExecError::BoundNotConcrete),
                Ok(Some(lo)) => match index_of(st.ctx, None, end) {
                    Err(x) => Err(x),
                    Ok(None) => Err(ExecError::BoundNotConcrete),
                    Ok(Some(hi)) => if lo >= hi {
                        Ok(seq![(None::<Term>, st)])
                    } else {
                        match id {
                            None => Err(ExecError::UnresolvedId),
                            Some(vid) => loop_of(vid, lo as int, hi as int, body, seq![st], m),
                        }
                    },
                },
            },
            StmtV::Lookup { chip, opcode, args } => lookup_of(chip, opcode, args, st, m),
            StmtV::Call { callee, args } => call_stmt_of(callee, args, st, m),
            StmtV::Return(e) => return_of(e, st, m),
        }
    }
}

} // verus!
