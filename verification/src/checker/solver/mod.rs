//! Solver back ends.

use vstd::prelude::*;
use crate::checker::solver::cvc5::{cvc5_script, Cvc5ffBackend};
use crate::checker::solver::z3::{empty_z3, possible_answer, script_with, Z3NiaBackend};
use crate::checker::symbolic::expr::{BoolExpr, Formula, FIELD_MODULUS};
use crate::utils::{ConfigV, SetConfig, SolverKind};

pub mod answer_laws;
pub mod bound_laws;
pub mod cvc5;
pub mod cvc5_laws;
pub mod field;
pub mod field_laws;
pub mod meaning_laws;
pub mod model_laws;
pub mod order_laws;
pub mod reading_laws;
pub mod script_laws;
pub mod smt;
pub mod smt_laws;
pub mod z3;

verus! {

/// Why a formula has not been decided.
#[derive(Clone, Copy, Debug, PartialEq, Eq, Structural)]
pub enum SolveError {
    /// A variable used with two sorts.
    InconsistentSort,
    /// A constant that does not fit into 64 bits.
    ConstantTooLarge,
    /// A bound that does not fit into 64 bits.
    BoundTooLarge,
    /// A script that the solver cannot load.
    InvalidScript,
    /// The solver could not decide.
    Unknown,
    /// A reduction modulo anything but the field prime.
    ModUnsupported,
    /// A range of a width that cannot be decomposed into bytes.
    RangeBits,
    /// A comparison with a constant that could wrap around.
    OrderConstant,
    /// A comparison that the finite field cannot express.
    OrderUnsupported,
    /// A range that does not start at zero.
    NegativeRange,
    /// A range without a width.
    MissingBits,
    /// A range that does not end at the greatest number of its width.
    RangeBound,
    /// The supply of auxiliary variables is exhausted.
    FreshExhausted,
    /// The solver process failed.
    ProcessFailed,
    /// The solver printed no answer.
    NoVerdict,
    /// The solver is a process of its own.
    External,
}

/// Selects the SMT backend for solving.
#[derive(Debug)]
pub enum SmtBackend {
    Z3Nia,
    Cvc5Ff { cmd: String, relaxed: bool },
}

/// Mathematical model of [`SmtBackend`].
pub enum BackendV {
    Z3Nia,
    Cvc5Ff { cmd: Seq<char>, relaxed: bool },
}

impl View for SmtBackend {
    type V = BackendV;

    open spec fn view(&self) -> BackendV {
        match self {
            SmtBackend::Z3Nia => BackendV::Z3Nia,
            SmtBackend::Cvc5Ff { cmd, relaxed } => BackendV::Cvc5Ff {
                cmd: cmd@,
                relaxed: *relaxed,
            },
        }
    }
}

/// The back end that a configuration selects.
pub open spec fn selected(config: ConfigV) -> BackendV {
    match config.kind {
        SolverKind::Z3Nia => BackendV::Z3Nia,
        SolverKind::Cvc5Ff => BackendV::Cvc5Ff { cmd: config.cvc5_cmd, relaxed: config.ff_relax },
    }
}

/// Select an SMT backend from user configuration.
pub fn backend_from_config(config: &SetConfig) -> (r: SmtBackend)
    ensures
        r@ == selected(config@),
{
    match config.solver.kind {
        SolverKind::Z3Nia => SmtBackend::Z3Nia,
        SolverKind::Cvc5Ff => SmtBackend::Cvc5Ff {
            cmd: config.solver.cvc5_cmd.clone(),
            relaxed: config.ff_relax,
        },
    }
}

/// An answer that a back end can give to a formula.
pub open spec fn plausible(backend: BackendV, f: Formula, answer: Result<bool, SolveError>) -> bool {
    match backend {
        BackendV::Z3Nia => possible_answer(script_with(empty_z3(), f), answer),
        BackendV::Cvc5Ff { .. } => match cvc5_script(FIELD_MODULUS as int, f) {
            Err(x) => answer == Err::<bool, SolveError>(x),
            Ok(_) => answer == Err::<bool, SolveError>(SolveError::External),
        },
    }
}

/// The script by which cvc5 is asked whether a formula is satisfiable.
pub fn cvc5_question(phi: &BoolExpr) -> (r: Result<String, SolveError>)
    ensures
        crate::view::ok_view(r) == cvc5_script(FIELD_MODULUS as int, phi@),
{
    Cvc5ffBackend::new(FIELD_MODULUS).script_for(phi)
}

/// Dispatch a single formula to the chosen backend. cvc5 is a process of its own, which is run on
/// the script that [`cvc5_question`] gives.
pub fn check_with_solver(phi: &BoolExpr, backend: &SmtBackend) -> (r: Result<bool, SolveError>)
    ensures
        plausible(backend@, phi@, r),
{
    match backend {
        SmtBackend::Z3Nia => Z3NiaBackend::new().check(phi),
        SmtBackend::Cvc5Ff { .. } => {
            let _script = cvc5_question(phi)?;
            Err(SolveError::External)
        },
    }
}

} // verus!
