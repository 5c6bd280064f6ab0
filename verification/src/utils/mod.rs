//! Configuration and module resolution.

use vstd::prelude::*;
use vstd::string::*;
use crate::text::same_text;

pub mod module_resolver;
pub mod naming_laws;
pub mod workspace_laws;

verus! {

/// Which solver decides obligations.
#[derive(Clone, Copy, Debug, PartialEq, Eq, Structural)]
pub enum SolverKind {
    Z3Nia,
    Cvc5Ff,
}

impl Default for SolverKind {
    fn default() -> (r: Self)
        ensures
            r == SolverKind::Cvc5Ff,
    {
        SolverKind::Cvc5Ff
    }
}

/// Solver selection.
#[derive(Debug)]
pub struct SolverConfig {
    pub kind: SolverKind,
    pub cvc5_cmd: String,
}

/// Runtime configuration.
#[derive(Debug)]
pub struct SetConfig {
    pub type_refine: bool,
    pub solver: SolverConfig,
    /// Whether the finite-field back end may relax its constraints.
    pub ff_relax: bool,
}

/// Mathematical model of [`SetConfig`].
pub struct ConfigV {
    pub type_refine: bool,
    pub kind: SolverKind,
    pub cvc5_cmd: Seq<char>,
    pub ff_relax: bool,
}

impl View for SetConfig {
    type V = ConfigV;

    open spec fn view(&self) -> ConfigV {
        ConfigV {
            type_refine: self.type_refine,
            kind: self.solver.kind,
            cvc5_cmd: self.solver.cvc5_cmd@,
            ff_relax: self.ff_relax,
        }
    }
}

impl Clone for SolverConfig {
    fn clone(&self) -> (r: Self)
        ensures
            r.kind == self.kind,
            r.cvc5_cmd@ == self.cvc5_cmd@,
    {
        SolverConfig { kind: self.kind, cvc5_cmd: self.cvc5_cmd.clone() }
    }
}

impl Clone for SetConfig {
    fn clone(&self) -> (r: Self)
        ensures
            r@ == self@,
    {
        SetConfig {
            type_refine: self.type_refine,
            solver: self.solver.clone(),
            ff_relax: self.ff_relax,
        }
    }
}

/// The configuration before any flag is given.
pub open spec fn default_config() -> ConfigV {
    ConfigV { type_refine: false, kind: SolverKind::Cvc5Ff, cvc5_cmd: seq![], ff_relax: false }
}

impl Default for SetConfig {
    fn default() -> (r: Self)
        ensures
            r@ == default_config(),
    {
        SetConfig {
            type_refine: false,
            solver: SolverConfig { kind: SolverKind::Cvc5Ff, cvc5_cmd: String::new() },
            ff_relax: false,
        }
    }
}

/// The solver that a name selects, if the name is known.
pub open spec fn solver_named(name: Seq<char>) -> Option<SolverKind> {
    if name == "z3"@ || name == "z3_nia"@ {
        Some(SolverKind::Z3Nia)
    } else if name == "cvc5"@ || name == "cvc5_ff"@ {
        Some(SolverKind::Cvc5Ff)
    } else {
        None
    }
}

/// The solver that a name selects, if the name is known.
pub fn solver_by_name(name: &str) -> (r: Option<SolverKind>)
    ensures
        r == solver_named(name@),
{
    if same_text(name, "z3") || same_text(name, "z3_nia") {
        Some(SolverKind::Z3Nia)
    } else if same_text(name, "cvc5") || same_text(name, "cvc5_ff") {
        Some(SolverKind::Cvc5Ff)
    } else {
        None
    }
}

/// Build runtime configuration from command-line flags. An unknown solver name falls back to
/// `z3_nia`.
pub fn derive_config(solver: &str, type_opt: bool, cvc5_cmd: String) -> (r: SetConfig)
    ensures
        r@ == (ConfigV {
            type_refine: type_opt,
            kind: match solver_named(solver@) {
                Some(k) => k,
                None => SolverKind::Z3Nia,
            },
            cvc5_cmd: cvc5_cmd@,
            ff_relax: false,
        }),
{
    let kind = match solver_by_name(solver) {
        Some(k) => k,
        None => SolverKind::Z3Nia,
    };
    SetConfig { type_refine: type_opt, solver: SolverConfig { kind, cvc5_cmd }, ff_relax: false }
}

} // verus!
