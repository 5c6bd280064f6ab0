//! What a check consists of: formulas to be decided and conclusions to be drawn.

use vstd::prelude::*;
use crate::ast::helpers::QueryPathError;
use crate::checker::solver::SolveError;
use crate::checker::symbolic::error::ExecError;
use crate::checker::symbolic::expr::{BoolExpr, Formula};
use crate::checker::symbolic::store::ShapeError;

verus! {

/// What is wrong with a component or a workspace.
#[derive(Clone, Copy, Debug, PartialEq, Eq, Structural)]
pub enum CheckFault {
    /// A component without a query.
    MissingQuery,
    /// A query side without a member name.
    EmptyQuery,
    /// The left member of the query does not exist.
    LhsMember,
    /// The right member of the query does not exist.
    RhsMember,
    /// The query sides differ in length.
    QueryLength,
    /// The query has no roots.
    NoRoots,
    /// A root that does not name a parameter.
    Root(QueryPathError),
    /// A function that has not been resolved.
    UnresolvedFunction,
    /// Symbolic execution stopped.
    Exec(ExecError),
    /// The left side has no path to its end.
    NoLhsPaths,
    /// The right side has no path to its end.
    NoRhsPaths,
    /// The type of a left root is unknown.
    LhsType,
    /// The type of a right root is unknown.
    RhsType,
    /// The struct types of two roots differ.
    StructTypes,
    /// The struct type of a root is not declared in the file.
    NoStruct,
    /// A struct field that has not been resolved.
    UnresolvedField,
    /// A left root has no node.
    LhsRoot,
    /// A right root has no node.
    RhsRoot,
    /// A struct root that is not a struct node.
    NotAStruct,
    /// Two struct roots differ in the number of their fields.
    FieldCount,
    /// A field without a role.
    FieldRole,
    /// A field that the right root lacks.
    MissingField,
    /// Two roots differ in shape.
    Shape(ShapeError),
    /// A left parameter without a role.
    LhsRole,
    /// A right parameter without a role.
    RhsRole,
    /// Two parameters differ in their roles.
    RoleMismatch,
    /// The memory traces differ in length.
    TraceLength,
    /// Two memory events differ in kind.
    EventKind,
    /// Nothing to compare.
    NoOutputs,
    /// There are equal inputs with different outputs.
    NotEquivalent,
    /// A workspace without modules.
    EmptyWorkspace,
    /// A workspace without an executor.
    NoExecutor,
    /// A workspace without chips.
    NoChips,
    /// The executor does not return an event.
    NoEventType,
    /// The executor has no path to its end.
    NoExecutorPaths,
    /// The executor does not hold an event at its end.
    NoEvent,
    /// The populate function of a chip has no path to its end.
    NoPopulatePaths,
    /// The eval function of a chip has no path to its end.
    NoEvalPaths,
    /// Sends and receives differ in number.
    SendReceive,
    /// The constraints of a chip cannot be met.
    Unsatisfiable,
    /// The solver gave no answer.
    Solver(SolveError),
}

/// The paths that something was found on.
#[derive(Clone, Copy, Debug, PartialEq, Eq, Structural)]
pub struct Spot {
    pub first: usize,
    pub second: usize,
    pub third: usize,
}

/// Why a check fails: the component, the paths and the fault.
#[derive(Debug, PartialEq, Eq)]
pub struct CheckError {
    pub component: String,
    pub spot: Spot,
    pub fault: CheckFault,
}

/// Mathematical model of [`CheckError`].
pub struct CheckErrorV {
    pub component: Seq<char>,
    pub spot: Spot,
    pub fault: CheckFault,
}

impl View for CheckError {
    type V = CheckErrorV;

    open spec fn view(&self) -> CheckErrorV {
        CheckErrorV { component: self.component@, spot: self.spot, fault: self.fault }
    }
}

/// A step of a check.
#[derive(Debug)]
pub enum Task {
    /// Decide a formula, which should be satisfiable iff `wanted`.
    Solve { component: String, spot: Spot, phi: BoolExpr, wanted: bool },
    /// A component has passed.
    Passed { component: String },
    /// The check fails.
    Fail(CheckError),
}

/// Mathematical model of [`Task`].
pub enum TaskV {
    Solve { component: Seq<char>, spot: Spot, phi: Formula, wanted: bool },
    Passed { component: Seq<char> },
    Fail(CheckErrorV),
}

impl View for Task {
    type V = TaskV;

    open spec fn view(&self) -> TaskV {
        match self {
            Task::Solve { component, spot, phi, wanted } => TaskV::Solve {
                component: component@,
                spot: *spot,
                phi: phi@,
                wanted: *wanted,
            },
            Task::Passed { component } => TaskV::Passed { component: component@ },
            Task::Fail(e) => TaskV::Fail(e@),
        }
    }
}

/// The models of a list of tasks.
pub open spec fn tasks_of(s: Seq<Task>) -> Seq<TaskV> {
    Seq::new(s.len(), |i: int| s[i]@)
}

pub broadcast proof fn lemma_tasks_push(s: Seq<Task>, t: Task)
    ensures
        #[trigger] tasks_of(s.push(t)) == tasks_of(s).push(t@),
{
    assert(tasks_of(s.push(t)) =~= tasks_of(s).push(t@));
}

/// A failing step.
pub open spec fn failing(component: Seq<char>, spot: Spot, fault: CheckFault) -> TaskV {
    TaskV::Fail(CheckErrorV { component, spot, fault })
}

/// The place before any path.
pub open spec fn no_spot() -> Spot {
    Spot { first: 0, second: 0, third: 0 }
}

/// The place before any path.
pub fn start_spot() -> (r: Spot)
    ensures
        r == no_spot(),
{
    Spot { first: 0, second: 0, third: 0 }
}

/// A failing step.
pub(crate) fn fail(component: &str, spot: Spot, fault: CheckFault) -> (r: Task)
    ensures
        r@ == failing(component@, spot, fault),
{
    Task::Fail(CheckError { component: component.to_string(), spot, fault })
}

/// A list of steps that ends in a failure.
pub open spec fn failed(tasks: Seq<TaskV>) -> bool {
    tasks.len() > 0 && tasks.last() is Fail
}

/// What an answer to a step means: the check goes on, perhaps with a component passed, or fails.
pub open spec fn settled(task: TaskV, answer: Result<bool, SolveError>) -> Result<
    Option<Seq<char>>,
    CheckErrorV,
> {
    match task {
        TaskV::Fail(e) => Err(e),
        TaskV::Passed { component } => Ok(Some(component)),
        TaskV::Solve { component, spot, wanted, .. } => match answer {
            Err(x) => Err(CheckErrorV { component, spot, fault: CheckFault::Solver(x) }),
            Ok(sat) => if sat == wanted {
                Ok(None)
            } else {
                Err(
                    CheckErrorV {
                        component,
                        spot,
                        fault: if wanted {
                            CheckFault::Unsatisfiable
                        } else {
                            CheckFault::NotEquivalent
                        },
                    },
                )
            },
        },
    }
}

/// The conclusion of a check from step `i` on: the components that passed, behind `passed`, or the
/// first failure.
pub open spec fn concluded(
    tasks: Seq<TaskV>,
    answers: Seq<Result<bool, SolveError>>,
    i: int,
    passed: Seq<Seq<char>>,
) -> Result<Seq<Seq<char>>, CheckErrorV>
    decreases tasks.len() - i,
{
    if i < 0 || i >= tasks.len() {
        Ok(passed)
    } else {
        match settled(tasks[i], answers[i]) {
            Err(e) => Err(e),
            Ok(None) => concluded(tasks, answers, i + 1, passed),
            Ok(Some(c)) => concluded(tasks, answers, i + 1, passed.push(c)),
        }
    }
}

/// A check passes iff none of its steps fails and every formula is decided as wanted.
pub proof fn passes_iff_all_decided(
    tasks: Seq<TaskV>,
    answers: Seq<Result<bool, SolveError>>,
    i: int,
    passed: Seq<Seq<char>>,
)
    requires
        0 <= i <= tasks.len(),
    ensures
        concluded(tasks, answers, i, passed) is Ok <==> (forall|j: int|
            i <= j < tasks.len() ==> match #[trigger] tasks[j] {
                TaskV::Fail(_) => false,
                TaskV::Passed { .. } => true,
                TaskV::Solve { wanted, .. } => answers[j] == Ok::<bool, SolveError>(wanted),
            }),
    decreases tasks.len() - i,
{
    if i < tasks.len() {
        match settled(tasks[i], answers[i]) {
            Err(_) => {
                assert(concluded(tasks, answers, i, passed) is Err);
                assert(tasks[i] == tasks[i]);
            },
            Ok(None) => {
                passes_iff_all_decided(tasks, answers, i + 1, passed);
            },
            Ok(Some(c)) => {
                passes_iff_all_decided(tasks, answers, i + 1, passed.push(c));
            },
        }
    }
}

/// The outcome of a step.
pub open spec fn settle_view(r: Result<Option<String>, CheckError>) -> Result<
    Option<Seq<char>>,
    CheckErrorV,
> {
    match r {
        Ok(Some(c)) => Ok(Some(c@)),
        Ok(None) => Ok(None),
        Err(e) => Err(e@),
    }
}

/// What an answer to a step means: the check goes on, perhaps with a component passed, or fails.
/// The answer counts only where a formula was to be decided.
pub fn settle(task: &Task, answer: Result<bool, SolveError>) -> (r: Result<Option<String>, CheckError>)
    ensures
        settle_view(r) == settled(task@, answer),
{
    match task {
        Task::Fail(e) => Err(
            CheckError { component: e.component.clone(), spot: e.spot, fault: e.fault },
        ),
        Task::Passed { component } => Ok(Some(component.clone())),
        Task::Solve { component, spot, wanted, .. } => match answer {
            Err(x) => Err(
                CheckError {
                    component: component.clone(),
                    spot: *spot,
                    fault: CheckFault::Solver(x),
                },
            ),
            Ok(sat) => if sat == *wanted {
                Ok(None)
            } else {
                let fault = if *wanted {
                    CheckFault::Unsatisfiable
                } else {
                    CheckFault::NotEquivalent
                };
                Err(CheckError { component: component.clone(), spot: *spot, fault })
            },
        },
    }
}

/// Whether a list of steps ends in a failure.
pub fn ends_in_failure(tasks: &Vec<Task>) -> (r: bool)
    ensures
        r == failed(tasks_of(tasks@)),
{
    if tasks.len() == 0 {
        return false;
    }
    proof {
        assert(tasks_of(tasks@).last() == tasks@[tasks@.len() - 1]@);
    }
    match &tasks[tasks.len() - 1] {
        Task::Fail(_) => true,
        _ => false,
    }
}

} // verus!
