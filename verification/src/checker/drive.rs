//! Checks driven by a solver.

use vstd::prelude::*;
use crate::checker::solver::{check_with_solver, plausible, BackendV, SmtBackend, SolveError};
use crate::checker::solver::smt::{refuted, witnessed};
use crate::checker::symbolic::expr::Formula;
use crate::checker::solver::z3::{empty_z3, runnable, satisfiable, script_with};
use crate::checker::task::{
    concluded, passes_iff_all_decided, settle, tasks_of, CheckError, CheckErrorV, Task, TaskV,
};
use crate::text::texts;

verus! {

/// Answers that a back end can give to the steps.
pub open spec fn answers_fit(
    backend: BackendV,
    tasks: Seq<TaskV>,
    answers: Seq<Result<bool, SolveError>>,
) -> bool {
    &&& answers.len() == tasks.len()
    &&& forall|i: int|
        0 <= i < tasks.len() && (#[trigger] tasks[i]) is Solve ==> plausible(
            backend,
            tasks[i]->phi,
            answers[i],
        )
}

/// The conclusion of a check.
pub open spec fn conclusion_view(r: Result<Vec<String>, CheckError>) -> Result<
    Seq<Seq<char>>,
    CheckErrorV,
> {
    match r {
        Ok(v) => Ok(texts(v@)),
        Err(e) => Err(e@),
    }
}

/// The conclusion of a check whose formulas have been decided.
pub fn conclude(tasks: &Vec<Task>, answers: &Vec<Result<bool, SolveError>>) -> (r: Result<
    Vec<String>,
    CheckError,
>)
    requires
        answers@.len() == tasks@.len(),
    ensures
        conclusion_view(r) == concluded(tasks_of(tasks@), answers@, 0, seq![]),
{
    let ghost ts = tasks_of(tasks@);
    let mut passed: Vec<String> = Vec::new();
    proof {
        assert(texts(passed@) =~= seq![]);
    }
    #[verifier::loop_isolation(false)]
    for i in 0..tasks.len()
        invariant
            concluded(ts, answers@, 0, seq![]) == concluded(
                ts,
                answers@,
                i as int,
                texts(passed@),
            ),
    {
        proof {
            assert(ts[i as int] == tasks@[i as int]@);
        }
        match settle(&tasks[i], answers[i]) {
            Err(e) => return Err(e),
            Ok(None) => {},
            Ok(Some(c)) => {
                let ghost before = passed@;
                passed.push(c);
                proof {
                    assert(texts(passed@) =~= texts(before).push(c@));
                }
            },
        }
    }
    Ok(passed)
}

/// An answer that a back end can give to a formula.
spec fn some_answer(backend: BackendV, f: Formula) -> Result<bool, SolveError> {
    choose|a: Result<bool, SolveError>| plausible(backend, f, a)
}

proof fn lemma_some_answer(backend: BackendV, f: Formula)
    ensures
        plausible(backend, f, some_answer(backend, f)),
{
    let a: Result<bool, SolveError> = match backend {
        BackendV::Z3Nia => match script_with(empty_z3(), f) {
            Err(x) => Err(x),
            Ok(s) => if runnable(s) {
                Err(SolveError::Unknown)
            } else {
                Err(SolveError::InvalidScript)
            },
        },
        BackendV::Cvc5Ff { .. } => match crate::checker::solver::cvc5::cvc5_script(
            crate::checker::symbolic::expr::FIELD_MODULUS as int,
            f,
        ) {
            Err(x) => Err(x),
            Ok(_) => Err(SolveError::External),
        },
    };
    assert(plausible(backend, f, a));
}

/// The answers given so far, with possible ones for the steps that remain.
spec fn completed(
    backend: BackendV,
    tasks: Seq<TaskV>,
    given: Seq<Result<bool, SolveError>>,
) -> Seq<Result<bool, SolveError>> {
    Seq::new(
        tasks.len(),
        |i: int|
            if i < given.len() {
                given[i]
            } else {
                some_answer(backend, tasks[i]->phi)
            },
    )
}

spec fn agrees(a: Seq<Result<bool, SolveError>>, given: Seq<Result<bool, SolveError>>) -> bool {
    forall|j: int| 0 <= j < given.len() ==> #[trigger] a[j] == given[j]
}

proof fn lemma_completed(
    backend: BackendV,
    tasks: Seq<TaskV>,
    given: Seq<Result<bool, SolveError>>,
)
    requires
        given.len() <= tasks.len(),
        forall|i: int|
            0 <= i < given.len() && (#[trigger] tasks[i]) is Solve ==> plausible(
                backend,
                tasks[i]->phi,
                given[i],
            ),
    ensures
        answers_fit(backend, tasks, completed(backend, tasks, given)),
        agrees(completed(backend, tasks, given), given),
{
    let c = completed(backend, tasks, given);
    assert forall|i: int| 0 <= i < tasks.len() && (#[trigger] tasks[i]) is Solve implies plausible(
        backend,
        tasks[i]->phi,
        c[i],
    ) by {
        if i >= given.len() {
            lemma_some_answer(backend, tasks[i]->phi);
        }
    }
}

/// A conclusion that follows from answers that the back end can give.
pub open spec fn follows(
    backend: BackendV,
    tasks: Seq<TaskV>,
    r: Result<Seq<Seq<char>>, CheckErrorV>,
) -> bool {
    exists|answers: Seq<Result<bool, SolveError>>| #[trigger]
        answers_fit(backend, tasks, answers) && r == concluded(tasks, answers, 0, seq![])
}

/// Has the solver decide the formulas of a check, one after the other, and draws the conclusion.
pub fn run_tasks(tasks: &Vec<Task>, backend: &SmtBackend) -> (r: Result<Vec<String>, CheckError>)
    ensures
        follows(backend@, tasks_of(tasks@), conclusion_view(r)),
{
    let ghost ts = tasks_of(tasks@);
    let ghost mut given: Seq<Result<bool, SolveError>> = seq![];
    let mut passed: Vec<String> = Vec::new();
    proof {
        assert(texts(passed@) =~= seq![]);
    }
    #[verifier::loop_isolation(false)]
    for i in 0..tasks.len()
        invariant
            given.len() == i,
            forall|j: int|
                0 <= j < i && (#[trigger] ts[j]) is Solve ==> plausible(
                    backend@,
                    ts[j]->phi,
                    given[j],
                ),
            forall|a: Seq<Result<bool, SolveError>>| #[trigger]
                agrees(a, given) ==> concluded(ts, a, 0, seq![]) == concluded(
                    ts,
                    a,
                    i as int,
                    texts(passed@),
                ),
    {
        proof {
            assert(ts[i as int] == tasks@[i as int]@);
        }
        let answer = match &tasks[i] {
            Task::Solve { phi, .. } => check_with_solver(phi, backend),
            _ => Ok(true),
        };
        let ghost before = given;
        let ghost was = passed@;
        proof {
            given = given.push(answer);
            lemma_completed(backend@, ts, given);
            assert forall|a: Seq<Result<bool, SolveError>>| #[trigger]
                agrees(a, given) implies agrees(a, before) && a[i as int] == answer by {
                assert forall|j: int| 0 <= j < before.len() implies #[trigger] a[j]
                    == before[j] by {
                    assert(a[j] == given[j]);
                }
                assert(a[i as int] == given[i as int]);
            }
        }
        match settle(&tasks[i], answer) {
            Err(e) => {
                proof {
                    let all = completed(backend@, ts, given);
                    assert(agrees(all, before));
                    assert(concluded(ts, all, 0, seq![]) == concluded(
                        ts,
                        all,
                        i as int,
                        texts(was),
                    ));
                }
                return Err(e);
            },
            Ok(None) => {},
            Ok(Some(c)) => {
                passed.push(c);
                proof {
                    assert(texts(passed@) =~= texts(was).push(c@));
                }
            },
        }
        proof {
            assert forall|a: Seq<Result<bool, SolveError>>| #[trigger]
                agrees(a, given) implies concluded(ts, a, 0, seq![]) == concluded(
                ts,
                a,
                i + 1,
                texts(passed@),
            ) by {
                assert(agrees(a, before));
                assert(a[i as int] == answer);
            }
        }
    }
    proof {
        lemma_completed(backend@, ts, given);
    }
    Ok(passed)
}

/// A formula that has a script on which the solver decides that it is satisfiable, or that it is
/// not.
pub open spec fn decided(f: Formula, sat: bool) -> bool {
    match script_with(empty_z3(), f) {
        Ok(s) => runnable(s) && satisfiable(s) == sat && if sat {
            witnessed(s)
        } else {
            refuted(s)
        },
        Err(_) => false,
    }
}

/// A check that passes has no failing step, and the solver has decided each of its formulas as
/// wanted: those of an equivalence check as unsatisfiable, those of a workspace as satisfiable.
pub proof fn passing_means_decided(
    backend: BackendV,
    tasks: Seq<TaskV>,
    passed: Seq<Seq<char>>,
    j: int,
)
    requires
        follows(backend, tasks, Ok::<Seq<Seq<char>>, CheckErrorV>(passed)),
        0 <= j < tasks.len(),
    ensures
        match tasks[j] {
            TaskV::Fail(_) => false,
            TaskV::Passed { .. } => true,
            TaskV::Solve { phi, wanted, .. } => backend is Z3Nia && decided(phi, wanted),
        },
{
    let answers = choose|answers: Seq<Result<bool, SolveError>>| #[trigger]
        answers_fit(backend, tasks, answers) && Ok::<Seq<Seq<char>>, CheckErrorV>(passed)
            == concluded(tasks, answers, 0, seq![]);
    passes_iff_all_decided(tasks, answers, 0, seq![]);
    assert(tasks[j] == tasks[j]);
}

} // verus!
