//! What a check reports.

use vstd::prelude::*;
use crate::checker::solver::SolveError;
use crate::checker::task::{concluded, settled, CheckErrorV, CheckFault, TaskV};

verus! {

/// A step fails by itself, or is not decided as wanted.
pub open spec fn goes_wrong(task: TaskV, answer: Result<bool, SolveError>) -> bool {
    match task {
        TaskV::Fail(_) => true,
        TaskV::Passed { .. } => false,
        TaskV::Solve { wanted, .. } => answer != Ok::<bool, SolveError>(wanted),
    }
}

/// The first step that goes wrong.
pub open spec fn is_first_wrong(
    tasks: Seq<TaskV>,
    answers: Seq<Result<bool, SolveError>>,
    k: int,
) -> bool {
    &&& 0 <= k < tasks.len()
    &&& goes_wrong(tasks[k], answers[k])
    &&& forall|j: int| 0 <= j < k ==> !goes_wrong(#[trigger] tasks[j], answers[j])
}

/// The report says what went wrong, and where.
pub open spec fn tells(task: TaskV, answer: Result<bool, SolveError>, e: CheckErrorV) -> bool {
    match task {
        TaskV::Fail(x) => e == x,
        TaskV::Passed { .. } => false,
        TaskV::Solve { component, spot, wanted, .. } => {
            &&& e.component == component
            &&& e.spot == spot
            &&& match answer {
                Err(x) => e.fault == CheckFault::Solver(x),
                Ok(true) => e.fault == CheckFault::NotEquivalent,
                Ok(false) => e.fault == CheckFault::Unsatisfiable,
            }
        },
    }
}

proof fn lemma_wrong(
    tasks: Seq<TaskV>,
    answers: Seq<Result<bool, SolveError>>,
    i: int,
    passed: Seq<Seq<char>>,
    k: int,
)
    requires
        0 <= i <= k,
        is_first_wrong(tasks, answers, k),
    ensures
        match concluded(tasks, answers, i, passed) {
            Err(e) => tells(tasks[k], answers[k], e),
            Ok(_) => false,
        },
    decreases k - i,
{
    if i < k {
        assert(!goes_wrong(tasks[i], answers[i]));
        match settled(tasks[i], answers[i]) {
            Ok(None) => lemma_wrong(tasks, answers, i + 1, passed, k),
            Ok(Some(c)) => lemma_wrong(tasks, answers, i + 1, passed.push(c), k),
            Err(_) => {},
        }
    }
}

/// The first step that goes wrong is what a check reports.
pub proof fn first_failure_is_reported(
    tasks: Seq<TaskV>,
    answers: Seq<Result<bool, SolveError>>,
    k: int,
)
    requires
        is_first_wrong(tasks, answers, k),
    ensures
        match concluded(tasks, answers, 0, seq![]) {
            Err(e) => tells(tasks[k], answers[k], e),
            Ok(_) => false,
        },
{
    lemma_wrong(tasks, answers, 0, seq![], k);
}

/// How many of the first `end` steps pass a component.
pub open spec fn passes_before(tasks: Seq<TaskV>, end: int) -> nat
    decreases end,
{
    if end <= 0 {
        0
    } else {
        passes_before(tasks, end - 1) + if tasks[end - 1] is Passed {
            1nat
        } else {
            0nat
        }
    }
}

proof fn lemma_passed(
    tasks: Seq<TaskV>,
    answers: Seq<Result<bool, SolveError>>,
    i: int,
    passed: Seq<Seq<char>>,
    k: int,
)
    requires
        0 <= i <= tasks.len(),
        passed.len() == passes_before(tasks, i),
        concluded(tasks, answers, i, passed) is Ok,
    ensures
        ({
            let out = concluded(tasks, answers, i, passed)->Ok_0;
            let at = passes_before(tasks, k);
            &&& out.len() == passes_before(tasks, tasks.len() as int)
            &&& passed.len() <= out.len()
            &&& forall|j: int| 0 <= j < passed.len() ==> out[j] == #[trigger] passed[j]
            &&& i <= k < tasks.len() && tasks[k] is Passed ==> at < out.len() && out[at as int]
                == tasks[k]->Passed_component
        }),
    decreases tasks.len() - i,
{
    if i < tasks.len() {
        assert(passes_before(tasks, i + 1) == passes_before(tasks, i) + if tasks[i] is Passed {
            1nat
        } else {
            0nat
        });
        match settled(tasks[i], answers[i]) {
            Ok(None) => lemma_passed(tasks, answers, i + 1, passed, k),
            Ok(Some(c)) => {
                let more = passed.push(c);
                lemma_passed(tasks, answers, i + 1, more, k);
                let out = concluded(tasks, answers, i, passed)->Ok_0;
                assert(out[passed.len() as int] == more[passed.len() as int]);
                assert forall|j: int| 0 <= j < passed.len() implies out[j]
                    == #[trigger] passed[j] by {
                    assert(more[j] == passed[j]);
                }
            },
            Err(_) => {},
        }
    }
}

/// A check that passes lists the components that passed, in order.
pub proof fn passed_components_are_listed(
    tasks: Seq<TaskV>,
    answers: Seq<Result<bool, SolveError>>,
    k: int,
)
    requires
        concluded(tasks, answers, 0, seq![]) is Ok,
    ensures
        ({
            let out = concluded(tasks, answers, 0, seq![])->Ok_0;
            let at = passes_before(tasks, k);
            &&& out.len() == passes_before(tasks, tasks.len() as int)
            &&& 0 <= k < tasks.len() && tasks[k] is Passed ==> at < out.len() && out[at as int]
                == tasks[k]->Passed_component
        }),
{
    lemma_passed(tasks, answers, 0, seq![], k);
}

} // verus!
