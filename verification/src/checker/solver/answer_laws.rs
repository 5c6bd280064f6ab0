//! What the output of a solver process says.

use vstd::prelude::*;
use crate::checker::solver::cvc5::{answer_from, line_answer, process_answer};
use crate::checker::solver::SolveError;
use crate::text::trimmed;

verus! {

/// A text on one line.
pub open spec fn is_line(s: Seq<char>) -> bool {
    forall|i: int| 0 <= i < s.len() ==> #[trigger] s[i] != '\n'
}

/// A line that answers nothing.
pub open spec fn is_silent(line: Seq<char>) -> bool {
    trimmed(line) != "sat"@ && trimmed(line) != "unsat"@ && trimmed(line) != "unknown"@
}

proof fn lemma_to_line_end(out: Seq<char>, i: int, line: Seq<char>, k: int)
    requires
        0 <= i <= k <= out.len(),
        forall|j: int| i <= j < k ==> #[trigger] out[j] != '\n',
    ensures
        answer_from(out, i, line) == answer_from(out, k, line + out.subrange(i, k)),
    decreases k - i,
{
    if i == k {
        assert(line + out.subrange(i, k) =~= line);
    } else {
        lemma_to_line_end(out, i + 1, line.push(out[i]), k);
        assert(line.push(out[i]) + out.subrange(i + 1, k) =~= line + out.subrange(i, k));
    }
}

proof fn lemma_behind(before: Seq<char>, rest: Seq<char>, i: int, line: Seq<char>)
    requires
        0 <= i <= rest.len(),
    ensures
        answer_from(before + rest, before.len() + i, line) == answer_from(rest, i, line),
    decreases rest.len() - i,
{
    let out = before + rest;
    if i < rest.len() {
        assert(out[before.len() + i] == rest[i]);
        lemma_behind(before, rest, i + 1, seq![]);
        lemma_behind(before, rest, i + 1, line.push(rest[i]));
    }
}

proof fn lemma_answer_words()
    ensures
        "sat"@ != "unsat"@,
        "sat"@ != "unknown"@,
        "unsat"@ != "unknown"@,
{
    reveal_strlit("sat");
    reveal_strlit("unsat");
    reveal_strlit("unknown");
    assert("sat"@.len() == 3);
    assert("unsat"@.len() == 5);
    assert("unknown"@.len() == 7);
}

/// The first line of the output decides, if it is an answer: `sat` says that there is a solution,
/// `unsat` that there is none, and `unknown` neither.
pub proof fn first_answer_decides(line: Seq<char>, rest: Seq<char>)
    requires
        is_line(line),
    ensures
        ({
            let said = process_answer(true, line + seq!['\n'] + rest);
            &&& trimmed(line) == "sat"@ ==> said == Ok::<bool, SolveError>(true)
            &&& trimmed(line) == "unsat"@ ==> said == Ok::<bool, SolveError>(false)
            &&& trimmed(line) == "unknown"@ ==> said == Err::<bool, SolveError>(SolveError::Unknown)
        }),
        process_answer(true, line) == process_answer(true, line + seq!['\n']) || is_silent(line),
{
    lemma_answer_words();
    lemma_first(line, rest);
    lemma_first(line, seq![]);
    lemma_last(line);
    assert(line + seq!['\n'] + seq![] =~= line + seq!['\n']);
}

/// A line that is no answer counts for nothing.
pub proof fn other_lines_are_passed_over(line: Seq<char>, rest: Seq<char>)
    requires
        is_line(line),
        is_silent(line),
    ensures
        process_answer(true, line + seq!['\n'] + rest) == process_answer(true, rest),
        process_answer(true, line) == Err::<bool, SolveError>(SolveError::NoVerdict),
{
    lemma_first(line, rest);
    lemma_last(line);
    lemma_behind(line + seq!['\n'], rest, 0, seq![]);
}

/// The output of a process that failed says nothing.
pub proof fn failed_processes_say_nothing(out: Seq<char>)
    ensures
        process_answer(false, out) == Err::<bool, SolveError>(SolveError::ProcessFailed),
{
}

proof fn lemma_first(line: Seq<char>, rest: Seq<char>)
    requires
        is_line(line),
    ensures
        ({
            let out = line + seq!['\n'] + rest;
            answer_from(out, 0, seq![]) == match line_answer(line) {
                Some(a) => a,
                None => answer_from(out, (line.len() + 1) as int, seq![]),
            }
        }),
{
    let out = line + seq!['\n'] + rest;
    assert forall|j: int| 0 <= j < line.len() implies #[trigger] out[j] != '\n' by {
        assert(out[j] == line[j]);
    }
    lemma_to_line_end(out, 0, seq![], line.len() as int);
    assert(Seq::<char>::empty() + out.subrange(0, line.len() as int) =~= line);
    assert(out[line.len() as int] == '\n');
}

proof fn lemma_last(line: Seq<char>)
    requires
        is_line(line),
    ensures
        answer_from(line, 0, seq![]) == match line_answer(line) {
            Some(a) => a,
            None => Err::<bool, SolveError>(SolveError::NoVerdict),
        },
{
    lemma_to_line_end(line, 0, seq![], line.len() as int);
    assert(Seq::<char>::empty() + line.subrange(0, line.len() as int) =~= line);
}

} // verus!
