//! Which files imports name, and which solvers names select.

use vstd::prelude::*;
use crate::checker::solver::{selected, BackendV};
use crate::text::joined;
use crate::text_laws::joining_keeps_parts_apart;
use crate::utils::module_resolver::import_path;
use crate::utils::{solver_named, ConfigV, SolverKind};

verus! {

/// An import of one segment names a file of that name; one more segment in front names a file of
/// the same name in a directory of the name of the segment.
pub proof fn imports_name_nested_files(first: Seq<char>, rest: Seq<Seq<char>>)
    ensures
        import_path(seq![first]) == first + ".cz"@,
        rest.len() > 0 ==> import_path(seq![first] + rest) == first + "/"@ + import_path(rest),
{
    joining_keeps_parts_apart(seq![first], first, rest, "/"@);
    if rest.len() > 0 {
        assert(import_path(seq![first] + rest) =~= first + "/"@ + import_path(rest));
    }
}

/// Different last segments name different files.
pub proof fn imports_name_different_files(
    front: Seq<Seq<char>>,
    a: Seq<char>,
    b: Seq<char>,
)
    requires
        a != b,
    ensures
        import_path(front.push(a)) != import_path(front.push(b)),
{
    let x = joined(front.push(a), "/"@);
    let y = joined(front.push(b), "/"@);
    assert(front.push(a).drop_last() =~= front);
    assert(front.push(b).drop_last() =~= front);
    let head = if front.len() == 0 {
        seq![]
    } else {
        joined(front, "/"@) + "/"@
    };
    assert(x =~= head + a);
    assert(y =~= head + b);
    if x + ".cz"@ == y + ".cz"@ {
        assert(x.len() + ".cz"@.len() == (x + ".cz"@).len());
        assert(y.len() + ".cz"@.len() == (y + ".cz"@).len());
        assert(x =~= (x + ".cz"@).take(x.len() as int));
        assert(y =~= (y + ".cz"@).take(y.len() as int));
        assert(a =~= x.skip(head.len() as int));
        assert(b =~= y.skip(head.len() as int));
    }
}

/// The long name of a solver selects what the short one selects, and the two solvers have no name
/// in common; no other name selects any.
pub proof fn solver_names_select_one_solver(name: Seq<char>)
    ensures
        solver_named("z3"@) == solver_named("z3_nia"@),
        solver_named("cvc5"@) == solver_named("cvc5_ff"@),
        solver_named("z3"@) != solver_named("cvc5"@),
        solver_named(name) == Some(SolverKind::Z3Nia) <==> name == "z3"@ || name == "z3_nia"@,
        solver_named(name) is Some ==> name == "z3"@ || name == "z3_nia"@ || name == "cvc5"@ || name
            == "cvc5_ff"@,
{
    reveal_strlit("z3");
    reveal_strlit("z3_nia");
    reveal_strlit("cvc5");
    reveal_strlit("cvc5_ff");
    assert("z3"@.len() == 2);
    assert("z3_nia"@.len() == 6);
    assert("cvc5"@.len() == 4);
    assert("cvc5_ff"@.len() == 7);
}

/// The back end is of the kind that the configuration names, and an outside solver is run by the
/// command that it gives.
pub proof fn back_ends_are_as_configured(config: ConfigV)
    ensures
        selected(config) is Z3Nia <==> config.kind == SolverKind::Z3Nia,
        match selected(config) {
            BackendV::Z3Nia => true,
            BackendV::Cvc5Ff { cmd, relaxed } => cmd == config.cvc5_cmd && relaxed
                == config.ff_relax,
        },
{
}

} // verus!
