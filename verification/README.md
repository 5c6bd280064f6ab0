# ziver

A checker for zero-knowledge circuit components written in a small language (`.cz` files). A
component states what it computes (`Computation`) and what it constrains (`Constraint`). The
checker executes both symbolically and asks an SMT solver whether there are equal inputs with
different outputs. In VM mode it checks that the constraints of each chip can be met on every path
of an executor.

## Layout

- `src/text.rs`, `src/name_map.rs`, `src/view.rs`: text, ordered maps from names, models.
- `src/ast/`: abstract syntax.
- `src/parser/`: the grammar, a matcher for it, and the step from syntax trees to abstract syntax.
- `src/utils/`: configuration, imports and workspaces.
- `src/checker/symbolic/`: terms and formulas and their meaning, intervals, simplification, name
  resolution, symbolic states, and the semantics of execution (`semantics.rs`) with the executor
  (`execute.rs`). `depth.rs` and `growth.rs` hold laws about execution as a whole.
- `src/checker/solver/`: what Z3 and cvc5 are asked. `smt_laws.rs` and `model_laws.rs` state what
  the script for Z3 says. For cvc5, `field.rs` models conditions over the field, `order_laws.rs`,
  `bound_laws.rs`, `script_laws.rs`, `field_laws.rs`, `reading_laws.rs` and `meaning_laws.rs` lead
  to `cvc5_laws.rs`, which states what the script says.
- `src/checker/query.rs`, `vm.rs`: what is to be decided for a file or a workspace; `task.rs` and
  `drive.rs`: how the answers lead to a verdict; `verdict_laws.rs` and `vm_verdict_laws.rs`: what a
  verdict says.
- `app/`: the command-line program: files, processes, messages.
- `tests/`: tests that run the library.

Every function under `src/` is verified by Verus, except for a few wrappers around `im`, `z3` and
`Rc::clone`, which are marked `external_body` and say what is taken on trust, and for
`String::push`, of which a contract is taken on trust.

## Running

    czc path/to/component.cz
    czc --solver cvc5_ff --cvc5-cmd cvc5 path/to/component.cz
    czc --mode vm path/to/workspace

`CZC_TRACE` prints progress; `Z3_DUMP` and `CVC5_DUMP` write the last script to disk.
