//! Equivalence queries and workspaces, from source text to the verdict.

use std::rc::Rc;
use ziver::ast::helpers::QueryPathError;
use ziver::checker::drive::{conclude, run_tasks};
use ziver::checker::query::plan_equivalence;
use ziver::checker::solver::{SmtBackend, SolveError};
use ziver::checker::symbolic::context::Context;
use ziver::checker::symbolic::error::ExecError;
use ziver::checker::symbolic::init::init_context;
use ziver::checker::symbolic::store::ShapeError;
use ziver::checker::task::{settle, CheckFault, Task};
use ziver::checker::vm::{collect_chips, pick_executor, plan_vm_workspace};
use ziver::checker::{check_equivalence, check_vm_workspace};
use ziver::parser::parse_file;
use ziver::utils::module_resolver::{assemble_workspace, Module, VmWorkspace};
use ziver::utils::{derive_config, SetConfig};

fn program(src: &str) -> (Vec<Module>, Rc<Context>) {
    let file = parse_file(src).unwrap();
    let (mods, ctx) =
        init_context(vec![Module { path: "main.cz".to_string(), file }]).unwrap();
    (mods, Rc::new(ctx))
}

fn z3() -> SetConfig {
    derive_config("z3_nia", true, "cvc5".to_string())
}

fn verdict(src: &str) -> Result<Vec<String>, CheckFault> {
    let (mods, ctx) = program(src);
    check_equivalence(&mods[0].file, &ctx, &z3()).map_err(|e| e.fault)
}

fn double(members: &str) -> String {
    format!("Struct Double {{ input a: field, output b: field, }} Component Double {{ {} }}", members)
}

#[test]
fn equal_members_are_equivalent() {
    let src = double(
        "Computation compute(input a: field, output b: field) { b = a + a; }
         Constraint check(input a: field, output b: field) { assert_eq(b, a * 2); }
         Query(compute, a, b; check, a, b)",
    );
    assert_eq!(verdict(&src), Ok(vec!["Double".to_string()]));
}

#[test]
fn different_members_are_not_equivalent() {
    let src = double(
        "Computation compute(input a: field, output b: field) { b = a + a; }
         Constraint check(input a: field, output b: field) { assert_eq(b, a * 3); }
         Query(compute, a, b; check, a, b)",
    );
    assert_eq!(verdict(&src), Err(CheckFault::NotEquivalent));
}

#[test]
fn an_unconstrained_output_is_not_equivalent() {
    let src = double(
        "Computation compute(input a: field, output b: field) { b = a; }
         Constraint check(input a: field, output b: field) { assert(a == a); }
         Query(compute, a, b; check, a, b)",
    );
    assert_eq!(verdict(&src), Err(CheckFault::NotEquivalent));
}

#[test]
fn the_field_of_a_receiver_is_compared() {
    let members = "
        Computation populate(self) { self.b = self.a + 1; }
        Constraint eval(self) { assert_eq(self.b, self.a + 1); }
        Query(populate, self; eval, self)";
    assert_eq!(verdict(&double(members)), Ok(vec!["Double".to_string()]));
    let members = "
        Computation populate(self) { self.b = self.a + 1; }
        Constraint eval(self) { assert_eq(self.b, self.a); }
        Query(populate, self; eval, self)";
    assert_eq!(verdict(&double(members)), Err(CheckFault::NotEquivalent));
}

#[test]
fn is_zero_with_an_inverse_is_equivalent() {
    let src = double(
        "Computation compute(input a: field, output b: field) {
             if a == 0 { b = 1; } else { b = 0; }
         }
         Constraint check(input a: field, output b: field) {
             assert_bool(b);
             if a == 0 { assert_eq(b, 1); } else { assert_eq(b, 0); }
         }
         Query(compute, a, b; check, a, b)",
    );
    assert_eq!(verdict(&src), Ok(vec!["Double".to_string()]));
}

fn query(q: &str) -> Result<Vec<String>, CheckFault> {
    verdict(&double(&format!(
        "Computation f(self, input a: field, output b: field, arr: [field; 2], output c: field) \
         {{ b = a; }}
         Constraint g(input a: field, output b: field, output d: [field; 2]) {{ assert_eq(b, a); }}
         Constraint h(self, input a: field, input b: field) {{ assert_eq(b, a); }}
         Constraint k(input a: field, output b: field) {{ assert_eq(a, nosuch); }}
         {}",
        q
    )))
}

#[test]
fn queries_must_be_well_formed() {
    assert_eq!(query(""), Err(CheckFault::MissingQuery));
    assert_eq!(query("Query(nosuch, a; g, a)"), Err(CheckFault::LhsMember));
    assert_eq!(query("Query(f, a; nosuch, a)"), Err(CheckFault::RhsMember));
    assert_eq!(query("Query(f, a; g, a, b)"), Err(CheckFault::QueryLength));
    assert_eq!(query("Query(f; g)"), Err(CheckFault::NoRoots));
    assert_eq!(query("Query(f, nosuch; g, a)"), Err(CheckFault::Root(QueryPathError::NoParam)));
    assert_eq!(query("Query(f, a::b; g, a)"), Err(CheckFault::Root(QueryPathError::Nested)));
    assert_eq!(query("Query(f, self; g, self)"), Err(CheckFault::Root(QueryPathError::NoSelf)));
}

#[test]
fn roots_must_correspond() {
    assert_eq!(query("Query(f, a; g, a)"), Err(CheckFault::NoOutputs));
    assert_eq!(query("Query(f, b; h, b)"), Err(CheckFault::RoleMismatch));
    assert_eq!(query("Query(f, c; g, d)"), Err(CheckFault::Shape(ShapeError::Kind)));
    assert_eq!(
        query("Query(f, a, b; k, a, b)"),
        Err(CheckFault::Exec(ExecError::UnresolvedPath))
    );
}

#[test]
fn memory_traces_must_correspond() {
    let src = |right: &str| {
        double(&format!(
            "Computation f(input a: field, output b: field) {{ b = a; lookup(Send, 0, a, a, a); }}
             Constraint g(input a: field, output b: field) {{ assert_eq(b, a); {} }}
             Query(f, a, b; g, a, b)",
            right
        ))
    };
    assert_eq!(verdict(&src("lookup(Send, 0, a, a, b);")), Ok(vec!["Double".to_string()]));
    assert_eq!(verdict(&src("")), Err(CheckFault::TraceLength));
    assert_eq!(verdict(&src("lookup(Receive, 0, a, a, a);")), Err(CheckFault::EventKind));
    assert_eq!(verdict(&src("lookup(Send, 0, a, a, 1);")), Err(CheckFault::NotEquivalent));
}

#[test]
fn each_component_is_reported() {
    let src = "
        Struct A { input a: field, output b: field, }
        Struct B { input a: field, output b: field, }
        Component A {
            Computation f(input a: field, output b: field) { b = a; }
            Constraint g(input a: field, output b: field) { assert_eq(b, a); }
            Query(f, a, b; g, a, b)
        }
        Component B {
            Computation f(input a: field, output b: field) { b = a; }
            Constraint g(input a: field, output b: field) { assert_eq(b, a + 1); }
            Query(f, a, b; g, a, b)
        }";
    let (mods, ctx) = program(src);
    let e = check_equivalence(&mods[0].file, &ctx, &z3()).unwrap_err();
    assert_eq!(e.component, "B");
    assert_eq!(e.fault, CheckFault::NotEquivalent);
    let tasks = plan_equivalence(&mods[0].file, &ctx, 100);
    assert_eq!(tasks.len(), 4);
    let answers = vec![Ok(false), Ok(true), Ok(false), Ok(true)];
    assert_eq!(conclude(&tasks, &answers), Ok(vec!["A".to_string(), "B".to_string()]));
    let answers = vec![Ok(false), Ok(true), Err(SolveError::Unknown), Ok(true)];
    assert_eq!(
        conclude(&tasks, &answers).map_err(|e| e.fault),
        Err(CheckFault::Solver(SolveError::Unknown))
    );
    assert_eq!(
        run_tasks(&tasks, &SmtBackend::Z3Nia).map_err(|e| e.component),
        Err("B".to_string())
    );
}

#[test]
fn cvc5_is_left_to_a_process() {
    let src = double(
        "Computation compute(input a: field, output b: field) { b = a; }
         Constraint check(input a: field, output b: field) { assert_eq(b, a); }
         Query(compute, a, b; check, a, b)",
    );
    let (mods, ctx) = program(&src);
    let config = derive_config("cvc5_ff", true, "cvc5".to_string());
    assert_eq!(
        check_equivalence(&mods[0].file, &ctx, &config).map_err(|e| e.fault),
        Err(CheckFault::Solver(SolveError::External))
    );
    let tasks = plan_equivalence(&mods[0].file, &ctx, 100);
    assert_eq!(settle(&tasks[0], Ok(false)), Ok(None));
    assert_eq!(settle(&tasks[0], Ok(true)).map_err(|e| e.fault), Err(CheckFault::NotEquivalent));
    assert_eq!(settle(&tasks[1], Ok(true)), Ok(Some("Double".to_string())));
}

const VM: &str = "
Struct Event { a: field, b: field, }
Struct Regs { r: field, }
Struct AddExecutor { x: field, }
Struct AddChip { output a: field, }
";

fn workspace(executor: &str, chip: &str) -> (VmWorkspace, Rc<Context>) {
    let (mods, ctx) = program(&format!(
        "{} Component AddExecutor {{ {} }} Component AddChip {{ {} }}",
        VM, executor, chip
    ));
    (assemble_workspace(&vec![], mods), ctx)
}

fn vm(executor: &str, chip: &str) -> Result<(), CheckFault> {
    let (ws, ctx) = workspace(executor, chip);
    check_vm_workspace(&ws, &ctx, &z3()).map_err(|e| e.fault)
}

const RUN: &str = "Computation step(self, event: Event, regs: Regs) -> Event \
                   { event.b = event.a + 1; }";

#[test]
fn a_chip_that_can_be_met_passes() {
    let chip = "
        Computation populate(self, e: Event) { self.a = e.a; }
        Constraint eval(self, e: Event) { assert_eq(self.a, e.a); assert_eq(e.b, self.a + 1); }";
    assert_eq!(vm(RUN, chip), Ok(()));
}

#[test]
fn a_chip_that_cannot_be_met_fails() {
    let chip = "
        Computation populate(self, e: Event) { self.a = e.a; }
        Constraint eval(self, e: Event) { assert_eq(self.a, e.a + 1); }";
    assert_eq!(vm(RUN, chip), Err(CheckFault::Unsatisfiable));
}

#[test]
fn inputs_are_bound_by_type() {
    let chip = "
        Computation populate(self, rs: Regs, e: Event) { self.a = rs.r; }
        Constraint eval(cols: AddChip, rs: Regs) { assert_eq(cols.a, rs.r + 1); }";
    assert_eq!(vm(RUN, chip), Err(CheckFault::Unsatisfiable));
    let chip = "
        Computation populate(self, rs: Regs, e: Event) { self.a = rs.r; }
        Constraint eval(cols: AddChip, rs: Regs) { assert_eq(cols.a, rs.r); }";
    assert_eq!(vm(RUN, chip), Ok(()));
}

#[test]
fn sends_must_meet_receives() {
    let chip = |lookups: &str| {
        format!(
            "Computation populate(self, e: Event) {{ self.a = e.a; }}
             Constraint eval(self, e: Event) {{ {} }}",
            lookups
        )
    };
    let good = "lookup(Send, 0, e.a, 1, 2); lookup(Receive, 0, e.a, 1, 2);";
    assert_eq!(vm(RUN, &chip(good)), Ok(()));
    let bad = "lookup(Send, 0, e.a, 1, 2); lookup(Receive, 0, e.a, 1, 3);";
    assert_eq!(vm(RUN, &chip(bad)), Err(CheckFault::Unsatisfiable));
    assert_eq!(vm(RUN, &chip("lookup(Send, 0, e.a, 1, 2);")), Err(CheckFault::SendReceive));
}

#[test]
fn workspaces_must_be_complete() {
    let chip = "
        Computation populate(self, e: Event) { self.a = e.a; }
        Constraint eval(self, e: Event) { assert_eq(self.a, e.a); }";
    assert_eq!(vm("", chip), Err(CheckFault::NoExecutor));
    assert_eq!(vm(RUN, ""), Err(CheckFault::NoChips));
    let untyped = "Computation step(self, event: Event) { event.b = 1; }";
    assert_eq!(vm(untyped, chip), Err(CheckFault::NoEventType));
    let eventless = "Computation step(self, regs: Regs) -> Event { assert(1 == 1); }";
    assert_eq!(vm(eventless, chip), Err(CheckFault::NoEvent));
    let (_, ctx) = workspace(RUN, chip);
    let empty = assemble_workspace(&vec![], vec![]);
    assert_eq!(
        check_vm_workspace(&empty, &ctx, &z3()).map_err(|e| e.fault),
        Err(CheckFault::EmptyWorkspace)
    );
    let returning = "Computation step(self, event: Event) -> Event { return 0; }";
    assert_eq!(vm(returning, chip), Err(CheckFault::NoPopulatePaths));
    let returning = "
        Computation populate(self, e: Event) { self.a = e.a; return 0; }
        Constraint eval(self, e: Event) { assert_eq(self.a, e.a); }";
    assert_eq!(vm(RUN, returning), Err(CheckFault::NoEvalPaths));
    let broken = "
        Computation populate(self, e: Event) { self.a = nosuch; }
        Constraint eval(self, e: Event) { assert_eq(self.a, e.a); }";
    assert_eq!(vm(RUN, broken), Err(CheckFault::Exec(ExecError::UnresolvedPath)));
}

#[test]
fn executors_and_chips_are_found_by_name_and_members() {
    let chip = "
        Computation populate(self, e: Event) { self.a = e.a; }
        Constraint eval(self, e: Event) { assert_eq(self.a, e.a); }";
    let (ws, ctx) = workspace(RUN, chip);
    assert_eq!(pick_executor(&ws.modules).unwrap().name, "step");
    let chips = collect_chips(&ws.modules, "step");
    assert_eq!(chips.len(), 1);
    assert_eq!(chips[0].name, "AddChip");
    assert_eq!(chips[0].populate.name, "populate");
    assert_eq!(chips[0].eval.name, "eval");
    assert!(collect_chips(&ws.modules, "AddChip").is_empty());
    let tasks = plan_vm_workspace(&ws, &ctx, 100);
    assert_eq!(tasks.len(), 1);
    assert!(matches!(&tasks[0], Task::Solve { wanted: true, .. }));
}
