//! Which imports are loaded, and how the modules of a directory are grouped.

use ziver::ast::{File, Item};
use ziver::utils::module_resolver::{
    assemble_workspace, import_file, Loader, Module, SourceFile,
};
use ziver::utils::{derive_config, solver_by_name, SetConfig, SolverKind};

fn import(path: &[&str]) -> Item {
    Item::Import { id: None, path: path.iter().map(|s| s.to_string()).collect() }
}

fn module(path: &str, imports: &[&[&str]]) -> Module {
    Module {
        path: path.to_string(),
        file: File { items: imports.iter().map(|p| import(p)).collect() },
    }
}

fn source(path: &str, stem: Option<&str>) -> SourceFile {
    SourceFile { path: path.to_string(), stem: stem.map(|s| s.to_string()) }
}

fn names(path: &[&str]) -> Vec<String> {
    path.iter().map(|s| s.to_string()).collect()
}

#[test]
fn imports_name_files() {
    assert_eq!(import_file(&names(&["a", "b", "c"])), "a/b/c.cz");
    assert_eq!(import_file(&names(&["input"])), "input.cz");
}

#[test]
fn imports_are_loaded_once_and_transitively() {
    let mut l = Loader::new(module("main", &[&["a"], &["b"], &["a"]]));
    assert_eq!(l.next_import(), Some(names(&["a"])));
    l.add(module("a", &[&["b"], &["c", "d"]]));
    assert_eq!(l.next_import(), Some(names(&["b"])));
    l.add(module("b", &[&["a"]]));
    assert_eq!(l.next_import(), Some(names(&["c", "d"])));
    l.add(module("c/d", &[]));
    assert_eq!(l.next_import(), None);
    assert_eq!(l.next_import(), None);
    let paths: Vec<String> = l.finish().into_iter().map(|m| m.path).collect();
    assert_eq!(paths, names(&["main", "a", "b", "c/d"]));
}

#[test]
fn an_entry_without_imports_is_alone() {
    let mut l = Loader::new(module("main", &[]));
    assert_eq!(l.next_import(), None);
    assert_eq!(l.finish().len(), 1);
}

#[test]
fn workspaces_keep_each_path_once() {
    let files = vec![
        source("/w/x.cz", Some("x")),
        source("/w/compute.cz", Some("compute")),
        source("/w/input.cz", Some("input")),
        source("/w/v/input.cz", Some("input")),
        source("/w/v/compute.cz", Some("compute")),
        source("/w/odd.cz", None),
    ];
    let loaded = vec![
        module("/w/x.cz", &[]),
        module("/w/input.cz", &[]),
        module("/w/compute.cz", &[]),
        module("/w/input.cz", &[]),
        module("/w/v/input.cz", &[]),
        module("/w/x.cz", &[]),
        module("/w/v/compute.cz", &[]),
    ];
    let ws = assemble_workspace(&files, loaded);
    let paths: Vec<String> = ws.modules.iter().map(|m| m.path.clone()).collect();
    assert_eq!(
        paths,
        names(&["/w/x.cz", "/w/input.cz", "/w/compute.cz", "/w/v/input.cz", "/w/v/compute.cz"])
    );
    assert_eq!(ws.compute_entry, Some(2));
    assert_eq!(ws.constraint_entry, None);
    assert_eq!(ws.input_modules, vec![1, 3]);
}

#[test]
fn an_entry_that_was_not_loaded_has_no_place() {
    let ws = assemble_workspace(&vec![source("/w/constraint.cz", Some("constraint"))], vec![]);
    assert_eq!(ws.constraint_entry, None);
    assert!(ws.modules.is_empty());
}

#[test]
fn flags_select_the_solver() {
    assert_eq!(solver_by_name("z3"), Some(SolverKind::Z3Nia));
    assert_eq!(solver_by_name("z3_nia"), Some(SolverKind::Z3Nia));
    assert_eq!(solver_by_name("cvc5"), Some(SolverKind::Cvc5Ff));
    assert_eq!(solver_by_name("cvc5_ff"), Some(SolverKind::Cvc5Ff));
    assert_eq!(solver_by_name("yices"), None);
    let c = derive_config("yices", true, "/opt/cvc5".to_string());
    assert_eq!(c.solver.kind, SolverKind::Z3Nia);
    assert_eq!(c.solver.cvc5_cmd, "/opt/cvc5");
    assert!(c.type_refine);
    assert!(!c.ff_relax);
    assert_eq!(derive_config("cvc5_ff", false, String::new()).solver.kind, SolverKind::Cvc5Ff);
    assert_eq!(SetConfig::default().solver.kind, SolverKind::Cvc5Ff);
}
