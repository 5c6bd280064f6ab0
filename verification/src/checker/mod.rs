//! Symbolic execution and equivalence queries.
pub mod conclusion_laws;
pub mod drive;
pub mod query;
pub mod query_laws;
pub mod setup_laws;
pub mod solver;
pub mod symbolic;
pub mod task;
pub mod verdict_laws;
pub mod vm_verdict_laws;
pub mod vm;
pub mod vm_binding_laws;
pub mod vm_laws;

pub use query::check_equivalence;
pub use vm::check_vm_workspace;
