//! Symbolic execution.
pub mod alloc_laws;
pub mod arith;
pub mod bit_laws;
pub mod block_laws;
pub mod builtin_laws;
pub mod builtins;
pub mod canonical;
pub mod canonical_laws;
pub mod context;
pub mod context_laws;
pub mod decision_laws;
pub mod declaration_laws;
pub mod depth;
pub mod error;
pub mod eval_laws;
pub mod execute;
pub mod expr;
pub mod expr_lists;
pub mod expr_text;
pub mod expr_text_laws;
pub mod extension;
pub mod growth;
pub mod helpers;
pub mod id_laws;
pub mod index;
pub mod init;
pub mod init_laws;
pub mod leaf_laws;
pub mod meaning;
pub mod operator_laws;
pub mod place;
pub mod place_laws;
pub mod program_laws;
pub mod pruning_laws;
pub mod range;
pub mod resolve;
pub mod resolve_laws;
pub mod results;
pub mod routing;
pub mod scope;
pub mod semantics;
pub mod simplify;
pub mod simplify_laws;
pub mod state;
pub mod state_laws;
pub mod state_nodes;
pub mod state_ops;
pub mod stmt_laws;
pub mod store;
pub mod type_laws;
pub mod value;
