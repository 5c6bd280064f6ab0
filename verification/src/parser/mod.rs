//! From source text through syntax trees to abstract syntax.
pub mod expr;
pub mod grammar;
pub mod grammar_laws;
pub mod item;
pub mod item_laws;
pub mod precedence;
pub mod precedence_laws;
pub mod reading_laws;
pub mod scan;
pub mod scan_laws;
pub mod source;
pub mod stmt;
pub mod tree;
pub mod tree_laws;

pub use source::parse_file;
