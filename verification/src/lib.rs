//! Equivalence checking for arithmetic circuit components.
pub mod ast;
pub mod checker;
pub mod name_map;
pub mod parser;
pub mod text;
pub mod text_laws;
pub mod utils;
pub mod view;
