//! The syntax tree.

pub mod exprs;
pub mod types;
pub mod visitor;
