//! Syntactic analysis: tokens to an expression tree.

pub mod engine;
pub mod errors;
pub mod exprs;
pub mod grammar;
pub mod laws;
pub mod literal;
pub mod lookups;
