//! Front end of a small expression language: a lexer that turns source text
//! into positioned tokens, and a precedence-climbing parser that turns tokens
//! into an expression tree. Every function is verified against a mathematical
//! model of the text, the token sequence and the grammar.

pub mod lexer;
pub mod nodes;
pub mod parser;
