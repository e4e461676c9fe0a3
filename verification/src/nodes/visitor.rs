//! Visiting a tree to type it.

use vstd::prelude::*;
use crate::nodes::exprs::{BinaryExpr, LiteralExpr};
use crate::nodes::types::Type;

verus! {

/// A pass that gives each node a type. The library holds no such pass yet.
pub trait TypeVisitor {
    fn visit_literal(&mut self, expr: &LiteralExpr) -> Type;

    fn visit_binary(&mut self, expr: &BinaryExpr) -> Type;
}

} // verus!
