//! Binding powers and the dispatch tables.

use vstd::prelude::*;
use crate::lexer::token_type::TokenKind;
use crate::nodes::exprs::BinaryOp;
use crate::parser::errors::{labelled, LookUpError};

verus! {

/// How tightly an operator binds, from the loosest level to the tightest.
/// `Primary` is the sentinel: the level of a token that is no infix
/// operator, and the level at which a whole expression is parsed.
#[derive(Debug, Clone, Copy, PartialEq, Eq, Structural)]
pub enum BindingPower {
    Primary,
    Or,
    And,
    Add,
    Sub,
    Mul,
    Div,
}

impl BindingPower {
    /// The place of the level in the order of precedence: the sentinel
    /// lowest, then the logical operators, the additive ones, and the
    /// multiplicative ones highest.
    pub open spec fn rank_of(self) -> int {
        match self {
            BindingPower::Primary => 0,
            BindingPower::Or => 1,
            BindingPower::And => 2,
            BindingPower::Add => 3,
            BindingPower::Sub => 4,
            BindingPower::Mul => 5,
            BindingPower::Div => 6,
        }
    }

    /// The level of a token of this kind in infix position.
    pub open spec fn of_token(kind: TokenKind) -> BindingPower {
        match kind {
            TokenKind::PLUS | TokenKind::DASH => BindingPower::Add,
            TokenKind::STAR | TokenKind::SLASH | TokenKind::MODULO => BindingPower::Mul,
            TokenKind::VERTICAL_BAR => BindingPower::Or,
            TokenKind::AMPER => BindingPower::And,
            _ => BindingPower::Primary,
        }
    }

    /// The place of the level in the order of precedence.
    pub fn rank(self) -> (rank: u8)
        ensures
            rank == self.rank_of(),
    {
        match self {
            BindingPower::Primary => 0,
            BindingPower::Or => 1,
            BindingPower::And => 2,
            BindingPower::Add => 3,
            BindingPower::Sub => 4,
            BindingPower::Mul => 5,
            BindingPower::Div => 6,
        }
    }

    /// The level of a token of this kind in infix position.
    pub fn from_token(kind: TokenKind) -> (power: BindingPower)
        ensures
            power == Self::of_token(kind),
    {
        match kind {
            TokenKind::PLUS | TokenKind::DASH => BindingPower::Add,
            TokenKind::STAR | TokenKind::SLASH | TokenKind::MODULO => BindingPower::Mul,
            TokenKind::VERTICAL_BAR => BindingPower::Or,
            TokenKind::AMPER => BindingPower::And,
            _ => BindingPower::Primary,
        }
    }
}

/// The level at which an operator binds; the sentinel for an operator
/// that no token in infix position stands for.
pub open spec fn level_of(op: BinaryOp) -> BindingPower {
    match op {
        BinaryOp::Add | BinaryOp::Sub => BindingPower::Add,
        BinaryOp::Mul | BinaryOp::Div | BinaryOp::Mod => BindingPower::Mul,
        BinaryOp::Or => BindingPower::Or,
        BinaryOp::And => BindingPower::And,
        _ => BindingPower::Primary,
    }
}

/// The handlers for a token that opens an expression.
#[derive(Debug, Clone, Copy, PartialEq, Eq, Structural)]
pub enum NudFn {
    /// `Parser::parse_primary_expr`
    PrimaryExpr,
}

/// The handlers for a token that continues an expression.
#[derive(Debug, Clone, Copy, PartialEq, Eq, Structural)]
pub enum LedFn {
    /// `Parser::parse_binary_expr`
    BinaryExpr,
}

/// Whether a token of this kind can open an expression.
pub open spec fn has_nud(kind: TokenKind) -> bool {
    kind == TokenKind::INTEGER
}

/// Whether a token of this kind can continue an expression.
pub open spec fn has_led(kind: TokenKind) -> bool {
    BindingPower::of_token(kind) != BindingPower::Primary
}

/// What a failed lookup says about the table `table` and the kind `kind`.
pub open spec fn not_found(table: Seq<char>, kind: TokenKind) -> Seq<char> {
    table + " function for token kind "@ + kind.name_of() + " not found"@
}

/// The error for a kind that the table `table` lacks.
fn not_found_error(table: &str, kind: TokenKind) -> (error: LookUpError)
    ensures
        error.detail() == not_found(table@, kind),
{
    let head = labelled(table, " function for token kind ");
    let named = labelled(head.as_str(), kind.name());
    LookUpError::NotFound(labelled(named.as_str(), " not found"))
}

/// The handler for a token of this kind in prefix position.
pub fn get_nud_fn(kind: TokenKind) -> (handler: Result<NudFn, LookUpError>)
    ensures
        has_nud(kind) ==> handler == Ok::<NudFn, LookUpError>(NudFn::PrimaryExpr),
        !has_nud(kind) ==> handler is Err && handler->Err_0.detail() == not_found("Nud"@, kind),
{
    match kind {
        TokenKind::INTEGER => Ok(NudFn::PrimaryExpr),
        _ => Err(not_found_error("Nud", kind)),
    }
}

/// The handler for a token of this kind in infix position.
pub fn get_led_fn(kind: TokenKind) -> (handler: Result<LedFn, LookUpError>)
    ensures
        has_led(kind) ==> handler == Ok::<LedFn, LookUpError>(LedFn::BinaryExpr),
        !has_led(kind) ==> handler is Err && handler->Err_0.detail() == not_found("Led"@, kind),
{
    match kind {
        TokenKind::PLUS | TokenKind::DASH => Ok(LedFn::BinaryExpr),
        TokenKind::STAR | TokenKind::SLASH | TokenKind::MODULO => Ok(LedFn::BinaryExpr),
        TokenKind::VERTICAL_BAR => Ok(LedFn::BinaryExpr),
        TokenKind::AMPER => Ok(LedFn::BinaryExpr),
        _ => Err(not_found_error("Led", kind)),
    }
}

} // verus!
