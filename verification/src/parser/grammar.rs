//! The expression grammar, stated over a sequence of tokens.
//!
//! An expression is a primary followed by any number of operations, each an
//! infix operator and its right operand. An operand takes in the operations
//! that bind more tightly than the operator before it, so operators of one
//! level group to the left and tighter ones nest inside looser ones.

use vstd::prelude::*;
use crate::lexer::token::{SourceSpan, Token};
use crate::lexer::token_type::TokenKind;
use crate::nodes::exprs::{BinaryExpr, BinaryOp, Expr, LiteralExpr, LiteralValue};
use crate::parser::errors::ParserError;
use crate::parser::literal::i128_value;
use crate::parser::lookups::BindingPower;

verus! {

/// The ways in which parsing fails.
pub enum ParseFault {
    /// The tokens end where an expression must start.
    MissingPrimary,
    /// An integer literal does not fit in 128 bits.
    BadInteger { lexeme: Seq<char> },
    /// A token of this kind cannot start an expression.
    UnsupportedPrimary { kind: TokenKind },
    /// The tokens end where an operator must stand.
    MissingOperator,
}

/// A failure: what went wrong, and the index of the token at which.
pub struct ParseFailure {
    pub fault: ParseFault,
    pub at: int,
}

impl ParseFailure {
    /// Whether `error` is the report of this failure.
    pub open spec fn is_reported_by(self, error: ParserError) -> bool {
        match self.fault {
            ParseFault::MissingPrimary => error matches ParserError::UnexpectedToken(detail)
                && detail@ == "Expected a primary expression"@,
            ParseFault::BadInteger { lexeme } => error matches ParserError::InvalidExpression(
                detail,
            ) && detail@ == "Failed to parse integer literal: "@ + lexeme,
            ParseFault::UnsupportedPrimary { kind } => error matches ParserError::UnexpectedToken(
                detail,
            ) && detail@ == "Unsupported primary expression token: "@ + kind.name_of(),
            ParseFault::MissingOperator => error matches ParserError::UnexpectedToken(detail)
                && detail@ == "Expected a binary operator"@,
        }
    }
}

/// What parsing gives: an expression and the index of the first token
/// behind it, or a failure.
pub type Parsed = Result<(Expr, int), ParseFailure>;

/// The node for an integer literal.
pub open spec fn integer(value: i128, span: SourceSpan) -> Expr {
    Expr::Literal(LiteralExpr { value: LiteralValue::Int(value), type_info: None, span })
}

/// The node for two operands joined by an operator.
pub open spec fn binary(left: Expr, op: BinaryOp, right: Expr) -> Expr {
    Expr::Binary(BinaryExpr { left: Box::new(left), op, right: Box::new(right), type_info: None })
}

/// The primary at `pos`: an integer literal.
pub open spec fn primary(tokens: Seq<Token>, pos: int) -> Parsed {
    if !(0 <= pos < tokens.len()) {
        Err(ParseFailure { fault: ParseFault::MissingPrimary, at: pos })
    } else if tokens[pos].kind == TokenKind::INTEGER {
        match i128_value(tokens[pos].value@) {
            Some(value) => Ok((integer(value, tokens[pos].span), pos + 1)),
            None => Err(
                ParseFailure { fault: ParseFault::BadInteger { lexeme: tokens[pos].value@ }, at: pos },
            ),
        }
    } else {
        Err(
            ParseFailure {
                fault: ParseFault::UnsupportedPrimary { kind: tokens[pos].kind },
                at: pos,
            },
        )
    }
}

/// Whether the token at `pos` continues an expression parsed at level
/// `min`: it is an operator that binds more tightly than `min`.
pub open spec fn continues(tokens: Seq<Token>, pos: int, min: BindingPower) -> bool {
    0 <= pos < tokens.len() && min.rank_of() < BindingPower::of_token(tokens[pos].kind).rank_of()
}

/// The expression at `pos`, parsed at level `min`: a primary and the
/// operations behind it that bind more tightly than `min`.
pub open spec fn expression(tokens: Seq<Token>, pos: int, min: BindingPower) -> Parsed
    decreases tokens.len() - pos, 2int,
{
    match primary(tokens, pos) {
        Ok((left, next)) => climb(tokens, next, min, left),
        Err(failure) => Err(failure),
    }
}

/// `left` extended by the operations at `pos` that bind more tightly than
/// `min`, each taking the result so far as its left operand.
pub open spec fn climb(tokens: Seq<Token>, pos: int, min: BindingPower, left: Expr) -> Parsed
    decreases tokens.len() - pos, 1int,
{
    if !continues(tokens, pos, min) {
        Ok((left, pos))
    } else {
        match operation(tokens, pos, left) {
            Ok((joined, next)) => if pos < next <= tokens.len() {
                climb(tokens, next, min, joined)
            } else {
                // Never taken: an operation takes at least its operator.
                Ok((joined, next))
            },
            Err(failure) => Err(failure),
        }
    }
}

/// The operation at `pos` on `left`: the operator there, and as right
/// operand the expression behind it, parsed at the operator's own level.
pub open spec fn operation(tokens: Seq<Token>, pos: int, left: Expr) -> Parsed
    decreases tokens.len() - pos, 0int,
{
    if !(0 <= pos < tokens.len()) {
        Err(ParseFailure { fault: ParseFault::MissingOperator, at: pos })
    } else {
        let kind = tokens[pos].kind;
        match expression(tokens, pos + 1, BindingPower::of_token(kind)) {
            Ok((right, next)) => Ok((binary(left, BinaryOp::of_token(kind)->0, right), next)),
            Err(failure) => Err(failure),
        }
    }
}

/// Parsing moves forward and stays within the tokens: an expression and an
/// operation take at least one token, and a failure is at or behind the
/// index at which parsing began.
pub proof fn lemma_parse_advances(tokens: Seq<Token>, pos: int, min: BindingPower, left: Expr)
    requires
        0 <= pos,
    ensures
        expression(tokens, pos, min) matches Ok((_, next)) ==> pos < next <= tokens.len(),
        expression(tokens, pos, min) matches Err(failure) ==> pos <= failure.at,
        operation(tokens, pos, left) matches Ok((_, next)) ==> pos < next <= tokens.len(),
        operation(tokens, pos, left) matches Err(failure) ==> pos <= failure.at,
        climb(tokens, pos, min, left) matches Ok((_, next)) ==> pos <= next && (pos
            <= tokens.len() ==> next <= tokens.len()),
        climb(tokens, pos, min, left) matches Err(failure) ==> pos <= failure.at,
    decreases tokens.len() - pos, 3int,
{
    lemma_expression_advances(tokens, pos, min);
    lemma_operation_advances(tokens, pos, left);
    lemma_climb_advances(tokens, pos, min, left);
}

/// An expression takes at least one token.
proof fn lemma_expression_advances(tokens: Seq<Token>, pos: int, min: BindingPower)
    requires
        0 <= pos,
    ensures
        expression(tokens, pos, min) matches Ok((_, next)) ==> pos < next <= tokens.len(),
        expression(tokens, pos, min) matches Err(failure) ==> pos <= failure.at,
    decreases tokens.len() - pos, 2int,
{
    if let Ok((left, next)) = primary(tokens, pos) {
        lemma_climb_advances(tokens, next, min, left);
    }
}

/// Climbing never moves back.
proof fn lemma_climb_advances(tokens: Seq<Token>, pos: int, min: BindingPower, left: Expr)
    requires
        0 <= pos,
    ensures
        climb(tokens, pos, min, left) matches Ok((_, next)) ==> pos <= next && (pos
            <= tokens.len() ==> next <= tokens.len()),
        climb(tokens, pos, min, left) matches Err(failure) ==> pos <= failure.at,
    decreases tokens.len() - pos, 1int,
{
    if continues(tokens, pos, min) {
        lemma_operation_advances(tokens, pos, left);
        if let Ok((joined, next)) = operation(tokens, pos, left) {
            lemma_climb_advances(tokens, next, min, joined);
        }
    }
}

/// An operation takes at least its operator.
proof fn lemma_operation_advances(tokens: Seq<Token>, pos: int, left: Expr)
    requires
        0 <= pos,
    ensures
        operation(tokens, pos, left) matches Ok((_, next)) ==> pos < next <= tokens.len(),
        operation(tokens, pos, left) matches Err(failure) ==> pos <= failure.at,
    decreases tokens.len() - pos, 0int,
{
    if pos < tokens.len() {
        lemma_expression_advances(
            tokens,
            pos + 1,
            BindingPower::of_token(tokens[pos].kind),
        );
    }
}

} // verus!
