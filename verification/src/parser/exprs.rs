//! Precedence climbing.

use vstd::prelude::*;
use vstd::string::StringExecFns;
use crate::lexer::token::Token;
use crate::lexer::token_type::TokenKind;
use crate::nodes::exprs::{BinaryExpr, BinaryOp, Expr, LiteralExpr, LiteralValue};
use crate::parser::engine::Parser;
use crate::parser::errors::{labelled, ParserError};
use crate::parser::grammar::{
    climb, expression, lemma_parse_advances, operation, primary, ParseFailure,
};
use crate::parser::laws::{
    holds_unary, in_order, items_between, lemma_expression_keeps_tokens,
    lemma_expression_no_unary, lemma_expression_respects_precedence, respects_precedence,
};
use crate::parser::literal::parse_i128;
use crate::parser::lookups::{get_led_fn, BindingPower, LedFn};

verus! {

impl<'a> Parser<'a> {
    /// Parses the primary under the cursor: an integer literal. On failure
    /// the cursor stays where it was.
    pub fn parse_primary_expr(p: &mut Parser<'a>) -> (result: Result<Expr, ParserError>)
        ensures
            final(p).tokens == old(p).tokens,
            match primary(old(p).tokens@, old(p).pos as int) {
                Ok((expr, next)) => result == Ok::<Expr, ParserError>(expr) && final(p).pos
                    == next,
                Err(failure) => result is Err && failure.is_reported_by(result->Err_0)
                    && final(p).pos == failure.at,
            },
    {
        let token: Token<'a> = match p.get_current_token() {
            Some(token) => *token,
            None => {
                return Err(
                    ParserError::UnexpectedToken(String::from_str("Expected a primary expression")),
                );
            },
        };
        match token.kind {
            TokenKind::INTEGER => {
                match parse_i128(token.value) {
                    Some(value) => {
                        p.advance();
                        Ok(Expr::Literal(LiteralExpr::new(LiteralValue::Int(value), token.span)))
                    },
                    None => Err(
                        ParserError::InvalidExpression(
                            labelled("Failed to parse integer literal: ", token.value),
                        ),
                    ),
                }
            },
            _ => Err(
                ParserError::UnexpectedToken(
                    labelled("Unsupported primary expression token: ", token.kind.name()),
                ),
            ),
        }
    }

    /// Parses the expression under the cursor at level `bp`: a primary and
    /// the operations behind it that bind more tightly than `bp`. On
    /// success the cursor is behind the expression; on failure it is on the
    /// token at which parsing failed. The tree holds what the tokens of the
    /// expression stand for, in their order; it respects precedence, groups
    /// to the left, and holds no unary node.
    pub fn parse_expr(p: &mut Parser<'a>, bp: BindingPower) -> (result: Result<Expr, ParserError>)
        ensures
            final(p).tokens == old(p).tokens,
            match expression(old(p).tokens@, old(p).pos as int, bp) {
                Ok((expr, next)) => result == Ok::<Expr, ParserError>(expr) && final(p).pos
                    == next,
                Err(failure) => result is Err && failure.is_reported_by(result->Err_0)
                    && final(p).pos == failure.at,
            },
            result matches Ok(expr) ==> {
                &&& in_order(expr) == items_between(
                    old(p).tokens@,
                    old(p).pos as int,
                    final(p).pos as int,
                )
                &&& respects_precedence(expr)
                &&& !holds_unary(expr)
            },
        decreases old(p).remaining(), 2int,
    {
        let ghost tokens = p.tokens@;
        proof {
            if expression(tokens, p.pos as int, bp) is Ok {
                lemma_expression_keeps_tokens(tokens, p.pos as int, bp);
                lemma_expression_respects_precedence(tokens, p.pos as int, bp);
                lemma_expression_no_unary(tokens, p.pos as int, bp);
            }
        }
        let ghost start = p.pos as int;
        let mut left = match Self::parse_primary_expr(p) {
            Ok(left) => left,
            Err(error) => {
                return Err(error);
            },
        };
        loop
            invariant
                p.tokens == old(p).tokens,
                tokens == p.tokens@,
                start == old(p).pos,
                start < p.pos <= tokens.len(),
                expression(tokens, start, bp) == climb(tokens, p.pos as int, bp, left),
            ensures
                expression(tokens, start, bp) == Ok::<(Expr, int), ParseFailure>(
                    (left, p.pos as int),
                ),
            decreases p.remaining(),
        {
            let kind = match p.get_current_token() {
                Some(token) => token.kind,
                None => {
                    break ;
                },
            };
            let power = BindingPower::from_token(kind);
            if bp.rank() >= power.rank() {
                break ;
            }
            proof {
                lemma_parse_advances(tokens, p.pos as int, bp, left);
            }
            let handler = match get_led_fn(kind) {
                Ok(handler) => handler,
                Err(error) => {
                    return Err(ParserError::from(error));
                },
            };
            left =
            match handler {
                LedFn::BinaryExpr => match Self::parse_binary_expr(p, power, left) {
                    Ok(joined) => joined,
                    Err(error) => {
                        return Err(error);
                    },
                },
            };
        }
        Ok(left)
    }

    /// Parses the operation under the cursor on `left`: the operator there
    /// and, as its right operand, the expression behind it at the
    /// operator's own level. The level at which the operator was found plays
    /// no part. On failure the cursor is on the token at which
    /// parsing failed.
    pub fn parse_binary_expr(p: &mut Parser<'a>, _bp: BindingPower, left: Expr) -> (result: Result<
        Expr,
        ParserError,
    >)
        requires
            old(p).pos < old(p).tokens@.len() ==> BinaryOp::is_operator(
                old(p).tokens@[old(p).pos as int].kind,
            ),
        ensures
            final(p).tokens == old(p).tokens,
            match operation(old(p).tokens@, old(p).pos as int, left) {
                Ok((expr, next)) => result == Ok::<Expr, ParserError>(expr) && final(p).pos
                    == next,
                Err(failure) => result is Err && failure.is_reported_by(result->Err_0)
                    && final(p).pos == failure.at,
            },
        decreases old(p).remaining(), 0int,
    {
        let op: Token<'a> = match p.get_current_token() {
            Some(token) => *token,
            None => {
                return Err(
                    ParserError::UnexpectedToken(String::from_str("Expected a binary operator")),
                );
            },
        };
        p.advance();
        let right_bp = BindingPower::from_token(op.kind);
        let right = match Self::parse_expr(p, right_bp) {
            Ok(right) => right,
            Err(error) => {
                return Err(error);
            },
        };
        Ok(
            Expr::Binary(
                BinaryExpr {
                    left: Box::new(left),
                    op: BinaryOp::from_token(op.kind),
                    right: Box::new(right),
                    type_info: None,
                },
            ),
        )
    }
}

} // verus!
