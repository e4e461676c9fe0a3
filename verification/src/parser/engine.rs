//! The parser's cursor over the tokens.

use vstd::prelude::*;
use crate::lexer::token::Token;

verus! {

/// A borrowed sequence of tokens and a cursor into it.
pub struct Parser<'a> {
    pub tokens: &'a [Token<'a>],
    pub pos: usize,
}

impl<'a> Parser<'a> {
    /// A parser over `tokens` with its cursor at `pos`.
    pub fn new(tokens: &'a [Token<'a>], pos: usize) -> (parser: Parser<'a>)
        ensures
            parser.tokens == tokens,
            parser.pos == pos,
    {
        Parser { tokens, pos }
    }

    /// The number of tokens from the cursor to the end.
    pub open spec fn remaining(&self) -> int {
        if self.pos <= self.tokens@.len() {
            self.tokens@.len() - self.pos
        } else {
            0
        }
    }

    /// The token under the cursor, if the cursor is not at the end.
    pub fn get_current_token(&self) -> (token: Option<&Token<'a>>)
        ensures
            self.pos < self.tokens@.len() ==> token == Some(&self.tokens@[self.pos as int]),
            self.pos >= self.tokens@.len() ==> token is None,
    {
        if self.pos < self.tokens.len() {
            Some(&self.tokens[self.pos])
        } else {
            None
        }
    }

    /// The token `offset` places after the cursor, if there is one.
    pub fn get_k_token(&self, offset: usize) -> (token: Option<&Token<'a>>)
        ensures
            self.pos + offset < self.tokens@.len() ==> token == Some(
                &self.tokens@[self.pos + offset],
            ),
            self.pos + offset >= self.tokens@.len() ==> token is None,
    {
        let len = self.tokens.len();
        match self.pos.checked_add(offset) {
            Some(index) => {
                if index < len {
                    Some(&self.tokens[index])
                } else {
                    None
                }
            },
            None => None,
        }
    }

    /// Moves the cursor one token on, unless it is at the end.
    pub fn advance(&mut self)
        ensures
            final(self).tokens == old(self).tokens,
            final(self).pos == (if old(self).pos < old(self).tokens@.len() {
                old(self).pos + 1
            } else {
                old(self).pos as int
            }),
    {
        if self.pos < self.tokens.len() {
            self.pos += 1;
        }
    }
}

} // verus!
