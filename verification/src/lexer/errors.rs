//! The fatal lexical errors.

use vstd::prelude::*;
use crate::lexer::grammar::{column_of, line_of, line_start, Failure, Fault};

verus! {

/// Why lexing stopped. `context` is the source line from its start up to
/// the failure; `line` and `col` are 1-based.
#[derive(Debug, Clone, Copy, PartialEq, Eq)]
pub enum LexerError<'a> {
    InvalidCharacter { context: &'a str, filename: &'a str, character: char, line: usize, col: usize },
    UnexpectedEOF { context: &'a str, filename: &'a str, line: usize, col: usize },
    UnterminatedString { context: &'a str, filename: &'a str, line: usize, col: usize },
}

impl<'a> LexerError<'a> {
    /// What went wrong.
    pub open spec fn fault(self) -> Fault {
        match self {
            LexerError::InvalidCharacter { .. } => Fault::InvalidCharacter,
            LexerError::UnexpectedEOF { .. } => Fault::UnexpectedEof,
            LexerError::UnterminatedString { .. } => Fault::UnterminatedString,
        }
    }

    /// The source line, from its start up to the failure.
    pub open spec fn context(self) -> Seq<char> {
        match self {
            LexerError::InvalidCharacter { context, .. } => context@,
            LexerError::UnexpectedEOF { context, .. } => context@,
            LexerError::UnterminatedString { context, .. } => context@,
        }
    }

    /// The name of the file the text came from.
    pub open spec fn filename(self) -> Seq<char> {
        match self {
            LexerError::InvalidCharacter { filename, .. } => filename@,
            LexerError::UnexpectedEOF { filename, .. } => filename@,
            LexerError::UnterminatedString { filename, .. } => filename@,
        }
    }

    /// The line of the failure, counted from 1.
    pub open spec fn line(self) -> int {
        match self {
            LexerError::InvalidCharacter { line, .. } => line as int,
            LexerError::UnexpectedEOF { line, .. } => line as int,
            LexerError::UnterminatedString { line, .. } => line as int,
        }
    }

    /// The column of the failure, counted from 1.
    pub open spec fn col(self) -> int {
        match self {
            LexerError::InvalidCharacter { col, .. } => col as int,
            LexerError::UnexpectedEOF { col, .. } => col as int,
            LexerError::UnterminatedString { col, .. } => col as int,
        }
    }

    /// Whether this error is the report of `failure` in `text`, read from
    /// the file `filename`: the same fault, the line and column of the
    /// offset at which it is reported, the line quoted from its start up to
    /// where the failure stops, and the offending character where there is
    /// one.
    pub open spec fn reports(self, text: Seq<char>, filename: Seq<char>, failure: Failure) -> bool {
        &&& self.fault() == failure.fault
        &&& self.filename() == filename
        &&& self.line() == line_of(text, failure.at)
        &&& self.col() == column_of(text, failure.at)
        &&& self.context() == text.subrange(line_start(text, failure.at), failure.stop)
        &&& self matches LexerError::InvalidCharacter { character, .. } ==> character
            == text[failure.at]
    }
}

} // verus!
