//! Positions, spans and tokens.

use vstd::prelude::*;
use crate::lexer::token_type::TokenKind;

verus! {

/// A place in the source text: 1-based line and column.
#[derive(Debug, Clone, Copy, PartialEq, Eq, Structural)]
pub struct Position {
    pub line: usize,
    pub column: usize,
}

impl Position {
    /// The position at `line` and `column`.
    pub fn new(line: usize, column: usize) -> (p: Position)
        ensures
            p.line == line,
            p.column == column,
    {
        Position { line, column }
    }

    /// Lines and columns are counted from 1.
    pub open spec fn well_formed(self) -> bool {
        self.line >= 1 && self.column >= 1
    }

    /// Document order: `self` comes no later than `other`.
    pub open spec fn not_after(self, other: Position) -> bool {
        self.line < other.line || (self.line == other.line && self.column <= other.column)
    }
}

/// The stretch of source text between two positions.
#[derive(Debug, Clone, PartialEq, Eq, Copy, Structural)]
pub struct SourceSpan {
    pub start: Position,
    pub end: Position,
}

impl SourceSpan {
    /// The span from `start` to `end`.
    pub fn new(start: Position, end: Position) -> (s: SourceSpan)
        ensures
            s.start == start,
            s.end == end,
    {
        SourceSpan { start, end }
    }

    /// A span is well formed when both its ends are, and its end is not
    /// earlier than its start.
    pub open spec fn well_formed(self) -> bool {
        &&& self.start.well_formed()
        &&& self.end.well_formed()
        &&& self.start.not_after(self.end)
    }

    /// The span of the two together.
    pub open spec fn join(self, other: SourceSpan) -> SourceSpan {
        SourceSpan { start: self.start, end: other.end }
    }

    /// Widens `self` to reach the end of `other`.
    pub fn combine(&self, other: &SourceSpan) -> (s: SourceSpan)
        ensures
            s == self.join(*other),
    {
        SourceSpan { start: self.start, end: other.end }
    }
}

/// Document order is transitive.
pub proof fn lemma_not_after_transitive(a: Position, b: Position, c: Position)
    requires
        a.not_after(b),
        b.not_after(c),
    ensures
        a.not_after(c),
{
}

/// Two well-formed spans, the first of which starts no later than the
/// second ends, join to a well-formed span.
pub proof fn lemma_join_well_formed(first: SourceSpan, second: SourceSpan)
    requires
        first.well_formed(),
        second.well_formed(),
        first.start.not_after(second.end),
    ensures
        first.join(second).well_formed(),
{
}

/// A classified lexeme: its kind, its text and where it stands.
#[derive(Debug, Clone, Copy, PartialEq, Eq)]
pub struct Token<'a> {
    pub kind: TokenKind,
    pub value: &'a str,
    pub span: SourceSpan,
}

impl<'a> Token<'a> {
    /// A token of `kind` with the text `value` at `span`.
    pub fn new(kind: TokenKind, value: &'a str, span: SourceSpan) -> (t: Token<'a>)
        ensures
            t.kind == kind,
            t.value == value,
            t.span == span,
    {
        Token { kind, value, span }
    }
}

} // verus!
