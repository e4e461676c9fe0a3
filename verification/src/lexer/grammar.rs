//! The lexical grammar, stated over a text as a sequence of characters.
//!
//! Offsets are character indices. `scan` says what stands at an offset,
//! `lex` says what the whole text holds: its lexemes in order, or the first
//! failure. Lines and columns are functions of an offset.

use vstd::prelude::*;
use crate::lexer::chars::{is_alphabetic, is_blank, is_numeric, symbol_kind, CharClass};
use crate::lexer::token::{Position, SourceSpan, Token};
use crate::lexer::token_type::TokenKind;

verus! {

/// The offset at which the line holding offset `p` starts.
pub open spec fn line_start(text: Seq<char>, p: int) -> int
    decreases p,
{
    if p <= 0 {
        0
    } else if text[p - 1] == '\n' {
        p
    } else {
        line_start(text, p - 1)
    }
}

/// The 1-based number of the line holding offset `p`.
pub open spec fn line_of(text: Seq<char>, p: int) -> int
    decreases p,
{
    if p <= 0 {
        1
    } else if text[p - 1] == '\n' {
        line_of(text, p - 1) + 1
    } else {
        line_of(text, p - 1)
    }
}

/// The 1-based column of offset `p` within its line.
pub open spec fn column_of(text: Seq<char>, p: int) -> int {
    p - line_start(text, p) + 1
}

/// Line and column of offset `p`.
pub open spec fn position_at(text: Seq<char>, p: int) -> Position {
    Position { line: line_of(text, p) as usize, column: column_of(text, p) as usize }
}

/// The first offset at or after `from` whose character is outside the class,
/// or the end of the text.
pub open spec fn run_end(text: Seq<char>, from: int, class: CharClass) -> int
    decreases text.len() - from,
{
    if 0 <= from < text.len() && class.admits(text[from]) {
        run_end(text, from + 1, class)
    } else {
        from
    }
}

/// Where the run of decimal digits that starts at `from` ends.
pub open spec fn digits_end(text: Seq<char>, from: int) -> int {
    run_end(text, from, CharClass::Digit)
}

/// Where the run of word characters that starts at `from` ends.
pub open spec fn word_end(text: Seq<char>, from: int) -> int {
    run_end(text, from, CharClass::Word)
}

/// Where the run of characters that may stand inside a string literal,
/// starting at `from`, ends: at a double quote, at a line break, or at the
/// end of the text.
pub open spec fn string_body_end(text: Seq<char>, from: int) -> int {
    run_end(text, from, CharClass::StringBody)
}

/// Whether the character at offset `p` exists and is `c`.
pub open spec fn holds(text: Seq<char>, p: int, c: char) -> bool {
    0 <= p < text.len() && text[p] == c
}

/// Where a float starting at `p` ends: digits around exactly one dot, with
/// at least one digit, and no second dot behind them.
pub open spec fn float_end(text: Seq<char>, p: int) -> Option<int> {
    let dot = digits_end(text, p);
    if holds(text, dot, '.') {
        let end = digits_end(text, dot + 1);
        if holds(text, end, '.') || end - p < 2 {
            None
        } else {
            Some(end)
        }
    } else {
        None
    }
}

/// Where an integer starting at `p` ends: a run of at least one digit.
pub open spec fn integer_end(text: Seq<char>, p: int) -> Option<int> {
    let end = digits_end(text, p);
    if end > p {
        Some(end)
    } else {
        None
    }
}

/// The keyword that `word` spells, or `IDENTIFIER`.
pub open spec fn classify_word(word: Seq<char>) -> TokenKind {
    if word == "if"@ {
        TokenKind::IF
    } else if word == "else"@ {
        TokenKind::ELSE
    } else if word == "while"@ {
        TokenKind::WHILE
    } else if word == "for"@ {
        TokenKind::FOR
    } else if word == "func"@ {
        TokenKind::FUNCTION
    } else if word == "return"@ {
        TokenKind::RETURN
    } else {
        TokenKind::IDENTIFIER
    }
}

/// Whether three double quotes stand at `p`.
pub open spec fn opens_triple_quote(text: Seq<char>, p: int) -> bool {
    holds(text, p, '"') && holds(text, p + 1, '"') && holds(text, p + 2, '"')
}

/// What stands at an offset of the text.
pub enum Scan {
    /// A lexeme of this kind, ending before `end`.
    Lexeme { kind: TokenKind, end: int },
    /// A blank, which is skipped.
    Blank,
    /// A character with which nothing can start.
    Invalid,
    /// The opening of a multi-line string, which is reserved.
    TripleQuote,
    /// A string literal whose line or text ends at `stop` before it closes.
    Unterminated { stop: int },
}

/// What stands at offset `p`, by the rules in their order of priority:
/// a number, a word, a string literal, a symbol, a blank.
pub open spec fn scan(text: Seq<char>, p: int) -> Scan {
    let c = text[p];
    if is_numeric(c) || c == '.' {
        match float_end(text, p) {
            Some(end) => Scan::Lexeme { kind: TokenKind::FLOAT, end },
            None => match integer_end(text, p) {
                Some(end) => Scan::Lexeme { kind: TokenKind::INTEGER, end },
                None => Scan::Invalid,
            },
        }
    } else if is_alphabetic(c) {
        let end = word_end(text, p);
        Scan::Lexeme { kind: classify_word(text.subrange(p, end)), end }
    } else if c == '"' {
        if opens_triple_quote(text, p) {
            Scan::TripleQuote
        } else {
            let stop = string_body_end(text, p + 1);
            if holds(text, stop, '"') {
                Scan::Lexeme { kind: TokenKind::LITERALSTRING, end: stop + 1 }
            } else {
                Scan::Unterminated { stop }
            }
        }
    } else if symbol_kind(c) is Some {
        Scan::Lexeme { kind: symbol_kind(c)->0, end: p + 1 }
    } else if is_blank(c) {
        Scan::Blank
    } else {
        Scan::Invalid
    }
}

/// A lexeme: a kind and the offsets between which its text stands.
pub struct Lexeme {
    pub kind: TokenKind,
    pub start: int,
    pub end: int,
}

impl Lexeme {
    /// The text of the lexeme.
    pub open spec fn value(self, text: Seq<char>) -> Seq<char> {
        text.subrange(self.start, self.end)
    }

    /// The span of the lexeme.
    pub open spec fn span(self, text: Seq<char>) -> SourceSpan {
        span_between(text, self.start, self.end)
    }

    /// Whether `token` is this lexeme of `text`: its kind, its text and its
    /// span.
    pub open spec fn yields(self, text: Seq<char>, token: Token) -> bool {
        &&& token.kind == self.kind
        &&& token.value@ == self.value(text)
        &&& token.span == self.span(text)
    }
}

/// Whether `tokens` are the `lexemes` of `text`, one for one and in order.
pub open spec fn tokens_spell(tokens: Seq<Token>, text: Seq<char>, lexemes: Seq<Lexeme>) -> bool {
    &&& tokens.len() == lexemes.len()
    &&& forall|i: int|
        #![trigger lexemes[i]]
        #![trigger tokens[i]]
        0 <= i < lexemes.len() ==> lexemes[i].yields(text, tokens[i])
}

/// The three ways in which lexing fails.
pub enum Fault {
    InvalidCharacter,
    UnexpectedEof,
    UnterminatedString,
}

/// A failure: what went wrong, the offset `at` which it is reported, and the
/// offset `stop` up to which the line is quoted.
pub struct Failure {
    pub fault: Fault,
    pub at: int,
    pub stop: int,
}

/// The lexemes of the text from offset `p` on, or the first failure.
pub open spec fn lex_from(text: Seq<char>, p: int) -> Result<Seq<Lexeme>, Failure>
    decreases text.len() - p,
    via lex_from_decreases
{
    if p < 0 || p >= text.len() {
        Ok(Seq::empty())
    } else {
        match scan(text, p) {
            Scan::Lexeme { kind, end } => match lex_from(text, end) {
                Ok(rest) => Ok(seq![Lexeme { kind, start: p, end }] + rest),
                Err(failure) => Err(failure),
            },
            Scan::Blank => lex_from(text, p + 1),
            Scan::Invalid => Err(Failure { fault: Fault::InvalidCharacter, at: p, stop: p + 1 }),
            Scan::TripleQuote => Err(Failure { fault: Fault::UnexpectedEof, at: p, stop: p }),
            Scan::Unterminated { stop } => Err(
                Failure { fault: Fault::UnterminatedString, at: p, stop },
            ),
        }
    }
}

#[via_fn]
proof fn lex_from_decreases(text: Seq<char>, p: int) {
    if 0 <= p < text.len() {
        lemma_scan_advances(text, p);
    }
}

/// The lexemes of the whole text, or the first failure.
pub open spec fn lex(text: Seq<char>) -> Result<Seq<Lexeme>, Failure> {
    lex_from(text, 0)
}

/// The span of the text between two offsets.
pub open spec fn span_between(text: Seq<char>, start: int, end: int) -> SourceSpan {
    SourceSpan { start: position_at(text, start), end: position_at(text, end) }
}

/// A line starts at or before each of its offsets.
pub proof fn lemma_line_start_bounds(text: Seq<char>, p: int)
    requires
        0 <= p,
    ensures
        0 <= line_start(text, p) <= p,
        1 <= line_of(text, p) <= p + 1,
        1 <= column_of(text, p) <= p + 1,
    decreases p,
{
    if p > 0 {
        lemma_line_start_bounds(text, p - 1);
    }
}

/// Two offsets with no line break between them are on the same line.
pub proof fn lemma_same_line(text: Seq<char>, p: int, q: int)
    requires
        0 <= p <= q,
        forall|i: int| p <= i < q ==> #[trigger] text[i] != '\n',
    ensures
        line_start(text, q) == line_start(text, p),
        line_of(text, q) == line_of(text, p),
        column_of(text, q) == column_of(text, p) + (q - p),
    decreases q - p,
{
    if p < q {
        assert(text[q - 1] != '\n');
        lemma_same_line(text, p, q - 1);
    }
}

/// Blanks between two offsets leave no trace in what the text holds.
pub proof fn lemma_skip_blanks(text: Seq<char>, p: int, q: int)
    requires
        0 <= p <= q <= text.len(),
        forall|i: int| p <= i < q ==> is_blank(#[trigger] text[i]),
    ensures
        lex_from(text, p) == lex_from(text, q),
    decreases q - p,
{
    if p < q {
        assert(is_blank(text[p]));
        assert(scan(text, p) == Scan::Blank);
        lemma_skip_blanks(text, p + 1, q);
    }
}

/// A run ends within the text, holds only characters of the class, and
/// stops at the first character outside it.
pub proof fn lemma_run_end(text: Seq<char>, from: int, class: CharClass)
    requires
        0 <= from <= text.len(),
    ensures
        from <= run_end(text, from, class) <= text.len(),
        forall|i: int| from <= i < run_end(text, from, class) ==> class.admits(#[trigger] text[i]),
        run_end(text, from, class) < text.len() ==> !class.admits(text[run_end(text, from, class)]),
    decreases text.len() - from,
{
    if from < text.len() && class.admits(text[from]) {
        lemma_run_end(text, from + 1, class);
    }
}

/// A run is the same from any offset inside it.
pub proof fn lemma_run_end_from_inside(
    text: Seq<char>,
    from: int,
    mid: int,
    class: CharClass,
)
    requires
        0 <= from <= mid <= text.len(),
        forall|i: int| from <= i < mid ==> class.admits(#[trigger] text[i]),
    ensures
        run_end(text, from, class) == run_end(text, mid, class),
    decreases mid - from,
{
    if from < mid {
        assert(class.admits(text[from]));
        lemma_run_end_from_inside(text, from + 1, mid, class);
    }
}

/// A lexeme found at an offset within the text is not empty and ends
/// within the text; an unterminated string stops within the text.
pub proof fn lemma_scan_advances(text: Seq<char>, p: int)
    requires
        0 <= p < text.len(),
    ensures
        scan(text, p) matches Scan::Lexeme { end, .. } ==> p < end <= text.len(),
        scan(text, p) matches Scan::Unterminated { stop } ==> p < stop <= text.len(),
{
    let c = text[p];
    lemma_run_end(text, p, CharClass::Digit);
    let dot = digits_end(text, p);
    if dot < text.len() {
        lemma_run_end(text, dot + 1, CharClass::Digit);
    }
    lemma_run_end(text, p, CharClass::Word);
    lemma_run_end(text, p + 1, CharClass::StringBody);
}

} // verus!
