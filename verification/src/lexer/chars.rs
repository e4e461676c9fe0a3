//! Character classes of the lexical grammar.

use vstd::prelude::*;
use crate::lexer::token_type::TokenKind;

verus! {

/// Whether a character has the Unicode property `Alphabetic`, as the
/// standard library reports it.
pub uninterp spec fn unicode_alphabetic(c: char) -> bool;

/// Whether a character is in one of the Unicode general categories for
/// numbers (`Nd`, `Nl`, `No`), as the standard library reports it.
pub uninterp spec fn unicode_numeric(c: char) -> bool;

/// Whether `c` is one of the 128 ASCII characters.
pub open spec fn is_ascii(c: char) -> bool {
    c <= '\u{7f}'
}

/// Whether `c` is one of the decimal digits `0` to `9`.
pub open spec fn is_ascii_digit(c: char) -> bool {
    '0' <= c <= '9'
}

/// Whether `c` is one of the Latin letters `a` to `z` and `A` to `Z`.
pub open spec fn is_ascii_letter(c: char) -> bool {
    ('a' <= c <= 'z') || ('A' <= c <= 'Z')
}

/// A letter: within ASCII the 52 Latin letters, beyond it whatever Unicode
/// calls alphabetic.
pub open spec fn is_alphabetic(c: char) -> bool {
    if is_ascii(c) {
        is_ascii_letter(c)
    } else {
        unicode_alphabetic(c)
    }
}

/// A numeric character: within ASCII the ten digits, beyond it whatever
/// Unicode puts in a number category.
pub open spec fn is_numeric(c: char) -> bool {
    if is_ascii(c) {
        is_ascii_digit(c)
    } else {
        unicode_numeric(c)
    }
}

/// A character that may continue an identifier.
pub open spec fn is_word_char(c: char) -> bool {
    is_alphabetic(c) || is_numeric(c) || c == '_'
}

/// A character that may stand inside a string literal.
pub open spec fn is_string_body(c: char) -> bool {
    c != '"' && c != '\n'
}

/// The classes of characters of which lexemes hold runs.
#[derive(Debug, Clone, Copy)]
pub enum CharClass {
    Digit,
    Word,
    StringBody,
}

impl CharClass {
    /// Whether `c` belongs to the class.
    pub open spec fn admits(self, c: char) -> bool {
        match self {
            CharClass::Digit => is_ascii_digit(c),
            CharClass::Word => is_word_char(c),
            CharClass::StringBody => is_string_body(c),
        }
    }
}

/// A character the lexer skips between tokens.
pub open spec fn is_blank(c: char) -> bool {
    c == ' ' || c == '\n'
}

/// The one-character operators and punctuation marks, each with its kind.
pub open spec fn symbol_kind(c: char) -> Option<TokenKind> {
    match c {
        '+' => Some(TokenKind::PLUS),
        '-' => Some(TokenKind::DASH),
        '*' => Some(TokenKind::STAR),
        '/' => Some(TokenKind::SLASH),
        '=' => Some(TokenKind::EQUAL),
        '%' => Some(TokenKind::MODULO),
        '&' => Some(TokenKind::AMPER),
        '|' => Some(TokenKind::VERTICAL_BAR),
        '(' => Some(TokenKind::LPAREN),
        ')' => Some(TokenKind::RPAREN),
        '{' => Some(TokenKind::LBRACE),
        '}' => Some(TokenKind::RBRACE),
        '[' => Some(TokenKind::LBRACKET),
        ']' => Some(TokenKind::RBRACKET),
        ',' => Some(TokenKind::COMMA),
        ';' => Some(TokenKind::SEMICOLON),
        ':' => Some(TokenKind::COLON),
        '!' => Some(TokenKind::NEGATION),
        '<' => Some(TokenKind::LESS),
        '>' => Some(TokenKind::GREATER),
        _ => None,
    }
}

/// `char::is_alphabetic` of the standard library, which tells whether a
/// character has the Unicode property `Alphabetic`. The contract only names
/// the answer: it is the same for the same character.
#[verifier::external_body]
fn has_alphabetic_property(c: char) -> (b: bool)
    ensures
        b == unicode_alphabetic(c),
{
    c.is_alphabetic()
}

/// `char::is_numeric` of the standard library, which tells whether a
/// character is in one of the Unicode general categories for numbers. The
/// contract only names the answer: it is the same for the same character.
#[verifier::external_body]
fn has_number_category(c: char) -> (b: bool)
    ensures
        b == unicode_numeric(c),
{
    c.is_numeric()
}

/// Whether `c` is a Latin letter.
pub fn ascii_letter(c: char) -> (b: bool)
    ensures
        b == is_ascii_letter(c),
{
    ('a' <= c && c <= 'z') || ('A' <= c && c <= 'Z')
}

/// Whether `c` is a letter. An ASCII character is judged here; for any
/// other the Unicode tables are asked.
pub fn alphabetic(c: char) -> (b: bool)
    ensures
        b == is_alphabetic(c),
{
    if c <= '\u{7f}' {
        ascii_letter(c)
    } else {
        has_alphabetic_property(c)
    }
}

/// Whether `c` is numeric. An ASCII character is judged here; for any
/// other the Unicode tables are asked.
pub fn numeric(c: char) -> (b: bool)
    ensures
        b == is_numeric(c),
{
    if c <= '\u{7f}' {
        ascii_digit(c)
    } else {
        has_number_category(c)
    }
}

/// Whether `c` is a decimal digit.
pub fn ascii_digit(c: char) -> (b: bool)
    ensures
        b == is_ascii_digit(c),
{
    '0' <= c && c <= '9'
}

impl CharClass {
    /// Whether `c` belongs to the class.
    pub fn accepts(self, c: char) -> (b: bool)
        ensures
            b == self.admits(c),
    {
        match self {
            CharClass::Digit => ascii_digit(c),
            CharClass::Word => alphabetic(c) || numeric(c) || c == '_',
            CharClass::StringBody => c != '"' && c != '\n',
        }
    }
}

/// Whether `c` is skipped between tokens.
pub fn blank(c: char) -> (b: bool)
    ensures
        b == is_blank(c),
{
    c == ' ' || c == '\n'
}

/// Looks a character up in the symbol table.
pub fn get_symbol(c: char) -> (kind: Option<TokenKind>)
    ensures
        kind == symbol_kind(c),
{
    match c {
        '+' => Some(TokenKind::PLUS),
        '-' => Some(TokenKind::DASH),
        '*' => Some(TokenKind::STAR),
        '/' => Some(TokenKind::SLASH),
        '=' => Some(TokenKind::EQUAL),
        '%' => Some(TokenKind::MODULO),
        '&' => Some(TokenKind::AMPER),
        '|' => Some(TokenKind::VERTICAL_BAR),
        '(' => Some(TokenKind::LPAREN),
        ')' => Some(TokenKind::RPAREN),
        '{' => Some(TokenKind::LBRACE),
        '}' => Some(TokenKind::RBRACE),
        '[' => Some(TokenKind::LBRACKET),
        ']' => Some(TokenKind::RBRACKET),
        ',' => Some(TokenKind::COMMA),
        ';' => Some(TokenKind::SEMICOLON),
        ':' => Some(TokenKind::COLON),
        '!' => Some(TokenKind::NEGATION),
        '<' => Some(TokenKind::LESS),
        '>' => Some(TokenKind::GREATER),
        _ => None,
    }
}

} // verus!
