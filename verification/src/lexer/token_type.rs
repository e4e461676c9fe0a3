//! The lexical categories.

use vstd::prelude::*;

verus! {

/// The closed set of lexical categories a lexeme can belong to.
#[allow(non_camel_case_types)]
#[derive(Debug, Copy, Clone, PartialEq, Eq, Hash, Structural)]
pub enum TokenKind {
    FLOAT,
    INTEGER,
    PLUS,
    STAR,
    EQUAL,
    MODULO,
    SLASH,
    DASH,
    AMPER,
    GREATER,
    LESS,
    NEGATION,
    VERTICAL_BAR,
    SEMICOLON,
    IF,
    ELSE,
    FOR,
    WHILE,
    FUNCTION,
    RETURN,
    LPAREN,
    RPAREN,
    LBRACE,
    RBRACE,
    LBRACKET,
    RBRACKET,
    COMMA,
    COLON,
    IDENTIFIER,
    LITERALSTRING,
}

impl TokenKind {
    /// The name of the kind, as diagnostics print it.
    pub open spec fn name_of(self) -> Seq<char> {
        match self {
            TokenKind::FLOAT => "FLOAT"@,
            TokenKind::INTEGER => "INTEGER"@,
            TokenKind::PLUS => "PLUS"@,
            TokenKind::STAR => "STAR"@,
            TokenKind::EQUAL => "EQUAL"@,
            TokenKind::MODULO => "MODULO"@,
            TokenKind::SLASH => "SLASH"@,
            TokenKind::DASH => "DASH"@,
            TokenKind::AMPER => "AMPER"@,
            TokenKind::GREATER => "GREATER"@,
            TokenKind::LESS => "LESS"@,
            TokenKind::NEGATION => "NEGATION"@,
            TokenKind::VERTICAL_BAR => "VERTICAL_BAR"@,
            TokenKind::SEMICOLON => "SEMICOLON"@,
            TokenKind::IF => "IF"@,
            TokenKind::ELSE => "ELSE"@,
            TokenKind::FOR => "FOR"@,
            TokenKind::WHILE => "WHILE"@,
            TokenKind::FUNCTION => "FUNCTION"@,
            TokenKind::RETURN => "RETURN"@,
            TokenKind::LPAREN => "LPAREN"@,
            TokenKind::RPAREN => "RPAREN"@,
            TokenKind::LBRACE => "LBRACE"@,
            TokenKind::RBRACE => "RBRACE"@,
            TokenKind::LBRACKET => "LBRACKET"@,
            TokenKind::RBRACKET => "RBRACKET"@,
            TokenKind::COMMA => "COMMA"@,
            TokenKind::COLON => "COLON"@,
            TokenKind::IDENTIFIER => "IDENTIFIER"@,
            TokenKind::LITERALSTRING => "LITERALSTRING"@,
        }
    }

    /// The name of the kind, as diagnostics print it.
    pub fn name(self) -> (name: &'static str)
        ensures
            name@ == self.name_of(),
    {
        match self {
            TokenKind::FLOAT => "FLOAT",
            TokenKind::INTEGER => "INTEGER",
            TokenKind::PLUS => "PLUS",
            TokenKind::STAR => "STAR",
            TokenKind::EQUAL => "EQUAL",
            TokenKind::MODULO => "MODULO",
            TokenKind::SLASH => "SLASH",
            TokenKind::DASH => "DASH",
            TokenKind::AMPER => "AMPER",
            TokenKind::GREATER => "GREATER",
            TokenKind::LESS => "LESS",
            TokenKind::NEGATION => "NEGATION",
            TokenKind::VERTICAL_BAR => "VERTICAL_BAR",
            TokenKind::SEMICOLON => "SEMICOLON",
            TokenKind::IF => "IF",
            TokenKind::ELSE => "ELSE",
            TokenKind::FOR => "FOR",
            TokenKind::WHILE => "WHILE",
            TokenKind::FUNCTION => "FUNCTION",
            TokenKind::RETURN => "RETURN",
            TokenKind::LPAREN => "LPAREN",
            TokenKind::RPAREN => "RPAREN",
            TokenKind::LBRACE => "LBRACE",
            TokenKind::RBRACE => "RBRACE",
            TokenKind::LBRACKET => "LBRACKET",
            TokenKind::RBRACKET => "RBRACKET",
            TokenKind::COMMA => "COMMA",
            TokenKind::COLON => "COLON",
            TokenKind::IDENTIFIER => "IDENTIFIER",
            TokenKind::LITERALSTRING => "LITERALSTRING",
        }
    }
}

} // verus!
