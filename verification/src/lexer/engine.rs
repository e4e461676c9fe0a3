//! The lexer: a single pass over the text, one character at a time.

use vstd::prelude::*;
use vstd::utf8::encode_utf8;
use crate::lexer::chars::{
    alphabetic, blank, get_symbol, is_alphabetic, is_blank, numeric, symbol_kind, CharClass,
};
use crate::lexer::errors::LexerError;
use crate::lexer::grammar::{
    classify_word, column_of, digits_end, float_end, holds, integer_end, lemma_line_start_bounds,
    lemma_run_end, lemma_same_line, lemma_scan_advances, lemma_skip_blanks, lex_from, line_of,
    line_start, opens_triple_quote, run_end, string_body_end, tokens_spell, word_end, Failure,
    Fault, Lexeme,
};
use crate::lexer::text::{
    byte_offset, char_at, lemma_byte_offset_bounds, lemma_byte_offset_monotonic,
    lemma_byte_offset_step, same_text, slice, utf8_width,
};
use crate::lexer::token::{Position, SourceSpan, Token};
use crate::lexer::token_type::TokenKind;

verus! {

/// A lexer over one text. It keeps the cursor as a byte offset, together
/// with the line and column there and the byte offset at which the line
/// started.
pub struct Lexer<'a> {
    filename: &'a str,
    text: &'a str,
    len_text: usize,
    curr_start_line: usize,
    pos: usize,
    line: usize,
    col: usize,
    cursor: Ghost<int>,
}

/// The lexemes found so far, followed by what the rest of the text holds.
spec fn followed_by(done: Seq<Lexeme>, rest: Result<Seq<Lexeme>, Failure>) -> Result<
    Seq<Lexeme>,
    Failure,
> {
    match rest {
        Ok(more) => Ok(done + more),
        Err(failure) => Err(failure),
    }
}

impl<'a> Lexer<'a> {
    /// The text being lexed.
    pub closed spec fn text(&self) -> Seq<char> {
        self.text@
    }

    /// The name of the file the text came from.
    pub closed spec fn filename(&self) -> Seq<char> {
        self.filename@
    }

    /// The character index of the cursor.
    pub closed spec fn offset(&self) -> int {
        self.cursor@
    }

    /// The cursor lies within the text, and the byte offsets, the line and
    /// the column are those of the cursor.
    pub closed spec fn wf(&self) -> bool {
        &&& 0 <= self.cursor@ <= self.text@.len()
        &&& self.len_text == encode_utf8(self.text@).len()
        &&& self.pos == byte_offset(self.text@, self.cursor@)
        &&& self.curr_start_line == byte_offset(self.text@, line_start(self.text@, self.cursor@))
        &&& self.line == line_of(self.text@, self.cursor@)
        &&& self.col == column_of(self.text@, self.cursor@)
    }

    /// A lexer at the start of `text`.
    pub fn new(text: &'a str, filename: &'a str) -> (lexer: Lexer<'a>)
        ensures
            lexer.wf(),
            lexer.text() == text@,
            lexer.filename() == filename@,
            lexer.offset() == 0,
    {
        proof {
            lemma_byte_offset_bounds(text@, 0);
        }
        Lexer {
            filename,
            text,
            len_text: text.as_bytes().len(),
            curr_start_line: 0,
            pos: 0,
            line: 1,
            col: 1,
            cursor: Ghost(0),
        }
    }

    /// The cursor is at the last byte offset only at the end of the text.
    proof fn lemma_end_of_text(&self)
        requires
            self.wf(),
        ensures
            self.pos == self.len_text ==> self.offset() == self.text().len(),
    {
        lemma_byte_offset_monotonic(self.text@, self.cursor@, self.text@.len() as int);
        lemma_byte_offset_bounds(self.text@, self.text@.len() as int);
    }

    /// The character under the cursor.
    fn peek(&self) -> (c: Option<char>)
        requires
            self.wf(),
        ensures
            c == (if self.offset() < self.text().len() {
                Some(self.text()[self.offset()])
            } else {
                None
            }),
    {
        char_at(self.text, self.pos, Ghost(self.cursor@))
    }

    /// Steps over the character `c` under the cursor, which is no line break.
    fn advance(&mut self, c: char)
        requires
            old(self).wf(),
            old(self).text().len() < usize::MAX,
            old(self).offset() < old(self).text().len(),
            c == old(self).text()[old(self).offset()],
            c != '\n',
        ensures
            final(self).wf(),
            final(self).text() == old(self).text(),
            final(self).filename() == old(self).filename(),
            final(self).offset() == old(self).offset() + 1,
            line_of(old(self).text(), final(self).offset()) == line_of(
                old(self).text(),
                old(self).offset(),
            ),
    {
        proof {
            lemma_byte_offset_step(self.text@, self.cursor@);
            lemma_byte_offset_bounds(self.text@, self.cursor@ + 1);
            lemma_line_start_bounds(self.text@, self.cursor@);
        }
        self.pos += utf8_width(c);
        self.col += 1;
        self.cursor = Ghost(self.cursor@ + 1);
    }

    /// Steps over the line break under the cursor and starts a new line.
    fn newline(&mut self)
        requires
            old(self).wf(),
            old(self).text().len() < usize::MAX,
            old(self).offset() < old(self).text().len(),
            old(self).text()[old(self).offset()] == '\n',
        ensures
            final(self).wf(),
            final(self).text() == old(self).text(),
            final(self).filename() == old(self).filename(),
            final(self).offset() == old(self).offset() + 1,
    {
        proof {
            lemma_byte_offset_step(self.text@, self.cursor@);
            lemma_byte_offset_bounds(self.text@, self.cursor@ + 1);
            lemma_line_start_bounds(self.text@, self.cursor@);
        }
        self.pos += utf8_width('\n');
        self.line += 1;
        self.col = 1;
        self.curr_start_line = self.pos;
        self.cursor = Ghost(self.cursor@ + 1);
    }

    /// Where the run of `class` that starts at character index `k`, byte
    /// offset `pos`, ends: the byte offset, and the number of characters in
    /// the run.
    fn run(&self, class: CharClass, pos: usize, Ghost(k): Ghost<int>) -> (r: (usize, usize))
        requires
            self.wf(),
            0 <= k <= self.text().len(),
            pos == byte_offset(self.text(), k),
        ensures
            r.0 == byte_offset(self.text(), run_end(self.text(), k, class)),
            r.1 == run_end(self.text(), k, class) - k,
    {
        let mut end = pos;
        let mut count: usize = 0;
        proof {
            lemma_run_end(self.text@, k, class);
        }
        loop
            invariant
                self.wf(),
                0 <= k <= k + count <= self.text@.len(),
                end == byte_offset(self.text@, k + count),
                run_end(self.text@, k, class) == run_end(self.text@, k + count, class),
            ensures
                end == byte_offset(self.text@, run_end(self.text@, k, class)),
                count == run_end(self.text@, k, class) - k,
            decreases self.text@.len() - (k + count),
        {
            match char_at(self.text, end, Ghost(k + count)) {
                Some(c) => {
                    if !class.accepts(c) {
                        break ;
                    }
                    proof {
                        lemma_byte_offset_step(self.text@, k + count);
                        lemma_byte_offset_bounds(self.text@, k + count + 1);
                        lemma_byte_offset_bounds(self.text@, self.text@.len() as int);
                    }
                    end += utf8_width(c);
                    count += 1;
                },
                None => {
                    break ;
                },
            }
        }
        (end, count)
    }

    /// Moves the cursor `count` characters ahead to byte offset `pos`, over
    /// characters that hold no line break.
    fn jump(&mut self, pos: usize, count: usize)
        requires
            old(self).wf(),
            old(self).text().len() < usize::MAX,
            old(self).offset() + count <= old(self).text().len(),
            pos == byte_offset(old(self).text(), old(self).offset() + count),
            forall|i: int|
                old(self).offset() <= i < old(self).offset() + count ==> #[trigger] old(
                    self,
                ).text()[i] != '\n',
        ensures
            final(self).wf(),
            final(self).text() == old(self).text(),
            final(self).filename() == old(self).filename(),
            final(self).offset() == old(self).offset() + count,
            line_of(old(self).text(), final(self).offset()) == line_of(
                old(self).text(),
                old(self).offset(),
            ),
    {
        proof {
            lemma_same_line(self.text@, self.cursor@, self.cursor@ + count);
            lemma_line_start_bounds(self.text@, self.cursor@);
        }
        self.pos = pos;
        self.col += count;
        self.cursor = Ghost(self.cursor@ + count);
    }

    /// The token for the lexeme of `kind` that starts at byte offset
    /// `start_pos`, column `start_col`, and ends at the cursor.
    fn emit(&self, kind: TokenKind, start_pos: usize, start_col: usize, Ghost(start): Ghost<int>) -> (token: Token<'a>)
        requires
            self.wf(),
            0 <= start <= self.offset(),
            start_pos == byte_offset(self.text(), start),
            start_col == column_of(self.text(), start),
            line_of(self.text(), start) == line_of(self.text(), self.offset()),
        ensures
            (Lexeme { kind, start, end: self.offset() }).yields(self.text(), token),
    {
        let span = SourceSpan::new(
            Position::new(self.line, start_col),
            Position::new(self.line, self.col),
        );
        let value = slice(self.text, start_pos, self.pos, Ghost(start), Ghost(self.cursor@));
        Token::new(kind, value, span)
    }

    /// The error for the character `c` under the cursor, with which nothing
    /// can start.
    fn invalid_character(&self, c: char) -> (error: LexerError<'a>)
        requires
            self.wf(),
            self.offset() < self.text().len(),
            c == self.text()[self.offset()],
        ensures
            error.reports(
                self.text(),
                self.filename(),
                Failure { fault: Fault::InvalidCharacter, at: self.offset(), stop: self.offset() + 1 },
            ),
    {
        proof {
            lemma_byte_offset_step(self.text@, self.cursor@);
            lemma_byte_offset_bounds(self.text@, self.cursor@ + 1);
            lemma_line_start_bounds(self.text@, self.cursor@);
        }
        let context = slice(
            self.text,
            self.curr_start_line,
            self.pos + utf8_width(c),
            Ghost(line_start(self.text@, self.cursor@)),
            Ghost(self.cursor@ + 1),
        );
        LexerError::InvalidCharacter {
            context,
            filename: self.filename,
            character: c,
            line: self.line,
            col: self.col,
        }
    }

    /// A float at the cursor, if one stands there.
    fn token_float(&mut self) -> (token: Option<Token<'a>>)
        requires
            old(self).wf(),
            old(self).text().len() < usize::MAX,
        ensures
            final(self).wf(),
            final(self).text() == old(self).text(),
            final(self).filename() == old(self).filename(),
            match float_end(old(self).text(), old(self).offset()) {
                Some(end) => token is Some && final(self).offset() == end && (Lexeme {
                    kind: TokenKind::FLOAT,
                    start: old(self).offset(),
                    end,
                }).yields(old(self).text(), token->0),
                None => token is None && final(self).offset() == old(self).offset(),
            },
    {
        let start_pos = self.pos;
        let start_col = self.col;
        let ghost start = self.cursor@;
        let ghost dot = digits_end(self.text@, start);
        let (dot_pos, before) = self.run(CharClass::Digit, start_pos, Ghost(start));
        proof {
            lemma_run_end(self.text@, start, CharClass::Digit);
        }
        match char_at(self.text, dot_pos, Ghost(dot)) {
            Some('.') => {
                proof {
                    lemma_byte_offset_step(self.text@, dot);
                    lemma_byte_offset_bounds(self.text@, dot + 1);
                    lemma_run_end(self.text@, dot + 1, CharClass::Digit);
                }
                let ghost end = digits_end(self.text@, dot + 1);
                let (end_pos, after) = self.run(CharClass::Digit, dot_pos + utf8_width('.'), Ghost(dot + 1));
                match char_at(self.text, end_pos, Ghost(end)) {
                    Some('.') => None,
                    _ => {
                        if before == 0 && after == 0 {
                            None
                        } else {
                            self.jump(end_pos, before + 1 + after);
                            Some(self.emit(TokenKind::FLOAT, start_pos, start_col, Ghost(start)))
                        }
                    },
                }
            },
            _ => None,
        }
    }

    /// An integer at the cursor, if one stands there.
    fn token_integer(&mut self) -> (token: Option<Token<'a>>)
        requires
            old(self).wf(),
            old(self).text().len() < usize::MAX,
        ensures
            final(self).wf(),
            final(self).text() == old(self).text(),
            final(self).filename() == old(self).filename(),
            match integer_end(old(self).text(), old(self).offset()) {
                Some(end) => token is Some && final(self).offset() == end && (Lexeme {
                    kind: TokenKind::INTEGER,
                    start: old(self).offset(),
                    end,
                }).yields(old(self).text(), token->0),
                None => token is None && final(self).offset() == old(self).offset(),
            },
    {
        let start_pos = self.pos;
        let start_col = self.col;
        let ghost start = self.cursor@;
        let (end_pos, count) = self.run(CharClass::Digit, start_pos, Ghost(start));
        if count == 0 {
            return None;
        }
        proof {
            lemma_run_end(self.text@, start, CharClass::Digit);
        }
        self.jump(end_pos, count);
        Some(self.emit(TokenKind::INTEGER, start_pos, start_col, Ghost(start)))
    }

    /// A number at the cursor: a float if one stands there, else an integer.
    fn token_number(&mut self) -> (token: Option<Token<'a>>)
        requires
            old(self).wf(),
            old(self).text().len() < usize::MAX,
        ensures
            final(self).wf(),
            final(self).text() == old(self).text(),
            final(self).filename() == old(self).filename(),
            match float_end(old(self).text(), old(self).offset()) {
                Some(end) => token is Some && final(self).offset() == end && (Lexeme {
                    kind: TokenKind::FLOAT,
                    start: old(self).offset(),
                    end,
                }).yields(old(self).text(), token->0),
                None => match integer_end(old(self).text(), old(self).offset()) {
                    Some(end) => token is Some && final(self).offset() == end && (Lexeme {
                        kind: TokenKind::INTEGER,
                        start: old(self).offset(),
                        end,
                    }).yields(old(self).text(), token->0),
                    None => token is None && final(self).offset() == old(self).offset(),
                },
            },
    {
        if let Some(float) = self.token_float() {
            return Some(float);
        }
        self.token_integer()
    }

    /// The keyword that `word` spells, or `IDENTIFIER`.
    fn keyword_or_identifier(word: &str) -> (kind: TokenKind)
        ensures
            kind == classify_word(word@),
    {
        if same_text(word, "if") {
            TokenKind::IF
        } else if same_text(word, "else") {
            TokenKind::ELSE
        } else if same_text(word, "while") {
            TokenKind::WHILE
        } else if same_text(word, "for") {
            TokenKind::FOR
        } else if same_text(word, "func") {
            TokenKind::FUNCTION
        } else if same_text(word, "return") {
            TokenKind::RETURN
        } else {
            TokenKind::IDENTIFIER
        }
    }

    /// The word at the cursor, which stands on a letter: a keyword or an
    /// identifier.
    fn token_identifier(&mut self) -> (token: Token<'a>)
        requires
            old(self).wf(),
            old(self).text().len() < usize::MAX,
            old(self).offset() < old(self).text().len(),
            is_alphabetic(old(self).text()[old(self).offset()]),
        ensures
            final(self).wf(),
            final(self).text() == old(self).text(),
            final(self).filename() == old(self).filename(),
            final(self).offset() == word_end(old(self).text(), old(self).offset()),
            (Lexeme {
                kind: classify_word(
                    old(self).text().subrange(old(self).offset(), final(self).offset()),
                ),
                start: old(self).offset(),
                end: final(self).offset(),
            }).yields(old(self).text(), token),
    {
        let start_pos = self.pos;
        let start_col = self.col;
        let ghost start = self.cursor@;
        let (end_pos, count) = self.run(CharClass::Word, start_pos, Ghost(start));
        proof {
            lemma_run_end(self.text@, start, CharClass::Word);
        }
        self.jump(end_pos, count);
        let word = slice(self.text, start_pos, self.pos, Ghost(start), Ghost(self.cursor@));
        let kind = Self::keyword_or_identifier(word);
        self.emit(kind, start_pos, start_col, Ghost(start))
    }

    /// The string literal at the cursor, which stands on a double quote.
    /// The literal ends with the next double quote; where the line or the
    /// text ends first, the string is unterminated and the cursor stays.
    fn token_string(&mut self) -> (token: Result<Token<'a>, LexerError<'a>>)
        requires
            old(self).wf(),
            old(self).text().len() < usize::MAX,
            holds(old(self).text(), old(self).offset(), '"'),
        ensures
            final(self).wf(),
            final(self).text() == old(self).text(),
            final(self).filename() == old(self).filename(),
            ({
                let text = old(self).text();
                let start = old(self).offset();
                let stop = string_body_end(text, start + 1);
                if holds(text, stop, '"') {
                    &&& token is Ok
                    &&& final(self).offset() == stop + 1
                    &&& (Lexeme { kind: TokenKind::LITERALSTRING, start, end: stop + 1 }).yields(
                        text,
                        token->Ok_0,
                    )
                } else {
                    &&& token is Err
                    &&& final(self).offset() == start
                    &&& token->Err_0.reports(
                        text,
                        old(self).filename(),
                        Failure { fault: Fault::UnterminatedString, at: start, stop },
                    )
                }
            }),
    {
        let start_pos = self.pos;
        let start_col = self.col;
        let ghost start = self.cursor@;
        let ghost stop = string_body_end(self.text@, start + 1);
        proof {
            lemma_byte_offset_step(self.text@, start);
            lemma_byte_offset_bounds(self.text@, start + 1);
            lemma_run_end(self.text@, start + 1, CharClass::StringBody);
            lemma_line_start_bounds(self.text@, start);
        }
        let (stop_pos, body) = self.run(CharClass::StringBody, start_pos + utf8_width('"'), Ghost(start + 1));
        match char_at(self.text, stop_pos, Ghost(stop)) {
            Some('"') => {
                proof {
                    lemma_byte_offset_step(self.text@, stop);
                    lemma_byte_offset_bounds(self.text@, stop + 1);
                }
                self.jump(stop_pos + utf8_width('"'), body + 2);
                Ok(self.emit(TokenKind::LITERALSTRING, start_pos, start_col, Ghost(start)))
            },
            _ => {
                let context = slice(
                    self.text,
                    self.curr_start_line,
                    stop_pos,
                    Ghost(line_start(self.text@, start)),
                    Ghost(stop),
                );
                Err(
                    LexerError::UnterminatedString {
                        context,
                        filename: self.filename,
                        line: self.line,
                        col: start_col,
                    },
                )
            },
        }
    }

    /// Whether three double quotes stand at the cursor.
    fn at_triple_quote(&self) -> (b: bool)
        requires
            self.wf(),
        ensures
            b == opens_triple_quote(self.text(), self.offset()),
    {
        let ghost k = self.cursor@;
        match char_at(self.text, self.pos, Ghost(k)) {
            Some('"') => {
                proof {
                    lemma_byte_offset_step(self.text@, k);
                    lemma_byte_offset_bounds(self.text@, k + 1);
                }
                let second = self.pos + utf8_width('"');
                match char_at(self.text, second, Ghost(k + 1)) {
                    Some('"') => {
                        proof {
                            lemma_byte_offset_step(self.text@, k + 1);
                            lemma_byte_offset_bounds(self.text@, k + 2);
                        }
                        let third = second + utf8_width('"');
                        match char_at(self.text, third, Ghost(k + 2)) {
                            Some('"') => true,
                            _ => false,
                        }
                    },
                    _ => false,
                }
            },
            _ => false,
        }
    }

    /// The multi-line string at the cursor. The form is reserved: it always
    /// fails.
    fn token_string_multi(&self) -> (token: Result<Token<'a>, LexerError<'a>>)
        requires
            self.wf(),
        ensures
            token is Err,
            token->Err_0.reports(
                self.text(),
                self.filename(),
                Failure { fault: Fault::UnexpectedEof, at: self.offset(), stop: self.offset() },
            ),
    {
        proof {
            lemma_line_start_bounds(self.text@, self.cursor@);
        }
        let context = slice(
            self.text,
            self.curr_start_line,
            self.pos,
            Ghost(line_start(self.text@, self.cursor@)),
            Ghost(self.cursor@),
        );
        Err(
            LexerError::UnexpectedEOF {
                context,
                filename: self.filename,
                line: self.line,
                col: self.col,
            },
        )
    }

    /// The symbol under the cursor, if the character there is one.
    fn token_symbols(&mut self) -> (token: Option<Token<'a>>)
        requires
            old(self).wf(),
            old(self).text().len() < usize::MAX,
            old(self).offset() < old(self).text().len(),
        ensures
            final(self).wf(),
            final(self).text() == old(self).text(),
            final(self).filename() == old(self).filename(),
            match symbol_kind(old(self).text()[old(self).offset()]) {
                Some(kind) => token is Some && final(self).offset() == old(self).offset() + 1 && (
                Lexeme { kind, start: old(self).offset(), end: old(self).offset() + 1 }).yields(
                    old(self).text(),
                    token->0,
                ),
                None => token is None && final(self).offset() == old(self).offset(),
            },
    {
        let start_pos = self.pos;
        let start_col = self.col;
        let ghost start = self.cursor@;
        let c = self.peek()?;
        let kind = get_symbol(c)?;
        self.advance(c);
        Some(self.emit(kind, start_pos, start_col, Ghost(start)))
    }

    /// Skips the blanks at the cursor, counting lines.
    fn trash(&mut self)
        requires
            old(self).wf(),
            old(self).text().len() < usize::MAX,
        ensures
            final(self).wf(),
            final(self).text() == old(self).text(),
            final(self).filename() == old(self).filename(),
            old(self).offset() <= final(self).offset() <= old(self).text().len(),
            forall|i: int|
                old(self).offset() <= i < final(self).offset() ==> is_blank(
                    #[trigger] old(self).text()[i],
                ),
            final(self).offset() < old(self).text().len() ==> !is_blank(
                old(self).text()[final(self).offset()],
            ),
    {
        loop
            invariant
                self.wf(),
                self.text() == old(self).text(),
                self.filename() == old(self).filename(),
                self.text().len() < usize::MAX,
                old(self).offset() <= self.offset() <= self.text().len(),
                forall|i: int|
                    old(self).offset() <= i < self.offset() ==> is_blank(
                        #[trigger] self.text()[i],
                    ),
            ensures
                self.offset() < self.text().len() ==> !is_blank(self.text()[self.offset()]),
            decreases self.text().len() - self.offset(),
        {
            match self.peek() {
                Some(' ') => {
                    self.advance(' ');
                },
                Some('\n') => {
                    self.newline();
                },
                _ => {
                    break ;
                },
            }
        }
    }

    /// Lexes the text from the cursor to its end. On success the tokens are
    /// the lexemes that the text holds from the cursor on, and the cursor is
    /// at the end; on failure the error reports the first failure, and the
    /// cursor is at the offset at which it is reported.
    pub fn tokenize(&mut self) -> (result: Result<Vec<Token<'a>>, LexerError<'a>>)
        requires
            old(self).wf(),
            old(self).text().len() < usize::MAX,
        ensures
            final(self).wf(),
            final(self).text() == old(self).text(),
            final(self).filename() == old(self).filename(),
            match result {
                Ok(tokens) => {
                    &&& lex_from(old(self).text(), old(self).offset()) is Ok
                    &&& tokens_spell(
                        tokens@,
                        old(self).text(),
                        lex_from(old(self).text(), old(self).offset())->Ok_0,
                    )
                    &&& final(self).offset() == old(self).text().len()
                },
                Err(error) => {
                    &&& lex_from(old(self).text(), old(self).offset()) is Err
                    &&& error.reports(
                        old(self).text(),
                        old(self).filename(),
                        lex_from(old(self).text(), old(self).offset())->Err_0,
                    )
                    &&& final(self).offset() == lex_from(
                        old(self).text(),
                        old(self).offset(),
                    )->Err_0.at
                },
            },
    {
        let mut vector: Vec<Token<'a>> = Vec::new();
        let ghost text = self.text@;
        let ghost start = self.cursor@;
        let ghost mut lexemes: Seq<Lexeme> = Seq::empty();
        proof {
            assert(lexemes + lex_from(text, start)->Ok_0 =~= lex_from(text, start)->Ok_0);
            self.lemma_end_of_text();
        }
        while self.pos != self.len_text
            invariant
                self.wf(),
                self.text() == text,
                text == old(self).text(),
                self.filename() == old(self).filename(),
                text.len() < usize::MAX,
                start == old(self).offset(),
                tokens_spell(vector@, text, lexemes),
                lex_from(text, start) == followed_by(lexemes, lex_from(text, self.offset())),
                self.pos == self.len_text ==> self.offset() == text.len(),
            ensures
                self.offset() == text.len(),
            decreases text.len() - self.offset(),
        {
            let ghost here = self.cursor@;
            let c = match self.peek() {
                Some(c) => c,
                None => {
                    break ;
                },
            };
            proof {
                lemma_scan_advances(text, here);
            }
            let token = if numeric(c) || c == '.' {
                match self.token_number() {
                    Some(token) => token,
                    None => {
                        return Err(self.invalid_character(c));
                    },
                }
            } else if alphabetic(c) {
                self.token_identifier()
            } else if c == '"' {
                if self.at_triple_quote() {
                    self.token_string_multi()?
                } else {
                    self.token_string()?
                }
            } else if let Some(token) = self.token_symbols() {
                token
            } else if blank(c) {
                self.trash();
                proof {
                    lemma_skip_blanks(text, here, self.cursor@);
                    self.lemma_end_of_text();
                }
                continue ;
            } else {
                return Err(self.invalid_character(c));
            };
            proof {
                let lexeme = Lexeme { kind: token.kind, start: here, end: self.cursor@ };
                let rest = lex_from(text, self.cursor@);
                assert(lex_from(text, here) == followed_by(seq![lexeme], rest));
                if rest is Ok {
                    assert(lexemes + (seq![lexeme] + rest->Ok_0) =~= lexemes.push(lexeme)
                        + rest->Ok_0);
                }
                lexemes = lexemes.push(lexeme);
                self.lemma_end_of_text();
            }
            vector.push(token);
        }
        proof {
            assert(lexemes + Seq::<Lexeme>::empty() =~= lexemes);
        }
        Ok(vector)
    }
}

} // verus!
