use expr_frontend::lexer::chars::{
    alphabetic, ascii_digit, ascii_letter, blank, get_symbol, numeric, CharClass,
};
use expr_frontend::lexer::engine::Lexer;
use expr_frontend::lexer::errors::LexerError;
use expr_frontend::lexer::text::{same_text, utf8_width};
use expr_frontend::lexer::token::{Position, SourceSpan, Token};
use expr_frontend::lexer::token_type::TokenKind;
use expr_frontend::lexer::tokenize;

fn span(line: usize, from: usize, to: usize) -> SourceSpan {
    SourceSpan::new(Position::new(line, from), Position::new(line, to))
}

fn kinds(source: &str) -> Vec<TokenKind> {
    tokenize(source, "test").unwrap().iter().map(|token| token.kind).collect()
}

fn values(source: &str) -> Vec<String> {
    tokenize(source, "test").unwrap().iter().map(|token| token.value.to_string()).collect()
}

fn earlier_or_same(a: Position, b: Position) -> bool {
    a.line < b.line || (a.line == b.line && a.column <= b.column)
}

const SAMPLES: [&str; 8] = [
    "",
    "1+2*3",
    "  x = 42 ;\n  while (x > 0) { x = x - 1 }\n",
    "func add(a, b) { return a + b }",
    "s = \"hello, world\" + \"\"\n",
    "if a_1 < b2 | c & !d { for [i]: 3.25 % 2. / .5 }",
    "\n\n   \n",
    "caf\u{e9} = \"na\u{ef}ve \u{20ac}\" x_",
];

#[test]
fn lexes_an_arithmetic_expression() {
    let tokens = tokenize("1+2*3", "in.txt").unwrap();
    assert_eq!(
        tokens,
        vec![
            Token::new(TokenKind::INTEGER, "1", span(1, 1, 2)),
            Token::new(TokenKind::PLUS, "+", span(1, 2, 3)),
            Token::new(TokenKind::INTEGER, "2", span(1, 3, 4)),
            Token::new(TokenKind::STAR, "*", span(1, 4, 5)),
            Token::new(TokenKind::INTEGER, "3", span(1, 5, 6)),
        ]
    );
}

#[test]
fn empty_text_has_no_tokens() {
    assert_eq!(tokenize("", "in.txt"), Ok(vec![]));
    assert_eq!(tokenize(" \n \n", "in.txt"), Ok(vec![]));
}

#[test]
fn every_symbol_has_its_kind() {
    assert_eq!(
        kinds("+-*/=%&|(){}[],;:!<>"),
        vec![
            TokenKind::PLUS,
            TokenKind::DASH,
            TokenKind::STAR,
            TokenKind::SLASH,
            TokenKind::EQUAL,
            TokenKind::MODULO,
            TokenKind::AMPER,
            TokenKind::VERTICAL_BAR,
            TokenKind::LPAREN,
            TokenKind::RPAREN,
            TokenKind::LBRACE,
            TokenKind::RBRACE,
            TokenKind::LBRACKET,
            TokenKind::RBRACKET,
            TokenKind::COMMA,
            TokenKind::SEMICOLON,
            TokenKind::COLON,
            TokenKind::NEGATION,
            TokenKind::LESS,
            TokenKind::GREATER,
        ]
    );
    assert_eq!(get_symbol('+'), Some(TokenKind::PLUS));
    assert_eq!(get_symbol('>'), Some(TokenKind::GREATER));
    assert_eq!(get_symbol('.'), None);
    assert_eq!(get_symbol('a'), None);
}

#[test]
fn keywords_are_told_from_identifiers() {
    assert_eq!(
        kinds("if else while for func return function iff"),
        vec![
            TokenKind::IF,
            TokenKind::ELSE,
            TokenKind::WHILE,
            TokenKind::FOR,
            TokenKind::FUNCTION,
            TokenKind::RETURN,
            TokenKind::IDENTIFIER,
            TokenKind::IDENTIFIER,
        ]
    );
    assert_eq!(kinds("If"), vec![TokenKind::IDENTIFIER]);
    assert_eq!(kinds("return_"), vec![TokenKind::IDENTIFIER]);
}

#[test]
fn a_word_takes_letters_digits_and_underscores() {
    assert_eq!(values("a_1b__ c"), vec!["a_1b__", "c"]);
    assert_eq!(values("x1 1x"), vec!["x1", "1", "x"]);
    assert_eq!(kinds("x1 1x"), vec![TokenKind::IDENTIFIER, TokenKind::INTEGER, TokenKind::IDENTIFIER]);
}

#[test]
fn a_word_may_hold_letters_and_numbers_beyond_ascii() {
    let tokens = tokenize("caf\u{e9}\u{663}\u{2167} \u{4eac}", "in.txt").unwrap();
    assert_eq!(
        tokens,
        vec![
            Token::new(TokenKind::IDENTIFIER, "caf\u{e9}\u{663}\u{2167}", span(1, 1, 7)),
            Token::new(TokenKind::IDENTIFIER, "\u{4eac}", span(1, 8, 9)),
        ]
    );
}

#[test]
fn a_number_beyond_ascii_starts_nothing() {
    assert_eq!(
        tokenize("a \u{663}", "in.txt"),
        Err(LexerError::InvalidCharacter {
            context: "a \u{663}",
            filename: "in.txt",
            character: '\u{663}',
            line: 1,
            col: 3,
        })
    );
    // A letter that is a number as well is taken for a number first.
    assert_eq!(
        tokenize("\u{2167}", "in.txt"),
        Err(LexerError::InvalidCharacter {
            context: "\u{2167}",
            filename: "in.txt",
            character: '\u{2167}',
            line: 1,
            col: 1,
        })
    );
}

#[test]
fn floats_hold_one_dot_and_a_digit() {
    assert_eq!(
        tokenize("3.25 2. .5", "in.txt"),
        Ok(vec![
            Token::new(TokenKind::FLOAT, "3.25", span(1, 1, 5)),
            Token::new(TokenKind::FLOAT, "2.", span(1, 6, 8)),
            Token::new(TokenKind::FLOAT, ".5", span(1, 9, 11)),
        ])
    );
    assert_eq!(kinds("12"), vec![TokenKind::INTEGER]);
    assert_eq!(kinds("1.5x"), vec![TokenKind::FLOAT, TokenKind::IDENTIFIER]);
}

#[test]
fn a_second_dot_undoes_the_float() {
    assert_eq!(
        tokenize("1.2.3", "in.txt"),
        Err(LexerError::InvalidCharacter {
            context: "1.",
            filename: "in.txt",
            character: '.',
            line: 1,
            col: 2,
        })
    );
}

#[test]
fn a_dot_without_digits_is_invalid() {
    assert_eq!(
        tokenize("x .", "in.txt"),
        Err(LexerError::InvalidCharacter {
            context: "x .",
            filename: "in.txt",
            character: '.',
            line: 1,
            col: 3,
        })
    );
    assert!(tokenize(". 5", "in.txt").is_err());
}

#[test]
fn string_literals_keep_their_quotes() {
    assert_eq!(
        tokenize("\"a b\" \"\" \"@\u{20ac}\"", "in.txt"),
        Ok(vec![
            Token::new(TokenKind::LITERALSTRING, "\"a b\"", span(1, 1, 6)),
            Token::new(TokenKind::LITERALSTRING, "\"\"", span(1, 7, 9)),
            Token::new(TokenKind::LITERALSTRING, "\"@\u{20ac}\"", span(1, 10, 14)),
        ])
    );
}

#[test]
fn lines_and_columns_follow_line_breaks() {
    assert_eq!(
        tokenize("a\n  b\n\nc d", "in.txt"),
        Ok(vec![
            Token::new(TokenKind::IDENTIFIER, "a", span(1, 1, 2)),
            Token::new(TokenKind::IDENTIFIER, "b", span(2, 3, 4)),
            Token::new(TokenKind::IDENTIFIER, "c", span(4, 1, 2)),
            Token::new(TokenKind::IDENTIFIER, "d", span(4, 3, 4)),
        ])
    );
}

#[test]
fn columns_count_characters_not_bytes() {
    assert_eq!(
        tokenize("\u{e9}\u{e9} + 1", "in.txt"),
        Ok(vec![
            Token::new(TokenKind::IDENTIFIER, "\u{e9}\u{e9}", span(1, 1, 3)),
            Token::new(TokenKind::PLUS, "+", span(1, 4, 5)),
            Token::new(TokenKind::INTEGER, "1", span(1, 6, 7)),
        ])
    );
}

#[test]
fn invalid_character_is_fatal() {
    let error = tokenize("@", "in.txt").unwrap_err();
    assert_eq!(
        error,
        LexerError::InvalidCharacter {
            context: "@",
            filename: "in.txt",
            character: '@',
            line: 1,
            col: 1,
        }
    );
}

#[test]
fn invalid_character_names_its_line_and_column() {
    assert_eq!(
        tokenize("a = 1\nb = 2 # c\n", "in.txt"),
        Err(LexerError::InvalidCharacter {
            context: "b = 2 #",
            filename: "in.txt",
            character: '#',
            line: 2,
            col: 7,
        })
    );
    assert_eq!(
        tokenize("x\ty", "tabs"),
        Err(LexerError::InvalidCharacter {
            context: "x\t",
            filename: "tabs",
            character: '\t',
            line: 1,
            col: 2,
        })
    );
    assert_eq!(
        tokenize("_x", "in.txt"),
        Err(LexerError::InvalidCharacter {
            context: "_",
            filename: "in.txt",
            character: '_',
            line: 1,
            col: 1,
        })
    );
}

#[test]
fn invalid_character_of_several_bytes_is_quoted_whole() {
    assert_eq!(
        tokenize("a \u{20ac} b", "in.txt"),
        Err(LexerError::InvalidCharacter {
            context: "a \u{20ac}",
            filename: "in.txt",
            character: '\u{20ac}',
            line: 1,
            col: 3,
        })
    );
}

#[test]
fn unterminated_string_at_end_of_input() {
    assert_eq!(
        tokenize("\"abc", "in.txt"),
        Err(LexerError::UnterminatedString {
            context: "\"abc",
            filename: "in.txt",
            line: 1,
            col: 1,
        })
    );
}

#[test]
fn unterminated_string_reports_the_opening_quote() {
    let error = tokenize("x = \"abc", "in.txt").unwrap_err();
    assert_eq!(
        error,
        LexerError::UnterminatedString { context: "x = \"abc", filename: "in.txt", line: 1, col: 5 }
    );
}

#[test]
fn a_line_break_ends_a_string_too_early() {
    assert_eq!(
        tokenize("a\n b \"cd\ne\"", "in.txt"),
        Err(LexerError::UnterminatedString {
            context: " b \"cd",
            filename: "in.txt",
            line: 2,
            col: 4,
        })
    );
}

#[test]
fn triple_quote_is_reserved() {
    assert_eq!(
        tokenize("a\nbc \"\"\"text\"\"\"", "in.txt"),
        Err(LexerError::UnexpectedEOF { context: "bc ", filename: "in.txt", line: 2, col: 4 })
    );
    assert_eq!(
        tokenize("\"\"\"\"", "in.txt"),
        Err(LexerError::UnexpectedEOF { context: "", filename: "in.txt", line: 1, col: 1 })
    );
}

#[test]
fn the_first_failure_is_the_one_reported() {
    assert_eq!(
        tokenize("a @ \"b", "in.txt"),
        Err(LexerError::InvalidCharacter {
            context: "a @",
            filename: "in.txt",
            character: '@',
            line: 1,
            col: 3,
        })
    );
    assert_eq!(
        tokenize("a \"b @", "in.txt"),
        Err(LexerError::UnterminatedString {
            context: "a \"b @",
            filename: "in.txt",
            line: 1,
            col: 3,
        })
    );
}

#[test]
fn tokens_and_skipped_blanks_rebuild_the_text() {
    for source in SAMPLES {
        let tokens = tokenize(source, "test").unwrap();
        let mut rebuilt = String::new();
        let mut rest = source;
        for token in &tokens {
            let at = rest.find(token.value).unwrap();
            let (gap, tail) = rest.split_at(at);
            assert!(gap.chars().all(|c| c == ' ' || c == '\n'));
            rebuilt.push_str(gap);
            rebuilt.push_str(token.value);
            rest = &tail[token.value.len()..];
        }
        assert!(rest.chars().all(|c| c == ' ' || c == '\n'));
        rebuilt.push_str(rest);
        assert_eq!(rebuilt, source);
    }
}

#[test]
fn spans_ascend() {
    for source in SAMPLES {
        let tokens = tokenize(source, "test").unwrap();
        for token in &tokens {
            assert!(earlier_or_same(token.span.start, token.span.end));
            assert_eq!(
                token.span.end.column - token.span.start.column,
                token.value.chars().count()
            );
        }
        for pair in tokens.windows(2) {
            assert!(earlier_or_same(pair[0].span.end, pair[1].span.start));
        }
    }
}

#[test]
fn a_lexeme_on_its_own_is_one_token_of_the_same_kind() {
    for source in SAMPLES {
        for token in tokenize(source, "test").unwrap() {
            let alone = tokenize(token.value, "alone").unwrap();
            assert_eq!(alone.len(), 1);
            assert_eq!(alone[0].kind, token.kind);
            assert_eq!(alone[0].value, token.value);
            assert_eq!(alone[0].span.start, Position::new(1, 1));
        }
    }
}

#[test]
fn a_lexer_lexes_once() {
    let mut lexer = Lexer::new("a b", "in.txt");
    assert_eq!(lexer.tokenize().unwrap().len(), 2);
    assert_eq!(lexer.tokenize(), Ok(vec![]));
    let mut failing = Lexer::new("a ?", "in.txt");
    let first = failing.tokenize();
    assert!(first.is_err());
    assert_eq!(failing.tokenize(), first);
}

#[test]
fn span_combine_takes_start_and_end() {
    let a = span(1, 1, 2);
    let b = SourceSpan::new(Position::new(2, 3), Position::new(2, 9));
    assert_eq!(a.combine(&b), SourceSpan::new(Position::new(1, 1), Position::new(2, 9)));
    assert_eq!(b.combine(&a), SourceSpan::new(Position::new(2, 3), Position::new(1, 2)));
}

#[test]
fn character_classes() {
    assert!(ascii_digit('0') && ascii_digit('9') && !ascii_digit('a') && !ascii_digit('\u{663}'));
    assert!(blank(' ') && blank('\n') && !blank('\t') && !blank('\r'));
    assert!(CharClass::Digit.accepts('5') && !CharClass::Digit.accepts('.'));
    assert!(CharClass::Word.accepts('_') && CharClass::Word.accepts('z'));
    assert!(CharClass::Word.accepts('7') && CharClass::Word.accepts('\u{e9}'));
    assert!(CharClass::Word.accepts('\u{663}') && !CharClass::Word.accepts('-'));
    assert!(!CharClass::Word.accepts('\u{20ac}'));
    assert!(CharClass::StringBody.accepts('@') && !CharClass::StringBody.accepts('"'));
    assert!(!CharClass::StringBody.accepts('\n'));
    assert!(ascii_letter('a') && ascii_letter('Z') && !ascii_letter('@') && !ascii_letter('['));
    assert!(!ascii_letter('`') && !ascii_letter('{') && !ascii_letter('\u{e9}'));
}

#[test]
fn letters_and_numbers_agree_with_the_standard_library() {
    let mut sample: Vec<char> = (0u32..0x3000).filter_map(char::from_u32).collect();
    sample.extend(['\u{4eac}', '\u{ff11}', '\u{1d7ce}', '\u{1f49d}', '\u{10ffff}']);
    for c in sample {
        assert_eq!(alphabetic(c), c.is_alphabetic());
        assert_eq!(numeric(c), c.is_numeric());
        assert_eq!(ascii_digit(c), c.is_ascii_digit());
        assert_eq!(ascii_letter(c), c.is_ascii_alphabetic());
        assert_eq!(CharClass::Word.accepts(c), c.is_alphanumeric() || c == '_');
    }
}

#[test]
fn utf8_widths() {
    for c in ['\0', 'a', '\u{7f}', '\u{80}', '\u{7ff}', '\u{800}', '\u{ffff}', '\u{10000}', '\u{10ffff}'] {
        assert_eq!(utf8_width(c), c.len_utf8());
    }
}

#[test]
fn same_text_compares_contents() {
    assert!(same_text("", ""));
    assert!(same_text("func", "func"));
    assert!(!same_text("func", "fun"));
    assert!(!same_text("func", "funk"));
    assert!(same_text("\u{e9}", "\u{e9}"));
    assert!(!same_text("\u{e9}", "e"));
}

#[test]
fn kind_names() {
    assert_eq!(TokenKind::PLUS.name(), "PLUS");
    assert_eq!(TokenKind::VERTICAL_BAR.name(), "VERTICAL_BAR");
    assert_eq!(TokenKind::LITERALSTRING.name(), "LITERALSTRING");
    for kind in [TokenKind::FLOAT, TokenKind::IF, TokenKind::RBRACKET, TokenKind::IDENTIFIER] {
        assert_eq!(kind.name(), format!("{:?}", kind));
    }
}

#[test]
fn a_long_text_lexes_in_one_pass() {
    let line = "caf\u{e9} = \"na\u{ef}ve\" + 3.25 * (x_1 - 42) ;\n";
    let source = line.repeat(20000);
    let tokens = tokenize(&source, "long").unwrap();
    assert_eq!(tokens.len(), 12 * 20000);
    let last = tokens[tokens.len() - 1];
    assert_eq!(last.kind, TokenKind::SEMICOLON);
    assert_eq!(last.span, span(20000, 36, 37));
}
