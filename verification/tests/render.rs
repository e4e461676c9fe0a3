use expr_frontend::lexer::errors::LexerError;
use expr_frontend::lexer::render::{decimal, line_number, spaces};
use expr_frontend::lexer::tokenize;
use owo_colors::OwoColorize;

#[test]
fn decimal_numbers() {
    assert_eq!(decimal(0), "0");
    assert_eq!(decimal(7), "7");
    assert_eq!(decimal(10), "10");
    assert_eq!(decimal(1234567890), "1234567890");
    assert_eq!(decimal(usize::MAX), usize::MAX.to_string());
}

#[test]
fn line_numbers_are_three_wide() {
    assert_eq!(line_number(0), "  0");
    assert_eq!(line_number(9), "  9");
    assert_eq!(line_number(10), " 10");
    assert_eq!(line_number(99), " 99");
    assert_eq!(line_number(100), "100");
    assert_eq!(line_number(12345), "12345");
}

#[test]
fn runs_of_spaces() {
    assert_eq!(spaces(0), "");
    assert_eq!(spaces(1), " ");
    assert_eq!(spaces(5), "     ");
}

#[test]
fn invalid_character_is_rendered_in_colour() {
    let error = tokenize("@", "in.txt").unwrap_err();
    assert_eq!(
        error.render(),
        "\x1b[31minvalid character\x1b[39m @\n\
         \x1b[34min.txt\x1b[39m:\x1b[32m1\x1b[39m:\x1b[37m1\x1b[39m\n\
         |\n\
         \x1b[32m  1\x1b[39m | @\n\
         |     ^ \x1b[31minvalid character\x1b[39m\n"
    );
}

#[test]
fn unterminated_string_is_rendered_in_colour() {
    let error = tokenize("x = \"abc", "in.txt").unwrap_err();
    assert_eq!(
        error.render(),
        "\x1b[31mUnterminated String literal\x1b[39m\n \
         --> \x1b[34min.txt\x1b[39m:\x1b[32m1\x1b[39m:5\n  \
         |\n\
         \x1b[32m  1\x1b[39m | x = \"abc\n  \
         |      ^ \x1b[31munterminated string\x1b[39m\n"
    );
}

#[test]
fn unexpected_eof_is_rendered_in_colour() {
    let error = tokenize("ab \"\"\"", "in.txt").unwrap_err();
    assert_eq!(
        error.render(),
        "\x1b[31munexpected EOF\x1b[39m\n\
         --> in.txt:1:4\n  \
         |\n\
         \x1b[32m  1\x1b[39m | ab \n  \
         |     ^ \x1b[31munexpected EOF\x1b[39m\n"
    );
}

#[test]
fn rendering_agrees_with_the_formatting_machinery() {
    let (context, filename, character, line, col) = ("let x = 1 $", "dir/src.lang", '$', 123usize, 11usize);
    let error = LexerError::InvalidCharacter { context, filename, character, line, col };
    let mut expected = format!("{} {}\n", "invalid character".red(), character);
    expected += &format!("{}:{}:{}\n", filename.blue(), line.green(), col.white());
    expected += &format!("|\n{:>3} | {}\n", line.green(), context);
    expected += &format!("| {:>width$}^ {}\n", "", "invalid character".red(), width = col + 3);
    assert_eq!(error.render(), expected);

    let (line, col) = (7usize, 1usize);
    let error = LexerError::UnexpectedEOF { context, filename, line, col };
    let mut expected = format!("{}\n", "unexpected EOF".red());
    expected += &format!("--> {}:{}:{}\n", filename, line, col);
    expected += &format!("  |\n{:>3} | {}\n", line.green(), context);
    expected += &format!("  | {:>width$}^ {}\n", "", "unexpected EOF".red(), width = col);
    assert_eq!(error.render(), expected);

    let (line, col) = (42usize, 30usize);
    let error = LexerError::UnterminatedString { context, filename, line, col };
    let mut expected = format!("{}\n", "Unterminated String literal".red());
    expected += &format!(" --> {}:{}:{}\n", filename.blue(), line.green(), col);
    expected += &format!("  |\n{:>3} | {}\n", line.green(), context);
    expected += &format!("  | {:>width$}^ {}\n", "", "unterminated string".red(), width = col);
    assert_eq!(error.render(), expected);
}
