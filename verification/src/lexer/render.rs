//! Lexical errors as printed diagnostics.

use vstd::prelude::*;
use vstd::string::StringExecFns;
use crate::lexer::errors::LexerError;
use crate::lexer::paint::{blue, green, painted, red, white};

verus! {

/// `String::push` of the standard library: it appends the character to the
/// end of the string.
pub assume_specification[ std::string::String::push ](s: &mut std::string::String, c: char)
    ensures
        final(s)@ == old(s)@.push(c),
;

/// The character for the digit `d`.
pub open spec fn digit_char(d: int) -> char {
    ('0' as int + d) as char
}

/// The number `n` in decimal, without leading zeros.
pub open spec fn decimal_of(n: nat) -> Seq<char>
    decreases n,
{
    if n < 10 {
        seq![digit_char(n as int)]
    } else {
        decimal_of(n / 10).push(digit_char((n % 10) as int))
    }
}

/// `n` spaces.
pub open spec fn spaces_of(n: nat) -> Seq<char> {
    Seq::new(n, |i: int| ' ')
}

/// `text` moved to the right by spaces until it is `width` wide.
pub open spec fn right_aligned(text: Seq<char>, width: nat) -> Seq<char> {
    if text.len() < width {
        spaces_of((width - text.len()) as nat) + text
    } else {
        text
    }
}

/// The number `n` in decimal.
pub fn decimal(n: usize) -> (text: String)
    ensures
        text@ == decimal_of(n as nat),
    decreases n,
{
    let mut text = if n < 10 {
        String::new()
    } else {
        decimal(n / 10)
    };
    let digit = ((n % 10) as u8 + 48u8) as char;
    text.push(digit);
    proof {
        assert(digit == digit_char((n % 10) as int));
        if n < 10 {
            assert(Seq::<char>::empty().push(digit) =~= seq![digit]);
        }
    }
    text
}

/// `n` spaces.
pub fn spaces(n: usize) -> (text: String)
    ensures
        text@ == spaces_of(n as nat),
{
    let mut text = String::new();
    let mut i: usize = 0;
    while i < n
        invariant
            i <= n,
            text@ == spaces_of(i as nat),
        decreases n - i,
    {
        text.push(' ');
        i += 1;
        proof {
            assert(text@ =~= spaces_of(i as nat));
        }
    }
    proof {
        assert(text@ =~= spaces_of(n as nat));
    }
    text
}

/// The number `n` in decimal, moved to the right until it is three wide.
pub fn line_number(n: usize) -> (text: String)
    ensures
        text@ == right_aligned(decimal_of(n as nat), 3),
{
    let digits = decimal(n);
    let lead: usize = if n < 10 {
        2
    } else if n < 100 {
        1
    } else {
        0
    };
    proof {
        assert(decimal_of(n as nat).len() == 3 - lead || (lead == 0 && decimal_of(
            n as nat,
        ).len() >= 3)) by {
            reveal_with_fuel(decimal_of, 3);
        }
        assert(spaces_of(0) + digits@ =~= digits@);
    }
    let mut text = spaces(lead);
    text.append(digits.as_str());
    text
}

/// The source line up to the failure, behind its number.
pub open spec fn quoted_line(line: int, context: Seq<char>) -> Seq<char> {
    painted("32"@, right_aligned(decimal_of(line as nat), 3)) + " | "@ + context + "\n"@
}

/// Appends the source line up to the failure, behind its number.
fn append_quoted_line(text: &mut String, line: usize, context: &str)
    ensures
        final(text)@ == old(text)@ + quoted_line(line as int, context@),
{
    text.append(green(line_number(line).as_str()).as_str());
    text.append(" | ");
    text.append(context);
    text.append("\n");
    proof {
        assert(text@ =~= old(text)@ + quoted_line(line as int, context@));
    }
}

/// The caret under the failure, `indent` spaces in, and what it points at.
pub open spec fn caret_line(indent: int, label: Seq<char>) -> Seq<char> {
    spaces_of(indent as nat) + "^ "@ + painted("31"@, label) + "\n"@
}

/// Appends the caret under the failure, `indent` and `more` spaces in.
fn append_caret_line(text: &mut String, indent: usize, more: usize, label: &str)
    ensures
        final(text)@ == old(text)@ + caret_line(indent + more, label@),
{
    text.append(spaces(indent).as_str());
    text.append(spaces(more).as_str());
    text.append("^ ");
    text.append(red(label).as_str());
    text.append("\n");
    proof {
        assert(spaces_of(indent as nat) + spaces_of(more as nat) =~= spaces_of(
            (indent + more) as nat,
        ));
        assert(text@ =~= old(text)@ + caret_line(indent + more, label@));
    }
}

impl<'a> LexerError<'a> {
    /// The diagnostic as it is printed: a headline, the place, the source
    /// line up to the failure, and a caret under it, with the parts in
    /// colour.
    pub open spec fn rendering(self) -> Seq<char> {
        let line = decimal_of(self.line() as nat);
        let col = decimal_of(self.col() as nat);
        match self {
            LexerError::InvalidCharacter { character, .. } => {
                painted("31"@, "invalid character"@) + " "@ + seq![character] + "\n"@
                    + painted("34"@, self.filename()) + ":"@ + painted("32"@, line) + ":"@
                    + painted("37"@, col) + "\n"@ + "|\n"@ + quoted_line(
                    self.line(),
                    self.context(),
                ) + "| "@ + caret_line(self.col() + 3, "invalid character"@)
            },
            LexerError::UnexpectedEOF { .. } => {
                painted("31"@, "unexpected EOF"@) + "\n"@ + "--> "@ + self.filename() + ":"@
                    + line + ":"@ + col + "\n"@ + "  |\n"@ + quoted_line(
                    self.line(),
                    self.context(),
                ) + "  | "@ + caret_line(self.col(), "unexpected EOF"@)
            },
            LexerError::UnterminatedString { .. } => {
                painted("31"@, "Unterminated String literal"@) + "\n"@ + " --> "@ + painted(
                    "34"@,
                    self.filename(),
                ) + ":"@ + painted("32"@, line) + ":"@ + col + "\n"@ + "  |\n"@ + quoted_line(
                    self.line(),
                    self.context(),
                ) + "  | "@ + caret_line(self.col(), "unterminated string"@)
            },
        }
    }

    /// The diagnostic as it is printed.
    pub fn render(&self) -> (text: String)
        ensures
            text@ == self.rendering(),
    {
        match self {
            LexerError::InvalidCharacter { context, filename, character, line, col } => {
                let mut text = red("invalid character");
                text.append(" ");
                text.push(*character);
                text.append("\n");
                text.append(blue(filename).as_str());
                text.append(":");
                text.append(green(decimal(*line).as_str()).as_str());
                text.append(":");
                text.append(white(decimal(*col).as_str()).as_str());
                text.append("\n");
                text.append("|\n");
                append_quoted_line(&mut text, *line, context);
                text.append("| ");
                append_caret_line(&mut text, *col, 3, "invalid character");
                proof {
                    assert(text@ =~= self.rendering());
                }
                text
            },
            LexerError::UnexpectedEOF { context, filename, line, col } => {
                let mut text = red("unexpected EOF");
                text.append("\n");
                text.append("--> ");
                text.append(filename);
                text.append(":");
                text.append(decimal(*line).as_str());
                text.append(":");
                text.append(decimal(*col).as_str());
                text.append("\n");
                text.append("  |\n");
                append_quoted_line(&mut text, *line, context);
                text.append("  | ");
                append_caret_line(&mut text, *col, 0, "unexpected EOF");
                proof {
                    assert(text@ =~= self.rendering());
                }
                text
            },
            LexerError::UnterminatedString { context, filename, line, col } => {
                let mut text = red("Unterminated String literal");
                text.append("\n");
                text.append(" --> ");
                text.append(blue(filename).as_str());
                text.append(":");
                text.append(green(decimal(*line).as_str()).as_str());
                text.append(":");
                text.append(decimal(*col).as_str());
                text.append("\n");
                text.append("  |\n");
                append_quoted_line(&mut text, *line, context);
                text.append("  | ");
                append_caret_line(&mut text, *col, 0, "unterminated string");
                proof {
                    assert(text@ =~= self.rendering());
                }
                text
            },
        }
    }
}

} // verus!
