//! Lexical analysis: source text to tokens.

use vstd::prelude::*;
use crate::lexer::engine::Lexer;
use crate::lexer::errors::LexerError;
use crate::lexer::grammar::{lex, tokens_spell};
use crate::lexer::laws::{
    covers, is_plain, lemma_lexemes_cover, lemma_plain_text_lexes, lemma_spans_ascend,
    spans_ascend, spans_of, token_spans,
};
use crate::lexer::token::Token;

pub mod chars;
pub mod engine;
pub mod errors;
pub mod grammar;
pub mod laws;
pub mod paint;
pub mod render;
pub mod text;
pub mod token;
pub mod token_type;

verus! {

/// Lexes `text`, which was read from `file`. The tokens are the lexemes that
/// the text holds, in order; where the text holds a failure, the error
/// reports the first one. Plain text always lexes. The lexemes cover the
/// text but for blanks, and the spans of the tokens ascend.
pub fn tokenize<'a>(text: &'a str, file: &'a str) -> (result: Result<
    Vec<Token<'a>>,
    LexerError<'a>,
>)
    requires
        text@.len() < usize::MAX,
    ensures
        match result {
            Ok(tokens) => lex(text@) is Ok && tokens_spell(tokens@, text@, lex(text@)->Ok_0),
            Err(error) => lex(text@) is Err && error.reports(text@, file@, lex(text@)->Err_0),
        },
        forall|cuts: Seq<int>| #[trigger] is_plain(text@, cuts) ==> result is Ok,
        result is Ok ==> covers(text@, lex(text@)->Ok_0),
        result matches Ok(tokens) ==> spans_ascend(token_spans(tokens@)),
{
    let mut lexer: Lexer<'a> = Lexer::new(text, file);
    let result = lexer.tokenize();
    proof {
        assert forall|cuts: Seq<int>| #[trigger] is_plain(text@, cuts) implies result is Ok by {
            lemma_plain_text_lexes(text@, cuts);
        }
        if result is Ok {
            let tokens = result->Ok_0@;
            let lexemes = lex(text@)->Ok_0;
            lemma_lexemes_cover(text@);
            lemma_spans_ascend(text@);
            assert(token_spans(tokens) =~= spans_of(text@, lexemes));
        }
    }
    result
}

} // verus!
