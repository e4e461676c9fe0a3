//! What holds of every text: the laws of the lexical grammar.

use vstd::prelude::*;
use crate::lexer::chars::{
    is_alphabetic, is_ascii_digit, is_blank, is_numeric, is_string_body, is_word_char,
    symbol_kind, CharClass,
};
use crate::lexer::grammar::{
    column_of, digits_end, float_end, holds, lemma_line_start_bounds, lemma_run_end,
    lemma_run_end_from_inside, lemma_scan_advances, lex, lex_from, line_of, opens_triple_quote,
    run_end, scan, string_body_end, Failure, Fault, Lexeme, Scan,
};
use crate::lexer::token_type::TokenKind;
use crate::lexer::token::{SourceSpan, Token};

verus! {

/// Whether only blanks stand between the offsets `from` and `to`.
pub open spec fn blank_between(text: Seq<char>, from: int, to: int) -> bool {
    forall|k: int| from <= k < to ==> is_blank(#[trigger] text[k])
}

/// Where the gap before lexeme `i` starts: at the end of the lexeme before
/// it, or at `from` before the first.
pub open spec fn gap_start(lexemes: Seq<Lexeme>, i: int, from: int) -> int {
    if i <= 0 {
        from
    } else {
        lexemes[i - 1].end
    }
}

/// Where the gap before lexeme `i` ends: at the start of the lexeme, or at
/// `to` behind the last.
pub open spec fn gap_end(lexemes: Seq<Lexeme>, i: int, to: int) -> int {
    if i >= lexemes.len() {
        to
    } else {
        lexemes[i].start
    }
}

/// Whether `lexemes` tile the text between `from` and its end: each is
/// what `scan` finds at its start, they follow one another in order, and
/// only blanks stand before, between and behind them.
pub open spec fn tiles(text: Seq<char>, lexemes: Seq<Lexeme>, from: int) -> bool {
    &&& forall|i: int|
        0 <= i < lexemes.len() ==> from <= (#[trigger] lexemes[i]).start < lexemes[i].end
            <= text.len()
    &&& forall|i: int|
        0 <= i < lexemes.len() ==> scan(text, (#[trigger] lexemes[i]).start) == (Scan::Lexeme {
            kind: lexemes[i].kind,
            end: lexemes[i].end,
        })
    &&& forall|i: int|
        0 <= i <= lexemes.len() ==> gap_start(lexemes, i, from) <= #[trigger] gap_end(
            lexemes,
            i,
            text.len() as int,
        )
    &&& forall|i: int|
        0 <= i <= lexemes.len() ==> blank_between(
            text,
            gap_start(lexemes, i, from),
            #[trigger] gap_end(lexemes, i, text.len() as int),
        )
}

/// The lexemes of a text from an offset on tile the text from there.
pub proof fn lemma_lexemes_tile(text: Seq<char>, from: int)
    requires
        0 <= from <= text.len(),
        lex_from(text, from) is Ok,
    ensures
        tiles(text, lex_from(text, from)->Ok_0, from),
    decreases text.len() - from,
{
    let lexemes = lex_from(text, from)->Ok_0;
    let len = text.len() as int;
    if from < text.len() {
        lemma_scan_advances(text, from);
        match scan(text, from) {
            Scan::Lexeme { kind, end } => {
                lemma_lexemes_tile(text, end);
                let rest = lex_from(text, end)->Ok_0;
                let first = Lexeme { kind, start: from, end };
                assert(lexemes == seq![first] + rest);
                assert forall|i: int| 0 <= i < lexemes.len() implies from <= (
                #[trigger] lexemes[i]).start < lexemes[i].end <= text.len() && scan(
                    text,
                    lexemes[i].start,
                ) == (Scan::Lexeme { kind: lexemes[i].kind, end: lexemes[i].end }) by {
                    if i > 0 {
                        assert(lexemes[i] == rest[i - 1]);
                    }
                }
                assert forall|i: int| 0 <= i <= lexemes.len() implies gap_start(lexemes, i, from)
                    <= #[trigger] gap_end(lexemes, i, len) && blank_between(
                    text,
                    gap_start(lexemes, i, from),
                    gap_end(lexemes, i, len),
                ) by {
                    if i > 0 {
                        assert(gap_start(lexemes, i, from) == gap_start(rest, i - 1, end));
                        assert(gap_end(lexemes, i, len) == gap_end(rest, i - 1, len));
                    }
                }
            },
            Scan::Blank => {
                lemma_lexemes_tile(text, from + 1);
                assert forall|i: int| 0 <= i <= lexemes.len() implies gap_start(lexemes, i, from)
                    <= #[trigger] gap_end(lexemes, i, len) && blank_between(
                    text,
                    gap_start(lexemes, i, from),
                    gap_end(lexemes, i, len),
                ) by {
                    if i == 0 {
                        assert(gap_start(lexemes, 0, from + 1) <= gap_end(lexemes, 0, len));
                        assert(blank_between(text, from + 1, gap_end(lexemes, 0, len)));
                    } else {
                        assert(gap_start(lexemes, i, from) == gap_start(lexemes, i, from + 1));
                    }
                }
            },
            _ => {},
        }
    }
}

/// Lines and columns follow the offsets: of two offsets, the later one is
/// on a later line, or on the same line at a column that is as much
/// further right as the offsets are apart.
pub proof fn lemma_positions_follow_offsets(text: Seq<char>, p: int, q: int)
    requires
        0 <= p <= q,
    ensures
        line_of(text, p) <= line_of(text, q),
        line_of(text, p) == line_of(text, q) ==> column_of(text, q) == column_of(text, p) + (q
            - p),
    decreases q - p,
{
    if p < q {
        lemma_positions_follow_offsets(text, p, q - 1);
    }
}

/// Whether each span is well formed and starts no earlier than the one
/// before it ends.
pub open spec fn spans_ascend(spans: Seq<SourceSpan>) -> bool {
    &&& forall|i: int| 0 <= i < spans.len() ==> (#[trigger] spans[i]).well_formed()
    &&& forall|i: int|
        0 <= i < spans.len() - 1 ==> (#[trigger] spans[i]).end.not_after(spans[i + 1].start)
}

/// The spans of `tokens`, in order.
pub open spec fn token_spans(tokens: Seq<Token>) -> Seq<SourceSpan> {
    Seq::new(tokens.len(), |i: int| tokens[i].span)
}

/// The spans of `lexemes` in `text`, in order.
pub open spec fn spans_of(text: Seq<char>, lexemes: Seq<Lexeme>) -> Seq<SourceSpan> {
    Seq::new(lexemes.len(), |i: int| lexemes[i].span(text))
}

/// Spans are monotonic: in a text that lexes, every lexeme's span is well
/// formed, its end not earlier than its start, and every lexeme starts no
/// earlier than the one before it ends.
pub proof fn lemma_spans_ascend(text: Seq<char>)
    requires
        text.len() < usize::MAX,
        lex(text) is Ok,
    ensures
        spans_ascend(spans_of(text, lex(text)->Ok_0)),
{
    let lexemes = lex(text)->Ok_0;
    let spans = spans_of(text, lexemes);
    lemma_lexemes_tile(text, 0);
    assert forall|i: int| 0 <= i < spans.len() implies (#[trigger] spans[i]).well_formed() by {
        let lexeme = lexemes[i];
        lemma_positions_follow_offsets(text, lexeme.start, lexeme.end);
        lemma_line_start_bounds(text, lexeme.start);
        lemma_line_start_bounds(text, lexeme.end);
    }
    assert forall|i: int| 0 <= i < spans.len() - 1 implies (#[trigger] spans[i]).end.not_after(
        spans[i + 1].start,
    ) by {
        let end = lexemes[i].end;
        let next = lexemes[i + 1].start;
        assert(gap_start(lexemes, i + 1, 0) <= gap_end(lexemes, i + 1, text.len() as int));
        lemma_positions_follow_offsets(text, end, next);
        lemma_line_start_bounds(text, end);
        lemma_line_start_bounds(text, next);
    }
}

/// The gap before lexeme `i`: the blanks that were skipped there.
pub open spec fn gap(text: Seq<char>, lexemes: Seq<Lexeme>, i: int) -> Seq<char> {
    text.subrange(gap_start(lexemes, i, 0), gap_end(lexemes, i, text.len() as int))
}

/// The first `n` lexemes, each behind the gap before it, put together.
pub open spec fn rebuilt(text: Seq<char>, lexemes: Seq<Lexeme>, n: int) -> Seq<char>
    decreases n,
{
    if n <= 0 {
        Seq::empty()
    } else {
        rebuilt(text, lexemes, n - 1) + gap(text, lexemes, n - 1) + lexemes[n - 1].value(text)
    }
}

/// Whether `s` holds blanks only.
pub open spec fn all_blank(s: Seq<char>) -> bool {
    forall|k: int| 0 <= k < s.len() ==> is_blank(#[trigger] s[k])
}

/// The first lexemes and the gaps before them, put together, are the text
/// up to the end of the last of them.
proof fn lemma_rebuilt_is_prefix(text: Seq<char>, lexemes: Seq<Lexeme>, n: int)
    requires
        tiles(text, lexemes, 0),
        0 <= n <= lexemes.len(),
    ensures
        rebuilt(text, lexemes, n) == text.subrange(0, gap_start(lexemes, n, 0)),
    decreases n,
{
    if n > 0 {
        lemma_rebuilt_is_prefix(text, lexemes, n - 1);
        let a = gap_start(lexemes, n - 1, 0);
        let b = lexemes[n - 1].start;
        let c = lexemes[n - 1].end;
        assert(a <= gap_end(lexemes, n - 1, text.len() as int));
        if n - 1 > 0 {
            assert(lexemes[n - 2].start < lexemes[n - 2].end);
        }
        assert(text.subrange(0, a) + text.subrange(a, b) + text.subrange(b, c) =~= text.subrange(
            0,
            c,
        ));
    } else {
        assert(text.subrange(0, 0) =~= Seq::<char>::empty());
    }
}

/// Whether `lexemes` cover the text: only blanks stand in the gaps before,
/// between and behind them, and the lexemes put together in order, each
/// behind the gap before it, and the last gap behind them all, are the
/// text again.
pub open spec fn covers(text: Seq<char>, lexemes: Seq<Lexeme>) -> bool {
    &&& forall|i: int| 0 <= i <= lexemes.len() ==> all_blank(#[trigger] gap(text, lexemes, i))
    &&& rebuilt(text, lexemes, lexemes.len() as int) + gap(text, lexemes, lexemes.len() as int)
        == text
}

/// Tokens cover the text: the lexemes of a text that lexes, with the
/// blanks that were skipped put back between them, are the text again.
pub proof fn lemma_lexemes_cover(text: Seq<char>)
    requires
        lex(text) is Ok,
    ensures
        covers(text, lex(text)->Ok_0),
{
    let lexemes = lex(text)->Ok_0;
    let n = lexemes.len() as int;
    let len = text.len() as int;
    lemma_lexemes_tile(text, 0);
    assert forall|i: int| 0 <= i <= n implies all_blank(#[trigger] gap(text, lexemes, i)) by {
        let a = gap_start(lexemes, i, 0);
        let b = gap_end(lexemes, i, len);
        assert(a <= b && blank_between(text, a, b));
        if i > 0 {
            assert(lexemes[i - 1].start < lexemes[i - 1].end);
        }
        if i < n {
            assert(lexemes[i].start < lexemes[i].end);
        }
        assert forall|k: int| 0 <= k < gap(text, lexemes, i).len() implies is_blank(
            #[trigger] gap(text, lexemes, i)[k],
        ) by {
            assert(gap(text, lexemes, i)[k] == text[a + k]);
        }
    }
    lemma_rebuilt_is_prefix(text, lexemes, n);
    let a = gap_start(lexemes, n, 0);
    assert(a <= gap_end(lexemes, n, len));
    if n > 0 {
        assert(lexemes[n - 1].start < lexemes[n - 1].end);
    }
    assert(text.subrange(0, a) + text.subrange(a, len) =~= text);
}

/// A run within a slice of the text ends where it ends in the text, or at
/// the end of the slice if that comes first.
pub proof fn lemma_run_end_in_slice(
    text: Seq<char>,
    start: int,
    end: int,
    from: int,
    class: CharClass,
)
    requires
        0 <= start <= from <= end <= text.len(),
    ensures
        run_end(text.subrange(start, end), from - start, class) == (if run_end(text, from, class)
            <= end {
            run_end(text, from, class) - start
        } else {
            end - start
        }),
    decreases end - from,
{
    let slice = text.subrange(start, end);
    lemma_run_end(text, from, class);
    if from < end {
        assert(slice[from - start] == text[from]);
        if class.admits(text[from]) {
            lemma_run_end_in_slice(text, start, end, from + 1, class);
        }
    }
}

/// A lexeme taken out of its text is found again in it, whole and of the
/// same kind.
pub proof fn lemma_scan_alone(text: Seq<char>, p: int)
    requires
        0 <= p < text.len(),
        scan(text, p) is Lexeme,
    ensures
        scan(text.subrange(p, scan(text, p)->end), 0) == (Scan::Lexeme {
            kind: scan(text, p)->kind,
            end: scan(text, p)->end - p,
        }),
{
    let end = scan(text, p)->end;
    let alone = text.subrange(p, end);
    let c = text[p];
    lemma_scan_advances(text, p);
    assert(alone[0] == c);
    if is_numeric(c) || c == '.' {
        let dot = digits_end(text, p);
        lemma_run_end(text, p, CharClass::Digit);
        lemma_run_end_in_slice(text, p, end, p, CharClass::Digit);
        if float_end(text, p) is Some {
            lemma_run_end(text, dot + 1, CharClass::Digit);
            lemma_run_end_in_slice(text, p, end, dot + 1, CharClass::Digit);
            assert(alone[dot - p] == text[dot]);
        }
    } else if is_alphabetic(c) {
        lemma_run_end_in_slice(text, p, end, p, CharClass::Word);
        assert(alone.subrange(0, end - p) =~= alone);
    } else if c == '"' {
        let stop = string_body_end(text, p + 1);
        lemma_run_end(text, p + 1, CharClass::StringBody);
        lemma_run_end_in_slice(text, p, end, p + 1, CharClass::StringBody);
        assert(alone[stop - p] == text[stop]);
        if stop > p + 1 {
            assert(alone[1] == text[p + 1]);
            assert(CharClass::StringBody.admits(text[p + 1]));
        }
    }
}

/// Classification is idempotent: in a text that lexes, each lexeme lexed
/// on its own is one lexeme, of the same kind, that spans it all.
pub proof fn lemma_lexeme_stands_alone(text: Seq<char>, i: int)
    requires
        lex(text) is Ok,
        0 <= i < lex(text)->Ok_0.len(),
    ensures
        lex(lex(text)->Ok_0[i].value(text)) == Ok::<Seq<Lexeme>, Failure>(
            seq![
                Lexeme {
                    kind: lex(text)->Ok_0[i].kind,
                    start: 0,
                    end: lex(text)->Ok_0[i].value(text).len() as int,
                },
            ],
        ),
{
    let lexeme = lex(text)->Ok_0[i];
    let alone = lexeme.value(text);
    lemma_lexemes_tile(text, 0);
    lemma_scan_alone(text, lexeme.start);
    let whole = Lexeme { kind: lexeme.kind, start: 0, end: alone.len() as int };
    assert(lex_from(alone, alone.len() as int) == Ok::<Seq<Lexeme>, Failure>(Seq::empty()));
    assert(seq![whole] + Seq::<Lexeme>::empty() =~= seq![whole]);
}

/// A character with which a word starts: a letter that is not numeric as
/// well.
pub open spec fn starts_word(c: char) -> bool {
    is_alphabetic(c) && !is_numeric(c)
}

/// Whether a word stands between `from` and `to`: a letter, then letters,
/// digits and underscores.
pub open spec fn is_word(text: Seq<char>, from: int, to: int) -> bool {
    &&& 0 <= from < to <= text.len()
    &&& starts_word(text[from])
    &&& forall|k: int| from < k < to ==> is_word_char(#[trigger] text[k])
}

/// Whether a closed string literal stands between `from` and `to`: two
/// double quotes, with neither a double quote nor a line break between
/// them.
pub open spec fn is_string_literal(text: Seq<char>, from: int, to: int) -> bool {
    &&& 0 <= from && from + 2 <= to <= text.len()
    &&& text[from] == '"'
    &&& text[to - 1] == '"'
    &&& forall|k: int| from < k < to - 1 ==> is_string_body(#[trigger] text[k])
}

/// Whether a piece of plain text stands between `from` and `to`: one
/// blank, one digit, one symbol, a word, or a closed string literal that
/// does not open with three double quotes.
pub open spec fn is_piece(text: Seq<char>, from: int, to: int) -> bool {
    ||| {
        &&& 0 <= from < text.len()
        &&& to == from + 1
        &&& is_blank(text[from]) || is_ascii_digit(text[from]) || symbol_kind(text[from]) is Some
    }
    ||| is_word(text, from, to)
    ||| is_string_literal(text, from, to) && !opens_triple_quote(text, from)
}

/// Whether `cuts` split the text from its start to the last cut into
/// pieces of plain text.
pub open spec fn splits(text: Seq<char>, cuts: Seq<int>) -> bool {
    &&& cuts.len() > 0
    &&& cuts[0] == 0
    &&& cuts.last() <= text.len()
    &&& forall|i: int| 0 <= i < cuts.len() - 1 ==> is_piece(text, #[trigger] cuts[i], cuts[i + 1])
}

/// Whether the text is plain: `cuts` split all of it into pieces.
pub open spec fn is_plain(text: Seq<char>, cuts: Seq<int>) -> bool {
    splits(text, cuts) && cuts.last() == text.len()
}

/// Whether nothing before `p` reaches over it: the text ends there, or
/// the character there continues neither a word nor a number.
pub open spec fn breaks_at(text: Seq<char>, p: int) -> bool {
    p == text.len() || (0 <= p < text.len() && !is_word_char(text[p]) && text[p] != '.')
}

/// A character with which no lexeme starts and which no lexeme takes in.
pub open spec fn is_unsupported(c: char) -> bool {
    &&& !is_numeric(c)
    &&& !is_alphabetic(c)
    &&& symbol_kind(c) is None
    &&& !is_blank(c)
    &&& c != '.'
    &&& c != '"'
    &&& c != '_'
}

/// The cuts of a split ascend, within the text.
proof fn lemma_cuts_ascend(text: Seq<char>, cuts: Seq<int>, i: int, j: int)
    requires
        splits(text, cuts),
        0 <= i <= j < cuts.len(),
    ensures
        0 <= cuts[i] <= cuts[j] <= text.len(),
        i < j ==> cuts[i] < cuts[j],
    decreases j - i,
{
    if i < j {
        assert(is_piece(text, cuts[j - 1], cuts[j]));
        lemma_cuts_ascend(text, cuts, i, j - 1);
    } else if i > 0 {
        assert(is_piece(text, cuts[i - 1], cuts[i]));
    }
}

/// A run of digits or of word characters that starts at a cut ends at a
/// cut, and not before a dot.
proof fn lemma_run_reaches_cut(text: Seq<char>, cuts: Seq<int>, i: int, class: CharClass) -> (j:
    int)
    requires
        splits(text, cuts),
        breaks_at(text, cuts.last()),
        0 <= i < cuts.len(),
        class is Digit || class is Word,
    ensures
        i <= j < cuts.len(),
        run_end(text, cuts[i], class) == cuts[j],
        !holds(text, cuts[j], '.'),
    decreases cuts.len() - i,
{
    lemma_cuts_ascend(text, cuts, i, cuts.len() - 1);
    let a = cuts[i];
    if i == cuts.len() - 1 {
        i
    } else {
        let b = cuts[i + 1];
        assert(is_piece(text, a, b));
        if class.admits(text[a]) {
            assert forall|k: int| a <= k < b implies class.admits(#[trigger] text[k]) by {}
            lemma_run_end_from_inside(text, a, b, class);
            lemma_run_reaches_cut(text, cuts, i + 1, class)
        } else {
            i
        }
    }
}

/// At a digit that starts a piece stands an integer that ends at a cut.
proof fn lemma_digit_piece_scans(text: Seq<char>, cuts: Seq<int>, i: int) -> (j: int)
    requires
        splits(text, cuts),
        breaks_at(text, cuts.last()),
        0 <= i < cuts.len() - 1,
        is_ascii_digit(text[cuts[i]]),
    ensures
        i < j < cuts.len(),
        scan(text, cuts[i]) == (Scan::Lexeme { kind: TokenKind::INTEGER, end: cuts[j] }),
{
    lemma_cuts_ascend(text, cuts, i, cuts.len() - 1);
    assert(is_piece(text, cuts[i], cuts[i + 1]));
    let j = lemma_run_reaches_cut(text, cuts, i, CharClass::Digit);
    lemma_run_end(text, cuts[i], CharClass::Digit);
    lemma_cuts_ascend(text, cuts, i, j);
    j
}

/// At a word that is a piece stands a word that ends at a cut.
proof fn lemma_word_piece_scans(text: Seq<char>, cuts: Seq<int>, i: int) -> (j: int)
    requires
        splits(text, cuts),
        breaks_at(text, cuts.last()),
        0 <= i < cuts.len() - 1,
        is_word(text, cuts[i], cuts[i + 1]),
    ensures
        i < j < cuts.len(),
        scan(text, cuts[i]) is Lexeme,
        scan(text, cuts[i])->end == cuts[j],
{
    lemma_cuts_ascend(text, cuts, i, cuts.len() - 1);
    let j = lemma_run_reaches_cut(text, cuts, i, CharClass::Word);
    lemma_run_end(text, cuts[i], CharClass::Word);
    lemma_cuts_ascend(text, cuts, i, j);
    j
}

/// At a string literal that is a piece stands that literal.
proof fn lemma_string_piece_scans(text: Seq<char>, from: int, to: int)
    requires
        is_string_literal(text, from, to),
        !opens_triple_quote(text, from),
    ensures
        scan(text, from) == (Scan::Lexeme { kind: TokenKind::LITERALSTRING, end: to }),
{
    lemma_run_end(text, from + 1, CharClass::StringBody);
    assert forall|k: int| from + 1 <= k < to - 1 implies CharClass::StringBody.admits(
        #[trigger] text[k],
    ) by {}
    lemma_run_end_from_inside(text, from + 1, to - 1, CharClass::StringBody);
    assert(string_body_end(text, from + 1) == to - 1);
}

/// At a blank stands a blank, at a symbol a lexeme of one character.
proof fn lemma_single_piece_scans(text: Seq<char>, from: int)
    requires
        0 <= from < text.len(),
        is_blank(text[from]) || symbol_kind(text[from]) is Some,
    ensures
        is_blank(text[from]) ==> scan(text, from) == Scan::Blank,
        !is_blank(text[from]) ==> scan(text, from) is Lexeme && scan(text, from)->end == from
            + 1,
{
}

/// Plain text up to a cut at which nothing reaches over lexes: the text
/// fails only as it fails from that cut on.
proof fn lemma_pieces_pass(text: Seq<char>, cuts: Seq<int>, i: int)
    requires
        splits(text, cuts),
        breaks_at(text, cuts.last()),
        0 <= i < cuts.len(),
    ensures
        match lex_from(text, cuts.last()) {
            Ok(_) => lex_from(text, cuts[i]) is Ok,
            Err(failure) => lex_from(text, cuts[i]) == Err::<Seq<Lexeme>, Failure>(failure),
        },
    decreases cuts.len() - i,
{
    lemma_cuts_ascend(text, cuts, i, cuts.len() - 1);
    if i < cuts.len() - 1 {
        let a = cuts[i];
        let b = cuts[i + 1];
        assert(is_piece(text, a, b));
        if is_ascii_digit(text[a]) {
            let j = lemma_digit_piece_scans(text, cuts, i);
            lemma_pieces_pass(text, cuts, j);
        } else if is_word(text, a, b) {
            let j = lemma_word_piece_scans(text, cuts, i);
            lemma_pieces_pass(text, cuts, j);
        } else if is_string_literal(text, a, b) && !opens_triple_quote(text, a) {
            lemma_string_piece_scans(text, a, b);
            lemma_pieces_pass(text, cuts, i + 1);
        } else {
            lemma_single_piece_scans(text, a);
            lemma_pieces_pass(text, cuts, i + 1);
        }
    }
}

/// Plain text lexes: a text that is nothing but blanks, digits, symbols,
/// words and closed string literals holds no failure.
pub proof fn lemma_plain_text_lexes(text: Seq<char>, cuts: Seq<int>)
    requires
        is_plain(text, cuts),
    ensures
        lex(text) is Ok,
{
    lemma_pieces_pass(text, cuts, 0);
}

/// An unsupported character is fatal: behind plain text it is the first
/// failure, an invalid character reported at its own offset.
pub proof fn lemma_unsupported_character_is_fatal(text: Seq<char>, cuts: Seq<int>)
    requires
        splits(text, cuts),
        cuts.last() < text.len(),
        is_unsupported(text[cuts.last()]),
    ensures
        lex(text) == Err::<Seq<Lexeme>, Failure>(
            Failure { fault: Fault::InvalidCharacter, at: cuts.last(), stop: cuts.last() + 1 },
        ),
{
    lemma_cuts_ascend(text, cuts, 0, cuts.len() - 1);
    lemma_pieces_pass(text, cuts, 0);
}

/// An unterminated string is fatal: behind plain text, a double quote
/// with no second one before the line or the text ends is the first
/// failure, reported at the offset of the quote.
pub proof fn lemma_unterminated_string_is_fatal(text: Seq<char>, cuts: Seq<int>)
    requires
        splits(text, cuts),
        holds(text, cuts.last(), '"'),
        !opens_triple_quote(text, cuts.last()),
        !holds(text, string_body_end(text, cuts.last() + 1), '"'),
    ensures
        lex(text) == Err::<Seq<Lexeme>, Failure>(
            Failure {
                fault: Fault::UnterminatedString,
                at: cuts.last(),
                stop: string_body_end(text, cuts.last() + 1),
            },
        ),
{
    lemma_cuts_ascend(text, cuts, 0, cuts.len() - 1);
    lemma_pieces_pass(text, cuts, 0);
}

} // verus!
