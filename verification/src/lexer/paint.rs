//! Terminal colours for diagnostics.

use owo_colors::OwoColorize;
use vstd::prelude::*;

verus! {

/// `text` between the escape sequence that selects the foreground colour
/// `code` and the one that restores the default foreground.
pub open spec fn painted(code: Seq<char>, text: Seq<char>) -> Seq<char> {
    "\x1b["@ + code + "m"@ + text + "\x1b[39m"@
}

/// `OwoColorize::red` of owo-colors, written out with `Display`: the
/// escape sequence for the foreground colour 31, the text as it is, and the
/// escape sequence that restores the default foreground.
#[verifier::external_body]
pub(crate) fn red(text: &str) -> (coloured: String)
    ensures
        coloured@ == painted("31"@, text@),
{
    format!("{}", text.red())
}

/// `OwoColorize::green` of owo-colors, written out with `Display`: the
/// escape sequence for the foreground colour 32, the text as it is, and the
/// escape sequence that restores the default foreground.
#[verifier::external_body]
pub(crate) fn green(text: &str) -> (coloured: String)
    ensures
        coloured@ == painted("32"@, text@),
{
    format!("{}", text.green())
}

/// `OwoColorize::blue` of owo-colors, written out with `Display`: the
/// escape sequence for the foreground colour 34, the text as it is, and the
/// escape sequence that restores the default foreground.
#[verifier::external_body]
pub(crate) fn blue(text: &str) -> (coloured: String)
    ensures
        coloured@ == painted("34"@, text@),
{
    format!("{}", text.blue())
}

/// `OwoColorize::white` of owo-colors, written out with `Display`: the
/// escape sequence for the foreground colour 37, the text as it is, and the
/// escape sequence that restores the default foreground.
#[verifier::external_body]
pub(crate) fn white(text: &str) -> (coloured: String)
    ensures
        coloured@ == painted("37"@, text@),
{
    format!("{}", text.white())
}

} // verus!
