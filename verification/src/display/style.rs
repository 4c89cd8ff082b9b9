//! Bold and coloured text, as the terminal takes it.

use colored::Colorize;
use vstd::prelude::*;
use super::width::{
    lemma_scan_concat, lemma_scan_hidden, lemma_scan_plain, scan, scan_from, visible_len,
};

verus! {

/// `text` between the escape sequence that switches the style `code` on and
/// the one that switches every style off.
pub open spec fn styled(code: Seq<char>, text: Seq<char>) -> Seq<char> {
    "\x1b["@ + code + "m"@ + text + "\x1b[0m"@
}

/// Whether `out` is `text`, plain or in the style `code`.
pub open spec fn is_styled(out: Seq<char>, code: Seq<char>, text: Seq<char>) -> bool {
    out == text || out == styled(code, text)
}

/// Calls `bold` of `colored::Colorize` on the text and writes the result
/// out. Whether styles are switched on depends on the variables of the
/// process and on the terminal: the text comes back as it is, or between
/// the sequence for style 1 and the reset sequence. Nothing is claimed of
/// a text of four characters or more: it could hold a reset sequence, and
/// after each of those `colored` switches the style on again.
#[verifier::external_body]
pub(crate) fn bold(text: &str) -> (out: String)
    ensures
        text@.len() < 4 ==> is_styled(out@, "1"@, text@),
{
    text.bold().to_string()
}

/// Calls `blue` of `colored::Colorize` on the text and writes the result
/// out: the text as it is, or between the sequence for colour 34 and the
/// reset sequence, as the variables of the process and the terminal have
/// it. Nothing is claimed of a text of four characters or more.
#[verifier::external_body]
pub(crate) fn blue(text: &str) -> (out: String)
    ensures
        text@.len() < 4 ==> is_styled(out@, "34"@, text@),
{
    text.blue().to_string()
}

/// Calls `cyan` of `colored::Colorize` on the text and writes the result
/// out: the text as it is, or between the sequence for colour 36 and the
/// reset sequence, as the variables of the process and the terminal have
/// it. Nothing is claimed of a text of four characters or more.
#[verifier::external_body]
pub(crate) fn cyan(text: &str) -> (out: String)
    ensures
        text@.len() < 4 ==> is_styled(out@, "36"@, text@),
{
    text.cyan().to_string()
}

/// Calls `red` of `colored::Colorize` on the text and writes the result
/// out: the text as it is, or between the sequence for colour 31 and the
/// reset sequence, as the variables of the process and the terminal have
/// it. Nothing is claimed of a text of four characters or more.
#[verifier::external_body]
pub(crate) fn red(text: &str) -> (out: String)
    ensures
        text@.len() < 4 ==> is_styled(out@, "31"@, text@),
{
    text.red().to_string()
}

/// Calls `magenta` of `colored::Colorize` on the text and writes the result
/// out: the text as it is, or between the sequence for colour 35 and the
/// reset sequence, as the variables of the process and the terminal have
/// it. Nothing is claimed of a text of four characters or more.
#[verifier::external_body]
pub(crate) fn magenta(text: &str) -> (out: String)
    ensures
        text@.len() < 4 ==> is_styled(out@, "35"@, text@),
{
    text.magenta().to_string()
}

/// A text in a style shows the characters of the text and no others, and
/// leaves the terminal outside every escape sequence, where the text holds
/// no escape character and the code of the style neither that nor an `m`.
pub proof fn law_styled_width(out: Seq<char>, code: Seq<char>, text: Seq<char>)
    requires
        is_styled(out, code, text),
        forall|i: int| 0 <= i < text.len() ==> text[i] != '\x1b',
        forall|i: int| 0 <= i < code.len() ==> code[i] != 'm' && code[i] != '\x1b',
    ensures
        scan(out, out.len() as int) == (text.len(), false),
        visible_len(out) == text.len(),
{
    let start = (0nat, false);
    if out == text {
        lemma_scan_plain(start, text, text.len() as int);
    } else {
        reveal_strlit("\x1b[");
        reveal_strlit("m");
        reveal_strlit("\x1b[0m");
        reveal_with_fuel(scan_from, 5);
        let open = "\x1b["@;
        let shut = "m"@;
        let reset = "\x1b[0m"@;
        let after_open = scan_from(start, open, 2);
        assert(after_open == (0nat, true));
        lemma_scan_concat(start, open, code, code.len() as int);
        lemma_scan_hidden(after_open, code, code.len() as int);
        lemma_scan_concat(start, open + code, shut, 1);
        assert(scan_from((0nat, true), shut, 1) == (0nat, false));
        lemma_scan_concat(start, open + code + shut, text, text.len() as int);
        lemma_scan_plain((0nat, false), text, text.len() as int);
        lemma_scan_concat(start, open + code + shut + text, reset, 4);
        assert(scan_from((text.len(), false), reset, 4) == (text.len(), false));
    }
}

} // verus!
