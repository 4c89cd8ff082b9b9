//! How wide a text shows on a terminal, and how it is centered.

use vstd::prelude::*;
use vstd::string::{StrSliceExecFns, StringExecFns};
use crate::text::{repeated, run_of};

verus! {

/// What reading the character `c` makes of the state of a scan for visible
/// characters. The state is how many characters were visible so far, and
/// whether the scan stands inside an escape sequence. A sequence opens with
/// the escape character and closes with the next `m`; nothing in it is
/// visible.
pub open spec fn pass(state: (nat, bool), c: char) -> (nat, bool) {
    if c == '\x1b' {
        (state.0, true)
    } else if state.1 {
        (state.0, c != 'm')
    } else {
        (state.0 + 1, false)
    }
}

/// The state of a scan that starts in `state` and reads the first `n`
/// characters of `text`.
pub open spec fn scan_from(state: (nat, bool), text: Seq<char>, n: int) -> (nat, bool)
    decreases n,
{
    if n <= 0 {
        state
    } else {
        pass(scan_from(state, text, n - 1), text[n - 1])
    }
}

/// The state of a scan of the first `n` characters of `text` from its start.
pub open spec fn scan(text: Seq<char>, n: int) -> (nat, bool) {
    scan_from((0, false), text, n)
}

/// How many characters of `text` a terminal shows.
pub open spec fn visible_len(text: Seq<char>) -> nat {
    scan(text, text.len() as int).0
}

/// `text` with spaces on both sides so that it shows `width` characters, the
/// odd space on the right. A text that shows more is left as it is.
pub open spec fn centered(text: Seq<char>, width: nat) -> Seq<char> {
    let padding = if visible_len(text) <= width {
        (width - visible_len(text)) as nat
    } else {
        0
    };
    run_of(' ', padding / 2) + text + run_of(' ', (padding - padding / 2) as nat)
}

/// A scan sees no more characters than it has passed.
pub proof fn lemma_scan_bounded(state: (nat, bool), text: Seq<char>, n: int)
    requires
        0 <= n,
    ensures
        scan_from(state, text, n).0 <= state.0 + n,
    decreases n,
{
    if n > 0 {
        lemma_scan_bounded(state, text, n - 1);
    }
}

/// No text shows more characters than it has.
pub proof fn law_visible_bounded(text: Seq<char>)
    ensures
        visible_len(text) <= text.len(),
{
    lemma_scan_bounded((0, false), text, text.len() as int);
}

/// A scan of two texts in a row is a scan of the second from where the scan
/// of the first ends.
pub proof fn lemma_scan_concat(state: (nat, bool), a: Seq<char>, b: Seq<char>, k: int)
    requires
        0 <= k <= b.len(),
    ensures
        scan_from(state, a + b, a.len() + k) == scan_from(
            scan_from(state, a, a.len() as int),
            b,
            k,
        ),
    decreases k,
{
    if k > 0 {
        lemma_scan_concat(state, a, b, k - 1);
        assert((a + b)[a.len() + k - 1] == b[k - 1]);
    } else {
        lemma_scan_prefix(state, a, a + b, a.len() as int);
    }
}

/// A scan reads no further than it is told to.
pub proof fn lemma_scan_prefix(state: (nat, bool), a: Seq<char>, b: Seq<char>, n: int)
    requires
        0 <= n <= a.len() <= b.len(),
        forall|i: int| 0 <= i < n ==> a[i] == b[i],
    ensures
        scan_from(state, a, n) == scan_from(state, b, n),
    decreases n,
{
    if n > 0 {
        lemma_scan_prefix(state, a, b, n - 1);
    }
}

/// Outside an escape sequence, a text without the escape character is
/// visible in full.
pub proof fn lemma_scan_plain(state: (nat, bool), text: Seq<char>, n: int)
    requires
        0 <= n <= text.len(),
        !state.1,
        forall|i: int| 0 <= i < n ==> text[i] != '\x1b',
    ensures
        scan_from(state, text, n) == ((state.0 + n) as nat, false),
    decreases n,
{
    if n > 0 {
        lemma_scan_plain(state, text, n - 1);
    }
}

/// Inside an escape sequence, nothing is visible up to the next `m`.
pub proof fn lemma_scan_hidden(state: (nat, bool), text: Seq<char>, n: int)
    requires
        0 <= n <= text.len(),
        state.1,
        forall|i: int| 0 <= i < n ==> text[i] != 'm',
    ensures
        scan_from(state, text, n) == (state.0, true),
    decreases n,
{
    if n > 0 {
        lemma_scan_hidden(state, text, n - 1);
    }
}

/// A scan that starts with more characters seen ends with as many more,
/// and inside or outside an escape sequence all the same.
pub proof fn lemma_scan_shift(low: (nat, bool), high: (nat, bool), text: Seq<char>, n: int)
    requires
        0 <= n <= text.len(),
        low.1 == high.1,
        low.0 <= high.0,
    ensures
        scan_from(high, text, n).1 == scan_from(low, text, n).1,
        scan_from(high, text, n).0 == scan_from(low, text, n).0 + (high.0 - low.0),
    decreases n,
{
    if n > 0 {
        lemma_scan_shift(low, high, text, n - 1);
    }
}

/// How many characters of `text` a terminal shows.
pub fn strip_ansi_len(text: &str) -> (len: usize)
    ensures
        len == visible_len(text@),
{
    let total = text.unicode_len();
    let mut len: usize = 0;
    let mut in_escape = false;
    let mut i: usize = 0;
    while i < total
        invariant
            i <= total,
            total == text@.len(),
            scan(text@, i as int) == (len as nat, in_escape),
            len <= i,
        decreases total - i,
    {
        let ch = text.get_char(i);
        if ch == '\x1b' {
            in_escape = true;
        } else if in_escape && ch == 'm' {
            in_escape = false;
        } else if !in_escape {
            len += 1;
        }
        i += 1;
    }
    len
}

/// `text` with spaces on both sides so that it shows `width` characters.
pub fn center(text: &str, width: usize) -> (out: String)
    ensures
        out@ == centered(text@, width as nat),
{
    let visual_len = strip_ansi_len(text);
    let padding = width.saturating_sub(visual_len);
    let left_pad = padding / 2;
    let right_pad = padding - left_pad;
    let mut out = repeated(' ', left_pad);
    out.append(text);
    out.append(repeated(' ', right_pad).as_str());
    out
}

} // verus!
