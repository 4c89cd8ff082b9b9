//! Building blocks of the frames: rules, joined parts, aligned columns,
//! raised digits.

use vstd::prelude::*;
use vstd::string::{StrSliceExecFns, StringExecFns};
use crate::text::{decimal, decimal_string, numeral, numeral_string, repeated, run_of};

verus! {

/// The upper-case form of an ASCII letter; any other character itself.
pub open spec fn ascii_upper(c: char) -> char {
    if 'a' <= c <= 'z' {
        (c as int - 32) as char
    } else {
        c
    }
}

/// The parts of a text, `part(0)` to `part(n - 1)`, one after the other.
pub open spec fn join(n: int, part: spec_fn(int) -> Seq<char>) -> Seq<char>
    decreases n,
{
    if n <= 0 {
        Seq::empty()
    } else {
        join(n - 1, part) + part(n - 1)
    }
}

/// The upper-case form of an ASCII letter; any other character itself.
pub fn to_ascii_upper(c: char) -> (upper: char)
    ensures
        upper == ascii_upper(c),
{
    if 'a' <= c && c <= 'z' {
        (c as u8 - 32) as char
    } else {
        c
    }
}

/// The raised digits.
pub const SUPERSCRIPTS: [char; 10] = ['⁰', '¹', '²', '³', '⁴', '⁵', '⁶', '⁷', '⁸', '⁹'];

/// `n` in raised digits.
pub open spec fn superscript(n: nat) -> Seq<char> {
    numeral(n, SUPERSCRIPTS@)
}

/// `n` in raised digits.
pub fn superscript_num(n: u8) -> (text: String)
    ensures
        text@ == superscript(n as nat),
{
    numeral_string(n as u128, &SUPERSCRIPTS)
}

/// The stretch of a rule under or over cell `x`: the line, then the joint
/// after the cell, which is `right` after the last of the `cells`.
pub open spec fn rule_part(mid: char, right: char, cells: int, width: nat) -> spec_fn(int) -> Seq<
    char,
> {
    |x: int|
        run_of('─', width).push(
            if x + 1 == cells {
                right
            } else {
                mid
            },
        )
}

/// A horizontal rule of the frame, with its line break.
pub open spec fn rule_text(
    indent: nat,
    left: char,
    mid: char,
    right: char,
    cells: int,
    width: nat,
) -> Seq<char> {
    (run_of(' ', indent).push(left) + join(cells, rule_part(mid, right, cells, width))).push('\n')
}

/// A horizontal rule of the frame, with its line break.
pub fn rule_line(indent: usize, left: char, mid: char, right: char, cells: usize, width: usize) -> (line:
    String)
    ensures
        line@ == rule_text(indent as nat, left, mid, right, cells as int, width as nat),
{
    let mut line = repeated(' ', indent);
    line.push(left);
    let ghost part = rule_part(mid, right, cells as int, width as nat);
    let mut x: usize = 0;
    while x < cells
        invariant
            x <= cells,
            part == rule_part(mid, right, cells as int, width as nat),
            line@ == run_of(' ', indent as nat).push(left) + join(x as int, part),
        decreases cells - x,
    {
        let ghost before = line@;
        line.append(repeated('─', width).as_str());
        line.push(if x + 1 == cells { right } else { mid });
        assert(line@ =~= before + part(x as int));
        x += 1;
        assert(line@ =~= run_of(' ', indent as nat).push(left) + join(x as int, part));
    }
    line.push('\n');
    line
}

/// `text` with spaces in front so that it has `width` characters at least.
pub open spec fn right_aligned(text: Seq<char>, width: nat) -> Seq<char> {
    run_of(
        ' ',
        if text.len() <= width {
            (width - text.len()) as nat
        } else {
            0
        },
    ) + text
}

/// `text` with spaces behind it so that it has `width` characters at least.
pub open spec fn left_aligned(text: Seq<char>, width: nat) -> Seq<char> {
    text + run_of(
        ' ',
        if text.len() <= width {
            (width - text.len()) as nat
        } else {
            0
        },
    )
}

/// `n` in decimal, with spaces in front so that it has `width` characters at least.
pub fn right_align_number(n: usize, width: usize) -> (out: String)
    ensures
        out@ == right_aligned(decimal(n as nat), width as nat),
{
    let number = decimal_string(n as u128);
    let len = number.as_str().unicode_len();
    let mut out = repeated(' ', width.saturating_sub(len));
    out.append(number.as_str());
    out
}

/// `text` with spaces behind it so that it has `width` characters at least.
pub fn left_align(text: &str, width: usize) -> (out: String)
    ensures
        out@ == left_aligned(text@, width as nat),
{
    let mut out = String::from_str(text);
    out.append(repeated(' ', width.saturating_sub(text.unicode_len())).as_str());
    out
}

} // verus!
