//! The rack as text.

use vstd::prelude::*;
use vstd::string::{StrSliceExecFns, StringExecFns};
use crate::game::bag::Tile;
use crate::game::player::Rack;
use crate::text::{decimal, decimal_string, lemma_numeral_len, repeated, run_of, DECIMAL_DIGITS};
use super::frame::{
    ascii_upper, join, rule_line, rule_text, superscript, superscript_num, to_ascii_upper,
    SUPERSCRIPTS,
};

verus! {

/// Width of a cell of the rack, in characters.
pub const RACK_CELL_W: usize = 6;

/// The character that a tile shows: an underscore for a tile without
/// points, else its letter in upper case.
pub open spec fn tile_char(tile: Tile) -> char {
    if tile.value == 0 {
        '_'
    } else {
        ascii_upper(tile.letter)
    }
}

/// The points of a tile as it shows them: nothing for a tile without
/// points, else the number raised, or after a caret in plain ASCII.
pub open spec fn tile_score(tile: Tile, ascii_fallback: bool) -> Seq<char> {
    if tile.value == 0 {
        Seq::empty()
    } else if ascii_fallback {
        seq!['^'] + decimal(tile.value as nat)
    } else {
        superscript(tile.value as nat)
    }
}

/// What a tile shows: its character, then its points.
pub open spec fn tile_label(tile: Tile, ascii_fallback: bool) -> Seq<char> {
    seq![tile_char(tile)] + tile_score(tile, ascii_fallback)
}

/// Tile `i` of a rack as text: its label in the middle of its cell, the odd
/// space on the right, and the bar after it.
pub open spec fn rack_part(tiles: Seq<Tile>, ascii_fallback: bool) -> spec_fn(int) -> Seq<char> {
    |i: int|
        {
            let label = tile_label(tiles[i], ascii_fallback);
            let pad = RACK_CELL_W - label.len();
            (run_of(' ', (pad / 2) as nat) + label + run_of(' ', (pad - pad / 2) as nat)).push('│')
        }
}

/// A rack as text: a heading, then the tiles in a frame, or a note that
/// there are none.
pub open spec fn rack_text(tiles: Seq<Tile>, ascii_fallback: bool) -> Seq<char> {
    if tiles.len() == 0 {
        "Chevalet:\n"@ + "(empty rack)\n"@
    } else {
        let n = tiles.len() as int;
        "Chevalet:\n"@ + rule_text(0, '┌', '┬', '┐', n, RACK_CELL_W as nat) + (seq!['│'] + join(
            n,
            rack_part(tiles, ascii_fallback),
        )).push('\n') + rule_text(0, '└', '┴', '┘', n, RACK_CELL_W as nat)
    }
}

/// The label of a tile has from one to five characters.
pub proof fn lemma_tile_label_len(tile: Tile, ascii_fallback: bool)
    ensures
        1 <= tile_label(tile, ascii_fallback).len() <= 5,
{
    lemma_numeral_len(tile.value as nat, DECIMAL_DIGITS@);
    lemma_numeral_len(tile.value as nat, SUPERSCRIPTS@);
}

/// What a tile shows: its character, then its points.
pub fn tile_label_string(tile: &Tile, ascii_fallback: bool) -> (label: String)
    ensures
        label@ == tile_label(*tile, ascii_fallback),
{
    let ch = if tile.value == 0 {
        '_'
    } else {
        to_ascii_upper(tile.letter)
    };
    let mut label = String::new();
    label.push(ch);
    if tile.value != 0 {
        if ascii_fallback {
            label.push('^');
            label.append(decimal_string(tile.value as u128).as_str());
        } else {
            label.append(superscript_num(tile.value).as_str());
        }
    }
    assert(label@ =~= tile_label(*tile, ascii_fallback));
    label
}

/// The rack as text, the points raised or, with `ascii_fallback`, after a caret.
pub fn render_rack(rack: &Rack, ascii_fallback: bool) -> (out: String)
    ensures
        out@ == rack_text(rack@, ascii_fallback),
{
    let mut out = String::from_str("Chevalet:\n");
    if rack.tiles.len() == 0 {
        out.append("(empty rack)\n");
        return out;
    }
    let tile_count = rack.tiles.len();
    let ghost part = rack_part(rack@, ascii_fallback);
    out.append(rule_line(0, '┌', '┬', '┐', tile_count, RACK_CELL_W).as_str());
    out.push('│');
    let ghost head = out@;
    let mut i: usize = 0;
    while i < tile_count
        invariant
            i <= tile_count,
            tile_count == rack@.len(),
            part == rack_part(rack@, ascii_fallback),
            out@ == head + join(i as int, part),
        decreases tile_count - i,
    {
        let ghost before = out@;
        let label = tile_label_string(&rack.tiles[i], ascii_fallback);
        proof {
            lemma_tile_label_len(rack@[i as int], ascii_fallback);
        }
        let pad_total = RACK_CELL_W - label.as_str().unicode_len();
        let left_pad = pad_total / 2;
        let right_pad = pad_total - left_pad;
        out.append(repeated(' ', left_pad).as_str());
        out.append(label.as_str());
        out.append(repeated(' ', right_pad).as_str());
        out.push('│');
        assert(out@ =~= before + part(i as int));
        i += 1;
        assert(out@ =~= head + join(i as int, part));
    }
    out.push('\n');
    out.append(rule_line(0, '└', '┴', '┘', tile_count, RACK_CELL_W).as_str());
    assert(out@ =~= rack_text(rack@, ascii_fallback));
    out
}

} // verus!
