//! The bag as text: a table of its letters.

use vstd::assert_by_contradiction;
use vstd::prelude::*;
use vstd::string::StringExecFns;
use crate::first::{lemma_least, lemma_least_is, lemma_least_none};
use crate::game::bag::{letters_of, Bag, Tile};
use crate::game::counting::lemma_bearing_counts;
use crate::game::player::{bearing, first_bearing};
use crate::game::rules::count_of;
use crate::text::{decimal, decimal_string};
use super::frame::{join, left_align, left_aligned};

verus! {

/// One line of the table of a bag: a letter, what a tile that bears it is
/// worth, and how many tiles bear it.
#[derive(Copy, Clone, Debug, PartialEq, Eq, Structural)]
pub struct LetterCount {
    pub letter: char,
    pub value: u8,
    pub count: usize,
}

/// Whether `rows` is the table of `tiles`: one row for each letter that a
/// tile bears, in the order of the letters, with the worth of the first
/// tile that bears the letter and the number of tiles that bear it.
pub open spec fn is_summary(rows: Seq<LetterCount>, tiles: Seq<Tile>) -> bool {
    &&& forall|i: int, j: int|
        0 <= i < j < rows.len() ==> (#[trigger] rows[i]).letter < (#[trigger] rows[j]).letter
    &&& forall|i: int|
        0 <= i < rows.len() ==> {
            &&& (#[trigger] rows[i]).count == count_of(letters_of(tiles), rows[i].letter)
            &&& first_bearing(tiles, rows[i].letter) matches Some(k) && tiles[k].value
                == rows[i].value
        }
    &&& forall|k: int|
        0 <= k < tiles.len() ==> exists|i: int|
            0 <= i < rows.len() && (#[trigger] rows[i]).letter == (#[trigger] tiles[k]).letter
}

/// With one more tile at the end, each letter counts as before but the
/// letter of that tile, which counts once more; and the first tile that
/// bears a letter is the one that was, or the new one where none was.
pub proof fn lemma_tile_added(tiles: Seq<Tile>, tile: Tile, letter: char)
    ensures
        count_of(letters_of(tiles.push(tile)), letter) == count_of(letters_of(tiles), letter) + (
        if tile.letter == letter {
            1int
        } else {
            0int
        }),
        first_bearing(tiles.push(tile), letter) == match first_bearing(tiles, letter) {
            Some(k) => Some(k),
            None => if tile.letter == letter {
                Some(tiles.len() as int)
            } else {
                None
            },
        },
        first_bearing(tiles, letter) matches Some(k) ==> 0 <= k < tiles.len() && tiles[k].letter
            == letter,
        first_bearing(tiles, letter) is None ==> count_of(letters_of(tiles), letter) == 0,
{
    broadcast use vstd::seq_lib::group_to_multiset_ensures;

    let more = tiles.push(tile);
    assert(letters_of(more) =~= letters_of(tiles).push(tile.letter));
    lemma_least(bearing(tiles, letter), tiles.len() as int);
    lemma_bearing_counts(tiles, letter);
    match first_bearing(tiles, letter) {
        Some(k) => {
            assert(bearing(tiles, letter)(k));
            assert(bearing(more, letter)(k));
            assert forall|j: int| 0 <= j < k implies !#[trigger] bearing(more, letter)(j) by {
                assert(!bearing(tiles, letter)(j));
            }
            lemma_least_is(bearing(more, letter), more.len() as int, k);
        },
        None => {
            assert forall|j: int| 0 <= j < tiles.len() implies !#[trigger] bearing(more, letter)(
                j,
            ) by {
                assert(!bearing(tiles, letter)(j));
            }
            if tile.letter == letter {
                assert(bearing(more, letter)(tiles.len() as int));
                lemma_least_is(bearing(more, letter), more.len() as int, tiles.len() as int);
            } else {
                lemma_least_none(bearing(more, letter), more.len() as int);
            }
        },
    }
}

/// No letter occurs more often than there are letters.
pub proof fn lemma_count_bounded(letters: Seq<char>, letter: char)
    ensures
        count_of(letters, letter) <= letters.len(),
    decreases letters.len(),
{
    broadcast use vstd::seq_lib::group_to_multiset_ensures;

    if letters.len() > 0 {
        lemma_count_bounded(letters.drop_last(), letter);
        assert(letters.drop_last().push(letters.last()) =~= letters);
    } else {
        assert(letters.to_multiset().len() == 0);
    }
}

/// The table of the tiles: a row for each letter, in the order of the letters.
pub fn letter_counts(tiles: &Vec<Tile>) -> (rows: Vec<LetterCount>)
    ensures
        is_summary(rows@, tiles@),
{
    let mut rows: Vec<LetterCount> = Vec::new();
    let mut n: usize = 0;
    assert(tiles@.take(0).len() == 0);
    while n < tiles.len()
        invariant
            n <= tiles@.len(),
            is_summary(rows@, tiles@.take(n as int)),
            rows@.len() <= n,
        decreases tiles@.len() - n,
    {
        let tile = tiles[n];
        let ghost seen = tiles@.take(n as int);
        let ghost more = tiles@.take(n + 1);
        let ghost old_rows = rows@;
        assert(more =~= seen.push(tile));
        let mut j: usize = 0;
        while j < rows.len() && rows[j].letter < tile.letter
            invariant
                j <= rows@.len(),
                forall|i: int| 0 <= i < j ==> (#[trigger] rows@[i]).letter < tile.letter,
            decreases rows@.len() - j,
        {
            j += 1;
        }
        if j < rows.len() && rows[j].letter == tile.letter {
            let row = rows[j];
            proof {
                lemma_tile_added(seen, tile, tile.letter);
                vstd::seq_lib::to_multiset_len(letters_of(more));
                assert(count_of(letters_of(more), tile.letter) <= more.len()) by {
                    lemma_count_bounded(letters_of(more), tile.letter);
                }
            }
            rows.set(j, LetterCount { letter: row.letter, value: row.value, count: row.count + 1 });
            proof {
                assert forall|i: int| 0 <= i < rows@.len() implies {
                    &&& (#[trigger] rows@[i]).count == count_of(letters_of(more), rows@[i].letter)
                    &&& first_bearing(more, rows@[i].letter) matches Some(k) && more[k].value
                        == rows@[i].value
                } by {
                    lemma_tile_added(seen, tile, rows@[i].letter);
                    assert(old_rows[i].letter == rows@[i].letter);
                    if i != j {
                        assert(old_rows[i].letter != old_rows[j as int].letter);
                    }
                }
                assert forall|k: int| 0 <= k < more.len() implies exists|i: int|
                    0 <= i < rows@.len() && (#[trigger] rows@[i]).letter == (
                    #[trigger] more[k]).letter by {
                    if k < n {
                        assert(seen[k] == more[k]);
                        let i = choose|i: int|
                            0 <= i < old_rows.len() && (#[trigger] old_rows[i]).letter
                                == seen[k].letter;
                        assert(rows@[i].letter == more[k].letter);
                    } else {
                        assert(rows@[j as int].letter == more[k].letter);
                    }
                }
                assert forall|a: int, b: int| 0 <= a < b < rows@.len() implies (
                #[trigger] rows@[a]).letter < (#[trigger] rows@[b]).letter by {
                    assert(old_rows[a].letter < old_rows[b].letter);
                }
            }
        } else {
            proof {
                assert_by_contradiction!(first_bearing(seen, tile.letter) is None, {
                    lemma_tile_added(seen, tile, tile.letter);
                    let k = first_bearing(seen, tile.letter)->0;
                    let i = choose|i: int|
                        0 <= i < old_rows.len() && (#[trigger] old_rows[i]).letter == (
                        #[trigger] seen[k]).letter;
                    if i < j {
                        assert(old_rows[i].letter < tile.letter);
                    } else if i > j {
                        assert(old_rows[j as int].letter < old_rows[i].letter);
                    }
                });
            }
            rows.insert(j, LetterCount { letter: tile.letter, value: tile.value, count: 1 });
            proof {
                assert forall|i: int| 0 <= i < rows@.len() implies {
                    &&& (#[trigger] rows@[i]).count == count_of(letters_of(more), rows@[i].letter)
                    &&& first_bearing(more, rows@[i].letter) matches Some(k) && more[k].value
                        == rows@[i].value
                } by {
                    lemma_tile_added(seen, tile, rows@[i].letter);
                    if i < j {
                        assert(rows@[i] == old_rows[i]);
                    } else if i > j {
                        assert(rows@[i] == old_rows[i - 1]);
                        assert(old_rows[i - 1].letter != tile.letter) by {
                            if i - 1 > j {
                                assert(old_rows[j as int].letter < old_rows[i - 1].letter);
                            }
                        }
                    }
                }
                assert forall|k: int| 0 <= k < more.len() implies exists|i: int|
                    0 <= i < rows@.len() && (#[trigger] rows@[i]).letter == (
                    #[trigger] more[k]).letter by {
                    if k < n {
                        assert(seen[k] == more[k]);
                        let i = choose|i: int|
                            0 <= i < old_rows.len() && (#[trigger] old_rows[i]).letter
                                == seen[k].letter;
                        if i < j {
                            assert(rows@[i].letter == more[k].letter);
                        } else {
                            assert(rows@[i + 1] == old_rows[i]);
                            assert(rows@[i + 1].letter == more[k].letter);
                        }
                    } else {
                        assert(rows@[j as int].letter == more[k].letter);
                    }
                }
                assert forall|a: int, b: int| 0 <= a < b < rows@.len() implies (
                #[trigger] rows@[a]).letter < (#[trigger] rows@[b]).letter by {
                    let la = if a < j {
                        old_rows[a]
                    } else if a == j {
                        rows@[j as int]
                    } else {
                        old_rows[a - 1]
                    };
                    let lb = if b < j {
                        old_rows[b]
                    } else if b == j {
                        rows@[j as int]
                    } else {
                        old_rows[b - 1]
                    };
                    assert(rows@[a] == la && rows@[b] == lb);
                    if a < j && b > j {
                        assert(old_rows[a].letter < old_rows[b - 1].letter || a == b - 1);
                    }
                    if a == j && b > j + 1 {
                        assert(old_rows[j as int].letter < old_rows[b - 1].letter);
                    }
                }
            }
        }
        n += 1;
    }
    assert(tiles@.take(tiles@.len() as int) =~= tiles@);
    rows
}

/// A row of the table of a bag as text: letter, worth and number, each in
/// its column.
pub open spec fn count_line(row: LetterCount) -> Seq<char> {
    left_aligned(seq![row.letter], 3) + " | "@ + left_aligned(decimal(row.value as nat), 5)
        + " | "@ + left_aligned(decimal(row.count as nat), 5) + "\n"@
}

/// Row `i` of the table as text.
pub open spec fn count_part(rows: Seq<LetterCount>) -> spec_fn(int) -> Seq<char> {
    |i: int| count_line(rows[i])
}

/// The table of a bag as text: a heading, the rows, and the number of tiles.
pub open spec fn counts_text(rows: Seq<LetterCount>, total: nat) -> Seq<char> {
    "--- Bag contents ---\n"@ + "Let | Val   | Count\n"@ + "--------------------\n"@ + join(
        rows.len() as int,
        count_part(rows),
    ) + "Total tiles: "@ + decimal(total) + "\n"@
}

/// A row of the table of a bag as text.
pub fn render_count(row: &LetterCount) -> (out: String)
    ensures
        out@ == count_line(*row),
{
    let mut letter = String::new();
    letter.push(row.letter);
    assert(letter@ =~= seq![row.letter]);
    let mut out = left_align(letter.as_str(), 3);
    out.append(" | ");
    out.append(left_align(decimal_string(row.value as u128).as_str(), 5).as_str());
    out.append(" | ");
    out.append(left_align(decimal_string(row.count as u128).as_str(), 5).as_str());
    out.append("\n");
    out
}

/// The table `rows` as text, with `total` as the number of tiles.
pub fn render_counts(rows: &Vec<LetterCount>, total: usize) -> (out: String)
    ensures
        out@ == counts_text(rows@, total as nat),
{
    let mut out = String::from_str("--- Bag contents ---\n");
    out.append("Let | Val   | Count\n");
    out.append("--------------------\n");
    let ghost head = out@;
    let ghost part = count_part(rows@);
    let mut i: usize = 0;
    while i < rows.len()
        invariant
            i <= rows@.len(),
            part == count_part(rows@),
            out@ == head + join(i as int, part),
        decreases rows@.len() - i,
    {
        let ghost before = out@;
        out.append(render_count(&rows[i]).as_str());
        assert(out@ =~= before + part(i as int));
        i += 1;
        assert(out@ =~= head + join(i as int, part));
    }
    out.append("Total tiles: ");
    out.append(decimal_string(total as u128).as_str());
    out.append("\n");
    assert(out@ =~= counts_text(rows@, total as nat));
    out
}

/// The bag as text: for each letter in it what a tile is worth and how many
/// there are, then the number of tiles.
pub fn render_bag(bag: &Bag) -> (out: String)
    ensures
        exists|rows: Seq<LetterCount>|
            is_summary(rows, bag@) && out@ == #[trigger] counts_text(rows, bag@.len()),
{
    let rows = letter_counts(&bag.tiles);
    let out = render_counts(&rows, bag.tiles.len());
    assert(is_summary(rows@, bag@) && out@ == counts_text(rows@, bag@.len()));
    out
}

} // verus!
