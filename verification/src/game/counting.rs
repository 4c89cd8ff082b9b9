//! How the letters of a rack are counted off against the letters that a
//! word needs.

use vstd::prelude::*;
use crate::first::lemma_least;
use super::bag::{letters_of, Tile};
use super::board::{Board, Direction, Position};
use super::player::{bearing, debit, first_bearing, without_first};
use super::rules::{count_of, lacking, lacking_at};

verus! {

/// A tile bears `letter` exactly where `letter` counts among the letters of
/// the tiles.
pub proof fn lemma_bearing_counts(tiles: Seq<Tile>, letter: char)
    ensures
        first_bearing(tiles, letter) is Some <==> count_of(letters_of(tiles), letter) > 0,
{
    broadcast use vstd::seq_lib::group_to_multiset_ensures;

    let letters = letters_of(tiles);
    lemma_least(bearing(tiles, letter), tiles.len() as int);
    if first_bearing(tiles, letter) is Some {
        let i = first_bearing(tiles, letter)->0;
        assert(bearing(tiles, letter)(i));
        assert(letters[i] == letter);
        assert(letters.contains(letter));
    }
    if count_of(letters, letter) > 0 {
        assert(letters.contains(letter));
        let i = choose|i: int| 0 <= i < letters.len() && letters[i] == letter;
        assert(bearing(tiles, letter)(i));
    }
}

/// Taking the first tile that bears `letter` lowers the count of `letter`
/// by one, where there is such a tile, and no other count.
pub proof fn lemma_without_first_counts(tiles: Seq<Tile>, letter: char, other: char)
    ensures
        count_of(letters_of(without_first(tiles, letter)), other) == if other == letter
            && first_bearing(tiles, letter) is Some {
            count_of(letters_of(tiles), other) - 1
        } else {
            count_of(letters_of(tiles), other) as int
        },
        without_first(tiles, letter).len() == if first_bearing(tiles, letter) is Some {
            tiles.len() - 1
        } else {
            tiles.len() as int
        },
{
    broadcast use vstd::seq_lib::group_to_multiset_ensures;

    lemma_least(bearing(tiles, letter), tiles.len() as int);
    lemma_bearing_counts(tiles, letter);
    if first_bearing(tiles, letter) is Some {
        let i = first_bearing(tiles, letter)->0;
        assert(bearing(tiles, letter)(i));
        assert(letters_of(tiles.remove(i)) =~= letters_of(tiles).remove(i));
        assert(letters_of(tiles)[i] == letter);
    }
}

/// Whether the letters up to index `k` of `needed` are lacking depends on
/// nothing that comes after them.
pub proof fn lemma_lacking_prefix(rack: Seq<Tile>, short: Seq<char>, long: Seq<char>, k: int)
    requires
        short.len() <= long.len(),
        long.take(short.len() as int) == short,
        0 <= k < short.len(),
    ensures
        lacking_at(rack, short, k) == lacking_at(rack, long, k),
{
    assert(short.take(k + 1) =~= long.take(k + 1));
    assert(short[k] == long.take(short.len() as int)[k]);
}

/// Where the rack lacks none of the letters of `needed`, what the debit
/// leaves and what was needed make up the rack, letter by letter.
pub proof fn lemma_debit_counts(rack: Seq<Tile>, needed: Seq<char>, letter: char)
    requires
        forall|k: int| 0 <= k < needed.len() ==> !#[trigger] lacking_at(rack, needed, k),
    ensures
        count_of(letters_of(debit(rack, needed)), letter) + count_of(needed, letter) == count_of(
            letters_of(rack),
            letter,
        ),
    decreases needed.len(),
{
    broadcast use vstd::seq_lib::group_to_multiset_ensures;

    if needed.len() == 0 {
        assert(needed.to_multiset().len() == 0);
    } else {
        let before = needed.drop_last();
        let last = needed.last();
        lemma_lacking_shorter(rack, needed);
        assert(before.push(last) =~= needed);
        assert(needed.take(needed.len() as int) =~= needed);
        lemma_debit_counts(rack, before, letter);
        lemma_debit_counts(rack, before, last);
        assert(!lacking_at(rack, needed, needed.len() - 1));
        lemma_bearing_counts(debit(rack, before), last);
        lemma_without_first_counts(debit(rack, before), last, letter);
    }
}

/// Where the rack lacks none of the letters of `needed`, the debit takes
/// one tile for each of them.
pub proof fn lemma_debit_len(rack: Seq<Tile>, needed: Seq<char>)
    requires
        forall|k: int| 0 <= k < needed.len() ==> !#[trigger] lacking_at(rack, needed, k),
    ensures
        debit(rack, needed).len() + needed.len() == rack.len(),
    decreases needed.len(),
{
    broadcast use vstd::seq_lib::group_to_multiset_ensures;

    if needed.len() > 0 {
        let before = needed.drop_last();
        let last = needed.last();
        lemma_lacking_shorter(rack, needed);
        assert(before.push(last) =~= needed);
        assert(needed.take(needed.len() as int) =~= needed);
        lemma_debit_len(rack, before);
        lemma_debit_counts(rack, before, last);
        assert(!lacking_at(rack, needed, needed.len() - 1));
        lemma_bearing_counts(debit(rack, before), last);
        lemma_without_first_counts(debit(rack, before), last, last);
    }
}

/// Where the rack lacks none of the letters of `needed`, it lacks none of
/// them with the last left out.
pub proof fn lemma_lacking_shorter(rack: Seq<Tile>, needed: Seq<char>)
    requires
        needed.len() > 0,
        forall|k: int| 0 <= k < needed.len() ==> !#[trigger] lacking_at(rack, needed, k),
    ensures
        forall|k: int|
            0 <= k < needed.len() - 1 ==> !#[trigger] lacking_at(rack, needed.drop_last(), k),
{
    let before = needed.drop_last();
    assert forall|k: int| 0 <= k < before.len() implies !#[trigger] lacking_at(rack, before, k) by {
        assert(needed.take(before.len() as int) =~= before);
        lemma_lacking_prefix(rack, before, needed, k);
    }
}

impl Board {
    /// The letters that the first `i` tiles need are the first of the letters
    /// that the first `n` tiles need, for `i <= n`.
    pub proof fn lemma_needed_prefix(
        &self,
        pos: Position,
        dir: Direction,
        word: Seq<Tile>,
        i: int,
        n: int,
    )
        requires
            0 <= i <= n,
        ensures
            self.needed_letters(pos, dir, word, i).len() <= self.needed_letters(
                pos,
                dir,
                word,
                n,
            ).len(),
            self.needed_letters(pos, dir, word, n).take(
                self.needed_letters(pos, dir, word, i).len() as int,
            ) == self.needed_letters(pos, dir, word, i),
            self.needed_letters(pos, dir, word, n).len() <= n,
        decreases n,
    {
        let short = self.needed_letters(pos, dir, word, i);
        let long = self.needed_letters(pos, dir, word, n);
        if i == n {
            assert(long.take(short.len() as int) =~= short);
            if n > 0 {
                self.lemma_needed_prefix(pos, dir, word, n - 1, n - 1);
            }
        } else {
            self.lemma_needed_prefix(pos, dir, word, i, n - 1);
            let mid = self.needed_letters(pos, dir, word, n - 1);
            assert(long.take(short.len() as int) =~= mid.take(short.len() as int));
        }
    }
}

} // verus!
