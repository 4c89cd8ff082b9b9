//! What holds of every move and of every draw, proved from the rules.

use vstd::prelude::*;
use crate::error::MoveError;
use crate::first::{least, lemma_least, lemma_least_is, lemma_least_none};
use super::bag::{draw_size, drawn, left_after, letters_of, Tile};
use super::board::{on_board, Board, Direction, Position, BOARD_SIZE};
use super::counting::{lemma_debit_counts, lemma_debit_len};
use super::player::{debit, deficit, Rack};
use super::rules::{
    bounds_check, count_of, covers_center, fits, lacking, lacking_at, lands_on_board, off_board,
    rack_check, target_col, target_row,
};

verus! {

/// The bounds check passes exactly where the word fits the grid.
pub proof fn law_bounds_check_passes(pos: Position, dir: Direction, len: int)
    ensures
        bounds_check(pos, dir, len) is Ok <==> fits(pos, dir, len),
{
    lemma_least(off_board(pos, dir), len);
    if bounds_check(pos, dir, len) is Ok {
        assert forall|i: int| 0 <= i < len implies #[trigger] lands_on_board(pos, dir, i) by {
            assert(!off_board(pos, dir)(i));
        }
    } else {
        let i = least(off_board(pos, dir), len)->0;
        assert(off_board(pos, dir)(i));
        assert(!lands_on_board(pos, dir, i));
    }
}

/// A word that starts on the grid and is longer than the room from its
/// start to the edge runs off the grid at the cell just past the edge, and
/// no other word that starts on the grid does. A word of at least one tile
/// that starts off the grid is off it with its first tile.
pub proof fn law_bounds_check_closed_form(pos: Position, dir: Direction, len: int)
    ensures
        bounds_check(pos, dir, len) == if len <= 0 {
            Ok::<(), MoveError>(())
        } else if !on_board(pos.row as int, pos.col as int) {
            Err::<(), MoveError>(MoveError::OutOfBounds { row: pos.row, col: pos.col })
        } else {
            match dir {
                Direction::Across => if pos.col + len <= BOARD_SIZE {
                    Ok::<(), MoveError>(())
                } else {
                    Err::<(), MoveError>(MoveError::OutOfBounds { row: pos.row, col: BOARD_SIZE })
                },
                Direction::Down => if pos.row + len <= BOARD_SIZE {
                    Ok::<(), MoveError>(())
                } else {
                    Err::<(), MoveError>(MoveError::OutOfBounds { row: BOARD_SIZE, col: pos.col })
                },
            }
        },
{
    let p = off_board(pos, dir);
    if len <= 0 {
    } else if !on_board(pos.row as int, pos.col as int) {
        assert(p(0));
        lemma_least_is(p, len, 0);
    } else {
        let room = match dir {
            Direction::Across => BOARD_SIZE - pos.col,
            Direction::Down => BOARD_SIZE - pos.row,
        };
        if room < len {
            assert(p(room));
            assert forall|j: int| 0 <= j < room implies !#[trigger] p(j) by {
                assert(lands_on_board(pos, dir, j));
            }
            lemma_least_is(p, len, room);
        } else {
            assert forall|j: int| 0 <= j < len implies !#[trigger] p(j) by {
                assert(lands_on_board(pos, dir, j));
            }
            lemma_least_none(p, len);
        }
    }
}

/// The rack check passes exactly where the rack holds every letter at least
/// as often as it is needed.
pub proof fn law_rack_check_passes(rack: Seq<Tile>, needed: Seq<char>)
    ensures
        rack_check(rack, needed) is Ok <==> forall|letter: char|
            count_of(needed, letter) <= #[trigger] count_of(letters_of(rack), letter),
{
    broadcast use vstd::seq_lib::group_to_multiset_ensures;

    let p = lacking(rack, needed);
    lemma_least(p, needed.len() as int);
    if rack_check(rack, needed) is Ok {
        assert forall|k: int| 0 <= k < needed.len() implies !#[trigger] lacking_at(
            rack,
            needed,
            k,
        ) by {
            assert(!p(k));
        }
        assert forall|letter: char|
            count_of(needed, letter) <= #[trigger] count_of(letters_of(rack), letter) by {
            lemma_debit_counts(rack, needed, letter);
        }
    }
    if forall|letter: char|
        count_of(needed, letter) <= #[trigger] count_of(letters_of(rack), letter) {
        assert forall|k: int| 0 <= k < needed.len() implies !#[trigger] p(k) by {
            let head = needed.take(k + 1);
            let rest = needed.skip(k + 1);
            assert(head + rest =~= needed);
            vstd::seq_lib::lemma_multiset_commutative(head, rest);
            assert(count_of(head, needed[k]) <= count_of(needed, needed[k]));
            assert(count_of(needed, needed[k]) <= count_of(letters_of(rack), needed[k]));
        }
        lemma_least_none(p, needed.len() as int);
    }
}

/// Where the rack check passes, the tiles that stay on the rack and the
/// letters that were needed make up the rack as it was, letter by letter,
/// and the rack has lost one tile for each needed letter.
pub proof fn law_debit_conserves(rack: Seq<Tile>, needed: Seq<char>)
    requires
        rack_check(rack, needed) is Ok,
    ensures
        letters_of(debit(rack, needed)).to_multiset().add(needed.to_multiset()) == letters_of(
            rack,
        ).to_multiset(),
        debit(rack, needed).len() + needed.len() == rack.len(),
{
    broadcast use vstd::multiset::group_multiset_axioms;

    let p = lacking(rack, needed);
    lemma_least(p, needed.len() as int);
    assert forall|k: int| 0 <= k < needed.len() implies !#[trigger] lacking_at(rack, needed, k) by {
        assert(!p(k));
    }
    lemma_debit_len(rack, needed);
    assert forall|letter: char|
        letters_of(debit(rack, needed)).to_multiset().add(needed.to_multiset()).count(letter)
            == letters_of(rack).to_multiset().count(letter) by {
        lemma_debit_counts(rack, needed, letter);
    }
    assert(letters_of(debit(rack, needed)).to_multiset().add(needed.to_multiset()) =~= letters_of(
        rack,
    ).to_multiset());
}

impl Board {
    /// On a board without letters no tile clashes and every tile of the
    /// word is needed from the rack.
    pub proof fn law_vacant_board(&self, pos: Position, dir: Direction, word: Seq<Tile>, n: int)
        requires
            self.is_vacant(),
            fits(pos, dir, word.len() as int),
            0 <= n <= word.len(),
        ensures
            self.cells_check(pos, dir, word) is Ok,
            self.needed_letters(pos, dir, word, n) == letters_of(word.take(n)),
        decreases n,
    {
        assert forall|j: int| 0 <= j < word.len() implies !#[trigger] self.clashing(
            pos,
            dir,
            word,
        )(j) by {
            assert(lands_on_board(pos, dir, j));
        }
        lemma_least_none(self.clashing(pos, dir, word), word.len() as int);
        if n > 0 {
            self.law_vacant_board(pos, dir, word, n - 1);
            assert(lands_on_board(pos, dir, n - 1));
            assert(!self.shows_at(pos, dir, word, n - 1));
            assert(letters_of(word.take(n - 1)).push(word[n - 1].letter) =~= letters_of(
                word.take(n),
            ));
        } else {
            assert(letters_of(word.take(0)) =~= Seq::<char>::empty());
        }
    }

    /// The opening constraint: on a board without letters, a word that fits
    /// the grid and does not cover the center is turned down with
    /// `MustCoverCenter`, whatever the rack holds.
    pub proof fn law_opening_must_cover_center(
        &self,
        rack: Seq<Tile>,
        pos: Position,
        dir: Direction,
        word: Seq<Tile>,
    )
        requires
            self.is_vacant(),
            fits(pos, dir, word.len() as int),
            !covers_center(pos, dir, word.len() as int),
        ensures
            self.verdict(rack, pos, dir, word) == Err::<(), MoveError>(MoveError::MustCoverCenter),
    {
        law_bounds_check_passes(pos, dir, word.len() as int);
        self.law_vacant_board(pos, dir, word, 0);
    }

    /// The opening move: on a board without letters, a word that fits the
    /// grid and covers the center is accepted, in either direction, where
    /// the rack holds each of its letters as often as the word has it.
    pub proof fn law_opening_accepted(
        &self,
        rack: Seq<Tile>,
        pos: Position,
        dir: Direction,
        word: Seq<Tile>,
    )
        requires
            self.is_vacant(),
            fits(pos, dir, word.len() as int),
            covers_center(pos, dir, word.len() as int),
            forall|letter: char|
                count_of(letters_of(word), letter) <= #[trigger] count_of(
                    letters_of(rack),
                    letter,
                ),
        ensures
            self.verdict(rack, pos, dir, word) == Ok::<(), MoveError>(()),
    {
        law_bounds_check_passes(pos, dir, word.len() as int);
        self.law_vacant_board(pos, dir, word, word.len() as int);
        assert(word.take(word.len() as int) =~= word);
        law_rack_check_passes(rack, letters_of(word));
    }

    /// Connectivity: on a board that holds a letter, a word that fits the
    /// grid and has no tile on or beside a letter is turned down with
    /// `NoConnection`, whatever the rack holds.
    pub proof fn law_must_connect(
        &self,
        rack: Seq<Tile>,
        pos: Position,
        dir: Direction,
        word: Seq<Tile>,
    )
        requires
            !self.is_vacant(),
            fits(pos, dir, word.len() as int),
            !self.connects(pos, dir, word.len() as int),
        ensures
            self.verdict(rack, pos, dir, word) == Err::<(), MoveError>(MoveError::NoConnection),
    {
        law_bounds_check_passes(pos, dir, word.len() as int);
        assert forall|j: int| 0 <= j < word.len() implies !#[trigger] self.clashing(
            pos,
            dir,
            word,
        )(j) by {
            assert(lands_on_board(pos, dir, j));
            assert(!self.touches_at(pos, dir, j));
        }
        lemma_least_none(self.clashing(pos, dir, word), word.len() as int);
    }

    /// Where no tile clashes, a tile needs nothing from the rack exactly
    /// where it lands on a letter: a move takes from the rack one tile for
    /// each free cell that it covers, and no other.
    pub proof fn law_needs_free_cells(&self, pos: Position, dir: Direction, word: Seq<Tile>, i: int)
        requires
            self.cells_check(pos, dir, word) is Ok,
            0 <= i < word.len(),
            lands_on_board(pos, dir, i),
        ensures
            self.shows_at(pos, dir, word, i) <==> self.has_letter(
                target_row(pos, dir, i),
                target_col(pos, dir, i),
            ),
    {
        let clash = self.clashing(pos, dir, word);
        lemma_least(clash, word.len() as int);
        assert(!clash(i));
    }

    /// A letter, once on the board, stays: where a move is accepted, every
    /// cell that held a letter holds the same letter after the word is laid.
    pub proof fn law_letters_stay(
        &self,
        after: Board,
        rack: Seq<Tile>,
        pos: Position,
        dir: Direction,
        word: Seq<Tile>,
        row: int,
        col: int,
    )
        requires
            self.placing_verdict(rack, pos, dir, word) is Ok,
            after.is_placement(*self, pos, dir, word),
            on_board(row, col),
            self.letter_at(row, col) is Some,
        ensures
            after.letter_at(row, col) == self.letter_at(row, col),
    {
        let len = word.len() as int;
        let clash = self.clashing(pos, dir, word);
        lemma_least(clash, len);
        match Self::tile_on(pos, dir, len, row, col) {
            Some(i) => {
                assert(!clash(i));
                assert(!self.clashes_at(pos, dir, word, i));
            },
            None => {},
        }
    }

    /// A move is accepted exactly where the word fits the grid, clashes
    /// with no letter, is connected, and asks of the rack no letter more
    /// often than the rack holds it.
    pub proof fn law_verdict_ok(
        &self,
        rack: Seq<Tile>,
        pos: Position,
        dir: Direction,
        word: Seq<Tile>,
    )
        ensures
            self.verdict(rack, pos, dir, word) is Ok <==> {
                &&& fits(pos, dir, word.len() as int)
                &&& forall|i: int|
                    0 <= i < word.len() ==> !#[trigger] self.clashes_at(pos, dir, word, i)
                &&& if self.is_vacant() {
                    covers_center(pos, dir, word.len() as int)
                } else {
                    self.connects(pos, dir, word.len() as int)
                }
                &&& forall|letter: char|
                    count_of(
                        self.needed_letters(pos, dir, word, word.len() as int),
                        letter,
                    ) <= #[trigger] count_of(letters_of(rack), letter)
            },
    {
        let len = word.len() as int;
        law_bounds_check_passes(pos, dir, len);
        law_rack_check_passes(rack, self.needed_letters(pos, dir, word, len));
        let clash = self.clashing(pos, dir, word);
        lemma_least(clash, len);
        if self.cells_check(pos, dir, word) is Ok {
            assert forall|i: int| 0 <= i < word.len() implies !#[trigger] self.clashes_at(
                pos,
                dir,
                word,
                i,
            ) by {
                assert(!clash(i));
            }
        } else {
            let i = least(clash, len)->0;
            assert(clash(i));
            assert(self.clashes_at(pos, dir, word, i));
        }
    }
}

/// A draw hands out no more tiles than were asked for and no more than the
/// bag held, and what it hands out and what it leaves are the tiles that
/// the bag held.
pub proof fn law_draw_bounded(tiles: Seq<Tile>, n: nat)
    ensures
        drawn(tiles, n).len() <= n,
        drawn(tiles, n).len() <= tiles.len(),
        drawn(tiles, n).len() + left_after(tiles, n).len() == tiles.len(),
        left_after(tiles, n) + drawn(tiles, n).reverse() == tiles,
        left_after(tiles, n).to_multiset().add(drawn(tiles, n).to_multiset())
            == tiles.to_multiset(),
{
    let kept = left_after(tiles, n);
    let out = drawn(tiles, n);
    assert(kept + out.reverse() =~= tiles);
    vstd::seq_lib::lemma_multiset_commutative(kept, out.reverse());
    out.lemma_reverse_to_multiset();
}

/// A draw that asks for at least what the bag holds empties the bag, and
/// every draw from an empty bag hands out nothing and leaves it empty.
pub proof fn law_draw_exhausts(tiles: Seq<Tile>, n: nat, m: nat)
    requires
        tiles.len() <= n,
    ensures
        left_after(tiles, n).len() == 0,
        drawn(left_after(tiles, n), m).len() == 0,
        left_after(left_after(tiles, n), m).len() == 0,
{
}

/// A top-up adds the deficit of the rack where the bag holds as much, and
/// fewer tiles, namely all that the bag holds, where it does not. A rack
/// that held no more than a full rack holds no more afterwards.
pub proof fn law_top_up_bounded(held: nat, in_bag: nat)
    ensures
        draw_size(in_bag, deficit(held)) <= deficit(held),
        in_bag < deficit(held) ==> draw_size(in_bag, deficit(held)) == in_bag && draw_size(
            in_bag,
            deficit(held),
        ) < deficit(held),
        in_bag >= deficit(held) ==> draw_size(in_bag, deficit(held)) == deficit(held),
        held <= Rack::CAPACITY ==> held + draw_size(in_bag, deficit(held)) <= Rack::CAPACITY,
{
}

} // verus!
