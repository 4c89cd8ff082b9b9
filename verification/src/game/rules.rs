//! What makes a move legal, stated over the board's cells, the rack's tiles
//! and the word's tiles.
//!
//! A move is a start position, a direction and a word. Tile `i` of the word
//! lands `i` cells from the start, to the right for `Across` and downwards
//! for `Down`. Four checks are made in a fixed order, and the first that
//! fails decides the error: the word fits the grid; where it meets a letter
//! on the board it has that letter itself; it covers the center of a board
//! without letters, or touches a letter of a board that has some; and the
//! rack holds the letters that the board does not already show.

use vstd::prelude::*;
use crate::error::MoveError;
use crate::first::least;
use super::bag::{letters_of, Tile};
use super::board::{on_board, Board, Direction, Position, CENTER};

verus! {

/// Row of the cell on which tile `i` lands.
pub open spec fn target_row(pos: Position, dir: Direction, i: int) -> int {
    match dir {
        Direction::Across => pos.row as int,
        Direction::Down => pos.row + i,
    }
}

/// Column of the cell on which tile `i` lands.
pub open spec fn target_col(pos: Position, dir: Direction, i: int) -> int {
    match dir {
        Direction::Across => pos.col + i,
        Direction::Down => pos.col as int,
    }
}

/// Whether tile `i` lands on a cell of the grid.
pub open spec fn lands_on_board(pos: Position, dir: Direction, i: int) -> bool {
    on_board(target_row(pos, dir, i), target_col(pos, dir, i))
}

/// Whether each of the first `len` tiles lands on a cell of the grid.
pub open spec fn fits(pos: Position, dir: Direction, len: int) -> bool {
    forall|i: int| 0 <= i < len ==> #[trigger] lands_on_board(pos, dir, i)
}

/// Holds of `i` where tile `i` lands off the grid.
pub open spec fn off_board(pos: Position, dir: Direction) -> spec_fn(int) -> bool {
    |i: int| !lands_on_board(pos, dir, i)
}

/// The bounds check: the first tile that lands off the grid is reported with
/// the cell it would land on.
pub open spec fn bounds_check(pos: Position, dir: Direction, len: int) -> Result<(), MoveError> {
    match least(off_board(pos, dir), len) {
        None => Ok(()),
        Some(i) => Err(
            MoveError::OutOfBounds {
                row: target_row(pos, dir, i) as usize,
                col: target_col(pos, dir, i) as usize,
            },
        ),
    }
}

/// Whether one of the first `len` tiles lands on the center cell.
pub open spec fn covers_center(pos: Position, dir: Direction, len: int) -> bool {
    exists|i: int|
        0 <= i < len && #[trigger] target_row(pos, dir, i) == CENTER && target_col(pos, dir, i)
            == CENTER
}

/// How often `letter` occurs in `letters`.
pub open spec fn count_of(letters: Seq<char>, letter: char) -> nat {
    letters.to_multiset().count(letter)
}

/// Whether the letter at index `k` of `needed` is one too many for the rack:
/// up to and including `k` it is needed more often than the rack holds it.
pub open spec fn lacking_at(rack: Seq<Tile>, needed: Seq<char>, k: int) -> bool {
    count_of(needed.take(k + 1), needed[k]) > count_of(letters_of(rack), needed[k])
}

/// Holds of `k` where `lacking_at` does.
pub open spec fn lacking(rack: Seq<Tile>, needed: Seq<char>) -> spec_fn(int) -> bool {
    |k: int| lacking_at(rack, needed, k)
}

/// The rack check: with each tile of the rack used at most once, the first
/// needed letter that the rack cannot supply is reported.
pub open spec fn rack_check(rack: Seq<Tile>, needed: Seq<char>) -> Result<(), MoveError> {
    match least(lacking(rack, needed), needed.len() as int) {
        None => Ok(()),
        Some(k) => Err(MoveError::MissingLetter { letter: needed[k] }),
    }
}

impl Board {
    /// Whether tile `i` lands on a cell of the grid that holds another
    /// letter than the tile's.
    pub open spec fn clashes_at(
        &self,
        pos: Position,
        dir: Direction,
        word: Seq<Tile>,
        i: int,
    ) -> bool {
        &&& lands_on_board(pos, dir, i)
        &&& self.letter_at(target_row(pos, dir, i), target_col(pos, dir, i)) matches Some(l) && l
            != word[i].letter
    }

    /// Holds of `i` where `clashes_at` does.
    pub open spec fn clashing(&self, pos: Position, dir: Direction, word: Seq<Tile>) -> spec_fn(
        int,
    ) -> bool {
        |i: int| self.clashes_at(pos, dir, word, i)
    }

    /// The check of the cells: the first tile that lands on another letter
    /// than its own is reported with the cell.
    pub open spec fn cells_check(&self, pos: Position, dir: Direction, word: Seq<Tile>) -> Result<
        (),
        MoveError,
    > {
        match least(self.clashing(pos, dir, word), word.len() as int) {
            None => Ok(()),
            Some(i) => Err(
                MoveError::LetterMismatch {
                    row: target_row(pos, dir, i) as usize,
                    col: target_col(pos, dir, i) as usize,
                },
            ),
        }
    }

    /// Whether the cell `(row, col)` or one of its four neighbours holds a letter.
    pub open spec fn touches_letter(&self, row: int, col: int) -> bool {
        self.has_letter(row, col) || self.has_letter(row - 1, col) || self.has_letter(row + 1, col)
            || self.has_letter(row, col - 1) || self.has_letter(row, col + 1)
    }

    /// Whether tile `i` lands on a cell of the grid, on or beside a letter.
    pub open spec fn touches_at(&self, pos: Position, dir: Direction, i: int) -> bool {
        lands_on_board(pos, dir, i) && self.touches_letter(
            target_row(pos, dir, i),
            target_col(pos, dir, i),
        )
    }

    /// Whether one of the first `len` tiles lands on or beside a letter.
    pub open spec fn connects(&self, pos: Position, dir: Direction, len: int) -> bool {
        exists|i: int| 0 <= i < len && #[trigger] self.touches_at(pos, dir, i)
    }

    /// The connectivity check: on a board without letters the word covers
    /// the center, on any other it touches a letter.
    pub open spec fn link_check(&self, pos: Position, dir: Direction, len: int) -> Result<
        (),
        MoveError,
    > {
        if self.is_vacant() {
            if covers_center(pos, dir, len) {
                Ok(())
            } else {
                Err(MoveError::MustCoverCenter)
            }
        } else {
            if self.connects(pos, dir, len) {
                Ok(())
            } else {
                Err(MoveError::NoConnection)
            }
        }
    }

    /// Whether tile `i` lands on a cell of the grid that already shows the
    /// tile's letter.
    pub open spec fn shows_at(&self, pos: Position, dir: Direction, word: Seq<Tile>, i: int) -> bool {
        lands_on_board(pos, dir, i) && self.letter_at(
            target_row(pos, dir, i),
            target_col(pos, dir, i),
        ) == Some(word[i].letter)
    }

    /// The letters that the first `n` tiles ask of the rack, in word order:
    /// those of the tiles whose cell does not already show their letter.
    pub open spec fn needed_letters(
        &self,
        pos: Position,
        dir: Direction,
        word: Seq<Tile>,
        n: int,
    ) -> Seq<char>
        decreases n,
    {
        if n <= 0 {
            Seq::empty()
        } else if self.shows_at(pos, dir, word, n - 1) {
            self.needed_letters(pos, dir, word, n - 1)
        } else {
            self.needed_letters(pos, dir, word, n - 1).push(word[n - 1].letter)
        }
    }

    /// What becomes of the move: `Ok`, or the error of the first check that fails.
    pub open spec fn verdict(
        &self,
        rack: Seq<Tile>,
        pos: Position,
        dir: Direction,
        word: Seq<Tile>,
    ) -> Result<(), MoveError> {
        let len = word.len() as int;
        if bounds_check(pos, dir, len) is Err {
            bounds_check(pos, dir, len)
        } else if self.cells_check(pos, dir, word) is Err {
            self.cells_check(pos, dir, word)
        } else if self.link_check(pos, dir, len) is Err {
            self.link_check(pos, dir, len)
        } else {
            rack_check(rack, self.needed_letters(pos, dir, word, len))
        }
    }

    /// The index of the tile that lands on `(row, col)`, if one of the first
    /// `len` does.
    pub open spec fn tile_on(pos: Position, dir: Direction, len: int, row: int, col: int) -> Option<
        int,
    > {
        match dir {
            Direction::Across => if row == pos.row && pos.col <= col < pos.col + len {
                Some(col - pos.col)
            } else {
                None
            },
            Direction::Down => if col == pos.col && pos.row <= row < pos.row + len {
                Some(row - pos.row)
            } else {
                None
            },
        }
    }

    /// What the cell `(row, col)` shows once the first `n` tiles of the word
    /// lie on this board: the letter of the tile that lands there, or what
    /// it showed before.
    pub open spec fn letter_after(
        &self,
        pos: Position,
        dir: Direction,
        word: Seq<Tile>,
        n: int,
        row: int,
        col: int,
    ) -> Option<char> {
        match Self::tile_on(pos, dir, n, row, col) {
            Some(i) => Some(word[i].letter),
            None => self.letter_at(row, col),
        }
    }

    /// Whether this board is `before` with the first `n` tiles of the word
    /// laid on it: the cells under them show their letters, every other
    /// cell is as it was, and no premium kind has changed.
    pub open spec fn has_laid(
        &self,
        before: Board,
        pos: Position,
        dir: Direction,
        word: Seq<Tile>,
        n: int,
    ) -> bool {
        forall|r: int, c: int|
            #![trigger self.letter_at(r, c)]
            #![trigger self.kind_at(r, c)]
            on_board(r, c) ==> self.kind_at(r, c) == before.kind_at(r, c) && self.letter_at(r, c)
                == before.letter_after(pos, dir, word, n, r, c)
    }

    /// Whether this board is `before` with the whole word laid on it.
    pub open spec fn is_placement(
        &self,
        before: Board,
        pos: Position,
        dir: Direction,
        word: Seq<Tile>,
    ) -> bool {
        self.has_laid(before, pos, dir, word, word.len() as int)
    }

    /// What becomes of a move that is laid without asking whether it
    /// connects: `Ok`, or the error of the first of the other three checks
    /// that fails.
    pub open spec fn placing_verdict(
        &self,
        rack: Seq<Tile>,
        pos: Position,
        dir: Direction,
        word: Seq<Tile>,
    ) -> Result<(), MoveError> {
        let len = word.len() as int;
        if bounds_check(pos, dir, len) is Err {
            bounds_check(pos, dir, len)
        } else if self.cells_check(pos, dir, word) is Err {
            self.cells_check(pos, dir, word)
        } else {
            rack_check(rack, self.needed_letters(pos, dir, word, len))
        }
    }
}

} // verus!
