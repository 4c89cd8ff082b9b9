//! The checks of a move, one function each, and the step that lays the word
//! on the board and takes its tiles from the rack.

use vstd::prelude::*;
use crate::error::MoveError;
use crate::first::{lemma_least, lemma_least_is, lemma_least_none};
use super::bag::Tile;
use super::board::{on_board, Board, Direction, Position, Word, BOARD_SIZE, CENTER};
use super::counting::{
    lemma_bearing_counts, lemma_debit_counts, lemma_debit_len, lemma_lacking_prefix,
};
use super::player::{debit, find_letter, Rack};
use super::rules::{
    bounds_check, fits, lacking, lacking_at, lands_on_board, off_board, rack_check, target_col,
    target_row,
};

verus! {

impl Board {
    /// Whether no cell holds a letter.
    pub fn is_empty(&self) -> (empty: bool)
        ensures
            empty == self.is_vacant(),
    {
        let mut row: usize = 0;
        while row < BOARD_SIZE
            invariant
                row <= BOARD_SIZE,
                forall|r: int, c: int| 0 <= r < row && 0 <= c < BOARD_SIZE ==> self.letter_at(r, c) is None,
            decreases BOARD_SIZE - row,
        {
            let mut col: usize = 0;
            while col < BOARD_SIZE
                invariant
                    row < BOARD_SIZE,
                    col <= BOARD_SIZE,
                    forall|r: int, c: int|
                        0 <= r < row && 0 <= c < BOARD_SIZE ==> self.letter_at(r, c) is None,
                    forall|c: int| 0 <= c < col ==> self.letter_at(row as int, c) is None,
                decreases BOARD_SIZE - col,
            {
                if self.cells[row][col].letter.is_some() {
                    assert(on_board(row as int, col as int));
                    return false;
                }
                col += 1;
            }
            row += 1;
        }
        true
    }

    /// Whether `(row, col)` is a cell of the grid.
    pub fn in_bounds(&self, row: usize, col: usize) -> (inside: bool)
        ensures
            inside == on_board(row as int, col as int),
    {
        row < BOARD_SIZE && col < BOARD_SIZE
    }

    /// The cell on which tile `i` of a word lands.
    pub fn step_towards_dir(pos: &Position, dir: &Direction, i: usize) -> (cell: (usize, usize))
        requires
            target_row(*pos, *dir, i as int) <= usize::MAX,
            target_col(*pos, *dir, i as int) <= usize::MAX,
        ensures
            cell.0 == target_row(*pos, *dir, i as int),
            cell.1 == target_col(*pos, *dir, i as int),
    {
        match dir {
            Direction::Across => (pos.row, pos.col + i),
            Direction::Down => (pos.row + i, pos.col),
        }
    }

    /// The cell on which tile `i` of a word lands, where that is a cell of
    /// the grid.
    pub fn cell_at(pos: &Position, dir: &Direction, i: usize) -> (cell: Option<(usize, usize)>)
        ensures
            match cell {
                Some((row, col)) => lands_on_board(*pos, *dir, i as int) && row == target_row(
                    *pos,
                    *dir,
                    i as int,
                ) && col == target_col(*pos, *dir, i as int),
                None => !lands_on_board(*pos, *dir, i as int),
            },
    {
        if pos.row >= BOARD_SIZE || pos.col >= BOARD_SIZE {
            return None;
        }
        match dir {
            Direction::Across => if i < BOARD_SIZE - pos.col {
                Some((pos.row, pos.col + i))
            } else {
                None
            },
            Direction::Down => if i < BOARD_SIZE - pos.row {
                Some((pos.row + i, pos.col))
            } else {
                None
            },
        }
    }

    /// The bounds check: fails on the first tile that would land off the grid.
    pub fn validate_in_bounds(&self, pos: &Position, dir: &Direction, word: &Word) -> (r: Result<
        (),
        MoveError,
    >)
        ensures
            r == bounds_check(*pos, *dir, word@.len() as int),
            r is Ok <==> fits(*pos, *dir, word@.len() as int),
    {
        let ghost len = word@.len() as int;
        let mut i: usize = 0;
        while i < word.tiles.len()
            invariant
                i <= word@.len(),
                len == word@.len(),
                forall|j: int| 0 <= j < i ==> #[trigger] lands_on_board(*pos, *dir, j),
            decreases word@.len() - i,
        {
            proof {
                if i > 0 {
                    assert(lands_on_board(*pos, *dir, i - 1));
                }
            }
            let (row, col) = Self::step_towards_dir(pos, dir, i);
            if !self.in_bounds(row, col) {
                proof {
                    assert(!lands_on_board(*pos, *dir, i as int));
                    assert forall|j: int| 0 <= j < i implies !#[trigger] off_board(*pos, *dir)(
                        j,
                    ) by {
                        assert(lands_on_board(*pos, *dir, j));
                    }
                    lemma_least_is(off_board(*pos, *dir), len, i as int);
                }
                return Err(MoveError::OutOfBounds { row, col });
            }
            i += 1;
        }
        proof {
            assert forall|j: int| 0 <= j < len implies !#[trigger] off_board(*pos, *dir)(j) by {
                assert(lands_on_board(*pos, *dir, j));
            }
            lemma_least_none(off_board(*pos, *dir), len);
        }
        Ok(())
    }

    /// How the cell `(row, col)` stands to a tile that bears `target_letter`:
    /// `Ok(true)` where it already shows that letter, `Ok(false)` where it is
    /// free, and an error where it holds another letter.
    pub fn is_cell_available(&self, target_letter: char, row: usize, col: usize) -> (r: Result<
        bool,
        MoveError,
    >)
        requires
            on_board(row as int, col as int),
        ensures
            r == match self.letter_at(row as int, col as int) {
                Some(l) => if l == target_letter {
                    Ok::<bool, MoveError>(true)
                } else {
                    Err::<bool, MoveError>(MoveError::LetterMismatch { row, col })
                },
                None => Ok::<bool, MoveError>(false),
            },
    {
        match self.cells[row][col].letter {
            Some(existing_letter) => {
                if existing_letter != target_letter {
                    return Err(MoveError::LetterMismatch { row, col });
                }
                Ok(true)
            },
            None => Ok(false),
        }
    }

    /// The check of the cells: fails on the first tile that would land on
    /// another letter than its own.
    pub fn validate_cells_available(&self, pos: &Position, dir: &Direction, word: &Word) -> (r:
        Result<(), MoveError>)
        ensures
            r == self.cells_check(*pos, *dir, word@),
            r is Ok <==> forall|i: int|
                0 <= i < word@.len() ==> !#[trigger] self.clashes_at(*pos, *dir, word@, i),
    {
        let ghost len = word@.len() as int;
        let ghost clash = self.clashing(*pos, *dir, word@);
        let mut i: usize = 0;
        while i < word.tiles.len()
            invariant
                i <= word@.len(),
                len == word@.len(),
                clash == self.clashing(*pos, *dir, word@),
                forall|j: int| 0 <= j < i ==> !#[trigger] self.clashes_at(*pos, *dir, word@, j),
            decreases word@.len() - i,
        {
            if let Some((row, col)) = Self::cell_at(pos, dir, i) {
                match self.is_cell_available(word.tiles[i].letter, row, col) {
                    Ok(_) => {},
                    Err(e) => {
                        proof {
                            assert(self.clashes_at(*pos, *dir, word@, i as int));
                            assert(clash(i as int));
                            assert forall|j: int| 0 <= j < i implies !#[trigger] clash(j) by {
                                assert(!self.clashes_at(*pos, *dir, word@, j));
                            }
                            lemma_least_is(clash, len, i as int);
                        }
                        return Err(e);
                    },
                }
            }
            i += 1;
        }
        proof {
            assert forall|j: int| 0 <= j < len implies !#[trigger] clash(j) by {
                assert(!self.clashes_at(*pos, *dir, word@, j));
            }
            lemma_least_none(clash, len);
        }
        Ok(())
    }

    /// The connectivity check: on a board without letters the word must
    /// cover the center, on any other it must land on or beside a letter.
    pub fn validate_adjacent_tiles(&self, pos: &Position, dir: &Direction, word: &Word) -> (r:
        Result<(), MoveError>)
        ensures
            r == self.link_check(*pos, *dir, word@.len() as int),
    {
        let ghost len = word@.len() as int;
        if self.is_empty() {
            let mut i: usize = 0;
            while i < word.tiles.len()
                invariant
                    i <= word@.len(),
                    len == word@.len(),
                    self.is_vacant(),
                    forall|j: int|
                        0 <= j < i ==> !(#[trigger] target_row(*pos, *dir, j) == CENTER
                            && target_col(*pos, *dir, j) == CENTER),
                decreases word@.len() - i,
            {
                if let Some((row, col)) = Self::cell_at(pos, dir, i) {
                    if row == CENTER && col == CENTER {
                        assert(target_row(*pos, *dir, i as int) == CENTER && target_col(
                            *pos,
                            *dir,
                            i as int,
                        ) == CENTER);
                        return Ok(());
                    }
                }
                i += 1;
            }
            return Err(MoveError::MustCoverCenter);
        }
        let mut i: usize = 0;
        while i < word.tiles.len()
            invariant
                i <= word@.len(),
                len == word@.len(),
                !self.is_vacant(),
                forall|j: int| 0 <= j < i ==> !#[trigger] self.touches_at(*pos, *dir, j),
            decreases word@.len() - i,
        {
            if let Some((row, col)) = Self::cell_at(pos, dir, i) {
                if self.cells[row][col].letter.is_some() {
                    assert(self.touches_at(*pos, *dir, i as int));
                    return Ok(());
                }
                if row > 0 && self.cells[row - 1][col].letter.is_some() {
                    assert(self.touches_at(*pos, *dir, i as int));
                    return Ok(());
                }
                if row < BOARD_SIZE - 1 && self.cells[row + 1][col].letter.is_some() {
                    assert(self.touches_at(*pos, *dir, i as int));
                    return Ok(());
                }
                if col > 0 && self.cells[row][col - 1].letter.is_some() {
                    assert(self.touches_at(*pos, *dir, i as int));
                    return Ok(());
                }
                if col < BOARD_SIZE - 1 && self.cells[row][col + 1].letter.is_some() {
                    assert(self.touches_at(*pos, *dir, i as int));
                    return Ok(());
                }
            }
            assert(!self.touches_at(*pos, *dir, i as int));
            i += 1;
        }
        Err(MoveError::NoConnection)
    }

    /// The rack check: fails on the first letter that the word needs and the
    /// rack, each of its tiles used once at most, cannot supply. A tile of
    /// the word whose cell already shows its letter needs nothing.
    pub fn validate_player_has_tiles(
        &self,
        rack: &Rack,
        pos: &Position,
        dir: &Direction,
        word: &Word,
    ) -> (r: Result<(), MoveError>)
        ensures
            r == rack_check(rack@, self.needed_letters(*pos, *dir, word@, word@.len() as int)),
    {
        let ghost len = word@.len() as int;
        let ghost full = self.needed_letters(*pos, *dir, word@, len);
        let mut available_tiles = copy_of(&rack.tiles);
        let mut i: usize = 0;
        while i < word.tiles.len()
            invariant
                i <= word@.len(),
                len == word@.len(),
                full == self.needed_letters(*pos, *dir, word@, len),
                available_tiles@ == debit(rack@, self.needed_letters(*pos, *dir, word@, i as int)),
                forall|k: int|
                    0 <= k < self.needed_letters(*pos, *dir, word@, i as int).len()
                        ==> !#[trigger] lacking_at(
                        rack@,
                        self.needed_letters(*pos, *dir, word@, i as int),
                        k,
                    ),
            decreases word@.len() - i,
        {
            let ghost needed = self.needed_letters(*pos, *dir, word@, i as int);
            let ghost next = self.needed_letters(*pos, *dir, word@, i + 1);
            let letter = word.tiles[i].letter;
            let shown = match Self::cell_at(pos, dir, i) {
                Some((row, col)) => match self.cells[row][col].letter {
                    Some(l) => l == letter,
                    None => false,
                },
                None => false,
            };
            assert(shown == self.shows_at(*pos, *dir, word@, i as int));
            if !shown {
                let ghost k = needed.len() as int;
                proof {
                    assert(next == needed.push(letter));
                    assert(next.drop_last() =~= needed);
                    assert(next.take(k + 1) =~= next);
                    assert(next.take(k) =~= needed);
                    lemma_debit_counts(rack@, needed, letter);
                    lemma_bearing_counts(available_tiles@, letter);
                    vstd::seq_lib::to_multiset_build(needed, letter);
                    assert forall|j: int| 0 <= j < k implies lacking_at(rack@, next, j)
                        == lacking_at(rack@, needed, j) by {
                        lemma_lacking_prefix(rack@, needed, next, j);
                    }
                }
                match find_letter(&available_tiles, letter) {
                    Some(idx) => {
                        available_tiles.remove(idx);
                        assert(!lacking_at(rack@, next, k));
                    },
                    None => {
                        proof {
                            assert(lacking_at(rack@, next, k));
                            self.lemma_needed_prefix(*pos, *dir, word@, i + 1, len);
                            assert(full[k] == full.take(next.len() as int)[k]);
                            assert forall|j: int| 0 <= j < k implies !#[trigger] lacking(
                                rack@,
                                full,
                            )(j) by {
                                lemma_lacking_prefix(rack@, next, full, j);
                            }
                            lemma_lacking_prefix(rack@, next, full, k);
                            assert(lacking(rack@, full)(k));
                            lemma_least_is(lacking(rack@, full), full.len() as int, k);
                        }
                        return Err(MoveError::MissingLetter { letter });
                    },
                }
            }
            i += 1;
        }
        proof {
            assert forall|j: int| 0 <= j < full.len() implies !#[trigger] lacking(rack@, full)(
                j,
            ) by {
                assert(!lacking_at(rack@, full, j));
            }
            lemma_least_none(lacking(rack@, full), full.len() as int);
        }
        Ok(())
    }

    /// Lays a word that has passed the checks: each tile whose cell is free
    /// takes the first tile of the rack that bears its letter and writes the
    /// letter on the cell; a tile whose cell already shows its letter takes
    /// nothing.
    fn commit(&mut self, rack: &mut Rack, pos: &Position, dir: &Direction, word: &Word)
        requires
            fits(*pos, *dir, word@.len() as int),
            old(self).cells_check(*pos, *dir, word@) is Ok,
            rack_check(
                old(rack)@,
                old(self).needed_letters(*pos, *dir, word@, word@.len() as int),
            ) is Ok,
        ensures
            final(self).is_placement(*old(self), *pos, *dir, word@),
            final(rack)@ == debit(
                old(rack)@,
                old(self).needed_letters(*pos, *dir, word@, word@.len() as int),
            ),
            final(rack)@.len() <= old(rack)@.len(),
    {
        let ghost len = word@.len() as int;
        let ghost start = *self;
        let ghost hand = rack@;
        let ghost full = start.needed_letters(*pos, *dir, word@, len);
        proof {
            lemma_least(start.clashing(*pos, *dir, word@), len);
            lemma_least(lacking(hand, full), full.len() as int);
            assert forall|k: int| 0 <= k < full.len() implies !#[trigger] lacking_at(
                hand,
                full,
                k,
            ) by {
                assert(!lacking(hand, full)(k));
            }
            assert forall|j: int| 0 <= j < len implies !#[trigger] start.clashes_at(
                *pos,
                *dir,
                word@,
                j,
            ) by {
                assert(!start.clashing(*pos, *dir, word@)(j));
            }
        }
        let mut i: usize = 0;
        while i < word.tiles.len()
            invariant
                i <= word@.len(),
                len == word@.len(),
                full == start.needed_letters(*pos, *dir, word@, len),
                fits(*pos, *dir, len),
                forall|k: int| 0 <= k < full.len() ==> !#[trigger] lacking_at(hand, full, k),
                forall|j: int|
                    0 <= j < len ==> !#[trigger] start.clashes_at(*pos, *dir, word@, j),
                self.has_laid(start, *pos, *dir, word@, i as int),
                rack@ == debit(hand, start.needed_letters(*pos, *dir, word@, i as int)),
            decreases word@.len() - i,
        {
            let ghost needed = start.needed_letters(*pos, *dir, word@, i as int);
            let ghost next = start.needed_letters(*pos, *dir, word@, i + 1);
            let ghost laid = *self;
            let target_letter = word.tiles[i].letter;
            assert(lands_on_board(*pos, *dir, i as int));
            let (row, col) = Self::step_towards_dir(pos, dir, i);
            assert(Self::tile_on(*pos, *dir, i as int, row as int, col as int) is None);
            assert(self.letter_at(row as int, col as int) == start.letter_at(
                row as int,
                col as int,
            ));
            assert(!start.clashes_at(*pos, *dir, word@, i as int));
            if self.cells[row][col].letter.is_none() {
                let ghost k = needed.len() as int;
                proof {
                    assert(next == needed.push(target_letter));
                    assert(next.drop_last() =~= needed);
                    assert(next.take(k + 1) =~= next);
                    assert(next.take(k) =~= needed);
                    start.lemma_needed_prefix(*pos, *dir, word@, i + 1, len);
                    lemma_lacking_prefix(hand, next, full, k);
                    assert forall|j: int| 0 <= j < k implies !#[trigger] lacking_at(
                        hand,
                        needed,
                        j,
                    ) by {
                        lemma_lacking_prefix(hand, next, full, j);
                        lemma_lacking_prefix(hand, needed, next, j);
                    }
                    lemma_debit_counts(hand, needed, target_letter);
                    vstd::seq_lib::to_multiset_build(needed, target_letter);
                    lemma_bearing_counts(rack@, target_letter);
                }
                let tile = rack.remove_matching(target_letter).unwrap();
                self.cells[row][col].letter = Some(tile.letter);
            }
            proof {
                assert forall|r: int, c: int|
                    #![trigger self.letter_at(r, c)]
                    #![trigger self.kind_at(r, c)]
                    on_board(r, c) implies self.kind_at(r, c) == start.kind_at(r, c)
                    && self.letter_at(r, c) == start.letter_after(
                    *pos,
                    *dir,
                    word@,
                    i + 1,
                    r,
                    c,
                ) by {
                    assert(laid.kind_at(r, c) == start.kind_at(r, c));
                    assert(laid.letter_at(r, c) == start.letter_after(
                        *pos,
                        *dir,
                        word@,
                        i as int,
                        r,
                        c,
                    ));
                }
            }
            i += 1;
        }
        proof {
            lemma_debit_len(hand, full);
        }
    }

    /// Lays the word and takes its tiles from the rack, unless it does not
    /// fit the grid, clashes with a letter on the board, or asks more of the
    /// rack than the rack holds. A move that is turned down changes
    /// nothing. Whether the word connects is not asked here.
    pub fn place_word(
        &mut self,
        rack: &mut Rack,
        pos: &Position,
        dir: &Direction,
        word: &Word,
    ) -> (r: Result<(), MoveError>)
        ensures
            r == old(self).placing_verdict(old(rack)@, *pos, *dir, word@),
            r is Err ==> *final(self) == *old(self) && *final(rack) == *old(rack),
            r is Ok ==> final(self).is_placement(*old(self), *pos, *dir, word@) && final(rack)@
                == debit(
                old(rack)@,
                old(self).needed_letters(*pos, *dir, word@, word@.len() as int),
            ),
            final(rack)@.len() <= old(rack)@.len(),
    {
        self.validate_in_bounds(pos, dir, word)?;
        self.validate_cells_available(pos, dir, word)?;
        self.validate_player_has_tiles(rack, pos, dir, word)?;
        self.commit(rack, pos, dir, word);
        Ok(())
    }

    /// Runs the four checks in order and, where all pass, lays the word and
    /// takes its tiles from the rack. A move that is turned down changes
    /// neither the board nor the rack.
    pub fn validate_and_place(
        &mut self,
        rack: &mut Rack,
        pos: &Position,
        dir: &Direction,
        word: &Word,
    ) -> (r: Result<(), MoveError>)
        ensures
            r == old(self).verdict(old(rack)@, *pos, *dir, word@),
            r is Err ==> *final(self) == *old(self) && *final(rack) == *old(rack),
            r is Ok ==> final(self).is_placement(*old(self), *pos, *dir, word@) && final(rack)@
                == debit(
                old(rack)@,
                old(self).needed_letters(*pos, *dir, word@, word@.len() as int),
            ),
            final(rack)@.len() <= old(rack)@.len(),
    {
        self.validate_in_bounds(pos, dir, word)?;
        self.validate_cells_available(pos, dir, word)?;
        self.validate_adjacent_tiles(pos, dir, word)?;
        self.validate_player_has_tiles(rack, pos, dir, word)?;
        self.commit(rack, pos, dir, word);
        Ok(())
    }
}

/// A vector with the same tiles in the same order.
fn copy_of(tiles: &Vec<Tile>) -> (copy: Vec<Tile>)
    ensures
        copy@ == tiles@,
{
    tiles.clone()
}

} // verus!
