//! The board: a fixed grid of cells, each with a premium kind and at most
//! one letter.

use vstd::prelude::*;
use super::bag::Tile;

verus! {

/// Number of rows, and of columns, of the board.
pub const BOARD_SIZE: usize = 15;

/// Row and column of the cell that the first word of a game must cover.
pub const CENTER: usize = 7;

/// A cell of the grid, by row and column.
#[derive(Copy, Clone, Debug, PartialEq, Eq, Structural)]
pub struct Position {
    pub row: usize,
    pub col: usize,
}

/// The direction in which a word is laid out.
#[derive(Copy, Clone, Debug, PartialEq, Eq, Structural)]
pub enum Direction {
    Across,
    Down,
}

/// The tiles of a word, in reading order.
#[derive(Debug)]
pub struct Word {
    pub tiles: Vec<Tile>,
}

impl View for Word {
    type V = Seq<Tile>;

    open spec fn view(&self) -> Seq<Tile> {
        self.tiles@
    }
}

/// The scoring category of a cell.
#[derive(Copy, Clone, Debug, PartialEq, Eq, Structural)]
pub enum CellKind {
    Normal,
    DoubleLetter,
    TripleLetter,
    DoubleWord,
    TripleWord,
}

/// One square of the board.
#[derive(Copy, Clone, Debug, PartialEq, Eq, Structural)]
pub struct Cell {
    pub letter: Option<char>,
    pub kind: CellKind,
}

/// The 15x15 grid.
#[derive(Debug)]
pub struct Board {
    pub cells: [[Cell; BOARD_SIZE]; BOARD_SIZE],
}

/// The triple-word cells.
pub const TRIPLE_WORD_CELLS: [(usize, usize); 8] = [
    (0, 0), (0, 7), (0, 14), (7, 0), (7, 14), (14, 0), (14, 7), (14, 14),
];

/// The double-word cells, the center among them.
pub const DOUBLE_WORD_CELLS: [(usize, usize); 17] = [
    (1, 1), (2, 2), (3, 3), (4, 4), (1, 13), (2, 12), (3, 11), (4, 10), (10, 4),
    (11, 3), (12, 2), (13, 1), (10, 10), (11, 11), (12, 12), (13, 13), (7, 7),
];

/// The triple-letter cells.
pub const TRIPLE_LETTER_CELLS: [(usize, usize); 12] = [
    (1, 5), (1, 9), (5, 1), (5, 5), (5, 9), (5, 13), (9, 1), (9, 5), (9, 9),
    (9, 13), (13, 5), (13, 9),
];

/// The double-letter cells.
pub const DOUBLE_LETTER_CELLS: [(usize, usize); 24] = [
    (0, 3), (0, 11), (2, 6), (2, 8), (3, 0), (3, 7), (3, 14), (6, 2), (6, 6),
    (6, 8), (6, 12), (7, 3), (7, 11), (8, 2), (8, 6), (8, 8), (8, 12), (11, 0),
    (11, 7), (11, 14), (12, 6), (12, 8), (14, 3), (14, 11),
];

/// Whether `(row, col)` is a cell of the grid.
pub open spec fn on_board(row: int, col: int) -> bool {
    0 <= row < BOARD_SIZE && 0 <= col < BOARD_SIZE
}

/// Whether `(row, col)` is among the first `n` entries of `cells`.
pub open spec fn listed(cells: Seq<(usize, usize)>, n: int, row: int, col: int) -> bool {
    exists|k: int| 0 <= k < n && k < cells.len() && (#[trigger] cells[k]).0 == row && cells[k].1 == col
}

/// The premium kind that the layout gives to the cell `(row, col)`.
pub open spec fn premium_kind(row: int, col: int) -> CellKind {
    if listed(DOUBLE_LETTER_CELLS@, 24, row, col) {
        CellKind::DoubleLetter
    } else if listed(TRIPLE_LETTER_CELLS@, 12, row, col) {
        CellKind::TripleLetter
    } else if listed(DOUBLE_WORD_CELLS@, 17, row, col) {
        CellKind::DoubleWord
    } else if listed(TRIPLE_WORD_CELLS@, 8, row, col) {
        CellKind::TripleWord
    } else {
        CellKind::Normal
    }
}

/// Gives every listed cell the kind `kind` and leaves the rest of the grid as it is.
fn set_kind(
    cells: &mut [[Cell; BOARD_SIZE]; BOARD_SIZE],
    positions: &[(usize, usize)],
    kind: CellKind,
)
    requires
        forall|k: int| 0 <= k < positions@.len() ==> on_board(
            (#[trigger] positions@[k]).0 as int,
            positions@[k].1 as int,
        ),
    ensures
        forall|r: int, c: int|
            on_board(r, c) ==> (#[trigger] final(cells)[r][c]).letter == old(cells)[r][c].letter,
        forall|r: int, c: int|
            on_board(r, c) ==> (#[trigger] final(cells)[r][c]).kind == if listed(
                positions@,
                positions@.len() as int,
                r,
                c,
            ) {
                kind
            } else {
                old(cells)[r][c].kind
            },
{
    let mut k: usize = 0;
    while k < positions.len()
        invariant
            k <= positions@.len(),
            forall|j: int| 0 <= j < positions@.len() ==> on_board(
                (#[trigger] positions@[j]).0 as int,
                positions@[j].1 as int,
            ),
            forall|r: int, c: int|
                on_board(r, c) ==> (#[trigger] cells[r][c]).letter == old(cells)[r][c].letter,
            forall|r: int, c: int|
                on_board(r, c) ==> (#[trigger] cells[r][c]).kind == if listed(
                    positions@,
                    k as int,
                    r,
                    c,
                ) {
                    kind
                } else {
                    old(cells)[r][c].kind
                },
        decreases positions@.len() - k,
    {
        let (row, col) = positions[k];
        let ghost before = *cells;
        cells[row][col].kind = kind;
        proof {
            assert forall|r: int, c: int| on_board(r, c) implies (#[trigger] cells[r][c]).kind
                == if listed(positions@, k + 1, r, c) {
                kind
            } else {
                old(cells)[r][c].kind
            } by {
                if r == row && c == col {
                    assert(positions@[k as int].0 == r && positions@[k as int].1 == c);
                } else {
                    assert(cells[r][c] == before[r][c]);
                    if listed(positions@, k + 1, r, c) {
                        let j = choose|j: int|
                            0 <= j < k + 1 && j < positions@.len() && (#[trigger] positions@[j]).0
                                == r && positions@[j].1 == c;
                        assert(j < k);
                    }
                }
            }
        }
        k += 1;
    }
}

impl Board {
    /// The letter on the cell `(row, col)`, if it holds one.
    pub open spec fn letter_at(&self, row: int, col: int) -> Option<char> {
        self.cells[row][col].letter
    }

    /// The premium kind of the cell `(row, col)`.
    pub open spec fn kind_at(&self, row: int, col: int) -> CellKind {
        self.cells[row][col].kind
    }

    /// Whether `(row, col)` is a cell of the grid that holds a letter.
    pub open spec fn has_letter(&self, row: int, col: int) -> bool {
        on_board(row, col) && self.letter_at(row, col) is Some
    }

    /// Whether no cell of the grid holds a letter.
    pub open spec fn is_vacant(&self) -> bool {
        forall|r: int, c: int| on_board(r, c) ==> self.letter_at(r, c) is None
    }

    /// Whether every cell has the premium kind that the layout gives it.
    pub open spec fn well_formed(&self) -> bool {
        forall|r: int, c: int| on_board(r, c) ==> self.kind_at(r, c) == premium_kind(r, c)
    }

    /// A board without letters, its premium cells laid out.
    pub fn new() -> (board: Self)
        ensures
            board.is_vacant(),
            board.well_formed(),
    {
        let mut cells = [[Cell { letter: None, kind: CellKind::Normal }; BOARD_SIZE]; BOARD_SIZE];
        set_kind(&mut cells, TRIPLE_WORD_CELLS.as_slice(), CellKind::TripleWord);
        set_kind(&mut cells, DOUBLE_WORD_CELLS.as_slice(), CellKind::DoubleWord);
        set_kind(&mut cells, TRIPLE_LETTER_CELLS.as_slice(), CellKind::TripleLetter);
        set_kind(&mut cells, DOUBLE_LETTER_CELLS.as_slice(), CellKind::DoubleLetter);
        Board { cells }
    }
}

/// Whether no cell occurs twice in `cells`.
pub open spec fn all_distinct(cells: Seq<(usize, usize)>) -> bool {
    forall|i: int, j: int|
        0 <= i < j < cells.len() ==> #[trigger] cells[i] != #[trigger] cells[j]
}

/// Whether no cell occurs both in `a` and in `b`.
pub open spec fn apart(a: Seq<(usize, usize)>, b: Seq<(usize, usize)>) -> bool {
    forall|i: int, j: int|
        0 <= i < a.len() && 0 <= j < b.len() ==> #[trigger] a[i] != #[trigger] b[j]
}

/// The layout names 8 triple-word cells, 17 double-word cells, 12
/// triple-letter cells and 24 double-letter cells: no cell is listed twice,
/// in one list or in two, every listed cell lies on the grid, and the
/// center is a double-word cell.
pub proof fn law_layout()
    ensures
        TRIPLE_WORD_CELLS@.len() == 8,
        DOUBLE_WORD_CELLS@.len() == 17,
        TRIPLE_LETTER_CELLS@.len() == 12,
        DOUBLE_LETTER_CELLS@.len() == 24,
        all_distinct(TRIPLE_WORD_CELLS@),
        all_distinct(DOUBLE_WORD_CELLS@),
        all_distinct(TRIPLE_LETTER_CELLS@),
        all_distinct(DOUBLE_LETTER_CELLS@),
        apart(TRIPLE_WORD_CELLS@, DOUBLE_WORD_CELLS@),
        apart(TRIPLE_WORD_CELLS@, TRIPLE_LETTER_CELLS@),
        apart(TRIPLE_WORD_CELLS@, DOUBLE_LETTER_CELLS@),
        apart(DOUBLE_WORD_CELLS@, TRIPLE_LETTER_CELLS@),
        apart(DOUBLE_WORD_CELLS@, DOUBLE_LETTER_CELLS@),
        apart(TRIPLE_LETTER_CELLS@, DOUBLE_LETTER_CELLS@),
        premium_kind(CENTER as int, CENTER as int) == CellKind::DoubleWord,
{
    assert(DOUBLE_WORD_CELLS@[16] == (7usize, 7usize));
}

} // verus!
