use scrabble::game::board::{
    Board, CellKind, Direction, Position, BOARD_SIZE, CENTER, DOUBLE_LETTER_CELLS,
    DOUBLE_WORD_CELLS, TRIPLE_LETTER_CELLS, TRIPLE_WORD_CELLS,
};

fn count_kind(board: &Board, kind: CellKind) -> usize {
    board.cells.iter().flatten().filter(|cell| cell.kind == kind).count()
}

#[test]
fn new_board_has_no_letters() {
    let board = Board::new();
    assert!(board.cells.iter().flatten().all(|cell| cell.letter.is_none()));
    assert!(board.is_empty());
}

#[test]
fn new_board_has_the_premium_cells_of_the_layout() {
    let board = Board::new();
    assert_eq!(count_kind(&board, CellKind::TripleWord), 8);
    assert_eq!(count_kind(&board, CellKind::DoubleWord), 17);
    assert_eq!(count_kind(&board, CellKind::TripleLetter), 12);
    assert_eq!(count_kind(&board, CellKind::DoubleLetter), 24);
    assert_eq!(count_kind(&board, CellKind::Normal), 225 - 8 - 17 - 12 - 24);
}

#[test]
fn premium_cells_are_where_the_lists_put_them() {
    let board = Board::new();
    for &(r, c) in TRIPLE_WORD_CELLS.iter() {
        assert_eq!(board.cells[r][c].kind, CellKind::TripleWord);
    }
    for &(r, c) in DOUBLE_WORD_CELLS.iter() {
        assert_eq!(board.cells[r][c].kind, CellKind::DoubleWord);
    }
    for &(r, c) in TRIPLE_LETTER_CELLS.iter() {
        assert_eq!(board.cells[r][c].kind, CellKind::TripleLetter);
    }
    for &(r, c) in DOUBLE_LETTER_CELLS.iter() {
        assert_eq!(board.cells[r][c].kind, CellKind::DoubleLetter);
    }
}

#[test]
fn center_is_a_double_word_cell() {
    let board = Board::new();
    assert_eq!(CENTER, 7);
    assert_eq!(board.cells[7][7].kind, CellKind::DoubleWord);
    assert_eq!(board.cells[0][0].kind, CellKind::TripleWord);
    assert_eq!(board.cells[0][1].kind, CellKind::Normal);
    assert_eq!(board.cells[14][11].kind, CellKind::DoubleLetter);
    assert_eq!(board.cells[5][9].kind, CellKind::TripleLetter);
}

#[test]
fn layout_is_the_same_mirrored_and_turned() {
    let board = Board::new();
    for r in 0..BOARD_SIZE {
        for c in 0..BOARD_SIZE {
            assert_eq!(board.cells[r][c].kind, board.cells[c][r].kind);
            assert_eq!(board.cells[r][c].kind, board.cells[14 - r][c].kind);
            assert_eq!(board.cells[r][c].kind, board.cells[r][14 - c].kind);
        }
    }
}

#[test]
fn in_bounds_knows_the_grid() {
    let board = Board::new();
    assert!(board.in_bounds(0, 0));
    assert!(board.in_bounds(14, 14));
    assert!(!board.in_bounds(15, 0));
    assert!(!board.in_bounds(0, 15));
}

#[test]
fn step_towards_dir_moves_right_or_down() {
    let pos = Position { row: 3, col: 5 };
    assert_eq!(Board::step_towards_dir(&pos, &Direction::Across, 0), (3, 5));
    assert_eq!(Board::step_towards_dir(&pos, &Direction::Across, 4), (3, 9));
    assert_eq!(Board::step_towards_dir(&pos, &Direction::Down, 4), (7, 5));
}

#[test]
fn board_with_a_letter_is_not_empty() {
    let mut board = Board::new();
    board.cells[14][14].letter = Some('Q');
    assert!(!board.is_empty());
}
