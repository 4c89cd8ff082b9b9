use scrabble::error::MoveError;
use scrabble::game::bag::Tile;
use scrabble::game::board::{Board, Direction, Position, Word};
use scrabble::game::player::Rack;

fn tile(letter: char) -> Tile {
    Tile { letter, value: 1, is_blank: false }
}

fn word(text: &str) -> Word {
    Word { tiles: text.chars().map(tile).collect() }
}

fn rack(text: &str) -> Rack {
    Rack { tiles: text.chars().map(tile).collect() }
}

fn letters(rack: &Rack) -> String {
    rack.tiles.iter().map(|t| t.letter).collect()
}

fn letter_count(board: &Board) -> usize {
    board.cells.iter().flatten().filter(|cell| cell.letter.is_some()).count()
}

#[test]
fn first_word_across_the_center_is_laid() {
    let mut board = Board::new();
    let mut hand = rack("CATXYZQ");
    let result = board.validate_and_place(
        &mut hand,
        &Position { row: 7, col: 7 },
        &Direction::Across,
        &word("CAT"),
    );
    assert_eq!(result, Ok(()));
    assert_eq!(board.cells[7][7].letter, Some('C'));
    assert_eq!(board.cells[7][8].letter, Some('A'));
    assert_eq!(board.cells[7][9].letter, Some('T'));
    assert_eq!(letter_count(&board), 3);
    assert_eq!(letters(&hand), "XYZQ");
}

#[test]
fn first_word_down_through_the_center_is_laid() {
    let mut board = Board::new();
    let mut hand = rack("DOG");
    let result = board.validate_and_place(
        &mut hand,
        &Position { row: 5, col: 7 },
        &Direction::Down,
        &word("DOG"),
    );
    assert_eq!(result, Ok(()));
    assert_eq!(board.cells[5][7].letter, Some('D'));
    assert_eq!(board.cells[6][7].letter, Some('O'));
    assert_eq!(board.cells[7][7].letter, Some('G'));
    assert_eq!(letters(&hand), "");
}

#[test]
fn first_word_off_the_center_is_turned_down() {
    let mut board = Board::new();
    let mut hand = rack("CAT");
    let result = board.validate_and_place(
        &mut hand,
        &Position { row: 7, col: 8 },
        &Direction::Across,
        &word("CAT"),
    );
    assert_eq!(result, Err(MoveError::MustCoverCenter));
    assert_eq!(letter_count(&board), 0);
    assert_eq!(letters(&hand), "CAT");
}

#[test]
fn crossing_word_takes_only_the_letters_the_board_lacks() {
    let mut board = Board::new();
    let mut hand = rack("CATANDA");
    assert_eq!(
        board.validate_and_place(
            &mut hand,
            &Position { row: 7, col: 7 },
            &Direction::Across,
            &word("CAT"),
        ),
        Ok(())
    );
    assert_eq!(letters(&hand), "ANDA");
    let result = board.validate_and_place(
        &mut hand,
        &Position { row: 6, col: 8 },
        &Direction::Down,
        &word("AAND"),
    );
    assert_eq!(result, Ok(()));
    assert_eq!(board.cells[6][8].letter, Some('A'));
    assert_eq!(board.cells[7][8].letter, Some('A'));
    assert_eq!(board.cells[8][8].letter, Some('N'));
    assert_eq!(board.cells[9][8].letter, Some('D'));
    assert_eq!(board.cells[7][7].letter, Some('C'));
    assert_eq!(board.cells[7][9].letter, Some('T'));
    assert_eq!(letter_count(&board), 6);
    assert_eq!(letters(&hand), "A");
}

#[test]
fn crossing_word_with_another_letter_is_turned_down() {
    let mut board = Board::new();
    let mut hand = rack("CATAXND");
    assert_eq!(
        board.validate_and_place(
            &mut hand,
            &Position { row: 7, col: 7 },
            &Direction::Across,
            &word("CAT"),
        ),
        Ok(())
    );
    let cells_before = board.cells;
    let result = board.validate_and_place(
        &mut hand,
        &Position { row: 6, col: 8 },
        &Direction::Down,
        &word("AXND"),
    );
    assert_eq!(result, Err(MoveError::LetterMismatch { row: 7, col: 8 }));
    assert!(board.cells == cells_before);
    assert_eq!(letters(&hand), "AXND");
}

#[test]
fn two_z_with_one_on_the_rack_is_turned_down() {
    let board = Board::new();
    let hand = rack("ZABCDEF");
    let result = board.validate_player_has_tiles(
        &hand,
        &Position { row: 7, col: 7 },
        &Direction::Across,
        &word("ZZ"),
    );
    assert_eq!(result, Err(MoveError::MissingLetter { letter: 'Z' }));
}

#[test]
fn two_z_with_one_on_the_rack_changes_nothing() {
    let mut board = Board::new();
    let mut hand = rack("ZABCDEF");
    let result = board.validate_and_place(
        &mut hand,
        &Position { row: 7, col: 7 },
        &Direction::Across,
        &word("ZZ"),
    );
    assert_eq!(result, Err(MoveError::MissingLetter { letter: 'Z' }));
    assert_eq!(letter_count(&board), 0);
    assert_eq!(letters(&hand), "ZABCDEF");
}

#[test]
fn six_letters_from_column_eleven_run_off_the_grid() {
    let mut board = Board::new();
    let mut hand = rack("ABCDEF");
    let result = board.validate_and_place(
        &mut hand,
        &Position { row: 3, col: 11 },
        &Direction::Across,
        &word("ABCDEF"),
    );
    assert_eq!(result, Err(MoveError::OutOfBounds { row: 3, col: 15 }));
    assert_eq!(letter_count(&board), 0);
    assert_eq!(letters(&hand), "ABCDEF");
}
