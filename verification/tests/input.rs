use scrabble::error::InputError;
use scrabble::game::bag::Tile;
use scrabble::game::board::{Direction, Position};
use scrabble::input::{
    parse_direction, parse_number, parse_position, parse_word, read_direction, read_input,
    read_position, read_word, require_text, tiles_of,
};

#[test]
fn input_is_trimmed() {
    assert_eq!(read_input("  h8 \n"), Ok("h8".to_string()));
    assert_eq!(read_input("\tdeux mots\r\n"), Ok("deux mots".to_string()));
}

#[test]
fn blank_input_is_empty_input() {
    assert_eq!(read_input(""), Err(InputError::EmptyInput));
    assert_eq!(read_input("   \n"), Err(InputError::EmptyInput));
    assert_eq!(require_text(""), Err(InputError::EmptyInput));
    assert_eq!(require_text(" "), Ok(" ".to_string()));
}

#[test]
fn position_is_column_letter_and_row_number() {
    assert_eq!(parse_position("h8"), Ok(Position { row: 7, col: 7 }));
    assert_eq!(parse_position("a1"), Ok(Position { row: 0, col: 0 }));
    assert_eq!(parse_position("o15"), Ok(Position { row: 14, col: 14 }));
    assert_eq!(parse_position("c12"), Ok(Position { row: 11, col: 2 }));
}

#[test]
fn position_number_may_have_a_plus_and_zeros() {
    assert_eq!(parse_position("h+8"), Ok(Position { row: 7, col: 7 }));
    assert_eq!(parse_position("h08"), Ok(Position { row: 7, col: 7 }));
    assert_eq!(parse_position("h0000000000000000000000015"), Ok(Position { row: 14, col: 7 }));
}

#[test]
fn position_off_the_grid_is_invalid() {
    for text in [
        "", "h", "8", "8h", "q1", "h0", "h16", "h-1", "h+", "h 8", "h8 ", "hh8", "h8x", "H8",
        "h99999999999999999999999999999999999999", "é5", "h++8", "`1", "h1.0",
    ] {
        assert_eq!(parse_position(text), Err(InputError::InvalidPosition), "{}", text);
    }
}

#[test]
fn typed_position_is_trimmed_and_lowered() {
    assert_eq!(read_position(" H8 \n"), Ok(Position { row: 7, col: 7 }));
    assert_eq!(read_position("O15"), Ok(Position { row: 14, col: 14 }));
    assert_eq!(read_position("h8"), Ok(Position { row: 7, col: 7 }));
    assert_eq!(read_position("\n"), Err(InputError::EmptyInput));
    assert_eq!(read_position("z8\n"), Err(InputError::InvalidPosition));
    assert_eq!(read_position("h 8\n"), Err(InputError::InvalidPosition));
}

#[test]
fn number_is_read_up_to_a_limit() {
    assert_eq!(parse_number("12", 0, 15), Some(12));
    assert_eq!(parse_number("x12", 1, 15), Some(12));
    assert_eq!(parse_number("16", 0, 15), None);
    assert_eq!(parse_number("0", 0, 15), Some(0));
    assert_eq!(parse_number("+7", 0, 15), Some(7));
    assert_eq!(parse_number("", 0, 15), None);
    assert_eq!(parse_number("+", 0, 15), None);
    assert_eq!(parse_number("-7", 0, 15), None);
    assert_eq!(parse_number("7a", 0, 15), None);
    assert_eq!(parse_number("12", 2, 15), None);
    assert_eq!(
        parse_number("18446744073709551615", 0, usize::MAX),
        "18446744073709551615".parse::<usize>().ok()
    );
    assert_eq!(parse_number("18446744073709551616", 0, usize::MAX), None);
    assert_eq!(parse_number("340282366920938463463374607431768211456", 0, usize::MAX), None);
}

#[test]
fn direction_is_h_or_v() {
    assert_eq!(parse_direction("h"), Ok(Direction::Across));
    assert_eq!(parse_direction("v"), Ok(Direction::Down));
    for text in ["", "H", "x", "hv", "h ", "horizontal"] {
        assert_eq!(parse_direction(text), Err(InputError::InvalidDirection), "{}", text);
    }
}

#[test]
fn typed_direction_is_trimmed_and_lowered() {
    assert_eq!(read_direction("H\n"), Ok(Direction::Across));
    assert_eq!(read_direction("  v  "), Ok(Direction::Down));
    assert_eq!(read_direction(" "), Err(InputError::EmptyInput));
    assert_eq!(read_direction("d\n"), Err(InputError::InvalidDirection));
}

#[test]
fn word_is_one_tile_for_each_letter() {
    let word = parse_word("CAT").ok().expect("a word");
    assert_eq!(
        word.tiles,
        vec![
            Tile { letter: 'C', value: 0, is_blank: false },
            Tile { letter: 'A', value: 0, is_blank: false },
            Tile { letter: 'T', value: 0, is_blank: false },
        ]
    );
    assert_eq!(tiles_of("").tiles.len(), 0);
    assert_eq!(tiles_of("é1").tiles[1].letter, '1');
}

#[test]
fn word_with_anything_but_letters_is_invalid() {
    for text in ["", "CA T", "C4T", "CAT!", "_"] {
        assert!(matches!(parse_word(text), Err(InputError::InvalidFormat)), "{}", text);
    }
    assert!(parse_word("ÉTÉ").is_ok());
}

#[test]
fn typed_word_is_trimmed_and_raised() {
    let word = read_word("  cat\n").ok().expect("a word");
    let letters: String = word.tiles.iter().map(|t| t.letter).collect();
    assert_eq!(letters, "CAT");
    let accented = read_word("été").ok().expect("a word");
    let letters: String = accented.tiles.iter().map(|t| t.letter).collect();
    assert_eq!(letters, "ÉTÉ");
    assert!(matches!(read_word("\n"), Err(InputError::EmptyInput)));
    assert!(matches!(read_word("c-t\n"), Err(InputError::InvalidFormat)));
}
