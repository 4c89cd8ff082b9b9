use scrabble::error::{cell_name_string, InputError, MoveError};
use scrabble::text::{decimal_string, numeral_string, repeated, DECIMAL_DIGITS};

#[test]
fn input_errors_are_told_in_french() {
    assert_eq!(InputError::InvalidFormat.message(), "Format invalide");
    assert_eq!(InputError::EmptyInput.message(), "Entrée vide");
    assert_eq!(InputError::InvalidPosition.message(), "Position invalide (ex: h8)");
    assert_eq!(
        InputError::InvalidDirection.message(),
        "Direction invalide (h pour horizontal, v pour vertical)"
    );
}

#[test]
fn move_errors_name_the_cell_as_players_write_it() {
    assert_eq!(
        MoveError::OutOfBounds { row: 3, col: 16 }.message(),
        "Hors limites à la position q4"
    );
    assert_eq!(
        MoveError::OutOfBounds { row: 14, col: 0 }.message(),
        "Hors limites à la position a15"
    );
    assert_eq!(
        MoveError::LetterMismatch { row: 7, col: 8 }.message(),
        "Case occupée par une autre lettre à la position i8"
    );
}

#[test]
fn move_errors_without_a_cell_are_told_in_french() {
    assert_eq!(
        MoveError::MissingLetter { letter: 'Z' }.message(),
        "Vous n'avez pas la lettre 'Z'"
    );
    assert_eq!(
        MoveError::MustCoverCenter.message(),
        "Le premier mot doit couvrir la case centrale"
    );
    assert_eq!(
        MoveError::NoConnection.message(),
        "Le mot doit être connecté aux mots existants"
    );
    assert_eq!(MoveError::WordTooShort.message(), "Le mot doit contenir au moins 2 lettres");
    assert_eq!(MoveError::InvalidWord.message(), "Mot invalide (pas dans le dictionnaire)");
}

#[test]
fn cell_names_go_round_the_byte() {
    assert_eq!(cell_name_string(0, 0), "a1");
    assert_eq!(cell_name_string(7, 7), "h8");
    assert_eq!(cell_name_string(0, 256), "a1");
    assert_eq!(cell_name_string(0, 159), "\u{0}1");
    assert_eq!(cell_name_string(0, 158), "\u{ff}1");
    assert_eq!(cell_name_string(usize::MAX, 1), format!("b{}", usize::MAX as u128 + 1));
}

#[test]
fn numbers_are_written_in_decimal() {
    for n in [0u128, 1, 9, 10, 11, 99, 100, 101, 255, 1000, 65536, u64::MAX as u128, u128::MAX] {
        assert_eq!(decimal_string(n), format!("{}", n));
    }
    assert_eq!(numeral_string(405, &DECIMAL_DIGITS), "405");
}

#[test]
fn runs_repeat_one_character() {
    assert_eq!(repeated(' ', 0), "");
    assert_eq!(repeated('─', 4), "────");
    assert_eq!(repeated('x', 3), "xxx");
}
