//! The ways in which typed input and proposed moves are turned down, and
//! what the player is told.

use vstd::prelude::*;
use vstd::string::StringExecFns;
use crate::text::{decimal, decimal_string};

verus! {

/// Why a line of typed input was not understood.
#[derive(Debug, Clone, Copy, PartialEq, Eq, Structural)]
pub enum InputError {
    InvalidFormat,
    EmptyInput,
    InvalidPosition,
    InvalidDirection,
}

/// Why a proposed move was rejected.
#[derive(Debug, Clone, Copy, PartialEq, Eq, Structural)]
pub enum MoveError {
    /// A cell that the word would cover lies outside the grid.
    OutOfBounds { row: usize, col: usize },
    /// A cell that the word would cover holds another letter than the word has there.
    LetterMismatch { row: usize, col: usize },
    /// The rack cannot supply a letter that the word still needs.
    MissingLetter { letter: char },
    /// The first word of a game does not cover the center cell.
    MustCoverCenter,
    /// A later word touches no letter already on the board.
    NoConnection,
    /// The word has fewer than two tiles.
    WordTooShort,
    /// The word is not in the dictionary.
    InvalidWord,
}

/// The letter that names column `col`: `a` for the first column, and on
/// through the 256 characters of one byte, round and round.
pub open spec fn column_letter(col: usize) -> char {
    ((97 + col) % 256) as char
}

/// The name of a cell as players write it: the letter of its column, then
/// the number of its row, counted from 1.
pub open spec fn cell_name(row: usize, col: usize) -> Seq<char> {
    seq![column_letter(col)] + decimal((row + 1) as nat)
}

/// The name of the cell `(row, col)` as players write it.
pub fn cell_name_string(row: usize, col: usize) -> (name: String)
    ensures
        name@ == cell_name(row, col),
{
    let mut name = String::new();
    name.push(((97 + col % 256) % 256) as u8 as char);
    let number = decimal_string(row as u128 + 1);
    name.append(number.as_str());
    name
}

impl InputError {
    /// What the player is told.
    pub open spec fn message_text(&self) -> Seq<char> {
        match self {
            InputError::InvalidFormat => "Format invalide"@,
            InputError::EmptyInput => "Entrée vide"@,
            InputError::InvalidPosition => "Position invalide (ex: h8)"@,
            InputError::InvalidDirection =>
                "Direction invalide (h pour horizontal, v pour vertical)"@,
        }
    }

    /// What the player is told.
    pub fn message(&self) -> (text: String)
        ensures
            text@ == self.message_text(),
    {
        match self {
            InputError::InvalidFormat => String::from_str("Format invalide"),
            InputError::EmptyInput => String::from_str("Entrée vide"),
            InputError::InvalidPosition => String::from_str("Position invalide (ex: h8)"),
            InputError::InvalidDirection => String::from_str(
                "Direction invalide (h pour horizontal, v pour vertical)",
            ),
        }
    }
}

impl MoveError {
    /// What the player is told.
    pub open spec fn message_text(&self) -> Seq<char> {
        match self {
            MoveError::OutOfBounds { row, col } => "Hors limites à la position "@ + cell_name(
                *row,
                *col,
            ),
            MoveError::LetterMismatch { row, col } =>
                "Case occupée par une autre lettre à la position "@ + cell_name(*row, *col),
            MoveError::MissingLetter { letter } => "Vous n'avez pas la lettre '"@.push(*letter)
                + "'"@,
            MoveError::MustCoverCenter => "Le premier mot doit couvrir la case centrale"@,
            MoveError::NoConnection => "Le mot doit être connecté aux mots existants"@,
            MoveError::WordTooShort => "Le mot doit contenir au moins 2 lettres"@,
            MoveError::InvalidWord => "Mot invalide (pas dans le dictionnaire)"@,
        }
    }

    /// What the player is told.
    pub fn message(&self) -> (text: String)
        ensures
            text@ == self.message_text(),
    {
        match self {
            MoveError::OutOfBounds { row, col } => {
                let mut text = String::from_str("Hors limites à la position ");
                text.append(cell_name_string(*row, *col).as_str());
                text
            },
            MoveError::LetterMismatch { row, col } => {
                let mut text = String::from_str("Case occupée par une autre lettre à la position ");
                text.append(cell_name_string(*row, *col).as_str());
                text
            },
            MoveError::MissingLetter { letter } => {
                let mut text = String::from_str("Vous n'avez pas la lettre '");
                text.push(*letter);
                text.append("'");
                text
            },
            MoveError::MustCoverCenter => String::from_str(
                "Le premier mot doit couvrir la case centrale",
            ),
            MoveError::NoConnection => String::from_str(
                "Le mot doit être connecté aux mots existants",
            ),
            MoveError::WordTooShort => String::from_str("Le mot doit contenir au moins 2 lettres"),
            MoveError::InvalidWord => String::from_str("Mot invalide (pas dans le dictionnaire)"),
        }
    }
}

} // verus!
