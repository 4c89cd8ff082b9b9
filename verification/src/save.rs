//! Saved games: how their files are named, and what a typed choice from the
//! list of saved games means.

use vstd::prelude::*;
use vstd::string::{StrSliceExecFns, StringExecFns};
use crate::input::{number_of, parse_number};
use crate::text::{decimal, decimal_string};

verus! {

/// How many saved games the list shows at most.
pub const MAX_SHOWN: usize = 5;

/// What the player chose from the list of saved games.
#[derive(Copy, Clone, Debug, PartialEq, Eq, Structural)]
pub enum MenuChoice {
    /// Start a new game.
    NewGame,
    /// Load the saved game at `index` of the list, counted from 0.
    Load { index: usize },
    /// Nothing that the list offers.
    Invalid,
}

/// How many of `found` saved games the list shows.
pub open spec fn shown_of(found: nat) -> nat {
    if found <= MAX_SHOWN {
        found
    } else {
        MAX_SHOWN as nat
    }
}

/// What `choice` asks for when the list shows `shown` games: `n` or `N` a
/// new game, a number from 1 to `shown` the game with that number.
pub open spec fn choice_of(choice: Seq<char>, shown: nat) -> MenuChoice {
    if choice == seq!['n'] || choice == seq!['N'] {
        MenuChoice::NewGame
    } else {
        match number_of(choice) {
            Some(n) => if 1 <= n <= shown {
                MenuChoice::Load { index: (n - 1) as usize }
            } else {
                MenuChoice::Invalid
            },
            None => MenuChoice::Invalid,
        }
    }
}

/// A whole number in decimal, with a minus sign where it is negative.
pub open spec fn signed_decimal(n: int) -> Seq<char> {
    if n < 0 {
        seq!['-'] + decimal((-n) as nat)
    } else {
        decimal(n as nat)
    }
}

/// The name of the file of a game that was created at the given time.
pub open spec fn save_name(created_at_unix: int) -> Seq<char> {
    "game_"@ + signed_decimal(created_at_unix) + ".ron"@
}

/// Whether a file of this name holds a saved game: the name ends in `.ron`
/// and does not begin there.
pub open spec fn names_save(name: Seq<char>) -> bool {
    name.len() > 4 && name.skip(name.len() - 4) == seq!['.', 'r', 'o', 'n']
}

/// How many of `found` saved games the list shows.
pub fn shown_saves(found: usize) -> (shown: usize)
    ensures
        shown == shown_of(found as nat),
{
    if found <= MAX_SHOWN {
        found
    } else {
        MAX_SHOWN
    }
}

/// What `choice` asks for when the list shows `shown` games.
pub fn menu_choice(choice: &str, shown: usize) -> (picked: MenuChoice)
    ensures
        picked == choice_of(choice@, shown as nat),
{
    let len = choice.unicode_len();
    if len == 1 {
        let c = choice.get_char(0);
        if c == 'n' {
            assert(choice@ =~= seq!['n']);
            return MenuChoice::NewGame;
        }
        if c == 'N' {
            assert(choice@ =~= seq!['N']);
            return MenuChoice::NewGame;
        }
    }
    assert(choice@ != seq!['n'] && choice@ != seq!['N']) by {
        assert(seq!['n'].len() == 1 && seq!['N'].len() == 1);
        assert(seq!['n'][0] == 'n' && seq!['N'][0] == 'N');
    }
    assert(choice@.skip(0) =~= choice@);
    match parse_number(choice, 0, shown) {
        Some(n) => {
            if n >= 1 {
                MenuChoice::Load { index: n - 1 }
            } else {
                MenuChoice::Invalid
            }
        },
        None => MenuChoice::Invalid,
    }
}

/// The name of the file of a game that was created at the given time.
pub fn save_file_name(created_at_unix: i64) -> (name: String)
    ensures
        name@ == save_name(created_at_unix as int),
{
    let mut name = String::from_str("game_");
    if created_at_unix < 0 {
        name.push('-');
        name.append(decimal_string((-(created_at_unix as i128)) as u128).as_str());
    } else {
        name.append(decimal_string(created_at_unix as u128).as_str());
    }
    name.append(".ron");
    name
}

/// Whether a file of this name holds a saved game.
pub fn is_save_name(name: &str) -> (holds: bool)
    ensures
        holds == names_save(name@),
{
    let len = name.unicode_len();
    if len <= 4 {
        return false;
    }
    let holds = name.get_char(len - 4) == '.' && name.get_char(len - 3) == 'r' && name.get_char(
        len - 2,
    ) == 'o' && name.get_char(len - 1) == 'n';
    proof {
        let tail = name@.skip(len - 4);
        let want = seq!['.', 'r', 'o', 'n'];
        assert(tail.len() == 4);
        assert(tail[0] == name@[len - 4] && tail[1] == name@[len - 3] && tail[2] == name@[len - 2]
            && tail[3] == name@[len - 1]);
        assert(want[0] == '.' && want[1] == 'r' && want[2] == 'o' && want[3] == 'n');
        if holds {
            assert(tail =~= want);
        }
    }
    holds
}

} // verus!
