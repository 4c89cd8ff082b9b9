//! Players and their racks.

use vstd::prelude::*;
use crate::error::MoveError;
use crate::first::{least, lemma_least, lemma_least_is, lemma_least_none};
use super::bag::{draw_size, drawn, left_after, Bag, Tile};

verus! {

/// Holds of `i` where tile `i` bears `letter`.
pub open spec fn bearing(tiles: Seq<Tile>, letter: char) -> spec_fn(int) -> bool {
    |i: int| tiles[i].letter == letter
}

/// Index of the first tile that bears `letter`, if one does.
pub open spec fn first_bearing(tiles: Seq<Tile>, letter: char) -> Option<int> {
    least(bearing(tiles, letter), tiles.len() as int)
}

/// `tiles` without the first tile that bears `letter`; `tiles` itself where
/// none does.
pub open spec fn without_first(tiles: Seq<Tile>, letter: char) -> Seq<Tile> {
    match first_bearing(tiles, letter) {
        Some(i) => tiles.remove(i),
        None => tiles,
    }
}

/// `tiles` after one tile has been taken for each of `letters`, in order,
/// each time the first that bears the letter.
pub open spec fn debit(tiles: Seq<Tile>, letters: Seq<char>) -> Seq<Tile>
    decreases letters.len(),
{
    if letters.len() == 0 {
        tiles
    } else {
        without_first(debit(tiles, letters.drop_last()), letters.last())
    }
}

/// How many tiles a rack that holds `held` lacks to be full.
pub open spec fn deficit(held: nat) -> nat {
    if held <= Rack::CAPACITY {
        (Rack::CAPACITY - held) as nat
    } else {
        0
    }
}

/// Index of the first tile of `tiles` that bears `letter`.
pub fn find_letter(tiles: &Vec<Tile>, letter: char) -> (found: Option<usize>)
    ensures
        match found {
            Some(i) => i < tiles@.len() && tiles@[i as int].letter == letter && first_bearing(
                tiles@,
                letter,
            ) == Some(i as int),
            None => first_bearing(tiles@, letter) is None,
        },
{
    let mut i: usize = 0;
    while i < tiles.len()
        invariant
            i <= tiles@.len(),
            forall|j: int| 0 <= j < i ==> !#[trigger] bearing(tiles@, letter)(j),
        decreases tiles@.len() - i,
    {
        if tiles[i].letter == letter {
            proof {
                lemma_least_is(bearing(tiles@, letter), tiles@.len() as int, i as int);
            }
            return Some(i);
        }
        i += 1;
    }
    proof {
        lemma_least_none(bearing(tiles@, letter), tiles@.len() as int);
    }
    None
}

/// A player's hand of tiles.
#[derive(Clone, Debug)]
pub struct Rack {
    pub tiles: Vec<Tile>,
}

impl View for Rack {
    type V = Seq<Tile>;

    open spec fn view(&self) -> Seq<Tile> {
        self.tiles@
    }
}

impl Rack {
    /// The number of tiles that a full rack holds.
    pub const CAPACITY: usize = 7;

    /// Whether the rack holds no more tiles than a rack may.
    pub open spec fn well_formed(&self) -> bool {
        self@.len() <= Self::CAPACITY
    }

    /// A rack without tiles.
    pub fn new() -> (rack: Self)
        ensures
            rack@ == Seq::<Tile>::empty(),
            rack.well_formed(),
    {
        Rack { tiles: Vec::new() }
    }

    /// The number of tiles on the rack.
    pub fn len(&self) -> (n: usize)
        ensures
            n == self@.len(),
    {
        self.tiles.len()
    }

    /// Takes the first tile that bears `letter` off the rack and hands it
    /// out. A rack without such a tile stays as it is.
    pub fn remove_matching(&mut self, letter: char) -> (r: Result<Tile, MoveError>)
        ensures
            match first_bearing(old(self)@, letter) {
                Some(i) => r == Ok::<Tile, MoveError>(old(self)@[i]) && final(self)@ == old(
                    self,
                )@.remove(i),
                None => r == Err::<Tile, MoveError>(MoveError::MissingLetter { letter })
                    && *final(self) == *old(self),
            },
            final(self)@ == without_first(old(self)@, letter),
            r matches Ok(tile) ==> tile.letter == letter,
    {
        match find_letter(&self.tiles, letter) {
            Some(i) => {
                proof {
                    lemma_least(bearing(self@, letter), self@.len() as int);
                }
                Ok(self.tiles.remove(i))
            },
            None => Err(MoveError::MissingLetter { letter }),
        }
    }

    /// Fills the rack from the bag as far as the bag allows, and says how
    /// many tiles were added.
    pub fn top_up_from(&mut self, bag: &mut Bag) -> (added: usize)
        ensures
            added == draw_size(old(bag)@.len(), deficit(old(self)@.len())),
            final(self)@ == old(self)@ + drawn(old(bag)@, deficit(old(self)@.len())),
            final(bag)@ == left_after(old(bag)@, deficit(old(self)@.len())),
            old(self).well_formed() ==> final(self).well_formed(),
    {
        let need = Self::CAPACITY.saturating_sub(self.tiles.len());
        let mut tiles = bag.draw_n(need);
        let added = tiles.len();
        self.tiles.append(&mut tiles);
        added
    }

    /// Fills the rack from the bag as far as the bag allows, and says how
    /// many tiles were added.
    pub fn top_up(&mut self, bag: &mut Bag) -> (added: usize)
        ensures
            added == draw_size(old(bag)@.len(), deficit(old(self)@.len())),
            final(self)@ == old(self)@ + drawn(old(bag)@, deficit(old(self)@.len())),
            final(bag)@ == left_after(old(bag)@, deficit(old(self)@.len())),
            old(self).well_formed() ==> final(self).well_formed(),
    {
        self.top_up_from(bag)
    }
}

/// One who plays: a number, a name, a rack and a score.
#[derive(Debug)]
pub struct Player {
    pub id: usize,
    pub name: String,
    pub rack: Rack,
    pub score: u32,
}

impl Player {
    /// A player with an empty rack and no points.
    pub fn new(id: usize, name: String) -> (player: Self)
        ensures
            player.id == id,
            player.name == name,
            player.rack@ == Seq::<Tile>::empty(),
            player.score == 0,
    {
        Player { id, name, rack: Rack::new(), score: 0 }
    }
}

} // verus!
