//! What a player may do on a turn.

use vstd::prelude::*;
use super::board::{Direction, Position, Word};

verus! {

/// A player's choice for one turn.
#[derive(Debug)]
pub enum Action {
    /// Lay `word` from `pos` on, in the direction `dir`.
    PlaceWord { pos: Position, dir: Direction, word: Word },
    ExchangeTiles,
    Pass,
    Challenge,
    Resign,
}

} // verus!
