//! The game proper: board, bag, racks and players.

pub mod action;
pub mod bag;
pub mod board;
pub mod counting;
pub mod laws;
pub mod placement;
pub mod player;
pub mod rules;

use vstd::prelude::*;
use crate::error::MoveError;
use self::action::Action;
use self::bag::{draw_size, drawn, full_set, left_after, Bag};
use self::board::Board;
use self::player::{debit, deficit, Player, Rack};

verus! {

/// Something that happened in the game, for whoever shows it.
#[derive(Debug)]
pub enum GameEvent {
    TilePlaced { row: usize, col: usize, ch: char },
    WordPlaced { word: String, score: u32, player_id: usize },
    RackUpdated { player_id: usize, rack: Vec<Option<char>> },
    TurnEnded { next_player_id: usize },
}

/// A game: its board, its players in the order they joined, and its bag.
#[derive(Debug)]
pub struct Game {
    pub board: Board,
    pub players: Vec<Player>,
    pub bag: Bag,
}

impl Game {
    /// A game without players: a board without letters and a full bag in a
    /// random order.
    pub fn new() -> (game: Self)
        ensures
            game.board.is_vacant(),
            game.board.well_formed(),
            game.players@.len() == 0,
            game.bag@.to_multiset() == full_set(27).to_multiset(),
            game.bag@.len() == 102,
    {
        let mut bag = Bag::new();
        bag.shuffle_bag();
        Game { board: Board::new(), bag, players: Vec::new() }
    }

    /// Carries out `action` for the first player. A word is laid where the
    /// move passes the four checks; a move that is turned down changes
    /// nothing. Every other action leaves the game as it is. No event is
    /// reported yet.
    pub fn apply(&mut self, action: Action) -> (r: Result<Vec<GameEvent>, MoveError>)
        requires
            action is PlaceWord ==> old(self).players@.len() > 0,
        ensures
            r matches Ok(events) ==> events@.len() == 0,
            final(self).bag == old(self).bag,
            final(self).players@.len() == old(self).players@.len(),
            match action {
                Action::PlaceWord { pos, dir, word } => {
                    let verdict = old(self).board.verdict(old(self).players@[0].rack@, pos, dir, word@);
                    &&& r is Err <==> verdict is Err
                    &&& r matches Err(e) ==> {
                        &&& verdict == Err::<(), MoveError>(e)
                        &&& final(self).board == old(self).board
                        &&& final(self).players@ == old(self).players@
                    }
                    &&& r is Ok ==> {
                        &&& final(self).board.is_placement(old(self).board, pos, dir, word@)
                        &&& final(self).players@[0].rack@ == debit(
                            old(self).players@[0].rack@,
                            old(self).board.needed_letters(pos, dir, word@, word@.len() as int),
                        )
                        &&& final(self).players@[0].rack@.len() <= old(self).players@[0].rack@.len()
                        &&& final(self).players@[0].id == old(self).players@[0].id
                        &&& final(self).players@[0].name == old(self).players@[0].name
                        &&& final(self).players@[0].score == old(self).players@[0].score
                        &&& forall|i: int|
                            1 <= i < old(self).players@.len() ==> final(self).players@[i] == old(
                                self,
                            ).players@[i]
                    }
                },
                _ => r is Ok && *final(self) == *old(self),
            },
    {
        let events: Vec<GameEvent> = Vec::new();
        match action {
            Action::PlaceWord { pos, dir, word } => {
                self.board.validate_and_place(&mut self.players[0].rack, &pos, &dir, &word)?;
            },
            _ => {},
        }
        Ok(events)
    }

    /// Fills the rack of the first player from the bag as far as the bag
    /// allows, and says how many tiles were added.
    pub fn top_up(&mut self) -> (added: usize)
        requires
            old(self).players@.len() > 0,
        ensures
            added == draw_size(old(self).bag@.len(), deficit(old(self).players@[0].rack@.len())),
            final(self).players@[0].rack@ == old(self).players@[0].rack@ + drawn(
                old(self).bag@,
                deficit(old(self).players@[0].rack@.len()),
            ),
            final(self).bag@ == left_after(
                old(self).bag@,
                deficit(old(self).players@[0].rack@.len()),
            ),
            final(self).board == old(self).board,
            final(self).players@.len() == old(self).players@.len(),
            final(self).players@[0].id == old(self).players@[0].id,
            final(self).players@[0].name == old(self).players@[0].name,
            final(self).players@[0].score == old(self).players@[0].score,
            forall|i: int|
                1 <= i < old(self).players@.len() ==> final(self).players@[i] == old(
                    self,
                ).players@[i],
    {
        self.players[0].rack.top_up(&mut self.bag)
    }

    /// Lets a player join: numbered after those already there, and with a
    /// rack filled from the bag.
    pub fn add_player(&mut self, name: String)
        requires
            old(self).players@.len() < usize::MAX,
        ensures
            final(self).board == old(self).board,
            final(self).players@.len() == old(self).players@.len() + 1,
            final(self).players@.take(old(self).players@.len() as int) == old(self).players@,
            final(self).players@.last().id == old(self).players@.len() + 1,
            final(self).players@.last().name == name,
            final(self).players@.last().score == 0,
            final(self).players@.last().rack@ == drawn(old(self).bag@, Rack::CAPACITY as nat),
            final(self).bag@ == left_after(old(self).bag@, Rack::CAPACITY as nat),
    {
        let id = self.players.len() + 1;
        let mut player = Player::new(id, name);
        player.rack.top_up(&mut self.bag);
        self.players.push(player);
    }
}

} // verus!
