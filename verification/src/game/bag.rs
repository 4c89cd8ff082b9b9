//! Letter tiles and the bag they are drawn from.

use rand::seq::SliceRandom;
use vstd::prelude::*;

verus! {

/// A letter tile: its letter, its point value, and whether it is a blank.
#[derive(Copy, Clone, Debug, PartialEq, Eq, Structural)]
pub struct Tile {
    pub letter: char,
    pub value: u8,
    pub is_blank: bool,
}

/// The letters that a sequence of tiles shows, in order.
pub open spec fn letters_of(tiles: Seq<Tile>) -> Seq<char> {
    tiles.map_values(|t: Tile| t.letter)
}

/// The tiles of a full set: for each letter, how many tiles bear it and what
/// each is worth. The blank is written `_` and is worth nothing.
pub const DISTRIBUTION: [(char, u8, u8); 27] = [
    ('_', 2, 0),
    ('A', 9, 1),
    ('B', 2, 3),
    ('C', 2, 3),
    ('D', 3, 2),
    ('E', 15, 1),
    ('F', 2, 4),
    ('G', 2, 2),
    ('H', 2, 4),
    ('I', 8, 1),
    ('J', 1, 8),
    ('K', 1, 10),
    ('L', 5, 1),
    ('M', 3, 2),
    ('N', 6, 1),
    ('O', 6, 1),
    ('P', 2, 3),
    ('Q', 1, 8),
    ('R', 6, 1),
    ('S', 6, 1),
    ('T', 6, 1),
    ('U', 6, 1),
    ('V', 2, 4),
    ('W', 1, 10),
    ('X', 1, 10),
    ('Y', 1, 10),
    ('Z', 1, 10),
];

/// The tile that an entry of the distribution describes.
pub open spec fn tile_of(entry: (char, u8, u8)) -> Tile {
    Tile { letter: entry.0, value: entry.2, is_blank: entry.2 == 0 }
}

/// `n` copies of `tile`.
pub open spec fn copies(tile: Tile, n: nat) -> Seq<Tile> {
    Seq::new(n, |i: int| tile)
}

/// The tiles that the first `k` entries of the distribution describe, entry
/// after entry.
pub open spec fn full_set(k: int) -> Seq<Tile>
    decreases k,
{
    if k <= 0 {
        Seq::empty()
    } else {
        full_set(k - 1) + copies(tile_of(DISTRIBUTION[k - 1]), DISTRIBUTION[k - 1].1 as nat)
    }
}

/// A full set has 102 tiles.
pub proof fn law_full_set_size()
    ensures
        full_set(27).len() == 102,
{
    reveal_with_fuel(full_set, 28);
}

/// How many tiles a draw of `n` takes from a bag that holds `held`.
pub open spec fn draw_size(held: nat, n: nat) -> nat {
    if n <= held {
        n
    } else {
        held
    }
}

/// What a draw of `n` hands out of `tiles`: the tiles at the end, the last one first.
pub open spec fn drawn(tiles: Seq<Tile>, n: nat) -> Seq<Tile> {
    Seq::new(draw_size(tiles.len(), n), |i: int| tiles[tiles.len() - 1 - i])
}

/// What a draw of `n` leaves of `tiles`.
pub open spec fn left_after(tiles: Seq<Tile>, n: nat) -> Seq<Tile> {
    tiles.take(tiles.len() - draw_size(tiles.len(), n))
}

/// The tiles that have not been drawn yet. Tiles leave from the end.
#[derive(Debug)]
pub struct Bag {
    pub tiles: Vec<Tile>,
}

impl View for Bag {
    type V = Seq<Tile>;

    open spec fn view(&self) -> Seq<Tile> {
        self.tiles@
    }
}

/// Calls `shuffle` of `rand::seq::SliceRandom` on the tiles, with the
/// generator that `rand::rng` hands out. The shuffle only swaps elements of
/// the slice, so whatever order comes out, the same tiles are there, each as
/// often as before.
#[verifier::external_body]
fn shuffle_tiles(tiles: &mut Vec<Tile>)
    ensures
        final(tiles)@.to_multiset() == old(tiles)@.to_multiset(),
{
    let mut rng = rand::rng();
    tiles.shuffle(&mut rng);
}

impl Bag {
    /// A full bag, in the order of the distribution.
    pub fn new() -> (bag: Self)
        ensures
            bag@ == full_set(27),
            bag@.len() == 102,
    {
        let mut tiles: Vec<Tile> = Vec::new();
        let mut k: usize = 0;
        while k < 27
            invariant
                k <= 27,
                tiles@ == full_set(k as int),
            decreases 27 - k,
        {
            let (letter, count, value) = DISTRIBUTION[k];
            let tile = Tile { letter, value, is_blank: value == 0 };
            let ghost before = tiles@;
            let mut made: u8 = 0;
            while made < count
                invariant
                    made <= count,
                    tiles@ == before + copies(tile, made as nat),
                decreases count - made,
            {
                tiles.push(tile);
                made += 1;
                assert(tiles@ =~= before + copies(tile, made as nat));
            }
            assert(before + copies(tile, 0) =~= before);
            k += 1;
        }
        proof {
            law_full_set_size();
        }
        Bag { tiles }
    }

    /// Puts the tiles in a random order. No tile is lost or added.
    pub fn shuffle_bag(&mut self)
        ensures
            final(self)@.to_multiset() == old(self)@.to_multiset(),
            final(self)@.len() == old(self)@.len(),
    {
        shuffle_tiles(&mut self.tiles);
        proof {
            old(self)@.to_multiset_ensures();
            self@.to_multiset_ensures();
        }
    }

    /// Takes up to `n` tiles from the end of the bag, the last one first.
    /// A bag that holds fewer hands out what it holds.
    pub fn draw_n(&mut self, n: usize) -> (out: Vec<Tile>)
        ensures
            out@ == drawn(old(self)@, n as nat),
            final(self)@ == left_after(old(self)@, n as nat),
    {
        let mut out: Vec<Tile> = Vec::new();
        let mut taken: usize = 0;
        while taken < n && self.tiles.len() > 0
            invariant
                taken <= n,
                taken <= old(self)@.len(),
                out@.len() == taken,
                self@ == old(self)@.take(old(self)@.len() - taken),
                forall|i: int| 0 <= i < taken ==> out@[i] == old(self)@[old(self)@.len() - 1 - i],
            decreases n - taken,
        {
            let tile = self.tiles.pop().unwrap();
            out.push(tile);
            taken += 1;
        }
        assert(out@ =~= drawn(old(self)@, n as nat));
        out
    }
}

} // verus!
