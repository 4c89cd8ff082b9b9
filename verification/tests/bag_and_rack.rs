use scrabble::error::MoveError;
use scrabble::game::bag::{Bag, Tile, DISTRIBUTION};
use scrabble::game::player::{find_letter, Player, Rack};

fn sorted_letters(tiles: &[Tile]) -> Vec<(char, u8, bool)> {
    let mut all: Vec<(char, u8, bool)> =
        tiles.iter().map(|t| (t.letter, t.value, t.is_blank)).collect();
    all.sort();
    all
}

#[test]
fn full_bag_holds_the_distribution() {
    let bag = Bag::new();
    assert_eq!(bag.tiles.len(), 102);
    let mut at = 0;
    for &(letter, count, value) in DISTRIBUTION.iter() {
        for _ in 0..count {
            assert_eq!(bag.tiles[at], Tile { letter, value, is_blank: value == 0 });
            at += 1;
        }
    }
    assert_eq!(at, 102);
}

#[test]
fn full_bag_has_two_blanks_and_fifteen_e() {
    let bag = Bag::new();
    assert_eq!(bag.tiles.iter().filter(|t| t.is_blank).count(), 2);
    assert_eq!(bag.tiles.iter().filter(|t| t.letter == '_').count(), 2);
    assert_eq!(bag.tiles.iter().filter(|t| t.letter == 'E').count(), 15);
    assert_eq!(bag.tiles.iter().filter(|t| t.letter == 'Z' && t.value == 10).count(), 1);
}

#[test]
fn shuffle_keeps_the_tiles_and_changes_the_order() {
    let fresh = Bag::new();
    let mut bag = Bag::new();
    bag.shuffle_bag();
    assert_eq!(bag.tiles.len(), 102);
    assert_eq!(sorted_letters(&bag.tiles), sorted_letters(&fresh.tiles));
    assert!(bag.tiles != fresh.tiles);
}

#[test]
fn draw_takes_from_the_end_last_first() {
    let mut bag = Bag::new();
    let drawn = bag.draw_n(3);
    assert_eq!(
        drawn,
        vec![
            Tile { letter: 'Z', value: 10, is_blank: false },
            Tile { letter: 'Y', value: 10, is_blank: false },
            Tile { letter: 'X', value: 10, is_blank: false },
        ]
    );
    assert_eq!(bag.tiles.len(), 99);
    assert_eq!(bag.tiles[98], Tile { letter: 'W', value: 10, is_blank: false });
}

#[test]
fn draw_of_nothing_takes_nothing() {
    let mut bag = Bag::new();
    assert!(bag.draw_n(0).is_empty());
    assert_eq!(bag.tiles.len(), 102);
}

#[test]
fn draw_hands_out_no_more_than_the_bag_holds() {
    let mut bag = Bag::new();
    let first = bag.draw_n(100);
    assert_eq!(first.len(), 100);
    let second = bag.draw_n(7);
    assert_eq!(second.len(), 2);
    assert_eq!(second[0].letter, '_');
    assert!(bag.tiles.is_empty());
    assert!(bag.draw_n(7).is_empty());
    assert!(bag.draw_n(usize::MAX).is_empty());
    assert!(bag.tiles.is_empty());
}

#[test]
fn new_rack_is_empty() {
    let rack = Rack::new();
    assert_eq!(rack.len(), 0);
    assert_eq!(Rack::CAPACITY, 7);
}

#[test]
fn top_up_fills_the_rack() {
    let mut bag = Bag::new();
    let mut rack = Rack::new();
    assert_eq!(rack.top_up(&mut bag), 7);
    assert_eq!(rack.len(), 7);
    assert_eq!(bag.tiles.len(), 95);
    assert_eq!(rack.tiles[0].letter, 'Z');
    assert_eq!(rack.tiles[4].letter, 'V');
    assert_eq!(rack.tiles[6].letter, 'U');
    assert_eq!(rack.top_up(&mut bag), 0);
    assert_eq!(bag.tiles.len(), 95);
}

#[test]
fn top_up_adds_only_the_deficit() {
    let mut bag = Bag::new();
    let mut rack = Rack::new();
    rack.top_up_from(&mut bag);
    rack.tiles.truncate(4);
    assert_eq!(rack.top_up_from(&mut bag), 3);
    assert_eq!(rack.len(), 7);
    assert_eq!(bag.tiles.len(), 92);
    assert_eq!(rack.tiles[3].letter, 'W');
    assert_eq!(rack.tiles[4].letter, 'U');
}

#[test]
fn top_up_from_a_nearly_empty_bag_adds_what_is_left() {
    let mut bag = Bag::new();
    bag.draw_n(100);
    let mut rack = Rack::new();
    assert_eq!(rack.top_up(&mut bag), 2);
    assert_eq!(rack.len(), 2);
    assert!(bag.tiles.is_empty());
    assert_eq!(rack.top_up(&mut bag), 0);
    assert_eq!(rack.len(), 2);
}

#[test]
fn top_up_leaves_an_overfull_rack_alone() {
    let mut bag = Bag::new();
    let tile = Tile { letter: 'A', value: 1, is_blank: false };
    let mut rack = Rack { tiles: vec![tile; 9] };
    assert_eq!(rack.top_up(&mut bag), 0);
    assert_eq!(rack.len(), 9);
    assert_eq!(bag.tiles.len(), 102);
}

#[test]
fn remove_matching_takes_the_first_of_equals() {
    let mut rack = Rack {
        tiles: vec![
            Tile { letter: 'A', value: 1, is_blank: false },
            Tile { letter: 'B', value: 3, is_blank: false },
            Tile { letter: 'B', value: 5, is_blank: false },
        ],
    };
    assert_eq!(rack.remove_matching('B'), Ok(Tile { letter: 'B', value: 3, is_blank: false }));
    assert_eq!(rack.len(), 2);
    assert_eq!(rack.tiles[1].value, 5);
    assert_eq!(rack.remove_matching('Z'), Err(MoveError::MissingLetter { letter: 'Z' }));
    assert_eq!(rack.len(), 2);
}

#[test]
fn find_letter_gives_the_first_index() {
    let tiles = vec![
        Tile { letter: 'A', value: 1, is_blank: false },
        Tile { letter: 'B', value: 3, is_blank: false },
        Tile { letter: 'B', value: 5, is_blank: false },
    ];
    assert_eq!(find_letter(&tiles, 'B'), Some(1));
    assert_eq!(find_letter(&tiles, 'A'), Some(0));
    assert_eq!(find_letter(&tiles, 'C'), None);
    assert_eq!(find_letter(&Vec::new(), 'C'), None);
}

#[test]
fn new_player_has_nothing() {
    let player = Player::new(3, "Foufou".to_string());
    assert_eq!(player.id, 3);
    assert_eq!(player.name, "Foufou");
    assert_eq!(player.score, 0);
    assert_eq!(player.rack.len(), 0);
}
