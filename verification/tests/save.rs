use scrabble::save::{
    is_save_name, menu_choice, save_file_name, shown_saves, MenuChoice, MAX_SHOWN,
};

#[test]
fn list_shows_five_games_at_most() {
    assert_eq!(MAX_SHOWN, 5);
    assert_eq!(shown_saves(0), 0);
    assert_eq!(shown_saves(3), 3);
    assert_eq!(shown_saves(5), 5);
    assert_eq!(shown_saves(6), 5);
    assert_eq!(shown_saves(usize::MAX), 5);
}

#[test]
fn n_asks_for_a_new_game() {
    assert_eq!(menu_choice("n", 3), MenuChoice::NewGame);
    assert_eq!(menu_choice("N", 0), MenuChoice::NewGame);
    assert_eq!(menu_choice("nn", 3), MenuChoice::Invalid);
    assert_eq!(menu_choice("new", 3), MenuChoice::Invalid);
}

#[test]
fn number_asks_for_the_game_it_counts() {
    assert_eq!(menu_choice("1", 3), MenuChoice::Load { index: 0 });
    assert_eq!(menu_choice("3", 3), MenuChoice::Load { index: 2 });
    assert_eq!(menu_choice("+2", 3), MenuChoice::Load { index: 1 });
    assert_eq!(menu_choice("002", 3), MenuChoice::Load { index: 1 });
}

#[test]
fn anything_else_is_no_choice() {
    for choice in ["", "0", "4", "-1", "1.", " 1", "un", "99999999999999999999999999", "+"] {
        assert_eq!(menu_choice(choice, 3), MenuChoice::Invalid, "{}", choice);
    }
    assert_eq!(menu_choice("1", 0), MenuChoice::Invalid);
}

#[test]
fn save_files_are_named_after_their_time() {
    assert_eq!(save_file_name(0), "game_0.ron");
    assert_eq!(save_file_name(1700000000), "game_1700000000.ron");
    assert_eq!(save_file_name(-5), "game_-5.ron");
    assert_eq!(save_file_name(i64::MAX), format!("game_{}.ron", i64::MAX));
    assert_eq!(save_file_name(i64::MIN), format!("game_{}.ron", i64::MIN));
}

#[test]
fn save_files_end_in_ron() {
    assert!(is_save_name("game_1.ron"));
    assert!(is_save_name("a.ron"));
    assert!(is_save_name("..ron"));
    assert!(is_save_name("été.ron"));
    assert!(!is_save_name(".ron"));
    assert!(!is_save_name("ron"));
    assert!(!is_save_name("game.ron.bak"));
    assert!(!is_save_name("game.RON"));
    assert!(!is_save_name("gameron"));
    assert!(!is_save_name(""));
    for name in ["game_1.ron", "a.ron", "..ron", ".ron", "ron", "game.ron.bak", "x.", "ron."] {
        let by_path = std::path::Path::new(name).extension().and_then(|e| e.to_str()) == Some("ron");
        assert_eq!(is_save_name(name), by_path, "{}", name);
    }
}
