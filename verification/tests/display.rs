use scrabble::display::bag::{letter_counts, render_bag, render_counts, LetterCount};
use scrabble::display::board::{
    board_labels, cell_label, col_labels, header_line, render_board, render_grid, render_row,
};
use scrabble::display::frame::{
    left_align, right_align_number, rule_line, superscript_num, to_ascii_upper,
};
use scrabble::display::rack::{render_rack, tile_label_string};
use scrabble::display::width::{center, strip_ansi_len};
use scrabble::game::bag::{Bag, Tile};
use scrabble::game::board::{Board, Cell, CellKind};
use scrabble::game::player::Rack;

fn rule(indent: usize, left: char, mid: char, right: char, cells: usize, width: usize) -> String {
    let mut line = " ".repeat(indent);
    line.push(left);
    for x in 0..cells {
        line.push_str(&"─".repeat(width));
        line.push(if x + 1 == cells { right } else { mid });
    }
    line.push('\n');
    line
}

fn expected_board(label: impl Fn(usize, usize) -> String) -> String {
    let mut out = String::from("     ");
    for c in 0..15u8 {
        out.push_str(&format!("  {}  ", (b'A' + c) as char));
    }
    out.push('\n');
    out.push_str(&rule(4, '┌', '┬', '┐', 15, 4));
    for r in 0..15 {
        out.push_str(&format!("{:>3} ", r + 1));
        out.push('│');
        for c in 0..15 {
            out.push_str(&label(r, c));
            out.push('│');
        }
        out.push('\n');
        if r == 14 {
            out.push_str(&rule(4, '└', '┴', '┘', 15, 4));
        } else {
            out.push_str(&rule(4, '├', '┼', '┤', 15, 4));
        }
    }
    out
}

#[test]
fn visible_length_skips_escape_sequences() {
    assert_eq!(strip_ansi_len(""), 0);
    assert_eq!(strip_ansi_len("LD"), 2);
    assert_eq!(strip_ansi_len("\x1b[34mLD\x1b[0m"), 2);
    assert_eq!(strip_ansi_len("\x1b[1;44;34mA\x1b[0mB"), 2);
    assert_eq!(strip_ansi_len("m\x1b[m"), 1);
    assert_eq!(strip_ansi_len("\x1b[34"), 0);
    assert_eq!(strip_ansi_len("★é"), 2);
}

#[test]
fn centering_puts_the_odd_space_on_the_right() {
    assert_eq!(center("ab", 4), " ab ");
    assert_eq!(center("a", 4), " a  ");
    assert_eq!(center("", 3), "   ");
    assert_eq!(center("abcde", 4), "abcde");
    assert_eq!(center("A", 5), "  A  ");
    assert_eq!(center("\x1b[34mLD\x1b[0m", 4), " \x1b[34mLD\x1b[0m ");
}

#[test]
fn columns_are_labelled_a_to_o() {
    let labels: String = col_labels().iter().collect();
    assert_eq!(labels, "ABCDEFGHIJKLMNO");
}

#[test]
fn ascii_letters_are_raised() {
    assert_eq!(to_ascii_upper('a'), 'A');
    assert_eq!(to_ascii_upper('z'), 'Z');
    assert_eq!(to_ascii_upper('Q'), 'Q');
    assert_eq!(to_ascii_upper('é'), 'é');
    assert_eq!(to_ascii_upper('1'), '1');
    for code in 0..=255u8 {
        assert_eq!(to_ascii_upper(code as char), (code as char).to_ascii_uppercase());
    }
}

#[test]
fn numbers_are_raised() {
    assert_eq!(superscript_num(0), "⁰");
    assert_eq!(superscript_num(1), "¹");
    assert_eq!(superscript_num(10), "¹⁰");
    assert_eq!(superscript_num(234), "²³⁴");
    assert_eq!(superscript_num(255), "²⁵⁵");
    assert_eq!(superscript_num(96), "⁹⁶");
    assert_eq!(superscript_num(78), "⁷⁸");
}

#[test]
fn rules_have_a_joint_after_each_cell() {
    assert_eq!(rule_line(0, '┌', '┬', '┐', 2, 6), "┌──────┬──────┐\n");
    assert_eq!(rule_line(4, '├', '┼', '┤', 3, 1), "    ├─┼─┼─┤\n");
    assert_eq!(rule_line(1, '└', '┴', '┘', 0, 4), " └\n");
    assert_eq!(rule_line(4, '┌', '┬', '┐', 15, 4), rule(4, '┌', '┬', '┐', 15, 4));
}

#[test]
fn numbers_are_aligned() {
    assert_eq!(right_align_number(7, 3), "  7");
    assert_eq!(right_align_number(15, 3), " 15");
    assert_eq!(right_align_number(1234, 3), "1234");
    assert_eq!(left_align("9", 5), "9    ");
    assert_eq!(left_align("Count", 5), "Count");
    assert_eq!(left_align("Counts", 5), "Counts");
}

#[test]
fn header_names_the_columns() {
    let mut expected = String::from("     ");
    for c in "ABCDEFGHIJKLMNO".chars() {
        expected.push_str(&format!("  {}  ", c));
    }
    expected.push('\n');
    assert_eq!(header_line(), expected);
}

#[test]
fn labels_are_plain_where_styles_are_off() {
    colored::control::set_override(false);
    let free = |kind| Cell { letter: None, kind };
    assert_eq!(cell_label(&free(CellKind::Normal), false), " ");
    assert_eq!(cell_label(&free(CellKind::DoubleLetter), false), "LD");
    assert_eq!(cell_label(&free(CellKind::TripleLetter), false), "LT");
    assert_eq!(cell_label(&free(CellKind::DoubleWord), false), "MD");
    assert_eq!(cell_label(&free(CellKind::TripleWord), false), "MT");
    assert_eq!(cell_label(&free(CellKind::DoubleWord), true), "★");
    assert_eq!(cell_label(&Cell { letter: Some('q'), kind: CellKind::DoubleWord }, true), "Q");
}

#[test]
fn labels_are_styled_where_styles_are_on() {
    colored::control::set_override(true);
    let free = |kind| Cell { letter: None, kind };
    assert_eq!(cell_label(&free(CellKind::Normal), false), " ");
    assert_eq!(cell_label(&free(CellKind::DoubleLetter), false), "\x1b[34mLD\x1b[0m");
    assert_eq!(cell_label(&free(CellKind::TripleLetter), false), "\x1b[36mLT\x1b[0m");
    assert_eq!(cell_label(&free(CellKind::DoubleWord), false), "\x1b[31mMD\x1b[0m");
    assert_eq!(cell_label(&free(CellKind::TripleWord), false), "\x1b[35mMT\x1b[0m");
    assert_eq!(cell_label(&free(CellKind::TripleWord), true), "★");
    assert_eq!(
        cell_label(&Cell { letter: Some('q'), kind: CellKind::Normal }, false),
        "\x1b[1mQ\x1b[0m"
    );
}

#[test]
fn row_shows_its_number_and_its_cells() {
    let labels: Vec<String> = (0..15).map(|c| if c == 3 { "LD".to_string() } else { " ".to_string() }).collect();
    let mut expected = String::from("  8 │");
    for c in 0..15 {
        expected.push_str(if c == 3 { " LD │" } else { "    │" });
    }
    expected.push('\n');
    expected.push_str(&rule(4, '├', '┼', '┤', 15, 4));
    assert_eq!(render_row(7, &labels), expected);
    let last = render_row(14, &labels);
    assert!(last.starts_with(" 15 │"));
    assert!(last.ends_with(&rule(4, '└', '┴', '┘', 15, 4)));
}

#[test]
fn plain_board_is_drawn_cell_by_cell() {
    colored::control::set_override(false);
    let mut board = Board::new();
    board.cells[7][7].letter = Some('c');
    board.cells[7][8].letter = Some('A');
    let fresh = Board::new();
    let expected = expected_board(|r, c| {
        let label = match (r, c) {
            (7, 7) => "C",
            (7, 8) => "A",
            _ => match fresh.cells[r][c].kind {
                CellKind::Normal => " ",
                CellKind::DoubleLetter => "LD",
                CellKind::TripleLetter => "LT",
                CellKind::DoubleWord => "MD",
                CellKind::TripleWord => "MT",
            },
        };
        match label.chars().count() {
            1 => format!(" {}  ", label),
            _ => format!(" {} ", label),
        }
    });
    assert_eq!(render_board(&board), expected);
    assert_eq!(render_grid(&board_labels(&board)), expected);
}

#[test]
fn styled_board_keeps_its_columns() {
    colored::control::set_override(true);
    let board = Board::new();
    let text = render_board(&board);
    let lines: Vec<&str> = text.lines().collect();
    assert_eq!(lines.len(), 32);
    assert!(lines[2].starts_with("  1 │ \x1b[35mMT\x1b[0m │    │    │ \x1b[34mLD\x1b[0m │"));
    assert!(lines[16].contains("│ ★  │"));
    for line in &lines[1..] {
        assert_eq!(strip_ansi_len(line), 4 + 1 + 15 * 5);
    }
    assert_eq!(strip_ansi_len(lines[0]), 5 + 15 * 5);
}

#[test]
fn free_center_shows_a_star() {
    colored::control::set_override(false);
    let board = Board::new();
    let text = render_board(&board);
    let line = text.lines().nth(16).expect("row 8");
    assert!(line.starts_with("  8 │ MT │"));
    assert!(line.contains("│ LD │    │    │    │ ★  │    │    │    │ LD │"));
}

#[test]
fn tiles_show_letter_and_points() {
    let a = Tile { letter: 'a', value: 1, is_blank: false };
    let k = Tile { letter: 'K', value: 10, is_blank: false };
    let blank = Tile { letter: '_', value: 0, is_blank: true };
    let odd = Tile { letter: 'x', value: 0, is_blank: false };
    assert_eq!(tile_label_string(&a, false), "A¹");
    assert_eq!(tile_label_string(&a, true), "A^1");
    assert_eq!(tile_label_string(&k, false), "K¹⁰");
    assert_eq!(tile_label_string(&k, true), "K^10");
    assert_eq!(tile_label_string(&blank, false), "_");
    assert_eq!(tile_label_string(&blank, true), "_");
    assert_eq!(tile_label_string(&odd, true), "_");
}

#[test]
fn rack_is_drawn_in_a_frame() {
    let rack = Rack {
        tiles: vec![
            Tile { letter: 'A', value: 1, is_blank: false },
            Tile { letter: 'k', value: 10, is_blank: false },
            Tile { letter: '_', value: 0, is_blank: true },
        ],
    };
    assert_eq!(
        render_rack(&rack, false),
        "Chevalet:\n\
         ┌──────┬──────┬──────┐\n\
         │  A¹  │ K¹⁰  │  _   │\n\
         └──────┴──────┴──────┘\n"
    );
    assert_eq!(
        render_rack(&rack, true),
        "Chevalet:\n\
         ┌──────┬──────┬──────┐\n\
         │ A^1  │ K^10 │  _   │\n\
         └──────┴──────┴──────┘\n"
    );
}

#[test]
fn rack_with_a_costly_tile_keeps_its_cells() {
    let rack = Rack { tiles: vec![Tile { letter: 'w', value: 255, is_blank: false }] };
    assert_eq!(
        render_rack(&rack, true),
        "Chevalet:\n┌──────┐\n│W^255 │\n└──────┘\n"
    );
    assert_eq!(
        render_rack(&rack, false),
        "Chevalet:\n┌──────┐\n│ W²⁵⁵ │\n└──────┘\n"
    );
}

#[test]
fn empty_rack_says_so() {
    assert_eq!(render_rack(&Rack::new(), false), "Chevalet:\n(empty rack)\n");
    assert_eq!(render_rack(&Rack::new(), true), "Chevalet:\n(empty rack)\n");
}

#[test]
fn letters_are_counted_in_their_order() {
    let tiles = vec![
        Tile { letter: 'B', value: 3, is_blank: false },
        Tile { letter: 'A', value: 1, is_blank: false },
        Tile { letter: 'B', value: 9, is_blank: false },
        Tile { letter: '_', value: 0, is_blank: true },
        Tile { letter: 'A', value: 1, is_blank: false },
        Tile { letter: 'B', value: 3, is_blank: false },
    ];
    assert_eq!(
        letter_counts(&tiles),
        vec![
            LetterCount { letter: 'A', value: 1, count: 2 },
            LetterCount { letter: 'B', value: 3, count: 3 },
            LetterCount { letter: '_', value: 0, count: 1 },
        ]
    );
    assert!(letter_counts(&Vec::new()).is_empty());
}

#[test]
fn table_lists_letter_worth_and_number() {
    let rows = vec![
        LetterCount { letter: 'A', value: 1, count: 9 },
        LetterCount { letter: 'K', value: 10, count: 1 },
    ];
    assert_eq!(
        render_counts(&rows, 10),
        "--- Bag contents ---\n\
         Let | Val   | Count\n\
         --------------------\n\
         A   | 1     | 9    \n\
         K   | 10    | 1    \n\
         Total tiles: 10\n"
    );
}

#[test]
fn full_bag_is_listed_letter_by_letter() {
    let bag = Bag::new();
    let text = render_bag(&bag);
    let lines: Vec<&str> = text.lines().collect();
    assert_eq!(lines.len(), 3 + 27 + 1);
    assert_eq!(lines[0], "--- Bag contents ---");
    assert_eq!(lines[1], format!("{:<3} | {:<5} | {:<5}", "Let", "Val", "Count"));
    assert_eq!(lines[2], "--------------------");
    assert_eq!(lines[3], format!("{:<3} | {:<5} | {:<5}", 'A', 1, 9));
    assert_eq!(lines[7], format!("{:<3} | {:<5} | {:<5}", 'E', 1, 15));
    assert_eq!(lines[28], format!("{:<3} | {:<5} | {:<5}", 'Z', 10, 1));
    assert_eq!(lines[29], format!("{:<3} | {:<5} | {:<5}", '_', 0, 2));
    assert_eq!(lines[30], "Total tiles: 102");
}

#[test]
fn empty_bag_has_no_rows() {
    let bag = Bag { tiles: Vec::new() };
    assert_eq!(
        render_bag(&bag),
        "--- Bag contents ---\nLet | Val   | Count\n--------------------\nTotal tiles: 0\n"
    );
}
