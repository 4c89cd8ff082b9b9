//! The board as text.

use vstd::prelude::*;
use vstd::string::StringExecFns;
use crate::game::board::{on_board, Board, Cell, CellKind, BOARD_SIZE, CENTER};
use crate::text::{decimal, repeated, run_of};
use super::frame::{
    ascii_upper, join, right_align_number, right_aligned, rule_line, rule_text, to_ascii_upper,
};
use super::style::{blue, bold, cyan, is_styled, law_styled_width, magenta, red};
use super::width::{
    center, centered, lemma_scan_concat, lemma_scan_plain, lemma_scan_shift, visible_len,
};

verus! {

/// Width of a cell of the board, in characters.
pub const CELL_W: usize = 4;

/// The label of column `c`: `A` for the first.
pub open spec fn column_label(c: int) -> char {
    ('A' as int + c) as char
}

/// The labels of the columns, `A` to `O`.
pub fn col_labels() -> (labels: [char; BOARD_SIZE])
    ensures
        forall|c: int| 0 <= c < BOARD_SIZE ==> labels[c] == column_label(c),
{
    let mut labels = [' '; BOARD_SIZE];
    let mut i: usize = 0;
    while i < BOARD_SIZE
        invariant
            i <= BOARD_SIZE,
            forall|c: int| 0 <= c < i ==> labels[c] == column_label(c),
        decreases BOARD_SIZE - i,
    {
        labels[i] = (65 + i) as u8 as char;
        i += 1;
    }
    labels
}

/// What a cell shows: its letter in upper case, a star on the free center,
/// the abbreviation of its premium kind, or a space.
pub open spec fn mark_text(cell: Cell, at_center: bool) -> Seq<char> {
    match cell.letter {
        Some(ch) => seq![ascii_upper(ch)],
        None => if at_center {
            "★"@
        } else {
            match cell.kind {
                CellKind::Normal => " "@,
                CellKind::DoubleLetter => "LD"@,
                CellKind::TripleLetter => "LT"@,
                CellKind::DoubleWord => "MD"@,
                CellKind::TripleWord => "MT"@,
            }
        },
    }
}

/// The style in which a cell shows its mark, where it has one: letters
/// bold, premium kinds each in its colour.
pub open spec fn mark_style(cell: Cell, at_center: bool) -> Option<Seq<char>> {
    match cell.letter {
        Some(ch) => Some("1"@),
        None => if at_center {
            None
        } else {
            match cell.kind {
                CellKind::Normal => None,
                CellKind::DoubleLetter => Some("34"@),
                CellKind::TripleLetter => Some("36"@),
                CellKind::DoubleWord => Some("31"@),
                CellKind::TripleWord => Some("35"@),
            }
        },
    }
}

/// Whether `label` is the mark of the cell, plain or in the cell's style.
pub open spec fn is_label(label: Seq<char>, cell: Cell, at_center: bool) -> bool {
    match mark_style(cell, at_center) {
        Some(code) => is_styled(label, code, mark_text(cell, at_center)),
        None => label == mark_text(cell, at_center),
    }
}

/// The label of a cell: its mark, in its style where the terminal takes styles.
pub fn cell_label(cell: &Cell, at_center: bool) -> (label: String)
    ensures
        is_label(label@, *cell, at_center),
{
    match cell.letter {
        Some(ch) => {
            let mut plain = String::new();
            plain.push(to_ascii_upper(ch));
            assert(plain@ =~= seq![ascii_upper(ch)]);
            bold(plain.as_str())
        },
        None => {
            if at_center {
                String::from_str("★")
            } else {
                proof {
                    reveal_strlit("LD");
                    reveal_strlit("LT");
                    reveal_strlit("MD");
                    reveal_strlit("MT");
                }
                match cell.kind {
                    CellKind::Normal => String::from_str(" "),
                    CellKind::DoubleLetter => blue("LD"),
                    CellKind::TripleLetter => cyan("LT"),
                    CellKind::DoubleWord => red("MD"),
                    CellKind::TripleWord => magenta("MT"),
                }
            }
        },
    }
}

/// The label of a cell shows one or two characters, styled or not, and
/// centered it fills the width of a cell exactly. The escape character
/// itself is no letter to show.
pub proof fn law_label_width(label: Seq<char>, cell: Cell, at_center: bool)
    requires
        is_label(label, cell, at_center),
        cell.letter != Some('\x1b'),
    ensures
        1 <= visible_len(label) <= 2,
        visible_len(label) == mark_text(cell, at_center).len(),
        visible_len(centered(label, CELL_W as nat)) == CELL_W,
{
    reveal_strlit("★");
    reveal_strlit(" ");
    reveal_strlit("LD");
    reveal_strlit("LT");
    reveal_strlit("MD");
    reveal_strlit("MT");
    reveal_strlit("1");
    reveal_strlit("34");
    reveal_strlit("36");
    reveal_strlit("31");
    reveal_strlit("35");
    let mark = mark_text(cell, at_center);
    let start = (0nat, false);
    match mark_style(cell, at_center) {
        Some(code) => {
            law_styled_width(label, code, mark);
        },
        None => {
            lemma_scan_plain(start, mark, mark.len() as int);
        },
    }
    let padding = (CELL_W - mark.len()) as nat;
    let left = run_of(' ', padding / 2);
    let right = run_of(' ', (padding - padding / 2) as nat);
    assert(centered(label, CELL_W as nat) == left + label + right);
    lemma_scan_plain(start, left, left.len() as int);
    lemma_scan_concat(start, left, label, label.len() as int);
    lemma_scan_shift(start, (left.len(), false), label, label.len() as int);
    lemma_scan_concat(start, left + label, right, right.len() as int);
    lemma_scan_plain(((left.len() + mark.len()) as nat, false), right, right.len() as int);
}

/// The texts of the strings, in order.
pub open spec fn texts(labels: Seq<String>) -> Seq<Seq<char>> {
    labels.map_values(|label: String| label@)
}

/// The texts of the rows of strings, in order.
pub open spec fn grid_texts(labels: Seq<Vec<String>>) -> Seq<Seq<Seq<char>>> {
    labels.map_values(|row: Vec<String>| texts(row@))
}

/// The column header over cell `c`.
pub open spec fn header_part() -> spec_fn(int) -> Seq<char> {
    |c: int| centered(seq![column_label(c)], (CELL_W + 1) as nat)
}

/// The line of column labels.
pub open spec fn header_text() -> Seq<char> {
    (run_of(' ', 5) + join(BOARD_SIZE as int, header_part())).push('\n')
}

/// Cell `c` of a row of the board: its label, centered, and the bar after it.
pub open spec fn cell_part(labels: Seq<Seq<char>>) -> spec_fn(int) -> Seq<char> {
    |c: int| centered(labels[c], CELL_W as nat).push('│')
}

/// Row `r` of the board: its number, its cells, and the rule under it.
pub open spec fn row_text(r: int, labels: Seq<Seq<char>>) -> Seq<char> {
    (right_aligned(decimal((r + 1) as nat), 3).push(' ').push('│') + join(
        BOARD_SIZE as int,
        cell_part(labels),
    )).push('\n') + if r + 1 == BOARD_SIZE {
        rule_text(4, '└', '┴', '┘', BOARD_SIZE as int, CELL_W as nat)
    } else {
        rule_text(4, '├', '┼', '┤', BOARD_SIZE as int, CELL_W as nat)
    }
}

/// Row `r` of the grid of labels, as text.
pub open spec fn row_part(labels: Seq<Seq<Seq<char>>>) -> spec_fn(int) -> Seq<char> {
    |r: int| row_text(r, labels[r])
}

/// The board as text: the column labels, the top rule, and the rows.
pub open spec fn grid_text(labels: Seq<Seq<Seq<char>>>) -> Seq<char> {
    header_text() + rule_text(4, '┌', '┬', '┐', BOARD_SIZE as int, CELL_W as nat) + join(
        BOARD_SIZE as int,
        row_part(labels),
    )
}

/// Whether `labels` holds one label for each cell of the grid.
pub open spec fn is_grid(labels: Seq<Seq<Seq<char>>>) -> bool {
    labels.len() == BOARD_SIZE && forall|r: int|
        0 <= r < BOARD_SIZE ==> (#[trigger] labels[r]).len() == BOARD_SIZE
}

/// Whether `labels` holds for each cell of the board a label of that cell.
pub open spec fn labels_board(labels: Seq<Seq<Seq<char>>>, board: Board) -> bool {
    is_grid(labels) && forall|r: int, c: int|
        on_board(r, c) ==> is_label(
            #[trigger] labels[r][c],
            board.cells[r][c],
            r == CENTER && c == CENTER,
        )
}

/// The line of column labels.
pub fn header_line() -> (line: String)
    ensures
        line@ == header_text(),
{
    let cols = col_labels();
    let mut line = repeated(' ', 5);
    let mut c: usize = 0;
    while c < BOARD_SIZE
        invariant
            c <= BOARD_SIZE,
            forall|k: int| 0 <= k < BOARD_SIZE ==> cols[k] == column_label(k),
            line@ == run_of(' ', 5) + join(c as int, header_part()),
        decreases BOARD_SIZE - c,
    {
        let ghost before = line@;
        let mut label = String::new();
        label.push(cols[c]);
        assert(label@ =~= seq![column_label(c as int)]);
        line.append(center(label.as_str(), CELL_W + 1).as_str());
        assert(line@ =~= before + header_part()(c as int));
        c += 1;
        assert(line@ =~= run_of(' ', 5) + join(c as int, header_part()));
    }
    line.push('\n');
    line
}

/// Row `r` of the board, with the rule under it.
pub fn render_row(r: usize, labels: &Vec<String>) -> (out: String)
    requires
        r < BOARD_SIZE,
        labels@.len() == BOARD_SIZE,
    ensures
        out@ == row_text(r as int, texts(labels@)),
{
    let ghost part = cell_part(texts(labels@));
    let mut out = right_align_number(r + 1, 3);
    out.push(' ');
    out.push('│');
    let ghost head = out@;
    let mut c: usize = 0;
    while c < BOARD_SIZE
        invariant
            c <= BOARD_SIZE,
            labels@.len() == BOARD_SIZE,
            part == cell_part(texts(labels@)),
            out@ == head + join(c as int, part),
        decreases BOARD_SIZE - c,
    {
        let ghost before = out@;
        out.append(center(labels[c].as_str(), CELL_W).as_str());
        out.push('│');
        assert(texts(labels@)[c as int] == labels@[c as int]@);
        assert(out@ =~= before + part(c as int));
        c += 1;
        assert(out@ =~= head + join(c as int, part));
    }
    out.push('\n');
    let rule = if r + 1 == BOARD_SIZE {
        rule_line(4, '└', '┴', '┘', BOARD_SIZE, CELL_W)
    } else {
        rule_line(4, '├', '┼', '┤', BOARD_SIZE, CELL_W)
    };
    out.append(rule.as_str());
    out
}

/// The board as text, each cell showing the label that `labels` holds for it.
pub fn render_grid(labels: &Vec<Vec<String>>) -> (out: String)
    requires
        is_grid(grid_texts(labels@)),
    ensures
        out@ == grid_text(grid_texts(labels@)),
{
    let ghost grid = grid_texts(labels@);
    let mut out = header_line();
    out.append(rule_line(4, '┌', '┬', '┐', BOARD_SIZE, CELL_W).as_str());
    let ghost head = out@;
    let mut r: usize = 0;
    while r < BOARD_SIZE
        invariant
            r <= BOARD_SIZE,
            grid == grid_texts(labels@),
            is_grid(grid),
            out@ == head + join(r as int, row_part(grid)),
        decreases BOARD_SIZE - r,
    {
        let ghost before = out@;
        assert(grid[r as int] == texts(labels@[r as int]@));
        assert(grid[r as int].len() == BOARD_SIZE);
        out.append(render_row(r, &labels[r]).as_str());
        assert(out@ =~= before + row_part(grid)(r as int));
        r += 1;
        assert(out@ =~= head + join(r as int, row_part(grid)));
    }
    out
}

/// The labels of the cells of the board, row by row.
pub fn board_labels(board: &Board) -> (labels: Vec<Vec<String>>)
    ensures
        labels_board(grid_texts(labels@), *board),
{
    let mut labels: Vec<Vec<String>> = Vec::new();
    let mut r: usize = 0;
    while r < BOARD_SIZE
        invariant
            r <= BOARD_SIZE,
            labels@.len() == r,
            forall|i: int| 0 <= i < r ==> (#[trigger] labels@[i])@.len() == BOARD_SIZE,
            forall|i: int, c: int|
                0 <= i < r && 0 <= c < BOARD_SIZE ==> is_label(
                    #[trigger] labels@[i]@[c]@,
                    board.cells[i][c],
                    i == CENTER && c == CENTER,
                ),
        decreases BOARD_SIZE - r,
    {
        let mut row: Vec<String> = Vec::new();
        let mut c: usize = 0;
        while c < BOARD_SIZE
            invariant
                r < BOARD_SIZE,
                c <= BOARD_SIZE,
                row@.len() == c,
                forall|k: int|
                    0 <= k < c ==> is_label(
                        #[trigger] row@[k]@,
                        board.cells[r as int][k],
                        r == CENTER && k == CENTER,
                    ),
            decreases BOARD_SIZE - c,
        {
            row.push(cell_label(&board.cells[r][c], r == CENTER && c == CENTER));
            c += 1;
        }
        labels.push(row);
        r += 1;
    }
    proof {
        let grid = grid_texts(labels@);
        assert forall|i: int| 0 <= i < BOARD_SIZE implies (#[trigger] grid[i]).len()
            == BOARD_SIZE by {
            assert(labels@[i]@.len() == BOARD_SIZE);
        }
        assert forall|i: int, c: int| on_board(i, c) implies is_label(
            #[trigger] grid[i][c],
            board.cells[i][c],
            i == CENTER && c == CENTER,
        ) by {
            assert(labels@[i]@.len() == BOARD_SIZE);
            assert(grid[i][c] == labels@[i]@[c]@);
        }
    }
    labels
}

/// The board as text. Each cell shows its label, which is in its style or
/// plain as the terminal has it.
pub fn render_board(board: &Board) -> (out: String)
    ensures
        exists|labels: Seq<Seq<Seq<char>>>|
            labels_board(labels, *board) && out@ == #[trigger] grid_text(labels),
{
    let labels = board_labels(board);
    let out = render_grid(&labels);
    assert(labels_board(grid_texts(labels@), *board) && out@ == grid_text(grid_texts(labels@)));
    out
}

} // verus!
