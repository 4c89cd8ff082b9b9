//! Typed lines, and what they stand for: a start position such as `h8`, a
//! direction, a word.

use vstd::prelude::*;
use vstd::string::StrSliceExecFns;
use crate::error::{cell_name, InputError};
use crate::game::bag::Tile;
use crate::game::board::{on_board, Direction, Position, Word};
use crate::text::{decimal, DECIMAL_DIGITS};

verus! {

/// What `str::trim` returns for a text.
pub uninterp spec fn trimmed(text: Seq<char>) -> Seq<char>;

/// What `str::to_lowercase` returns for a text.
pub uninterp spec fn lowercase(text: Seq<char>) -> Seq<char>;

/// What `str::to_uppercase` returns for a text.
pub uninterp spec fn uppercase(text: Seq<char>) -> Seq<char>;

/// What `char::is_alphabetic` returns for a character.
pub uninterp spec fn alphabetic(c: char) -> bool;

/// `str::trim`: the text without the white space at its ends, as Unicode
/// defines white space. Nothing is claimed of the result but that it is
/// the same for the same text.
pub assume_specification[ str::trim ](text: &str) -> (out: &str)
    ensures
        out@ == trimmed(text@),
;

/// `str::to_lowercase`: the text in lower case, as Unicode defines it.
/// Nothing is claimed of the result but that it is the same for the same
/// text.
pub assume_specification[ str::to_lowercase ](text: &str) -> (out: String)
    ensures
        out@ == lowercase(text@),
;

/// `str::to_uppercase`: the text in upper case, as Unicode defines it.
/// Nothing is claimed of the result but that it is the same for the same
/// text.
pub assume_specification[ str::to_uppercase ](text: &str) -> (out: String)
    ensures
        out@ == uppercase(text@),
;

/// `char::is_alphabetic`: whether Unicode counts the character as
/// alphabetic. Nothing is claimed of the result but that it is the same for
/// the same character.
pub assume_specification[ char::is_alphabetic ](c: char) -> (b: bool)
    ensures
        b == alphabetic(c),
;

/// Whether `c` is one of the ten decimal digits.
pub open spec fn is_digit(c: char) -> bool {
    '0' <= c <= '9'
}

/// The number that a run of decimal digits writes.
pub open spec fn digits_value(digits: Seq<char>) -> int
    decreases digits.len(),
{
    if digits.len() == 0 {
        0
    } else {
        10 * digits_value(digits.drop_last()) + (digits.last() as int - '0' as int)
    }
}

/// `text` without a plus sign in front.
pub open spec fn unsigned(text: Seq<char>) -> Seq<char> {
    if text.len() > 0 && text[0] == '+' {
        text.skip(1)
    } else {
        text
    }
}

/// The number that `text` writes, where it writes one: an optional plus
/// sign, then one or more decimal digits and nothing else.
pub open spec fn number_of(text: Seq<char>) -> Option<int> {
    let digits = unsigned(text);
    if digits.len() > 0 && forall|i: int| 0 <= i < digits.len() ==> is_digit(#[trigger] digits[i]) {
        Some(digits_value(digits))
    } else {
        None
    }
}

/// The position that `text` names: a column letter from `a` to `o`, then
/// the row as a number from 1 to 15.
pub open spec fn position_of(text: Seq<char>) -> Result<Position, InputError> {
    if text.len() >= 2 && 'a' <= text[0] <= 'o' {
        match number_of(text.skip(1)) {
            Some(n) => if 1 <= n <= 15 {
                Ok(Position { row: (n - 1) as usize, col: (text[0] as int - 'a' as int) as usize })
            } else {
                Err(InputError::InvalidPosition)
            },
            None => Err(InputError::InvalidPosition),
        }
    } else {
        Err(InputError::InvalidPosition)
    }
}

/// The direction that `text` names: `h` for across, `v` for down.
pub open spec fn direction_of(text: Seq<char>) -> Result<Direction, InputError> {
    if text == seq!['h'] {
        Ok(Direction::Across)
    } else if text == seq!['v'] {
        Ok(Direction::Down)
    } else {
        Err(InputError::InvalidDirection)
    }
}

/// The tile that stands for a typed letter. It carries no points.
pub open spec fn typed_tile(letter: char) -> Tile {
    Tile { letter, value: 0, is_blank: false }
}

/// The tiles that stand for the letters of `text`.
pub open spec fn typed_tiles(text: Seq<char>) -> Seq<Tile> {
    text.map_values(|c: char| typed_tile(c))
}

/// Whether `text` has at least one character and only alphabetic ones.
pub open spec fn is_word(text: Seq<char>) -> bool {
    text.len() > 0 && forall|i: int| 0 <= i < text.len() ==> alphabetic(#[trigger] text[i])
}

/// What a line of input asks for: the line without the white space at its
/// ends, unless nothing is left of it.
pub open spec fn input_of(line: Seq<char>) -> Result<Seq<char>, InputError> {
    if trimmed(line).len() == 0 {
        Err(InputError::EmptyInput)
    } else {
        Ok(trimmed(line))
    }
}

/// Whether `r` is the result `want`, the text taken by its characters.
pub open spec fn is_text_result(
    r: Result<String, InputError>,
    want: Result<Seq<char>, InputError>,
) -> bool {
    match want {
        Ok(text) => r matches Ok(s) && s@ == text,
        Err(e) => r == Err::<String, InputError>(e),
    }
}

/// Whether `r` is the result `want`, the word taken by its tiles.
pub open spec fn is_word_result(
    r: Result<Word, InputError>,
    want: Result<Seq<Tile>, InputError>,
) -> bool {
    match want {
        Ok(tiles) => r matches Ok(w) && w@ == tiles,
        Err(e) => r matches Err(f) && f == e,
    }
}

/// A copy of `text`, unless it is empty.
pub fn require_text(text: &str) -> (r: Result<String, InputError>)
    ensures
        is_text_result(
            r,
            if text@.len() == 0 {
                Err(InputError::EmptyInput)
            } else {
                Ok(text@)
            },
        ),
{
    if text.unicode_len() == 0 {
        return Err(InputError::EmptyInput);
    }
    Ok(text.to_owned())
}

/// The line without the white space at its ends. A line of which nothing
/// is left is an error.
pub fn read_input(line: &str) -> (r: Result<String, InputError>)
    ensures
        is_text_result(r, input_of(line@)),
{
    require_text(line.trim())
}

/// The number that `text` writes from its character `from` on, where it
/// writes one that is no larger than `max`.
pub fn parse_number(text: &str, from: usize, max: usize) -> (r: Option<usize>)
    requires
        from <= text@.len(),
    ensures
        match r {
            Some(n) => number_of(text@.skip(from as int)) == Some(n as int) && n <= max,
            None => number_of(text@.skip(from as int)) matches Some(n) ==> n > max,
        },
{
    let ghost tail = text@.skip(from as int);
    let len = text.unicode_len();
    let mut i = from;
    if i < len && text.get_char(i) == '+' {
        i += 1;
    }
    let start = i;
    let ghost digits = unsigned(tail);
    assert(digits =~= text@.skip(start as int));
    if start == len {
        return None;
    }
    let cap: u128 = max as u128 + 1;
    let mut value: u128 = 0;
    while i < len
        invariant
            start <= i <= len,
            len == text@.len(),
            digits == text@.skip(start as int),
            digits == unsigned(text@.skip(from as int)),
            cap == max + 1,
            forall|j: int| 0 <= j < i - start ==> is_digit(#[trigger] digits[j]),
            value == if digits_value(digits.take(i - start)) <= cap {
                digits_value(digits.take(i - start))
            } else {
                cap as int
            },
            digits_value(digits.take(i - start)) >= 0,
        decreases len - i,
    {
        let c = text.get_char(i);
        assert(c == digits[i - start]);
        if !('0' <= c && c <= '9') {
            assert(!is_digit(digits[i - start]));
            return None;
        }
        let digit: u128 = (c as u32 - '0' as u32) as u128;
        proof {
            let longer = digits.take(i - start + 1);
            assert(longer.drop_last() =~= digits.take(i - start));
            assert(longer.last() == c);
        }
        value = value * 10 + digit;
        if value > cap {
            value = cap;
        }
        i += 1;
    }
    assert(digits.take(len - start) =~= digits);
    if value > max as u128 {
        None
    } else {
        Some(value as usize)
    }
}

/// The position that `text` names.
pub fn parse_position(text: &str) -> (r: Result<Position, InputError>)
    ensures
        r == position_of(text@),
{
    if text.unicode_len() < 2 {
        return Err(InputError::InvalidPosition);
    }
    let c = text.get_char(0);
    if !('a' <= c && c <= 'o') {
        return Err(InputError::InvalidPosition);
    }
    let col = (c as u32 - 'a' as u32) as usize;
    assert(col == (text@[0] as int - 'a' as int) as usize);
    match parse_number(text, 1, 15) {
        Some(n) => {
            if n >= 1 {
                Ok(Position { row: n - 1, col })
            } else {
                Err(InputError::InvalidPosition)
            }
        },
        None => Err(InputError::InvalidPosition),
    }
}

/// The position that a typed line names, upper or lower case.
pub fn read_position(line: &str) -> (r: Result<Position, InputError>)
    ensures
        r == match input_of(line@) {
            Ok(text) => position_of(lowercase(text)),
            Err(e) => Err::<Position, InputError>(e),
        },
{
    let input = read_input(line)?;
    let lowered = input.as_str().to_lowercase();
    parse_position(lowered.as_str())
}

/// The direction that `text` names.
pub fn parse_direction(text: &str) -> (r: Result<Direction, InputError>)
    ensures
        r == direction_of(text@),
{
    if text.unicode_len() != 1 {
        return Err(InputError::InvalidDirection);
    }
    let c = text.get_char(0);
    if c == 'h' {
        assert(text@ =~= seq!['h']);
        Ok(Direction::Across)
    } else if c == 'v' {
        assert(text@ =~= seq!['v']);
        Ok(Direction::Down)
    } else {
        assert(seq!['h'][0] == 'h' && seq!['v'][0] == 'v');
        Err(InputError::InvalidDirection)
    }
}

/// The direction that a typed line names, upper or lower case.
pub fn read_direction(line: &str) -> (r: Result<Direction, InputError>)
    ensures
        r == match input_of(line@) {
            Ok(text) => direction_of(lowercase(text)),
            Err(e) => Err::<Direction, InputError>(e),
        },
{
    let input = read_input(line)?;
    let lowered = input.as_str().to_lowercase();
    parse_direction(lowered.as_str())
}

/// One tile for each character of `text`, in order.
pub fn tiles_of(text: &str) -> (word: Word)
    ensures
        word@ == typed_tiles(text@),
{
    let len = text.unicode_len();
    let mut tiles: Vec<Tile> = Vec::new();
    let mut i: usize = 0;
    while i < len
        invariant
            i <= len,
            len == text@.len(),
            tiles@ == typed_tiles(text@.take(i as int)),
        decreases len - i,
    {
        let letter = text.get_char(i);
        tiles.push(Tile { letter, value: 0, is_blank: false });
        i += 1;
        assert(tiles@ =~= typed_tiles(text@.take(i as int)));
    }
    assert(text@.take(len as int) =~= text@);
    Word { tiles }
}

/// The word that `text` spells, one tile for each character. A text that is
/// empty or holds a character that is not alphabetic is an error.
pub fn parse_word(text: &str) -> (r: Result<Word, InputError>)
    ensures
        is_word_result(
            r,
            if is_word(text@) {
                Ok(typed_tiles(text@))
            } else {
                Err(InputError::InvalidFormat)
            },
        ),
{
    let len = text.unicode_len();
    if len == 0 {
        return Err(InputError::InvalidFormat);
    }
    let mut i: usize = 0;
    while i < len
        invariant
            i <= len,
            len == text@.len(),
            forall|j: int| 0 <= j < i ==> alphabetic(#[trigger] text@[j]),
        decreases len - i,
    {
        if !text.get_char(i).is_alphabetic() {
            return Err(InputError::InvalidFormat);
        }
        i += 1;
    }
    Ok(tiles_of(text))
}

/// The word that a typed line spells, in upper case.
pub fn read_word(line: &str) -> (r: Result<Word, InputError>)
    ensures
        is_word_result(
            r,
            match input_of(line@) {
                Ok(text) => if is_word(uppercase(text)) {
                    Ok(typed_tiles(uppercase(text)))
                } else {
                    Err(InputError::InvalidFormat)
                },
                Err(e) => Err(e),
            },
        ),
{
    let input = match read_input(line) {
        Ok(input) => input,
        Err(e) => {
            return Err(e);
        },
    };
    let raised = input.as_str().to_uppercase();
    parse_word(raised.as_str())
}

/// A position that is read names a cell of the grid.
pub proof fn law_position_on_grid(text: Seq<char>)
    ensures
        position_of(text) matches Ok(pos) ==> on_board(pos.row as int, pos.col as int),
{
}

/// A number in decimal is a run of digits that writes that number.
pub proof fn lemma_decimal_digits(n: nat)
    ensures
        decimal(n).len() >= 1,
        forall|i: int| 0 <= i < decimal(n).len() ==> is_digit(#[trigger] decimal(n)[i]),
        digits_value(decimal(n)) == n,
    decreases n,
{
    let glyphs = DECIMAL_DIGITS@;
    if n < 10 {
        assert(decimal(n) == seq![glyphs[n as int]]);
        assert(decimal(n).drop_last() =~= Seq::<char>::empty());
        assert(glyphs[n as int] as int - '0' as int == n);
        assert(digits_value(Seq::<char>::empty()) == 0);
        assert(decimal(n).last() == glyphs[n as int]);
    } else {
        lemma_decimal_digits(n / 10);
        let front = decimal(n / 10);
        let last = glyphs[(n % 10) as int];
        assert(decimal(n) == front.push(last));
        assert(decimal(n).drop_last() =~= front);
        assert(last as int - '0' as int == n % 10);
        assert(decimal(n).last() == last);
        assert(digits_value(decimal(n)) == 10 * digits_value(front) + (n % 10));
        assert forall|i: int| 0 <= i < decimal(n).len() implies is_digit(
            #[trigger] decimal(n)[i],
        ) by {
            if i < front.len() {
                assert(decimal(n)[i] == front[i]);
            }
        }
    }
}

/// What is written of a number in decimal is read as that number.
pub proof fn law_decimal_reads_back(n: nat)
    ensures
        number_of(decimal(n)) == Some(n as int),
{
    lemma_decimal_digits(n);
    assert(is_digit(decimal(n)[0]));
}

/// The name that a message gives a cell of the grid is read as the
/// position of that cell.
pub proof fn law_cell_name_reads_back(row: usize, col: usize)
    requires
        on_board(row as int, col as int),
    ensures
        position_of(cell_name(row, col)) == Ok::<Position, InputError>(Position { row, col }),
{
    let name = cell_name(row, col);
    law_decimal_reads_back((row + 1) as nat);
    lemma_decimal_digits((row + 1) as nat);
    assert(name.skip(1) =~= decimal((row + 1) as nat));
}

} // verus!
