//! Building blocks for text: numbers in decimal, runs of one character.

use vstd::prelude::*;

verus! {

/// `String::push`: appends the character to the end of the string.
pub assume_specification[ String::push ](text: &mut String, c: char)
    ensures
        final(text)@ == old(text)@.push(c),
;

/// The ten decimal digits.
pub const DECIMAL_DIGITS: [char; 10] = ['0', '1', '2', '3', '4', '5', '6', '7', '8', '9'];

/// `n` written in base ten with `glyphs[d]` for the digit `d`, without
/// leading zeros.
pub open spec fn numeral(n: nat, glyphs: Seq<char>) -> Seq<char>
    decreases n,
{
    if n < 10 {
        seq![glyphs[n as int]]
    } else {
        numeral(n / 10, glyphs).push(glyphs[(n % 10) as int])
    }
}

/// `n` in decimal, without leading zeros.
pub open spec fn decimal(n: nat) -> Seq<char> {
    numeral(n, DECIMAL_DIGITS@)
}

/// `n` times the character `c`.
pub open spec fn run_of(c: char, n: nat) -> Seq<char> {
    Seq::new(n, |i: int| c)
}

/// A numeral has one glyph for a number below ten and one more for each
/// further power of ten that the number reaches.
pub proof fn lemma_numeral_len(n: nat, glyphs: Seq<char>)
    ensures
        numeral(n, glyphs).len() >= 1,
        n < 10 ==> numeral(n, glyphs).len() == 1,
        10 <= n < 100 ==> numeral(n, glyphs).len() == 2,
        100 <= n < 1000 ==> numeral(n, glyphs).len() == 3,
{
    reveal_with_fuel(numeral, 3);
}

/// `n` written in base ten with `glyphs[d]` for the digit `d`.
pub fn numeral_string(n: u128, glyphs: &[char; 10]) -> (text: String)
    ensures
        text@ == numeral(n as nat, glyphs@),
{
    let mut digits: Vec<char> = Vec::new();
    let mut rest = n;
    while rest >= 10
        invariant
            numeral(n as nat, glyphs@) == numeral(rest as nat, glyphs@) + digits@.reverse(),
        decreases rest,
    {
        let d = glyphs[(rest % 10) as usize];
        proof {
            let before = digits@;
            let front = numeral((rest / 10) as nat, glyphs@);
            assert(numeral(rest as nat, glyphs@) == front.push(d));
            assert(front.push(d) + before.reverse() =~= front + before.push(d).reverse());
        }
        digits.push(d);
        rest = rest / 10;
    }
    let first = glyphs[rest as usize];
    assert(numeral(rest as nat, glyphs@) =~= seq![first]);
    let mut text = String::new();
    text.push(first);
    let mut i = digits.len();
    while i > 0
        invariant
            i <= digits@.len(),
            text@ == seq![first] + digits@.reverse().take(digits@.len() - i),
        decreases i,
    {
        i -= 1;
        text.push(digits[i]);
        assert(text@ =~= seq![first] + digits@.reverse().take(digits@.len() - i));
    }
    assert(digits@.reverse().take(digits@.len() as int) =~= digits@.reverse());
    text
}

/// `n` in decimal, without leading zeros.
pub fn decimal_string(n: u128) -> (text: String)
    ensures
        text@ == decimal(n as nat),
{
    numeral_string(n, &DECIMAL_DIGITS)
}

/// `n` times the character `c`.
pub fn repeated(c: char, n: usize) -> (text: String)
    ensures
        text@ == run_of(c, n as nat),
{
    let mut text = String::new();
    let mut i: usize = 0;
    while i < n
        invariant
            i <= n,
            text@ == run_of(c, i as nat),
        decreases n - i,
    {
        text.push(c);
        i += 1;
        assert(text@ =~= run_of(c, i as nat));
    }
    text
}

} // verus!
