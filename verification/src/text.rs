//! Text building: numbers in decimal and hexadecimal, and padding to a
//! column width counted in characters.

use vstd::prelude::*;
use vstd::string::{StrSliceExecFns, StringExecFns};

verus! {

/// The character of the digit `d` in bases up to sixteen, lower case.
pub open spec fn digit_char(d: int) -> char {
    if d == 0 {
        '0'
    } else if d == 1 {
        '1'
    } else if d == 2 {
        '2'
    } else if d == 3 {
        '3'
    } else if d == 4 {
        '4'
    } else if d == 5 {
        '5'
    } else if d == 6 {
        '6'
    } else if d == 7 {
        '7'
    } else if d == 8 {
        '8'
    } else if d == 9 {
        '9'
    } else if d == 10 {
        'a'
    } else if d == 11 {
        'b'
    } else if d == 12 {
        'c'
    } else if d == 13 {
        'd'
    } else if d == 14 {
        'e'
    } else {
        'f'
    }
}

/// `n` in decimal, most significant digit first, without leading zeros;
/// the single digit `0` for zero.
pub open spec fn decimal(n: nat) -> Seq<char>
    decreases n,
{
    if n < 10 {
        seq![digit_char(n as int)]
    } else {
        decimal(n / 10).push(digit_char((n % 10) as int))
    }
}

/// `n` in lower-case hexadecimal, most significant digit first, without
/// leading zeros; the single digit `0` for zero.
pub open spec fn hexadecimal(n: nat) -> Seq<char>
    decreases n,
{
    if n < 16 {
        seq![digit_char(n as int)]
    } else {
        hexadecimal(n / 16).push(digit_char((n % 16) as int))
    }
}

/// `n` in decimal, with a minus sign when negative.
pub open spec fn signed_decimal(n: int) -> Seq<char> {
    if n < 0 {
        seq!['-'] + decimal((-n) as nat)
    } else {
        decimal(n as nat)
    }
}

/// `count` copies of `fill`.
pub open spec fn run_of(fill: char, count: int) -> Seq<char> {
    Seq::new(
        if count > 0 {
            count as nat
        } else {
            0
        },
        |i: int| fill,
    )
}

/// `text` moved to the right edge of a column of `width` characters; longer
/// text is kept whole.
pub open spec fn right_aligned(text: Seq<char>, width: int) -> Seq<char> {
    run_of(' ', width - text.len()) + text
}

/// `text` at the left edge of a column of `width` characters; longer text is
/// kept whole.
pub open spec fn left_aligned(text: Seq<char>, width: int) -> Seq<char> {
    text + run_of(' ', width - text.len())
}

/// `text` filled with zeros in front up to `width` characters.
pub open spec fn zero_filled(text: Seq<char>, width: int) -> Seq<char> {
    run_of('0', width - text.len()) + text
}

/// The one-character text of the digit `d`.
pub fn digit_text(d: u8) -> (text: &'static str)
    requires
        d < 16,
    ensures
        text@ == seq![digit_char(d as int)],
{
    proof {
        reveal_strlit("0123456789abcdef");
    }
    let all: &'static str = "0123456789abcdef";
    let text = all.substring_char(d as usize, d as usize + 1);
    assert(text@ =~= seq![digit_char(d as int)]);
    text
}

/// Appends `n` in decimal.
pub fn push_decimal(out: &mut String, n: u128)
    ensures
        final(out)@ == old(out)@ + decimal(n as nat),
    decreases n,
{
    if n < 10 {
        out.append(digit_text(n as u8));
    } else {
        push_decimal(out, n / 10);
        out.append(digit_text((n % 10) as u8));
        assert(out@ =~= old(out)@ + decimal(n as nat));
    }
}

/// Appends `n` in lower-case hexadecimal.
pub fn push_hexadecimal(out: &mut String, n: u128)
    ensures
        final(out)@ == old(out)@ + hexadecimal(n as nat),
    decreases n,
{
    if n < 16 {
        out.append(digit_text(n as u8));
    } else {
        push_hexadecimal(out, n / 16);
        out.append(digit_text((n % 16) as u8));
        assert(out@ =~= old(out)@ + hexadecimal(n as nat));
    }
}

/// Appends `count` copies of the one-character text `fill`.
pub fn push_run(out: &mut String, fill: &str, count: usize)
    requires
        fill@.len() == 1,
    ensures
        final(out)@ == old(out)@ + run_of(fill@[0], count as int),
{
    let mut i: usize = 0;
    while i < count
        invariant
            i <= count,
            fill@.len() == 1,
            out@ == old(out)@ + run_of(fill@[0], i as int),
        decreases count - i,
    {
        out.append(fill);
        i += 1;
        assert(out@ =~= old(out)@ + run_of(fill@[0], i as int));
    }
    assert(out@ =~= old(out)@ + run_of(fill@[0], count as int));
}

/// The number of characters that `text` lacks to fill `width`.
pub fn missing(text: &str, width: usize) -> (count: usize)
    ensures
        count as int == if width as int > text@.len() {
            width as int - text@.len()
        } else {
            0
        },
{
    let len = text.unicode_len();
    if width > len {
        width - len
    } else {
        0
    }
}

/// Appends `text` right-aligned in a column of `width` characters.
pub fn push_right_aligned(out: &mut String, text: &str, width: usize)
    ensures
        final(out)@ == old(out)@ + right_aligned(text@, width as int),
{
    proof {
        reveal_strlit(" ");
    }
    push_run(out, " ", missing(text, width));
    out.append(text);
    assert(out@ =~= old(out)@ + right_aligned(text@, width as int));
}

/// Appends `text` left-aligned in a column of `width` characters.
pub fn push_left_aligned(out: &mut String, text: &str, width: usize)
    ensures
        final(out)@ == old(out)@ + left_aligned(text@, width as int),
{
    proof {
        reveal_strlit(" ");
    }
    out.append(text);
    push_run(out, " ", missing(text, width));
    assert(out@ =~= old(out)@ + left_aligned(text@, width as int));
}

/// Appends `text` filled with zeros in front up to `width` characters.
pub fn push_zero_filled(out: &mut String, text: &str, width: usize)
    ensures
        final(out)@ == old(out)@ + zero_filled(text@, width as int),
{
    proof {
        reveal_strlit("0");
    }
    push_run(out, "0", missing(text, width));
    out.append(text);
    assert(out@ =~= old(out)@ + zero_filled(text@, width as int));
}

/// `n` in decimal.
pub fn decimal_text(n: u128) -> (text: String)
    ensures
        text@ == decimal(n as nat),
{
    let mut out = String::new();
    push_decimal(&mut out, n);
    assert(out@ =~= decimal(n as nat));
    out
}

/// `n` in decimal, with a minus sign when negative.
pub fn signed_decimal_text(n: i64) -> (text: String)
    ensures
        text@ == signed_decimal(n as int),
{
    let mut out = String::new();
    if n < 0 {
        proof {
            reveal_strlit("-");
        }
        out.append("-");
        let magnitude: u128 = (-(n as i128)) as u128;
        push_decimal(&mut out, magnitude);
        assert(out@ =~= signed_decimal(n as int));
    } else {
        push_decimal(&mut out, n as u128);
        assert(out@ =~= signed_decimal(n as int));
    }
    out
}

/// `n` in lower-case hexadecimal.
pub fn hexadecimal_text(n: u128) -> (text: String)
    ensures
        text@ == hexadecimal(n as nat),
{
    let mut out = String::new();
    push_hexadecimal(&mut out, n);
    assert(out@ =~= hexadecimal(n as nat));
    out
}

} // verus!
