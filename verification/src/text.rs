//! Integers written in decimal.

use vstd::prelude::*;

verus! {

/// The character of the decimal digit `d`.
pub open spec fn digit(d: nat) -> char {
    if d == 0 {
        '0'
    } else if d == 1 {
        '1'
    } else if d == 2 {
        '2'
    } else if d == 3 {
        '3'
    } else if d == 4 {
        '4'
    } else if d == 5 {
        '5'
    } else if d == 6 {
        '6'
    } else if d == 7 {
        '7'
    } else if d == 8 {
        '8'
    } else {
        '9'
    }
}

/// The decimal digits of `n`, the most significant first and no zero before
/// it.
pub open spec fn digits(n: nat) -> Seq<char>
    decreases n,
{
    if n < 10 {
        seq![digit(n)]
    } else {
        digits(n / 10).push(digit(n % 10))
    }
}

/// `n` written in decimal, with a minus sign before a negative number.
pub open spec fn decimal(n: int) -> Seq<char> {
    if n < 0 {
        seq!['-'] + digits((-n) as nat)
    } else {
        digits(n as nat)
    }
}

/// The text of the decimal digit `d`.
fn digit_text(d: u64) -> (text: &'static str)
    requires
        d < 10,
    ensures
        text@ == seq![digit(d as nat)],
{
    proof {
        reveal_strlit("0");
        reveal_strlit("1");
        reveal_strlit("2");
        reveal_strlit("3");
        reveal_strlit("4");
        reveal_strlit("5");
        reveal_strlit("6");
        reveal_strlit("7");
        reveal_strlit("8");
        reveal_strlit("9");
    }
    let text = if d == 0 {
        "0"
    } else if d == 1 {
        "1"
    } else if d == 2 {
        "2"
    } else if d == 3 {
        "3"
    } else if d == 4 {
        "4"
    } else if d == 5 {
        "5"
    } else if d == 6 {
        "6"
    } else if d == 7 {
        "7"
    } else if d == 8 {
        "8"
    } else {
        "9"
    };
    assert(text@ =~= seq![digit(d as nat)]);
    text
}

/// Writes the decimal digits of `n` at the end of `text`.
pub fn write_digits(n: u64, text: &mut String)
    ensures
        final(text)@ == old(text)@ + digits(n as nat),
    decreases n,
{
    if n >= 10 {
        write_digits(n / 10, text);
    }
    text.append(digit_text(n % 10));
    assert(text@ =~= old(text)@ + digits(n as nat));
}

/// Writes `n` in decimal at the end of `text`.
pub fn write_decimal(n: i64, text: &mut String)
    ensures
        final(text)@ == old(text)@ + decimal(n as int),
{
    if n < 0 {
        proof {
            reveal_strlit("-");
        }
        text.append("-");
        write_digits((-(n as i128)) as u64, text);
        assert(text@ =~= old(text)@ + decimal(n as int));
    } else {
        write_digits(n as u64, text);
    }
}

/// `n` written in decimal.
pub fn decimal_text(n: i64) -> (text: String)
    ensures
        text@ == decimal(n as int),
{
    let mut text = String::new();
    write_decimal(n, &mut text);
    assert(text@ =~= decimal(n as int));
    text
}

} // verus!
