//! Classifying numbers for the counting game.

use vstd::prelude::*;
use crate::text::{decimal, decimal_text};

verus! {

/// What is said for a number in the counting game.
#[derive(Clone, Copy, Debug, PartialEq, Eq, Structural)]
pub enum FizzBuzz {
    /// The number is a multiple of fifteen.
    FizzBuzz,
    /// The number is a multiple of three and not of five.
    Fizz,
    /// The number is a multiple of five and not of three.
    Buzz,
    /// The number is a multiple of neither.
    Number(i32),
}

/// Whether `n` is a multiple of `d`, which is above zero: its distance from
/// zero is.
pub open spec fn is_multiple(n: int, d: int) -> bool {
    (if n < 0 {
        -n
    } else {
        n
    }) % d == 0
}

/// What is said for `n`.
pub open spec fn fizz_buzz_spec(n: int) -> FizzBuzz {
    if is_multiple(n, 15) {
        FizzBuzz::FizzBuzz
    } else if is_multiple(n, 3) {
        FizzBuzz::Fizz
    } else if is_multiple(n, 5) {
        FizzBuzz::Buzz
    } else {
        FizzBuzz::Number(n as i32)
    }
}

/// What is said for `n`.
pub fn fizz_buzz(n: i32) -> (said: FizzBuzz)
    ensures
        said == fizz_buzz_spec(n as int),
{
    let distance: u32 = if n < 0 {
        (-(n as i64)) as u32
    } else {
        n as u32
    };
    if distance % 15 == 0 {
        FizzBuzz::FizzBuzz
    } else if distance % 3 == 0 {
        FizzBuzz::Fizz
    } else if distance % 5 == 0 {
        FizzBuzz::Buzz
    } else {
        FizzBuzz::Number(n)
    }
}

impl FizzBuzz {
    /// What is said, in text.
    pub open spec fn text(self) -> Seq<char> {
        match self {
            FizzBuzz::FizzBuzz => "fizzbuzz"@,
            FizzBuzz::Fizz => "fizz"@,
            FizzBuzz::Buzz => "buzz"@,
            FizzBuzz::Number(n) => decimal(n as int),
        }
    }

    /// What is said, in text: a word, or the number in decimal.
    pub fn to_string(&self) -> (text: String)
        ensures
            text@ == self.text(),
    {
        match self {
            FizzBuzz::FizzBuzz => String::from_str("fizzbuzz"),
            FizzBuzz::Fizz => String::from_str("fizz"),
            FizzBuzz::Buzz => String::from_str("buzz"),
            FizzBuzz::Number(n) => decimal_text(*n as i64),
        }
    }
}

} // verus!
