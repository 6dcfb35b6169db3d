//! Conversions into types of this library and out of them.

use vstd::prelude::*;
use vstd::std_specs::convert::{FromSpecImpl, TryFromSpecImpl};
use crate::text::{decimal, write_decimal};

verus! {

/// A number made from an integer.
#[derive(Clone, Copy, Debug, PartialEq, Eq, Structural)]
pub struct Number {
    pub value: i32,
}

impl From<i32> for Number {
    fn from(item: i32) -> (number: Number) {
        Number { value: item }
    }
}

impl FromSpecImpl<i32> for Number {
    open spec fn obeys_from_spec() -> bool {
        true
    }

    open spec fn from_spec(item: i32) -> Number {
        Number { value: item }
    }
}

/// An integer known to be even.
#[derive(Clone, Copy, Debug, PartialEq, Eq, Structural)]
pub struct EvenNumber(pub i32);

impl TryFrom<i32> for EvenNumber {
    type Error = ();

    fn try_from(value: i32) -> (r: Result<EvenNumber, ()>) {
        if value % 2 == 0 {
            Ok(EvenNumber(value))
        } else {
            Err(())
        }
    }
}

impl TryFromSpecImpl<i32> for EvenNumber {
    open spec fn obeys_try_from_spec() -> bool {
        true
    }

    open spec fn try_from_spec(value: i32) -> Result<EvenNumber, ()> {
        if value % 2 == 0 {
            Ok(EvenNumber(value))
        } else {
            Err(())
        }
    }
}

/// A circle, known by its radius.
#[derive(Clone, Copy, Debug, PartialEq, Eq, Structural)]
pub struct Circle {
    pub radius: i32,
}

impl Circle {
    /// What the circle is called in text.
    pub open spec fn text(self) -> Seq<char> {
        "Circle of radius "@ + decimal(self.radius as int)
    }

    /// Writes the circle at the end of `out`: the words "Circle of radius"
    /// and the radius in decimal.
    pub fn fmt(&self, out: &mut String)
        ensures
            final(out)@ == old(out)@ + self.text(),
    {
        out.append("Circle of radius ");
        write_decimal(self.radius as i64, out);
        assert(out@ =~= old(out)@ + self.text());
    }

    /// The circle in text.
    pub fn to_string(&self) -> (text: String)
        ensures
            text@ == self.text(),
    {
        let mut text = String::new();
        self.fmt(&mut text);
        assert(text@ =~= self.text());
        text
    }
}

} // verus!
