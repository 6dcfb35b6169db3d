//! Guards: conditions on the names that a pattern has bound.

use vstd::prelude::*;
use crate::pattern::bindings::{BindingModel, Bindings, Bound, BoundModel, lookup};
use crate::pattern::value::{PatternValue, ValueModel, referent};

verus! {

/// An integer a guard computes with: a literal, or the integer bound to a name.
#[derive(Debug, PartialEq, Eq)]
pub enum Operand {
    Name(String),
    Literal(i64),
}

/// One side of a comparison.
#[derive(Debug, PartialEq, Eq)]
pub enum Term {
    Plain(Operand),
    Sum(Operand, Operand),
    Difference(Operand, Operand),
    /// The remainder of a division that truncates toward zero: it has the sign
    /// of the dividend.
    Remainder(Operand, Operand),
}

/// How the two sides of a guard are compared.
#[derive(Clone, Copy, Debug, PartialEq, Eq, Structural)]
pub enum Relation {
    Equal,
    NotEqual,
    Less,
    LessOrEqual,
    Greater,
    GreaterOrEqual,
}

/// A condition over the bindings of a pattern: two terms and a relation.
#[derive(Debug, PartialEq, Eq)]
pub struct Guard {
    pub left: Term,
    pub relation: Relation,
    pub right: Term,
}

/// The integer an operand stands for: the literal, or the integer that the
/// name is bound to by value. A name that is unbound, or bound to a place or
/// to anything but an integer, stands for none.
pub open spec fn operand_value(operand: Operand, bindings: Seq<BindingModel>) -> Option<int> {
    match operand {
        Operand::Literal(n) => Some(n as int),
        Operand::Name(name) => match lookup(bindings, name@) {
            Some(BoundModel::Value(v)) => match referent(v) {
                ValueModel::Int(n) => Some(n),
                _ => None,
            },
            _ => None,
        },
    }
}

/// The remainder of `a` divided by `b` when the quotient is truncated toward
/// zero.
pub open spec fn truncated_remainder(a: int, b: int) -> int {
    let divisor = if b < 0 {
        -b
    } else {
        b
    };
    if a >= 0 {
        a % divisor
    } else {
        -((-a) % divisor)
    }
}

/// The integer a term stands for, if each operand stands for one and no
/// division is by zero.
pub open spec fn term_value(term: Term, bindings: Seq<BindingModel>) -> Option<int> {
    match term {
        Term::Plain(a) => operand_value(a, bindings),
        Term::Sum(a, b) => match (operand_value(a, bindings), operand_value(b, bindings)) {
            (Some(x), Some(y)) => Some(x + y),
            _ => None,
        },
        Term::Difference(a, b) => match (operand_value(a, bindings), operand_value(b, bindings)) {
            (Some(x), Some(y)) => Some(x - y),
            _ => None,
        },
        Term::Remainder(a, b) => match (operand_value(a, bindings), operand_value(b, bindings)) {
            (Some(x), Some(y)) => if y != 0 {
                Some(truncated_remainder(x, y))
            } else {
                None
            },
            _ => None,
        },
    }
}

/// Whether `left` stands in `relation` to `right`.
pub open spec fn related(relation: Relation, left: int, right: int) -> bool {
    match relation {
        Relation::Equal => left == right,
        Relation::NotEqual => left != right,
        Relation::Less => left < right,
        Relation::LessOrEqual => left <= right,
        Relation::Greater => left > right,
        Relation::GreaterOrEqual => left >= right,
    }
}

/// Whether a guard holds under `bindings`: both sides stand for an integer
/// and the relation holds between them.
pub open spec fn guard_holds(guard: Guard, bindings: Seq<BindingModel>) -> bool {
    match (term_value(guard.left, bindings), term_value(guard.right, bindings)) {
        (Some(l), Some(r)) => related(guard.relation, l, r),
        _ => false,
    }
}

/// The absolute value of `n`.
fn magnitude(n: i64) -> (m: u64)
    ensures
        m == if n < 0 {
            -n
        } else {
            n as int
        },
{
    if n >= 0 {
        n as u64
    } else {
        (-(n as i128)) as u64
    }
}

impl Operand {
    /// The integer the operand stands for under `bindings`.
    pub fn value(&self, bindings: &Bindings) -> (r: Option<i64>)
        ensures
            r is Some == operand_value(*self, bindings@) is Some,
            r matches Some(n) ==> operand_value(*self, bindings@) == Some(n as int),
    {
        match self {
            Operand::Literal(n) => Some(*n),
            Operand::Name(name) => match bindings.get(name.as_str()) {
                Some(Bound::Value(v)) => match v.referent() {
                    PatternValue::Int(n) => Some(*n),
                    _ => None,
                },
                _ => None,
            },
        }
    }
}

impl Term {
    /// The integer the term stands for under `bindings`.
    pub fn value(&self, bindings: &Bindings) -> (r: Option<i128>)
        ensures
            r is Some == term_value(*self, bindings@) is Some,
            r matches Some(n) ==> term_value(*self, bindings@) == Some(n as int),
    {
        match self {
            Term::Plain(a) => match a.value(bindings) {
                Some(x) => Some(x as i128),
                None => None,
            },
            Term::Sum(a, b) => match (a.value(bindings), b.value(bindings)) {
                (Some(x), Some(y)) => Some(x as i128 + y as i128),
                _ => None,
            },
            Term::Difference(a, b) => match (a.value(bindings), b.value(bindings)) {
                (Some(x), Some(y)) => Some(x as i128 - y as i128),
                _ => None,
            },
            Term::Remainder(a, b) => match (a.value(bindings), b.value(bindings)) {
                (Some(x), Some(y)) => if y != 0 {
                    let dividend: u64 = magnitude(x);
                    let divisor: u64 = magnitude(y);
                    let rest: u64 = dividend % divisor;
                    if x >= 0 {
                        Some(rest as i128)
                    } else {
                        Some(-(rest as i128))
                    }
                } else {
                    None
                },
                _ => None,
            },
        }
    }
}

impl Relation {
    /// Whether `left` stands in this relation to `right`.
    pub fn holds(self, left: i128, right: i128) -> (r: bool)
        ensures
            r == related(self, left as int, right as int),
    {
        match self {
            Relation::Equal => left == right,
            Relation::NotEqual => left != right,
            Relation::Less => left < right,
            Relation::LessOrEqual => left <= right,
            Relation::Greater => left > right,
            Relation::GreaterOrEqual => left >= right,
        }
    }
}

impl Guard {
    /// Whether the guard holds under `bindings`.
    pub fn holds(&self, bindings: &Bindings) -> (r: bool)
        ensures
            r == guard_holds(*self, bindings@),
    {
        match (self.left.value(bindings), self.right.value(bindings)) {
            (Some(l), Some(r)) => self.relation.holds(l, r),
            _ => false,
        }
    }
}

} // verus!
