//! Building shape patterns from their positions as written, rest placeholders
//! among them.

use vstd::prelude::*;
use crate::pattern::select::MatchError;
use crate::pattern::shape::{Pattern, Rest};

verus! {

/// One position of a shape as written.
#[derive(Debug, PartialEq, Eq)]
pub enum Slot {
    /// A pattern for the value at this position.
    Item(Pattern),
    /// A rest placeholder that binds nothing.
    Rest,
    /// A rest placeholder that binds a name.
    NamedRest(String),
}

/// The first position from `from` on that holds a rest placeholder, or the
/// length of the list where there is none.
pub open spec fn first_rest(slots: Seq<Slot>, from: int) -> int
    decreases slots.len() - from,
{
    if from < 0 || from >= slots.len() {
        slots.len() as int
    } else if !(slots[from] is Item) {
        from
    } else {
        first_rest(slots, from + 1)
    }
}

/// Whether no position from `from` up to `to` holds a rest placeholder.
pub open spec fn rest_free(slots: Seq<Slot>, from: int, to: int) -> bool {
    forall|i: int| from <= i < to ==> #[trigger] slots[i] is Item
}

/// The patterns at the positions from `from` up to `to`, in order; none
/// where `to` is not beyond `from`.
pub open spec fn items(slots: Seq<Slot>, from: int, to: int) -> Seq<Pattern> {
    Seq::new(
        (if to > from {
            to - from
        } else {
            0
        }) as nat,
        |i: int| slots[from + i]->Item_0,
    )
}

/// Whether the list holds at most one rest placeholder.
pub open spec fn single_rest(slots: Seq<Slot>) -> bool {
    rest_free(slots, first_rest(slots, 0) + 1, slots.len() as int)
}

/// What the rest placeholder of a well-formed list is.
pub open spec fn rest_of(slots: Seq<Slot>) -> Rest {
    let at = first_rest(slots, 0);
    if at >= slots.len() {
        Rest::Absent
    } else {
        match slots[at] {
            Slot::NamedRest(name) => Rest::Named(name),
            _ => Rest::Skipped,
        }
    }
}

/// The items of a list in the opposite order.
fn reversed<T>(list: Vec<T>) -> (r: Vec<T>)
    ensures
        r@.len() == list@.len(),
        forall|j: int| 0 <= j < r@.len() ==> r@[j] == list@[list@.len() - 1 - j],
{
    let mut from = list;
    let mut r: Vec<T> = Vec::new();
    while from.len() > 0
        invariant
            from@.len() + r@.len() == list@.len(),
            from@ == list@.subrange(0, from@.len() as int),
            forall|j: int| 0 <= j < r@.len() ==> r@[j] == list@[list@.len() - 1 - j],
        decreases from@.len(),
    {
        match from.pop() {
            Some(item) => {
                r.push(item);
            },
            None => {},
        }
    }
    r
}

/// The parts of a shape: the patterns before the rest placeholder, the
/// placeholder, and the patterns after it. `None` where the list holds more
/// than one placeholder.
fn split(slots: Vec<Slot>) -> (r: Option<(Vec<Pattern>, Rest, Vec<Pattern>)>)
    ensures
        r is Some == single_rest(slots@),
        r matches Some((before, rest, after)) ==> {
            &&& before@ == items(slots@, 0, first_rest(slots@, 0))
            &&& rest == rest_of(slots@)
            &&& after@ == items(slots@, first_rest(slots@, 0) + 1, slots@.len() as int)
        },
{
    let ghost all = slots@;
    let count: usize = slots.len();
    let mut stack = reversed(slots);
    let mut before: Vec<Pattern> = Vec::new();
    let mut after: Vec<Pattern> = Vec::new();
    let mut rest = Rest::Absent;
    let mut seen = false;
    let mut k: usize = 0;
    let ghost mut at: int = 0;
    while k < count
        invariant
            all == slots@,
            k <= count == all.len(),
            stack@.len() == count - k,
            forall|j: int| 0 <= j < stack@.len() ==> stack@[j] == all[count - 1 - j],
            !seen ==> {
                &&& rest_free(all, 0, k as int)
                &&& first_rest(all, 0) == first_rest(all, k as int)
                &&& before@ == items(all, 0, k as int)
                &&& after@.len() == 0
                &&& rest == Rest::Absent
            },
            seen ==> {
                &&& 0 <= at < k
                &&& first_rest(all, 0) == at
                &&& rest == rest_of(all)
                &&& before@ == items(all, 0, at)
                &&& rest_free(all, at + 1, k as int)
                &&& after@ == items(all, at + 1, k as int)
            },
        decreases count - k,
    {
        let slot = match stack.pop() {
            Some(slot) => slot,
            None => {
                return None;
            },
        };
        assert(slot == all[k as int]);
        match slot {
            Slot::Item(pattern) => {
                if seen {
                    after.push(pattern);
                    assert(after@ =~= items(all, at + 1, k + 1));
                } else {
                    before.push(pattern);
                    assert(before@ =~= items(all, 0, k + 1));
                }
            },
            Slot::Rest => {
                if seen {
                    assert(!(all[k as int] is Item));
                    return None;
                }
                seen = true;
                rest = Rest::Skipped;
                proof {
                    at = k as int;
                }
                assert(after@ =~= items(all, at + 1, k + 1));
            },
            Slot::NamedRest(name) => {
                if seen {
                    assert(!(all[k as int] is Item));
                    return None;
                }
                seen = true;
                rest = Rest::Named(name);
                proof {
                    at = k as int;
                }
                assert(after@ =~= items(all, at + 1, k + 1));
            },
        }
        k += 1;
    }
    assert(!seen ==> after@ =~= items(all, first_rest(all, 0) + 1, all.len() as int));
    Some((before, rest, after))
}

impl Pattern {
    /// The sequence shape with the positions `slots`. A list with more than
    /// one rest placeholder is malformed.
    pub fn sequence(slots: Vec<Slot>) -> (r: Result<Pattern, MatchError>)
        ensures
            match r {
                Ok(pattern) => {
                    &&& single_rest(slots@)
                    &&& pattern matches Pattern::Sequence { before, rest, after }
                    &&& before@ == items(slots@, 0, first_rest(slots@, 0))
                    &&& rest == rest_of(slots@)
                    &&& after@ == items(slots@, first_rest(slots@, 0) + 1, slots@.len() as int)
                },
                Err(e) => e == MatchError::MalformedPattern && !single_rest(slots@),
            },
    {
        match split(slots) {
            Some((before, rest, after)) => Ok(Pattern::Sequence { before, rest, after }),
            None => Err(MatchError::MalformedPattern),
        }
    }

    /// The tuple shape with the positions `slots`. A list with more than one
    /// rest placeholder is malformed, and so is one whose placeholder binds a
    /// name: the positions it stands for are no value of their own.
    pub fn tuple(slots: Vec<Slot>) -> (r: Result<Pattern, MatchError>)
        ensures
            match r {
                Ok(pattern) => {
                    &&& single_rest(slots@)
                    &&& !(rest_of(slots@) is Named)
                    &&& pattern matches Pattern::Tuple { before, rest, after }
                    &&& before@ == items(slots@, 0, first_rest(slots@, 0))
                    &&& rest == (rest_of(slots@) is Skipped)
                    &&& after@ == items(slots@, first_rest(slots@, 0) + 1, slots@.len() as int)
                },
                Err(e) => e == MatchError::MalformedPattern && !(single_rest(slots@) && !(rest_of(
                    slots@,
                ) is Named)),
            },
    {
        match split(slots) {
            Some((before, Rest::Absent, after)) => Ok(
                Pattern::Tuple { before, rest: false, after },
            ),
            Some((before, Rest::Skipped, after)) => Ok(
                Pattern::Tuple { before, rest: true, after },
            ),
            _ => Err(MatchError::MalformedPattern),
        }
    }
}

} // verus!
