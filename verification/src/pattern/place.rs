//! Places in a value: the value reached from it by a list of positions.

use vstd::prelude::*;
use crate::pattern::bindings::positions;
use crate::pattern::value::{FieldModel, PatternValue, ValueModel, field_models, models};

verus! {

/// The value at position `i` of `v`: an item of a tuple or a sequence, the
/// value of a variant's field, or at position 0 what a reference refers to.
pub open spec fn child(v: ValueModel, i: int) -> Option<ValueModel> {
    match v {
        ValueModel::Tuple(items) => if 0 <= i < items.len() {
            Some(items[i])
        } else {
            None
        },
        ValueModel::Sequence(items) => if 0 <= i < items.len() {
            Some(items[i])
        } else {
            None
        },
        ValueModel::Variant { fields, .. } => if 0 <= i < fields.len() {
            Some(fields[i].value)
        } else {
            None
        },
        ValueModel::Reference(inner) => if i == 0 {
            Some(*inner)
        } else {
            None
        },
        _ => None,
    }
}

/// The value that the positions of `path` lead to from `v`, outermost first;
/// `None` where a position is not there.
pub open spec fn value_at(v: ValueModel, path: Seq<int>) -> Option<ValueModel>
    decreases path.len(),
{
    if path.len() == 0 {
        Some(v)
    } else {
        match child(v, path[0]) {
            Some(inner) => value_at(inner, path.drop_first()),
            None => None,
        }
    }
}

/// `v` with `inner` at position `i`, which `v` has.
pub open spec fn with_child(v: ValueModel, i: int, inner: ValueModel) -> ValueModel {
    match v {
        ValueModel::Tuple(items) => ValueModel::Tuple(items.update(i, inner)),
        ValueModel::Sequence(items) => ValueModel::Sequence(items.update(i, inner)),
        ValueModel::Variant { tag, fields } => ValueModel::Variant {
            tag,
            fields: fields.update(i, FieldModel { name: fields[i].name, value: inner }),
        },
        ValueModel::Reference(_) => ValueModel::Reference(Box::new(inner)),
        _ => v,
    }
}

/// `v` with `new` at the place that `path` leads to; `v` itself where the
/// path leads nowhere.
pub open spec fn with_value_at(v: ValueModel, path: Seq<int>, new: ValueModel) -> ValueModel
    decreases path.len(),
{
    if path.len() == 0 {
        new
    } else {
        match child(v, path[0]) {
            Some(inner) => with_child(
                v,
                path[0],
                with_value_at(inner, path.drop_first(), new),
            ),
            None => v,
        }
    }
}

impl PatternValue {
    /// The value at position `i`, if there is one.
    pub fn item(&self, i: usize) -> (r: Option<&PatternValue>)
        ensures
            match r {
                Some(inner) => child(self@, i as int) == Some(inner@),
                None => child(self@, i as int) is None,
            },
    {
        match self {
            PatternValue::Tuple(items) => if i < items.len() {
                assert(models(items@)[i as int] == items@[i as int]@);
                Some(&items[i])
            } else {
                assert(models(items@).len() == items@.len());
                None
            },
            PatternValue::Sequence(items) => if i < items.len() {
                assert(models(items@)[i as int] == items@[i as int]@);
                Some(&items[i])
            } else {
                assert(models(items@).len() == items@.len());
                None
            },
            PatternValue::Variant { fields, .. } => if i < fields.len() {
                assert(field_models(fields@)[i as int].value == fields@[i as int].value@);
                Some(&fields[i].value)
            } else {
                assert(field_models(fields@).len() == fields@.len());
                None
            },
            PatternValue::Reference(inner) => if i == 0 {
                Some(&**inner)
            } else {
                None
            },
            _ => None,
        }
    }

    /// The value that the positions of `path` lead to, if they lead to one.
    pub fn at(&self, path: &Vec<usize>) -> (r: Option<&PatternValue>)
        ensures
            match r {
                Some(found) => value_at(self@, positions(path@)) == Some(found@),
                None => value_at(self@, positions(path@)) is None,
            },
    {
        let mut current: &PatternValue = self;
        let mut k: usize = 0;
        let ghost all = positions(path@);
        assert(all.subrange(0, all.len() as int) =~= all);
        while k < path.len()
            invariant
                k <= path@.len(),
                all == positions(path@),
                value_at(self@, all) == value_at(
                    current@,
                    all.subrange(k as int, all.len() as int),
                ),
            decreases path@.len() - k,
        {
            assert(all.subrange(k as int, all.len() as int).drop_first() =~= all.subrange(
                k + 1,
                all.len() as int,
            ));
            match current.item(path[k]) {
                Some(inner) => {
                    current = inner;
                },
                None => {
                    return None;
                },
            }
            k += 1;
        }
        Some(current)
    }
}

impl PatternValue {
    /// Puts `new` at the place that `path` leads to. Where the path leads
    /// nowhere the value is left as it was and `false` is returned.
    pub fn put(&mut self, path: &Vec<usize>, new: PatternValue) -> (done: bool)
        ensures
            done == value_at(old(self)@, positions(path@)) is Some,
            final(self)@ == if done {
                with_value_at(old(self)@, positions(path@), new@)
            } else {
                old(self)@
            },
    {
        assert(positions(path@).subrange(0, path@.len() as int) =~= positions(path@));
        self.put_from(path, 0, new)
    }

    /// Puts `new` at the place that the positions of `path` from the
    /// `from`-th on lead to.
    fn put_from(&mut self, path: &Vec<usize>, from: usize, new: PatternValue) -> (done: bool)
        requires
            from <= path@.len(),
        ensures
            done == value_at(
                old(self)@,
                positions(path@).subrange(from as int, path@.len() as int),
            ) is Some,
            final(self)@ == if done {
                with_value_at(
                    old(self)@,
                    positions(path@).subrange(from as int, path@.len() as int),
                    new@,
                )
            } else {
                old(self)@
            },
        decreases path@.len() - from,
    {
        if from == path.len() {
            *self = new;
            return true;
        }
        let i: usize = path[from];
        let ghost rest = positions(path@).subrange(from + 1, path@.len() as int);
        assert(positions(path@).subrange(from as int, path@.len() as int).drop_first() =~= rest);
        match self {
            PatternValue::Tuple(items) => {
                assert(models(items@).len() == items@.len());
                if i >= items.len() {
                    return false;
                }
                let ghost before = items@;
                assert(models(before)[i as int] == before[i as int]@);
                let mut inner = items.remove(i);
                let done = inner.put_from(path, from + 1, new);
                items.insert(i, inner);
                assert(models(items@) =~= models(before).update(i as int, inner@));
                assert(!done ==> models(items@) =~= models(before));
                done
            },
            PatternValue::Sequence(items) => {
                assert(models(items@).len() == items@.len());
                if i >= items.len() {
                    return false;
                }
                let ghost before = items@;
                assert(models(before)[i as int] == before[i as int]@);
                let mut inner = items.remove(i);
                let done = inner.put_from(path, from + 1, new);
                items.insert(i, inner);
                assert(models(items@) =~= models(before).update(i as int, inner@));
                assert(!done ==> models(items@) =~= models(before));
                done
            },
            PatternValue::Variant { fields, .. } => {
                assert(field_models(fields@).len() == fields@.len());
                if i >= fields.len() {
                    return false;
                }
                let ghost before = fields@;
                assert(field_models(before)[i as int] == before[i as int]@);
                let mut field = fields.remove(i);
                let done = field.value.put_from(path, from + 1, new);
                fields.insert(i, field);
                assert(field_models(fields@) =~= field_models(before).update(i as int, field@));
                assert(!done ==> field_models(fields@) =~= field_models(before));
                done
            },
            PatternValue::Reference(inner) => {
                if i != 0 {
                    return false;
                }
                inner.put_from(path, from + 1, new)
            },
            _ => false,
        }
    }
}

/// A place holds what was put there: after `new` has been put at a place of
/// `v`, the path to the place leads to `new`.
pub proof fn law_place_holds_what_was_put(v: ValueModel, path: Seq<int>, new: ValueModel)
    requires
        value_at(v, path) is Some,
    ensures
        value_at(with_value_at(v, path, new), path) == Some(new),
    decreases path.len(),
{
    if path.len() > 0 {
        let inner = child(v, path[0])->Some_0;
        let changed = with_value_at(inner, path.drop_first(), new);
        law_place_holds_what_was_put(inner, path.drop_first(), new);
        assert(child(with_child(v, path[0], changed), path[0]) == Some(changed));
    }
}

/// Putting a value at a place leaves the value at every other position of
/// the way there as it was: a position that is not the first of the path
/// holds after the change what it held before.
pub proof fn law_put_leaves_other_positions(
    v: ValueModel,
    path: Seq<int>,
    new: ValueModel,
    other: int,
)
    requires
        path.len() > 0,
        other != path[0],
    ensures
        child(with_value_at(v, path, new), other) == child(v, other),
{
}

} // verus!
