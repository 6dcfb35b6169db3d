//! The forms a pattern can take, and what it means for a value to match one.

use vstd::prelude::*;
use crate::pattern::bindings::{BindingModel, BoundModel};
use crate::pattern::guard::{Guard, guard_holds};
use crate::pattern::value::{FieldModel, PatternValue, ValueModel, referent};

verus! {

/// An inclusive range of integers.
#[derive(Clone, Copy, Debug, PartialEq, Eq, Structural)]
pub struct Bounds {
    pub low: i64,
    pub high: i64,
}

/// One alternative of an or-pattern.
#[derive(Debug, PartialEq, Eq)]
pub enum Alternative {
    Literal(PatternValue),
    Range(Bounds),
}

/// The rest placeholder of a sequence shape.
#[derive(Debug, PartialEq, Eq)]
pub enum Rest {
    /// The shape has no placeholder: it names every position.
    Absent,
    /// The placeholder stands for the positions not named and binds nothing.
    Skipped,
    /// The placeholder binds the name to the positions not named.
    Named(String),
}

/// The pattern for one field of a variant, found by the field's name.
#[derive(Debug, PartialEq, Eq)]
pub struct FieldPattern {
    pub name: String,
    pub pattern: Pattern,
}

/// A pattern.
///
/// A reference is looked through: a form that tests the shape or the content
/// of a value tests what the value refers to in the end. A binding records the
/// value as it stands.
#[allow(inconsistent_fields)]
#[derive(Debug, PartialEq, Eq)]
pub enum Pattern {
    /// Matches the value equal to the literal: what the value refers to in
    /// the end is what the literal refers to in the end.
    Literal(PatternValue),
    /// Matches an integer within the bounds.
    Range(Bounds),
    /// Matches every value and binds nothing.
    Wildcard,
    /// Binds the name to the value, if the value matches `inner` and lies
    /// within `range`, as far as they are given.
    Binding { name: String, inner: Option<Box<Pattern>>, range: Option<Bounds> },
    /// Matches every value and binds the name to the value's place.
    Alias { name: String },
    /// Matches a tuple: `before` against its first positions and `after`
    /// against its last. With `rest` the tuple may have positions between
    /// them, without it has none.
    Tuple { before: Vec<Pattern>, rest: bool, after: Vec<Pattern> },
    /// Matches a sequence in the same way; a named rest binds the positions
    /// between, in their order, as a sequence.
    Sequence { before: Vec<Pattern>, rest: Rest, after: Vec<Pattern> },
    /// Matches a variant with this tag and as many fields as there are
    /// patterns, field by field in order.
    Variant { tag: String, fields: Vec<Pattern> },
    /// Matches a variant with this tag that has a field for each name, each
    /// field against its pattern. Fields not named are ignored.
    Record { tag: String, fields: Vec<FieldPattern> },
    /// Matches a value that matches one of the alternatives.
    Or(Vec<Alternative>),
    /// Matches what `inner` matches under bindings for which the guard holds.
    Guarded { inner: Box<Pattern>, guard: Guard },
}

impl Bounds {
    /// Whether `v` is an integer within the bounds.
    pub open spec fn holds(self, v: ValueModel) -> bool {
        v matches ValueModel::Int(n) && self.low <= n <= self.high
    }
}

/// Whether `target`, which is no reference, matches the alternative.
pub open spec fn alternative_matches(target: ValueModel, alternative: Alternative) -> bool {
    match alternative {
        Alternative::Literal(literal) => target == referent(literal@),
        Alternative::Range(bounds) => bounds.holds(target),
    }
}

/// The positions that lead to what `v` refers to in the end, where `path`
/// leads to `v`: a reference holds its target at position 0.
pub open spec fn referent_path(v: ValueModel, path: Seq<int>) -> Seq<int>
    decreases v,
{
    match v {
        ValueModel::Reference(inner) => referent_path(*inner, path.push(0)),
        _ => path,
    }
}

/// Whether a shape that names `before` first and `after` last positions fits
/// `n` positions.
pub open spec fn shape_fits(n: nat, before: nat, rest: bool, after: nat) -> bool {
    if rest {
        n >= before + after
    } else {
        n == before + after
    }
}

/// Both lists of bindings one after the other, if there are both.
pub open spec fn joined(
    first: Option<Seq<BindingModel>>,
    second: Option<Seq<BindingModel>>,
) -> Option<Seq<BindingModel>> {
    match (first, second) {
        (Some(a), Some(b)) => Some(a + b),
        _ => None,
    }
}

/// The values of a variant's fields, in order.
pub open spec fn field_values(fields: Seq<FieldModel>) -> Seq<ValueModel> {
    Seq::new(fields.len(), |i: int| fields[i].value)
}

/// The first position from `from` on at which `fields` has a field called
/// `name`.
pub open spec fn field_position(fields: Seq<FieldModel>, name: Seq<char>, from: int) -> Option<int>
    decreases fields.len() - from,
{
    if from < 0 || from >= fields.len() {
        None
    } else if fields[from].name == name {
        Some(from)
    } else {
        field_position(fields, name, from + 1)
    }
}

/// The bindings that matching `v` against `p` makes, or `None` where `v` does
/// not match. `path` holds the positions that lead to `v` from the value the
/// match began with.
///
/// Bindings come in the order of the pattern's text: a binding's own name
/// before those of its inner pattern, the positions of a shape from first to
/// last with a named rest between them.
pub open spec fn unify(v: ValueModel, p: Pattern, path: Seq<int>) -> Option<Seq<BindingModel>>
    decreases p, 0nat,
{
    let target = referent(v);
    let at = referent_path(v, path);
    match p {
        Pattern::Wildcard => Some(Seq::empty()),
        Pattern::Binding { name, inner, range } => {
            let own = seq![BindingModel { name: name@, bound: BoundModel::Value(v) }];
            let within = match range {
                Some(bounds) => bounds.holds(target),
                None => true,
            };
            let rest = match inner {
                Some(q) => unify(v, *q, path),
                None => Some(Seq::empty()),
            };
            if within {
                joined(Some(own), rest)
            } else {
                None
            }
        },
        Pattern::Alias { name } => Some(
            seq![BindingModel { name: name@, bound: BoundModel::Slot(path) }],
        ),
        Pattern::Guarded { inner, guard } => match unify(v, *inner, path) {
            Some(bindings) => if guard_holds(guard, bindings) {
                Some(bindings)
            } else {
                None
            },
            None => None,
        },
        Pattern::Literal(literal) => if target == referent(literal@) {
            Some(Seq::empty())
        } else {
            None
        },
        Pattern::Range(bounds) => if bounds.holds(target) {
            Some(Seq::empty())
        } else {
            None
        },
        Pattern::Or(alternatives) => if exists|i: int|
            0 <= i < alternatives@.len() && alternative_matches(
                target,
                #[trigger] alternatives@[i],
            ) {
            Some(Seq::empty())
        } else {
            None
        },
        Pattern::Tuple { before, rest, after } => match target {
            ValueModel::Tuple(items) => if shape_fits(
                items.len(),
                before@.len(),
                rest,
                after@.len(),
            ) {
                joined(
                    unify_items(items, 0, before@, at, 0),
                    unify_items(items, items.len() - after@.len(), after@, at, 0),
                )
            } else {
                None
            },
            _ => None,
        },
        Pattern::Sequence { before, rest, after } => match target {
            ValueModel::Sequence(items) => if shape_fits(
                items.len(),
                before@.len(),
                !(rest is Absent),
                after@.len(),
            ) {
                let middle = match rest {
                    Rest::Named(name) => seq![
                        BindingModel {
                            name: name@,
                            bound: BoundModel::Value(
                                ValueModel::Sequence(
                                    items.subrange(
                                        before@.len() as int,
                                        items.len() - after@.len(),
                                    ),
                                ),
                            ),
                        },
                    ],
                    _ => Seq::empty(),
                };
                joined(
                    joined(unify_items(items, 0, before@, at, 0), Some(middle)),
                    unify_items(items, items.len() - after@.len(), after@, at, 0),
                )
            } else {
                None
            },
            _ => None,
        },
        Pattern::Variant { tag, fields } => match target {
            ValueModel::Variant { tag: found, fields: values } => if found == tag@ && values.len()
                == fields@.len() {
                unify_items(field_values(values), 0, fields@, at, 0)
            } else {
                None
            },
            _ => None,
        },
        Pattern::Record { tag, fields } => match target {
            ValueModel::Variant { tag: found, fields: values } => if found == tag@ {
                unify_fields(values, fields@, at, 0)
            } else {
                None
            },
            _ => None,
        },
    }
}

/// The bindings of matching the patterns from the `k`-th on, each against the
/// item that stands `offset` positions after its own.
pub open spec fn unify_items(
    items: Seq<ValueModel>,
    offset: int,
    patterns: Seq<Pattern>,
    path: Seq<int>,
    k: int,
) -> Option<Seq<BindingModel>>
    decreases patterns, patterns.len() - k,
{
    if k < 0 || k >= patterns.len() {
        Some(Seq::empty())
    } else {
        joined(
            unify(items[offset + k], patterns[k], path.push(offset + k)),
            unify_items(items, offset, patterns, path, k + 1),
        )
    }
}

/// The bindings of matching the field patterns from the `k`-th on, each
/// against the first field of its name.
pub open spec fn unify_fields(
    values: Seq<FieldModel>,
    patterns: Seq<FieldPattern>,
    path: Seq<int>,
    k: int,
) -> Option<Seq<BindingModel>>
    decreases patterns, patterns.len() - k,
{
    if k < 0 || k >= patterns.len() {
        Some(Seq::empty())
    } else {
        match field_position(values, patterns[k].name@, 0) {
            Some(i) => joined(
                unify(values[i].value, patterns[k].pattern, path.push(i)),
                unify_fields(values, patterns, path, k + 1),
            ),
            None => None,
        }
    }
}

/// Whether `v` matches `p`.
pub open spec fn is_match(v: ValueModel, p: Pattern) -> bool {
    unify(v, p, Seq::empty()) is Some
}

impl Pattern {
    /// The pattern that matches the integer `n` alone.
    pub fn integer(n: i64) -> (pattern: Pattern)
        ensures
            pattern == Pattern::Literal(PatternValue::Int(n)),
    {
        Pattern::Literal(PatternValue::Int(n))
    }

    /// The pattern that matches the boolean `b` alone.
    pub fn boolean(b: bool) -> (pattern: Pattern)
        ensures
            pattern == Pattern::Literal(PatternValue::Bool(b)),
    {
        Pattern::Literal(PatternValue::Bool(b))
    }

    /// The pattern that matches the integers from `low` to `high`, both
    /// included.
    pub fn within(low: i64, high: i64) -> (pattern: Pattern)
        ensures
            pattern == Pattern::Range(Bounds { low, high }),
    {
        Pattern::Range(Bounds { low, high })
    }

    /// The pattern that binds `name` to every value.
    pub fn bind(name: &str) -> (pattern: Pattern)
        ensures
            pattern matches Pattern::Binding { name: bound, inner, range } && bound@ == name@
                && inner is None && range is None,
    {
        Pattern::Binding { name: name.to_owned(), inner: None, range: None }
    }

    /// The pattern that binds `name` to an integer from `low` to `high`.
    pub fn bind_within(name: &str, low: i64, high: i64) -> (pattern: Pattern)
        ensures
            pattern matches Pattern::Binding { name: bound, inner, range } && bound@ == name@
                && inner is None && range == Some(Bounds { low, high }),
    {
        Pattern::Binding {
            name: name.to_owned(),
            inner: None,
            range: Some(Bounds { low, high }),
        }
    }

    /// The pattern that binds `name` to a value that matches `inner`.
    pub fn bind_as(name: &str, inner: Pattern) -> (pattern: Pattern)
        ensures
            pattern matches Pattern::Binding { name: bound, inner: held, range } && bound@ == name@
                && held == Some(Box::new(inner)) && range is None,
    {
        Pattern::Binding { name: name.to_owned(), inner: Some(Box::new(inner)), range: None }
    }

    /// The pattern that binds `name` to the place of every value.
    pub fn alias(name: &str) -> (pattern: Pattern)
        ensures
            pattern matches Pattern::Alias { name: bound } && bound@ == name@,
    {
        Pattern::Alias { name: name.to_owned() }
    }

    /// This pattern with a guard: it matches where this pattern matches and
    /// the guard holds of its bindings.
    pub fn when(self, guard: Guard) -> (pattern: Pattern)
        ensures
            pattern == (Pattern::Guarded { inner: Box::new(self), guard }),
    {
        Pattern::Guarded { inner: Box::new(self), guard }
    }
}

} // verus!
