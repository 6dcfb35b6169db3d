//! What holds of every match.

use vstd::prelude::*;
use crate::pattern::bindings::{BindingModel, BoundModel, lookup};
use crate::pattern::guard::{Guard, Operand, Term};
use crate::pattern::place::{child, value_at};
use crate::pattern::shape::{FieldPattern, Pattern, Rest, field_position, field_values,
    referent_path, unify, unify_fields, unify_items};
use crate::pattern::value::{FieldModel, ValueModel, referent};

verus! {

/// Whether each place among the bindings can be reached from `root`.
pub open spec fn places_exist(root: ValueModel, bindings: Seq<BindingModel>) -> bool {
    forall|i: int|
        0 <= i < bindings.len() ==> ((#[trigger] bindings[i]).bound matches BoundModel::Slot(path)
            ==> value_at(root, path) is Some)
}

/// The places that a match binds are places of the matched value: where the
/// match began at the value that `path` leads to from `root`, each place
/// among its bindings can be reached from `root`.
pub proof fn law_bound_places_exist(root: ValueModel, v: ValueModel, p: Pattern, path: Seq<int>)
    requires
        value_at(root, path) == Some(v),
        unify(v, p, path) is Some,
    ensures
        places_exist(root, unify(v, p, path)->Some_0),
    decreases p, 0nat,
{
    let target = referent(v);
    let at = referent_path(v, path);
    lemma_referent_place(root, v, path);
    match p {
        Pattern::Binding { name, inner, range } => {
            match inner {
                Some(q) => {
                    law_bound_places_exist(root, v, *q, path);
                },
                None => {},
            }
        },
        Pattern::Guarded { inner, guard } => {
            law_bound_places_exist(root, v, *inner, path);
        },
        Pattern::Tuple { before, rest, after } => {
            let items = target->Tuple_0;
            lemma_items_places_exist(root, target, items, 0, before@, at, 0);
            let tail = items.len() - after@.len();
            lemma_items_places_exist(root, target, items, tail, after@, at, 0);
        },
        Pattern::Sequence { before, rest, after } => {
            let items = target->Sequence_0;
            lemma_items_places_exist(root, target, items, 0, before@, at, 0);
            let tail = items.len() - after@.len();
            lemma_items_places_exist(root, target, items, tail, after@, at, 0);
        },
        Pattern::Variant { tag, fields } => {
            let values = target->Variant_fields;
            lemma_items_places_exist(root, target, field_values(values), 0, fields@, at, 0);
        },
        Pattern::Record { tag, fields } => {
            let values = target->Variant_fields;
            lemma_fields_places_exist(root, target, values, fields@, at, 0);
        },
        _ => {},
    }
}

/// A path one position longer leads one position further: to the value at
/// that position of the value that the shorter path leads to.
pub proof fn law_place_extends(root: ValueModel, path: Seq<int>, i: int)
    ensures
        value_at(root, path.push(i)) == match value_at(root, path) {
            Some(w) => child(w, i),
            None => None,
        },
    decreases path.len(),
{
    if path.len() == 0 {
        reveal_with_fuel(value_at, 2);
        assert(path.push(i).drop_first() =~= Seq::<int>::empty());
        assert(path.push(i)[0] == i);
    } else {
        assert(path.push(i).drop_first() =~= path.drop_first().push(i));
        assert(path.push(i)[0] == path[0]);
        match child(root, path[0] as int) {
            Some(inner) => {
                law_place_extends(inner, path.drop_first(), i);
            },
            None => {},
        }
    }
}

proof fn lemma_referent_place(root: ValueModel, v: ValueModel, path: Seq<int>)
    requires
        value_at(root, path) == Some(v),
    ensures
        value_at(root, referent_path(v, path)) == Some(referent(v)),
    decreases v,
{
    match v {
        ValueModel::Reference(inner) => {
            law_place_extends(root, path, 0);
            lemma_referent_place(root, *inner, path.push(0));
        },
        _ => {},
    }
}

proof fn lemma_items_places_exist(
    root: ValueModel,
    target: ValueModel,
    items: Seq<ValueModel>,
    offset: int,
    patterns: Seq<Pattern>,
    at: Seq<int>,
    k: int,
)
    requires
        value_at(root, at) == Some(target),
        forall|j: int| 0 <= j < items.len() ==> child(target, j) == Some(#[trigger] items[j]),
        0 <= offset,
        offset + patterns.len() <= items.len(),
        0 <= k,
        unify_items(items, offset, patterns, at, k) is Some,
    ensures
        places_exist(root, unify_items(items, offset, patterns, at, k)->Some_0),
    decreases patterns, patterns.len() - k,
{
    if k < patterns.len() {
        law_place_extends(root, at, offset + k);
        law_bound_places_exist(
            root,
            items[offset + k],
            patterns[k],
            at.push(offset + k),
        );
        lemma_items_places_exist(root, target, items, offset, patterns, at, k + 1);
    }
}

proof fn lemma_fields_places_exist(
    root: ValueModel,
    target: ValueModel,
    values: Seq<FieldModel>,
    patterns: Seq<FieldPattern>,
    at: Seq<int>,
    k: int,
)
    requires
        value_at(root, at) == Some(target),
        target matches ValueModel::Variant { fields, .. } && fields == values,
        0 <= k,
        unify_fields(values, patterns, at, k) is Some,
    ensures
        places_exist(root, unify_fields(values, patterns, at, k)->Some_0),
    decreases patterns, patterns.len() - k,
{
    if k < patterns.len() {
        let i = field_position(values, patterns[k].name@, 0)->Some_0;
        lemma_field_position_in_range(values, patterns[k].name@, 0);
        law_place_extends(root, at, i);
        law_bound_places_exist(root, values[i].value, patterns[k].pattern, at.push(i));
        lemma_fields_places_exist(root, target, values, patterns, at, k + 1);
    }
}

proof fn lemma_field_position_in_range(values: Seq<FieldModel>, name: Seq<char>, from: int)
    requires
        0 <= from,
    ensures
        field_position(values, name, from) matches Some(i) ==> from <= i < values.len()
            && values[i].name == name,
    decreases values.len() - from,
{
    if from < values.len() && values[from].name != name {
        lemma_field_position_in_range(values, name, from + 1);
    }
}

/// The names that `p` binds where it matches, in the order of its text.
pub open spec fn bound_names(p: Pattern) -> Seq<Seq<char>>
    decreases p, 0nat,
{
    match p {
        Pattern::Binding { name, inner, .. } => seq![name@] + match inner {
            Some(q) => bound_names(*q),
            None => Seq::empty(),
        },
        Pattern::Alias { name } => seq![name@],
        Pattern::Guarded { inner, .. } => bound_names(*inner),
        Pattern::Tuple { before, after, .. } => names_from(before@, 0) + names_from(after@, 0),
        Pattern::Sequence { before, rest, after } => names_from(before@, 0) + match rest {
            Rest::Named(name) => seq![name@],
            _ => Seq::empty(),
        } + names_from(after@, 0),
        Pattern::Variant { fields, .. } => names_from(fields@, 0),
        Pattern::Record { fields, .. } => field_names_from(fields@, 0),
        _ => Seq::empty(),
    }
}

/// The names that the patterns from the `k`-th on bind, in order.
pub open spec fn names_from(patterns: Seq<Pattern>, k: int) -> Seq<Seq<char>>
    decreases patterns, patterns.len() - k,
{
    if k < 0 || k >= patterns.len() {
        Seq::empty()
    } else {
        bound_names(patterns[k]) + names_from(patterns, k + 1)
    }
}

/// The names that the field patterns from the `k`-th on bind, in order.
pub open spec fn field_names_from(patterns: Seq<FieldPattern>, k: int) -> Seq<Seq<char>>
    decreases patterns, patterns.len() - k,
{
    if k < 0 || k >= patterns.len() {
        Seq::empty()
    } else {
        bound_names(patterns[k].pattern) + field_names_from(patterns, k + 1)
    }
}

/// The names of a list of bindings, in order.
pub open spec fn names_of(bindings: Seq<BindingModel>) -> Seq<Seq<char>> {
    Seq::new(bindings.len(), |i: int| bindings[i].name)
}

/// The names that a match binds are those that its pattern names, whatever
/// the value: where `v` matches `p`, the bindings bear the names of `p` in
/// the order of its text.
pub proof fn law_bindings_bear_the_names(v: ValueModel, p: Pattern, path: Seq<int>)
    requires
        unify(v, p, path) is Some,
    ensures
        names_of(unify(v, p, path)->Some_0) == bound_names(p),
    decreases p, 0nat,
{
    let target = referent(v);
    let at = referent_path(v, path);
    let found = unify(v, p, path)->Some_0;
    match p {
        Pattern::Binding { name, inner, range } => {
            match inner {
                Some(q) => {
                    law_bindings_bear_the_names(v, *q, path);
                    let rest = unify(v, *q, path)->Some_0;
                    assert(names_of(found) =~= seq![name@] + names_of(rest));
                },
                None => {
                    assert(names_of(found) =~= seq![name@] + Seq::empty());
                },
            }
        },
        Pattern::Alias { name } => {
            assert(names_of(found) =~= seq![name@]);
        },
        Pattern::Guarded { inner, guard } => {
            law_bindings_bear_the_names(v, *inner, path);
        },
        Pattern::Tuple { before, rest, after } => {
            let items = target->Tuple_0;
            let tail = items.len() - after@.len();
            lemma_items_bear_the_names(items, 0, before@, at, 0);
            lemma_items_bear_the_names(items, tail, after@, at, 0);
            let first = unify_items(items, 0, before@, at, 0)->Some_0;
            let second = unify_items(items, tail, after@, at, 0)->Some_0;
            assert(names_of(first + second) =~= names_of(first) + names_of(second));
        },
        Pattern::Sequence { before, rest, after } => {
            let items = target->Sequence_0;
            let tail = items.len() - after@.len();
            lemma_items_bear_the_names(items, 0, before@, at, 0);
            lemma_items_bear_the_names(items, tail, after@, at, 0);
            let first = unify_items(items, 0, before@, at, 0)->Some_0;
            let second = unify_items(items, tail, after@, at, 0)->Some_0;
            match rest {
                Rest::Named(name) => {
                    assert(names_of(found) =~= names_of(first) + seq![name@] + names_of(second));
                },
                _ => {
                    assert(names_of(found) =~= names_of(first) + Seq::empty() + names_of(
                        second,
                    ));
                },
            }
        },
        Pattern::Variant { tag, fields } => {
            let values = target->Variant_fields;
            lemma_items_bear_the_names(field_values(values), 0, fields@, at, 0);
        },
        Pattern::Record { tag, fields } => {
            let values = target->Variant_fields;
            lemma_fields_bear_the_names(values, fields@, at, 0);
        },
        _ => {
            assert(names_of(found) =~= Seq::empty());
        },
    }
}

proof fn lemma_items_bear_the_names(
    items: Seq<ValueModel>,
    offset: int,
    patterns: Seq<Pattern>,
    at: Seq<int>,
    k: int,
)
    requires
        0 <= k,
        unify_items(items, offset, patterns, at, k) is Some,
    ensures
        names_of(unify_items(items, offset, patterns, at, k)->Some_0) == names_from(patterns, k),
    decreases patterns, patterns.len() - k,
{
    let found = unify_items(items, offset, patterns, at, k)->Some_0;
    if k < patterns.len() {
        law_bindings_bear_the_names(items[offset + k], patterns[k], at.push(offset + k));
        lemma_items_bear_the_names(items, offset, patterns, at, k + 1);
        let first = unify(items[offset + k], patterns[k], at.push(offset + k))->Some_0;
        let later = unify_items(items, offset, patterns, at, k + 1)->Some_0;
        assert(names_of(first + later) =~= names_of(first) + names_of(later));
    } else {
        assert(names_of(found) =~= Seq::empty());
    }
}

proof fn lemma_fields_bear_the_names(
    values: Seq<FieldModel>,
    patterns: Seq<FieldPattern>,
    at: Seq<int>,
    k: int,
)
    requires
        0 <= k,
        unify_fields(values, patterns, at, k) is Some,
    ensures
        names_of(unify_fields(values, patterns, at, k)->Some_0) == field_names_from(patterns, k),
    decreases patterns, patterns.len() - k,
{
    let found = unify_fields(values, patterns, at, k)->Some_0;
    if k < patterns.len() {
        let i = field_position(values, patterns[k].name@, 0)->Some_0;
        law_bindings_bear_the_names(values[i].value, patterns[k].pattern, at.push(i));
        lemma_fields_bear_the_names(values, patterns, at, k + 1);
        let first = unify(values[i].value, patterns[k].pattern, at.push(i))->Some_0;
        let later = unify_fields(values, patterns, at, k + 1)->Some_0;
        assert(names_of(first + later) =~= names_of(first) + names_of(later));
    } else {
        assert(names_of(found) =~= Seq::empty());
    }
}

/// Whether the operand is the name `name`.
pub open spec fn operand_names(operand: Operand, name: Seq<char>) -> bool {
    operand matches Operand::Name(own) && own@ == name
}

/// Whether the term computes with the name `name`.
pub open spec fn term_names(term: Term, name: Seq<char>) -> bool {
    match term {
        Term::Plain(a) => operand_names(a, name),
        Term::Sum(a, b) | Term::Difference(a, b) | Term::Remainder(a, b) => operand_names(a, name)
            || operand_names(b, name),
    }
}

/// Whether the guard computes with the name `name`.
pub open spec fn guard_names(guard: Guard, name: Seq<char>) -> bool {
    term_names(guard.left, name) || term_names(guard.right, name)
}

/// A guard sees the bindings of its own pattern alone: a guarded pattern
/// whose guard computes with a name that the pattern does not bind matches no
/// value.
pub proof fn law_guard_needs_its_names(
    v: ValueModel,
    inner: Pattern,
    guard: Guard,
    path: Seq<int>,
    name: Seq<char>,
)
    requires
        guard_names(guard, name),
        !bound_names(inner).contains(name),
    ensures
        unify(v, Pattern::Guarded { inner: Box::new(inner), guard }, path) is None,
{
    if unify(v, inner, path) is Some {
        let found = unify(v, inner, path)->Some_0;
        law_bindings_bear_the_names(v, inner, path);
        lemma_unnamed_is_unbound(found, name);
    }
}

proof fn lemma_unnamed_is_unbound(bindings: Seq<BindingModel>, name: Seq<char>)
    requires
        !names_of(bindings).contains(name),
    ensures
        lookup(bindings, name) is None,
    decreases bindings.len(),
{
    if bindings.len() > 0 {
        let last = bindings.len() - 1;
        assert(names_of(bindings)[last] == bindings.last().name);
        assert forall|i: int| 0 <= i < bindings.drop_last().len() implies names_of(
            bindings.drop_last(),
        )[i] != name by {
            assert(names_of(bindings)[i] == bindings[i].name);
        }
        lemma_unnamed_is_unbound(bindings.drop_last(), name);
    }
}

} // verus!
