//! Matching a value against a pattern.

use vstd::prelude::*;
use crate::pattern::bindings::{Binding, BindingModel, Bindings, Bound, binding_models, positions};
use crate::pattern::shape::{Alternative, Bounds, FieldPattern, Pattern, Rest, alternative_matches,
    field_position, field_values, joined, referent_path, unify, unify_fields, unify_items};
use crate::pattern::value::{Field, PatternValue, field_models, models, referent};

verus! {

impl Bounds {
    /// Whether `target` is an integer within the bounds.
    pub fn contains(&self, target: &PatternValue) -> (within: bool)
        ensures
            within == self.holds(target@),
    {
        match target {
            PatternValue::Int(n) => self.low <= *n && *n <= self.high,
            _ => false,
        }
    }
}

impl Alternative {
    /// Whether `target`, which is no reference, matches the alternative.
    pub fn accepts(&self, target: &PatternValue) -> (accepted: bool)
        ensures
            accepted == alternative_matches(target@, *self),
    {
        match self {
            Alternative::Literal(literal) => target.same(literal.referent()),
            Alternative::Range(bounds) => bounds.contains(target),
        }
    }
}

/// The value that `value` refers to in the end; `path` is extended by the
/// positions that lead from `value` to it.
fn follow<'a>(value: &'a PatternValue, path: &mut Vec<usize>) -> (target: &'a PatternValue)
    ensures
        target@ == referent(value@),
        !(target@ is Reference),
        positions(final(path)@) == referent_path(value@, positions(old(path)@)),
        final(path)@.len() >= old(path)@.len(),
        final(path)@.subrange(0, old(path)@.len() as int) == old(path)@,
    decreases value,
{
    match value {
        PatternValue::Reference(inner) => {
            path.push(0);
            let ghost extended = path@;
            assert(positions(extended) =~= positions(old(path)@).push(0));
            let target = follow(inner, path);
            assert(path@.subrange(0, old(path)@.len() as int) =~= extended.subrange(
                0,
                old(path)@.len() as int,
            ));
            assert(extended.subrange(0, old(path)@.len() as int) =~= old(path)@);
            target
        },
        _ => {
            assert(path@.subrange(0, path@.len() as int) =~= path@);
            value
        },
    }
}

/// A copy of a list of positions.
fn copy_path(path: &Vec<usize>) -> (copy: Vec<usize>)
    ensures
        copy@ == path@,
{
    let mut copy: Vec<usize> = Vec::new();
    let mut i: usize = 0;
    while i < path.len()
        invariant
            i <= path@.len(),
            copy@ == path@.subrange(0, i as int),
        decreases path@.len() - i,
    {
        copy.push(path[i]);
        assert(copy@ =~= path@.subrange(0, i + 1));
        i += 1;
    }
    assert(path@.subrange(0, i as int) =~= path@);
    copy
}

/// Copies of the values that stand at the positions from `from` up to `to`.
fn duplicate_range(items: &Vec<PatternValue>, from: usize, to: usize) -> (copies: Vec<
    PatternValue,
>)
    requires
        from <= to <= items@.len(),
    ensures
        models(copies@) == models(items@).subrange(from as int, to as int),
{
    let mut copies: Vec<PatternValue> = Vec::new();
    let mut i: usize = from;
    while i < to
        invariant
            from <= i <= to <= items@.len(),
            copies@.len() == i - from,
            forall|k: int|
                0 <= k < i - from ==> (#[trigger] copies@[k]).model() == items@[from + k].model(),
        decreases to - i,
    {
        copies.push(items[i].duplicate());
        i += 1;
    }
    assert(models(copies@) =~= models(items@).subrange(from as int, to as int));
    copies
}

/// The first position at which `fields` has a field called `name`.
fn position(fields: &Vec<Field>, name: &String) -> (found: Option<usize>)
    ensures
        match found {
            Some(i) => field_position(field_models(fields@), name@, 0) == Some(i as int) && i
                < fields@.len(),
            None => field_position(field_models(fields@), name@, 0) is None,
        },
{
    let mut i: usize = 0;
    while i < fields.len()
        invariant
            i <= fields@.len(),
            field_position(field_models(fields@), name@, 0) == field_position(
                field_models(fields@),
                name@,
                i as int,
            ),
        decreases fields@.len() - i,
    {
        if fields[i].name == *name {
            return Some(i);
        }
        i += 1;
    }
    None
}

proof fn lemma_models_push(entries: Seq<Binding>, entry: Binding)
    ensures
        binding_models(entries.push(entry)) == binding_models(entries) + seq![entry@],
{
    assert(binding_models(entries.push(entry)) =~= binding_models(entries) + seq![entry@]);
}

proof fn lemma_models_append(first: Seq<Binding>, second: Seq<Binding>)
    ensures
        binding_models(first + second) == binding_models(first) + binding_models(second),
{
    assert(binding_models(first + second) =~= binding_models(first) + binding_models(second));
}

/// Matches `value` against `pattern`. `path` holds the positions that lead to
/// `value`. Where the value matches, the bindings are added to `out`; where it
/// does not, `out` may have grown by bindings that do not count.
pub(crate) fn unify_into(
    value: &PatternValue,
    pattern: &Pattern,
    path: &mut Vec<usize>,
    out: &mut Vec<Binding>,
) -> (matched: bool)
    ensures
        final(path)@ == old(path)@,
        matched == unify(value@, *pattern, positions(old(path)@)) is Some,
        matched ==> binding_models(final(out)@) == binding_models(old(out)@) + unify(
            value@,
            *pattern,
            positions(old(path)@),
        )->Some_0,
    decreases pattern, 1nat,
{
    match pattern {
        Pattern::Wildcard => {
            assert(binding_models(out@) + Seq::<BindingModel>::empty() =~= binding_models(out@));
            true
        },
        Pattern::Binding { name, inner, range } => {
            let within = match range {
                Some(bounds) => bounds.contains(value.referent()),
                None => true,
            };
            if !within {
                return false;
            }
            let own = Binding { name: name.clone(), bound: Bound::Value(value.duplicate()) };
            proof {
                lemma_models_push(out@, own);
            }
            out.push(own);
            match inner {
                Some(q) => {
                    let matched = unify_into(value, q, path, out);
                    proof {
                        if matched {
                            let rest = unify(value@, **q, positions(old(path)@))->Some_0;
                            let before = binding_models(old(out)@);
                            assert((before + seq![own@]) + rest =~= before + (seq![own@] + rest));
                        }
                    }
                    matched
                },
                None => {
                    assert(seq![own@] + Seq::<BindingModel>::empty() =~= seq![own@]);
                    true
                },
            }
        },
        Pattern::Alias { name } => {
            let own = Binding { name: name.clone(), bound: Bound::Slot(copy_path(path)) };
            proof {
                lemma_models_push(out@, own);
            }
            out.push(own);
            true
        },
        Pattern::Guarded { inner, guard } => {
            let mut own: Vec<Binding> = Vec::new();
            if !unify_into(value, inner, path, &mut own) {
                return false;
            }
            assert(binding_models(own@) =~= unify(value@, **inner, positions(old(path)@))->Some_0);
            let found = Bindings { entries: own };
            if !guard.holds(&found) {
                return false;
            }
            let mut entries = found.entries;
            proof {
                lemma_models_append(out@, entries@);
            }
            out.append(&mut entries);
            true
        },
        _ => {
            let depth: usize = path.len();
            let target = follow(value, path);
            let matched = unify_shape(target, pattern, path, out);
            path.truncate(depth);
            matched
        },
    }
}

/// Matches `target`, which is no reference, against a pattern that tests
/// shape or content.
fn unify_shape(
    target: &PatternValue,
    pattern: &Pattern,
    path: &mut Vec<usize>,
    out: &mut Vec<Binding>,
) -> (matched: bool)
    requires
        !(target@ is Reference),
        !(pattern is Wildcard),
        !(pattern is Binding),
        !(pattern is Alias),
        !(pattern is Guarded),
    ensures
        final(path)@ == old(path)@,
        matched == unify(target@, *pattern, positions(old(path)@)) is Some,
        matched ==> binding_models(final(out)@) == binding_models(old(out)@) + unify(
            target@,
            *pattern,
            positions(old(path)@),
        )->Some_0,
    decreases pattern, 0nat,
{
    proof {
        assert(binding_models(out@) + Seq::<BindingModel>::empty() =~= binding_models(out@));
    }
    match pattern {
        Pattern::Literal(literal) => target.same(literal.referent()),
        Pattern::Range(bounds) => bounds.contains(target),
        Pattern::Or(alternatives) => accepted_by_any(target, alternatives),
        Pattern::Tuple { before, rest, after } => match target {
            PatternValue::Tuple(items) => {
                let named: usize = before.len();
                if named > items.len() || after.len() > items.len() - named {
                    return false;
                }
                if !*rest && items.len() - named != after.len() {
                    return false;
                }
                let ghost start = binding_models(out@);
                if !unify_items_into(items, 0, before, path, out) {
                    return false;
                }
                let matched = unify_items_into(items, items.len() - after.len(), after, path, out);
                proof {
                    if matched {
                        let first = unify_items(
                            models(items@),
                            0,
                            before@,
                            positions(old(path)@),
                            0,
                        )->Some_0;
                        let second = unify_items(
                            models(items@),
                            items@.len() - after@.len(),
                            after@,
                            positions(old(path)@),
                            0,
                        )->Some_0;
                        assert((start + first) + second =~= start + (first + second));
                    }
                }
                matched
            },
            _ => false,
        },
        Pattern::Sequence { before, rest, after } => match target {
            PatternValue::Sequence(items) => {
                let named: usize = before.len();
                if named > items.len() || after.len() > items.len() - named {
                    return false;
                }
                let tail: usize = items.len() - after.len();
                let ghost start = binding_models(out@);
                let ghost mut middle: Seq<BindingModel> = Seq::empty();
                match rest {
                    Rest::Absent => {
                        if tail != named {
                            return false;
                        }
                    },
                    _ => {},
                }
                if !unify_items_into(items, 0, before, path, out) {
                    return false;
                }
                match rest {
                    Rest::Named(name) => {
                        let own = Binding {
                            name: name.clone(),
                            bound: Bound::Value(
                                PatternValue::Sequence(duplicate_range(items, named, tail)),
                            ),
                        };
                        proof {
                            lemma_models_push(out@, own);
                            middle = seq![own@];
                        }
                        out.push(own);
                    },
                    _ => {},
                }
                let matched = unify_items_into(items, tail, after, path, out);
                proof {
                    if matched {
                        let first = unify_items(
                            models(items@),
                            0,
                            before@,
                            positions(old(path)@),
                            0,
                        )->Some_0;
                        let second = unify_items(
                            models(items@),
                            items@.len() - after@.len(),
                            after@,
                            positions(old(path)@),
                            0,
                        )->Some_0;
                        assert(start + first + middle =~= start + (first + middle));
                        assert(((start + first) + middle) + second =~= start + ((first + middle)
                            + second));
                    }
                }
                matched
            },
            _ => false,
        },
        Pattern::Variant { tag, fields } => match target {
            PatternValue::Variant { tag: found, fields: values } => {
                assert(field_models(values@).len() == values@.len());
                if !(*found == *tag) || values.len() != fields.len() {
                    return false;
                }
                unify_positional(values, fields, path, out)
            },
            _ => false,
        },
        Pattern::Record { tag, fields } => match target {
            PatternValue::Variant { tag: found, fields: values } => {
                if !(*found == *tag) {
                    return false;
                }
                unify_named(values, fields, path, out)
            },
            _ => false,
        },
        _ => false,
    }
}

/// Whether `target`, which is no reference, matches one of the alternatives.
fn accepted_by_any(target: &PatternValue, alternatives: &Vec<Alternative>) -> (accepted: bool)
    ensures
        accepted == exists|i: int|
            0 <= i < alternatives@.len() && alternative_matches(
                target@,
                #[trigger] alternatives@[i],
            ),
{
    let mut i: usize = 0;
    while i < alternatives.len()
        invariant
            i <= alternatives@.len(),
            forall|k: int|
                0 <= k < i ==> !alternative_matches(target@, #[trigger] alternatives@[k]),
        decreases alternatives@.len() - i,
    {
        if alternatives[i].accepts(target) {
            return true;
        }
        i += 1;
    }
    false
}

/// Matches the fields of a variant against as many patterns, in order.
fn unify_positional(
    values: &Vec<Field>,
    patterns: &Vec<Pattern>,
    path: &mut Vec<usize>,
    out: &mut Vec<Binding>,
) -> (matched: bool)
    requires
        values@.len() == patterns@.len(),
    ensures
        final(path)@ == old(path)@,
        matched == unify_items(
            field_values(field_models(values@)),
            0,
            patterns@,
            positions(old(path)@),
            0,
        ) is Some,
        matched ==> binding_models(final(out)@) == binding_models(old(out)@) + unify_items(
            field_values(field_models(values@)),
            0,
            patterns@,
            positions(old(path)@),
            0,
        )->Some_0,
    decreases patterns, patterns@.len(),
{
    let ghost start = binding_models(out@);
    let ghost mut added: Seq<BindingModel> = Seq::empty();
    let ghost items = field_values(field_models(values@));
    let mut k: usize = 0;
    assert(start + added =~= start);
    while k < patterns.len()
        invariant
            k <= patterns@.len(),
            values@.len() == patterns@.len(),
            path@ == old(path)@,
            items == field_values(field_models(values@)),
            binding_models(out@) == start + added,
            unify_items(items, 0, patterns@, positions(path@), 0) == joined(
                Some(added),
                unify_items(items, 0, patterns@, positions(path@), k as int),
            ),
        decreases patterns@.len() - k,
    {
        let ghost here = positions(path@);
        let ghost kept = path@;
        path.push(k);
        assert(positions(path@) =~= here.push(k as int));
        let matched = unify_into(&values[k].value, &patterns[k], path, out);
        path.pop();
        assert(path@ =~= kept);
        if !matched {
            return false;
        }
        proof {
            let first = unify(items[k as int], patterns@[k as int], here.push(k as int))->Some_0;
            assert((start + added) + first =~= start + (added + first));
            let later = unify_items(items, 0, patterns@, here, k + 1);
            if later is Some {
                assert(added + (first + later->Some_0) =~= (added + first) + later->Some_0);
            }
            added = added + first;
        }
        k += 1;
    }
    assert(added + Seq::<BindingModel>::empty() =~= added);
    true
}

/// Matches each field pattern against the first field of its name.
fn unify_named(
    values: &Vec<Field>,
    patterns: &Vec<FieldPattern>,
    path: &mut Vec<usize>,
    out: &mut Vec<Binding>,
) -> (matched: bool)
    ensures
        final(path)@ == old(path)@,
        matched == unify_fields(field_models(values@), patterns@, positions(old(path)@), 0) is Some,
        matched ==> binding_models(final(out)@) == binding_models(old(out)@) + unify_fields(
            field_models(values@),
            patterns@,
            positions(old(path)@),
            0,
        )->Some_0,
    decreases patterns, patterns@.len(),
{
    let ghost start = binding_models(out@);
    let ghost mut added: Seq<BindingModel> = Seq::empty();
    let ghost items = field_models(values@);
    let mut k: usize = 0;
    assert(start + added =~= start);
    while k < patterns.len()
        invariant
            k <= patterns@.len(),
            path@ == old(path)@,
            items == field_models(values@),
            binding_models(out@) == start + added,
            unify_fields(items, patterns@, positions(path@), 0) == joined(
                Some(added),
                unify_fields(items, patterns@, positions(path@), k as int),
            ),
        decreases patterns@.len() - k,
    {
        let ghost here = positions(path@);
        let ghost kept = path@;
        let i: usize = match position(values, &patterns[k].name) {
            Some(i) => i,
            None => {
                return false;
            },
        };
        path.push(i);
        assert(positions(path@) =~= here.push(i as int));
        let matched = unify_into(&values[i].value, &patterns[k].pattern, path, out);
        path.pop();
        assert(path@ =~= kept);
        if !matched {
            return false;
        }
        proof {
            let first = unify(
                items[i as int].value,
                patterns@[k as int].pattern,
                here.push(i as int),
            )->Some_0;
            assert((start + added) + first =~= start + (added + first));
            let later = unify_fields(items, patterns@, here, k + 1);
            if later is Some {
                assert(added + (first + later->Some_0) =~= (added + first) + later->Some_0);
            }
            added = added + first;
        }
        k += 1;
    }
    assert(added + Seq::<BindingModel>::empty() =~= added);
    true
}

/// Matches each pattern against the item that stands `offset` positions after
/// its own.
fn unify_items_into(
    items: &Vec<PatternValue>,
    offset: usize,
    patterns: &Vec<Pattern>,
    path: &mut Vec<usize>,
    out: &mut Vec<Binding>,
) -> (matched: bool)
    requires
        offset + patterns@.len() <= items@.len(),
    ensures
        final(path)@ == old(path)@,
        matched == unify_items(
            models(items@),
            offset as int,
            patterns@,
            positions(old(path)@),
            0,
        ) is Some,
        matched ==> binding_models(final(out)@) == binding_models(old(out)@) + unify_items(
            models(items@),
            offset as int,
            patterns@,
            positions(old(path)@),
            0,
        )->Some_0,
    decreases patterns, patterns@.len(),
{
    let ghost start = binding_models(out@);
    let ghost mut added: Seq<BindingModel> = Seq::empty();
    let ghost values = models(items@);
    let count: usize = items.len();
    let mut k: usize = 0;
    assert(start + added =~= start);
    while k < patterns.len()
        invariant
            k <= patterns@.len(),
            offset + patterns@.len() <= items@.len() == count,
            path@ == old(path)@,
            values == models(items@),
            binding_models(out@) == start + added,
            unify_items(values, offset as int, patterns@, positions(path@), 0) == joined(
                Some(added),
                unify_items(values, offset as int, patterns@, positions(path@), k as int),
            ),
        decreases patterns@.len() - k,
    {
        let ghost here = positions(path@);
        let ghost kept = path@;
        path.push(offset + k);
        assert(positions(path@) =~= here.push(offset + k));
        let matched = unify_into(&items[offset + k], &patterns[k], path, out);
        path.pop();
        assert(path@ =~= kept);
        if !matched {
            return false;
        }
        proof {
            let first = unify(
                values[offset + k],
                patterns@[k as int],
                here.push(offset + k),
            )->Some_0;
            assert((start + added) + first =~= start + (added + first));
            let later = unify_items(values, offset as int, patterns@, here, k + 1);
            if later is Some {
                assert(added + (first + later->Some_0) =~= (added + first) + later->Some_0);
            }
            added = added + first;
        }
        k += 1;
    }
    assert(added + Seq::<BindingModel>::empty() =~= added);
    true
}

} // verus!
