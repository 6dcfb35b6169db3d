//! What the text of a pattern shows it to match: whether it matches every
//! value, a boolean, a stretch of integers, or the variants of a form.

use vstd::prelude::*;
use crate::pattern::select::MatchError;
use crate::pattern::shape::{Alternative, FieldPattern, Pattern, alternative_matches,
    field_position, field_values, is_match, referent_path, unify, unify_fields, unify_items};
use crate::pattern::value::{Field, FieldModel, PatternValue, ValueModel, field_models, referent};

verus! {

/// One variant of a closed set: its tag and the names of its fields in
/// order.
#[derive(Debug, PartialEq, Eq)]
pub struct VariantForm {
    pub tag: String,
    pub fields: Vec<String>,
}

impl VariantForm {
    /// Whether the form has a field called `name`.
    pub open spec fn has_field(self, name: Seq<char>) -> bool {
        exists|j: int| 0 <= j < self.fields@.len() && (#[trigger] self.fields@[j])@ == name
    }

    /// Whether a variant with this tag and these fields is of the form: it
    /// has the form's tag and the form's fields, by name and in order.
    pub open spec fn shapes(self, tag: Seq<char>, fields: Seq<FieldModel>) -> bool {
        &&& tag == self.tag@
        &&& fields.len() == self.fields@.len()
        &&& forall|j: int| 0 <= j < fields.len() ==> (#[trigger] fields[j]).name == self.fields@[j]@
    }
}

/// Whether each of the field patterns is for a field of the form.
pub open spec fn names_fields_of(patterns: Seq<FieldPattern>, form: VariantForm) -> bool {
    forall|i: int| 0 <= i < patterns.len() ==> form.has_field((#[trigger] patterns[i]).name@)
}

/// Whether each of the field patterns matches every value.
pub open spec fn fields_irrefutable(patterns: Seq<FieldPattern>) -> bool {
    forall|i: int| 0 <= i < patterns.len() ==> irrefutable((#[trigger] patterns[i]).pattern)
}

/// Whether `p` matches every value: it is a wildcard, an alias, or a binding
/// without a range whose inner pattern, if it has one, matches every value.
pub open spec fn irrefutable(p: Pattern) -> bool
    decreases p,
{
    match p {
        Pattern::Wildcard => true,
        Pattern::Alias { .. } => true,
        Pattern::Binding { inner, range, .. } => range is None && match inner {
            Some(q) => irrefutable(*q),
            None => true,
        },
        _ => false,
    }
}

/// Whether each of the patterns matches every value.
pub open spec fn all_irrefutable(patterns: Seq<Pattern>) -> bool {
    forall|i: int| 0 <= i < patterns.len() ==> irrefutable(#[trigger] patterns[i])
}

/// Whether the text of `p` shows that it matches the boolean `b`: it matches
/// every value, or is the literal `b`, or has the literal among its
/// alternatives.
pub open spec fn covers_boolean(p: Pattern, b: bool) -> bool {
    ||| irrefutable(p)
    ||| p matches Pattern::Literal(literal) && referent(literal@) == ValueModel::Bool(b)
    ||| p matches Pattern::Or(alternatives) && exists|i: int|
        0 <= i < alternatives@.len() && alternative_matches(
            ValueModel::Bool(b),
            #[trigger] alternatives@[i],
        )
}

/// Whether the text of `p` shows that it matches the integer `n`: it matches
/// every value, or is the literal `n` or a range that `n` lies in, or has one
/// of these among its alternatives, or binds what lies in a range that `n`
/// lies in.
pub open spec fn covers_integer(p: Pattern, n: int) -> bool {
    ||| irrefutable(p)
    ||| p matches Pattern::Literal(literal) && referent(literal@) == ValueModel::Int(n)
    ||| p matches Pattern::Range(bounds) && bounds.low <= n <= bounds.high
    ||| p matches Pattern::Or(alternatives) && exists|i: int|
        0 <= i < alternatives@.len() && alternative_matches(
            ValueModel::Int(n),
            #[trigger] alternatives@[i],
        )
    ||| p matches Pattern::Binding { inner, range: Some(bounds), .. } && bounds.low <= n
        <= bounds.high && (inner matches Some(q) ==> irrefutable(*q))
}

/// Whether the text of `p` shows that it matches every variant of the form:
/// it matches every value, or names the form's tag and has, for each field by
/// position or for some fields of the form by name, a pattern that matches
/// every value.
pub open spec fn covers_form(p: Pattern, form: VariantForm) -> bool {
    ||| irrefutable(p)
    ||| p matches Pattern::Variant { tag, fields } && tag@ == form.tag@ && fields@.len()
        == form.fields@.len() && all_irrefutable(fields@)
    ||| p matches Pattern::Record { tag, fields } && tag@ == form.tag@ && names_fields_of(
        fields@,
        form,
    ) && fields_irrefutable(fields@)
}

/// Whether `p` agrees with the form: where it tests for a variant by position
/// it has the form's tag and as many fields, where by name the form's tag and
/// only fields of the form.
pub open spec fn agrees_with_form(p: Pattern, form: VariantForm) -> bool {
    match p {
        Pattern::Variant { tag, fields } => tag@ == form.tag@ && fields@.len()
            == form.fields@.len(),
        Pattern::Record { tag, fields } => tag@ == form.tag@ && names_fields_of(fields@, form),
        _ => true,
    }
}

/// Whether `p`, where it tests for a variant, agrees with a form of the set.
pub open spec fn agrees_with_forms(p: Pattern, forms: Seq<VariantForm>) -> bool {
    p is Variant || p is Record ==> exists|i: int|
        0 <= i < forms.len() && agrees_with_form(p, #[trigger] forms[i])
}

/// A pattern that matches every value matches `v`.
pub proof fn law_irrefutable_matches(v: ValueModel, p: Pattern, path: Seq<int>)
    requires
        irrefutable(p),
    ensures
        unify(v, p, path) is Some,
    decreases p,
{
    match p {
        Pattern::Binding { inner, .. } => {
            match inner {
                Some(q) => {
                    law_irrefutable_matches(v, *q, path);
                },
                None => {},
            }
        },
        _ => {},
    }
}

proof fn lemma_irrefutable_items(
    items: Seq<ValueModel>,
    patterns: Seq<Pattern>,
    path: Seq<int>,
    k: int,
)
    requires
        all_irrefutable(patterns),
        0 <= k,
    ensures
        unify_items(items, 0, patterns, path, k) is Some,
    decreases patterns.len() - k,
{
    if k < patterns.len() {
        law_irrefutable_matches(items[0 + k], patterns[k], path.push(0 + k));
        lemma_irrefutable_items(items, patterns, path, k + 1);
    }
}

/// A pattern whose text shows that it matches a boolean does match it.
pub proof fn law_covered_boolean_matches(v: ValueModel, p: Pattern, b: bool)
    requires
        referent(v) == ValueModel::Bool(b),
        covers_boolean(p, b),
    ensures
        is_match(v, p),
{
    if irrefutable(p) {
        law_irrefutable_matches(v, p, Seq::empty());
    }
}

/// A pattern whose text shows that it matches an integer does match it.
pub proof fn law_covered_integer_matches(v: ValueModel, p: Pattern, n: int)
    requires
        referent(v) == ValueModel::Int(n),
        covers_integer(p, n),
    ensures
        is_match(v, p),
{
    if irrefutable(p) {
        law_irrefutable_matches(v, p, Seq::empty());
    } else {
        match p {
            Pattern::Binding { name, inner, range } => {
                match inner {
                    Some(q) => {
                        law_irrefutable_matches(v, *q, Seq::empty());
                    },
                    None => {},
                }
            },
            _ => {},
        }
    }
}

proof fn lemma_field_is_found(values: Seq<FieldModel>, name: Seq<char>, from: int, j: int)
    requires
        0 <= from <= j < values.len(),
        values[j].name == name,
    ensures
        field_position(values, name, from) matches Some(i) && from <= i <= j,
    decreases j - from,
{
    if values[from].name != name {
        lemma_field_is_found(values, name, from + 1, j);
    }
}

proof fn lemma_irrefutable_fields(
    values: Seq<FieldModel>,
    patterns: Seq<FieldPattern>,
    form: VariantForm,
    path: Seq<int>,
    k: int,
)
    requires
        form.shapes(form.tag@, values),
        names_fields_of(patterns, form),
        fields_irrefutable(patterns),
        0 <= k,
    ensures
        unify_fields(values, patterns, path, k) is Some,
    decreases patterns.len() - k,
{
    if k < patterns.len() {
        let name = patterns[k].name@;
        assert(form.has_field(name));
        let j = choose|j: int| 0 <= j < form.fields@.len() && (#[trigger] form.fields@[j])@ == name;
        assert(values[j].name == name);
        lemma_field_is_found(values, name, 0, j);
        let i = field_position(values, name, 0)->Some_0;
        law_irrefutable_matches(values[i].value, patterns[k].pattern, path.push(i));
        lemma_irrefutable_fields(values, patterns, form, path, k + 1);
    }
}

/// A pattern whose text shows that it matches the variants of a form does
/// match each of them.
pub proof fn law_covered_form_matches(v: ValueModel, p: Pattern, form: VariantForm)
    requires
        referent(v) matches ValueModel::Variant { tag, fields } && form.shapes(tag, fields),
        covers_form(p, form),
    ensures
        is_match(v, p),
{
    if irrefutable(p) {
        law_irrefutable_matches(v, p, Seq::empty());
    } else {
        let values = referent(v)->Variant_fields;
        let at = referent_path(v, Seq::empty());
        match p {
            Pattern::Variant { tag, fields } => {
                lemma_irrefutable_items(field_values(values), fields@, at, 0);
                assert(unify(v, p, Seq::empty()) == unify_items(
                    field_values(values),
                    0,
                    fields@,
                    at,
                    0,
                ));
            },
            Pattern::Record { tag, fields } => {
                lemma_irrefutable_fields(values, fields@, form, at, 0);
                assert(unify(v, p, Seq::empty()) == unify_fields(values, fields@, at, 0));
            },
            _ => {},
        }
    }
}

impl Pattern {
    /// Whether the pattern matches every value.
    pub fn is_irrefutable(&self) -> (r: bool)
        ensures
            r == irrefutable(*self),
        decreases self,
    {
        match self {
            Pattern::Wildcard => true,
            Pattern::Alias { .. } => true,
            Pattern::Binding { inner, range, .. } => match range {
                Some(_) => false,
                None => match inner {
                    Some(q) => q.is_irrefutable(),
                    None => true,
                },
            },
            _ => false,
        }
    }

    /// Whether the text of the pattern shows that it matches the boolean `b`.
    #[verifier::loop_isolation(false)]
    pub fn is_for_boolean(&self, b: bool) -> (r: bool)
        ensures
            r == covers_boolean(*self, b),
    {
        if self.is_irrefutable() {
            return true;
        }
        match self {
            Pattern::Literal(literal) => match literal.referent() {
                PatternValue::Bool(x) => *x == b,
                _ => false,
            },
            Pattern::Or(alternatives) => {
                let target = PatternValue::Bool(b);
                let mut i: usize = 0;
                while i < alternatives.len()
                    invariant
                        i <= alternatives@.len(),
                        target@ == ValueModel::Bool(b),
                        forall|k: int|
                            0 <= k < i ==> !alternative_matches(
                                ValueModel::Bool(b),
                                #[trigger] alternatives@[k],
                            ),
                    decreases alternatives@.len() - i,
                {
                    if alternatives[i].accepts(&target) {
                        return true;
                    }
                    i += 1;
                }
                false
            },
            _ => false,
        }
    }

    /// How far the text of the pattern shows it to match from `n` on: an
    /// integer that it matches together with every integer from `n` up to
    /// it, or `None` where the text does not show that it matches `n`.
    #[verifier::loop_isolation(false)]
    pub fn reach(&self, n: i64) -> (r: Option<i64>)
        ensures
            r is Some == covers_integer(*self, n as int),
            r matches Some(last) ==> n <= last && forall|k: int|
                n <= k <= last ==> covers_integer(*self, k),
    {
        if self.is_irrefutable() {
            return Some(i64::MAX);
        }
        match self {
            Pattern::Literal(literal) => match literal.referent() {
                PatternValue::Int(x) => if *x == n {
                    Some(n)
                } else {
                    None
                },
                _ => None,
            },
            Pattern::Range(bounds) => if bounds.low <= n && n <= bounds.high {
                Some(bounds.high)
            } else {
                None
            },
            Pattern::Or(alternatives) => {
                let mut i: usize = 0;
                while i < alternatives.len()
                    invariant
                        i <= alternatives@.len(),
                        forall|k: int|
                            0 <= k < i ==> !alternative_matches(
                                ValueModel::Int(n as int),
                                #[trigger] alternatives@[k],
                            ),
                    decreases alternatives@.len() - i,
                {
                    match &alternatives[i] {
                        Alternative::Literal(literal) => match literal.referent() {
                            PatternValue::Int(x) => if *x == n {
                                return Some(n);
                            },
                            _ => {},
                        },
                        Alternative::Range(bounds) => if bounds.low <= n && n <= bounds.high {
                            assert forall|k: int| n <= k <= bounds.high implies covers_integer(
                                *self,
                                k,
                            ) by {
                                assert(alternative_matches(
                                    ValueModel::Int(k),
                                    alternatives@[i as int],
                                ));
                            }
                            return Some(bounds.high);
                        },
                    }
                    i += 1;
                }
                None
            },
            Pattern::Binding { inner, range, .. } => match range {
                Some(bounds) => {
                    let free = match inner {
                        Some(q) => q.is_irrefutable(),
                        None => true,
                    };
                    if free && bounds.low <= n && n <= bounds.high {
                        Some(bounds.high)
                    } else {
                        None
                    }
                },
                None => None,
            },
            _ => None,
        }
    }

    /// Whether the text of the pattern shows that it matches every variant of
    /// the form.
    pub fn is_for_form(&self, form: &VariantForm) -> (r: bool)
        ensures
            r == covers_form(*self, *form),
    {
        if self.is_irrefutable() {
            return true;
        }
        match self {
            Pattern::Variant { tag, fields } => *tag == form.tag && fields.len()
                == form.fields.len() && are_irrefutable(fields),
            Pattern::Record { tag, fields } => *tag == form.tag && form.names_each(fields)
                && fields_are_irrefutable(fields),
            _ => false,
        }
    }

    /// Whether the pattern agrees with the form.
    pub fn agrees_with_one(&self, form: &VariantForm) -> (r: bool)
        ensures
            r == agrees_with_form(*self, *form),
    {
        match self {
            Pattern::Variant { tag, fields } => *tag == form.tag && fields.len()
                == form.fields.len(),
            Pattern::Record { tag, fields } => *tag == form.tag && form.names_each(fields),
            _ => true,
        }
    }

    /// Whether the pattern, where it tests for a variant, agrees with a form
    /// of the set.
    #[verifier::loop_isolation(false)]
    pub fn agrees_with(&self, forms: &Vec<VariantForm>) -> (r: bool)
        ensures
            r == agrees_with_forms(*self, forms@),
    {
        match self {
            Pattern::Variant { .. } | Pattern::Record { .. } => {
                let mut i: usize = 0;
                while i < forms.len()
                    invariant
                        i <= forms@.len(),
                        forall|k: int|
                            0 <= k < i ==> !agrees_with_form(*self, #[trigger] forms@[k]),
                    decreases forms@.len() - i,
                {
                    if self.agrees_with_one(&forms[i]) {
                        return true;
                    }
                    i += 1;
                }
                false
            },
            _ => true,
        }
    }
}

impl VariantForm {
    /// Whether the form has a field called `name`.
    pub fn names(&self, name: &String) -> (r: bool)
        ensures
            r == self.has_field(name@),
    {
        let mut j: usize = 0;
        while j < self.fields.len()
            invariant
                j <= self.fields@.len(),
                forall|k: int| 0 <= k < j ==> (#[trigger] self.fields@[k])@ != name@,
            decreases self.fields@.len() - j,
        {
            if self.fields[j] == *name {
                return true;
            }
            j += 1;
        }
        false
    }

    /// Whether each of the field patterns is for a field of the form.
    pub fn names_each(&self, patterns: &Vec<FieldPattern>) -> (r: bool)
        ensures
            r == names_fields_of(patterns@, *self),
    {
        let mut i: usize = 0;
        while i < patterns.len()
            invariant
                i <= patterns@.len(),
                forall|k: int| 0 <= k < i ==> self.has_field((#[trigger] patterns@[k]).name@),
            decreases patterns@.len() - i,
        {
            if !self.names(&patterns[i].name) {
                return false;
            }
            i += 1;
        }
        true
    }

    /// Whether a variant with this tag and these fields is of the form.
    pub fn is_form_of(&self, tag: &String, fields: &Vec<Field>) -> (r: bool)
        ensures
            r == self.shapes(tag@, field_models(fields@)),
    {
        assert(field_models(fields@).len() == fields@.len());
        if !(self.tag == *tag) || self.fields.len() != fields.len() {
            return false;
        }
        let mut j: usize = 0;
        while j < fields.len()
            invariant
                j <= fields@.len() == self.fields@.len(),
                forall|k: int|
                    0 <= k < j ==> (#[trigger] field_models(fields@)[k]).name == self.fields@[k]@,
            decreases fields@.len() - j,
        {
            assert(field_models(fields@)[j as int].name == fields@[j as int].name@);
            if !(fields[j].name == self.fields[j]) {
                return false;
            }
            j += 1;
        }
        true
    }

    /// The pattern for a variant of this form with a pattern for each field
    /// in order. It is malformed unless there are as many patterns as the
    /// form has fields.
    pub fn by_position(&self, fields: Vec<Pattern>) -> (r: Result<Pattern, MatchError>)
        ensures
            match r {
                Ok(pattern) => {
                    &&& fields@.len() == self.fields@.len()
                    &&& pattern matches Pattern::Variant { tag, fields: held }
                    &&& tag@ == self.tag@
                    &&& held == fields
                    &&& agrees_with_form(pattern, *self)
                },
                Err(e) => e == MatchError::MalformedPattern && fields@.len() != self.fields@.len(),
            },
    {
        if fields.len() != self.fields.len() {
            return Err(MatchError::MalformedPattern);
        }
        Ok(Pattern::Variant { tag: self.tag.clone(), fields })
    }

    /// The pattern for a variant of this form with patterns for fields found
    /// by name. It is malformed unless each name is that of a field of the
    /// form.
    pub fn by_name(&self, fields: Vec<FieldPattern>) -> (r: Result<Pattern, MatchError>)
        ensures
            match r {
                Ok(pattern) => {
                    &&& names_fields_of(fields@, *self)
                    &&& pattern matches Pattern::Record { tag, fields: held }
                    &&& tag@ == self.tag@
                    &&& held == fields
                    &&& agrees_with_form(pattern, *self)
                },
                Err(e) => e == MatchError::MalformedPattern && !names_fields_of(fields@, *self),
            },
    {
        if !self.names_each(&fields) {
            return Err(MatchError::MalformedPattern);
        }
        Ok(Pattern::Record { tag: self.tag.clone(), fields })
    }
}

/// Whether each of the field patterns matches every value.
pub fn fields_are_irrefutable(patterns: &Vec<FieldPattern>) -> (r: bool)
    ensures
        r == fields_irrefutable(patterns@),
{
    let mut i: usize = 0;
    while i < patterns.len()
        invariant
            i <= patterns@.len(),
            forall|k: int| 0 <= k < i ==> irrefutable((#[trigger] patterns@[k]).pattern),
        decreases patterns@.len() - i,
    {
        if !patterns[i].pattern.is_irrefutable() {
            return false;
        }
        i += 1;
    }
    true
}

/// Whether each of the patterns matches every value.
pub fn are_irrefutable(patterns: &Vec<Pattern>) -> (r: bool)
    ensures
        r == all_irrefutable(patterns@),
{
    let mut i: usize = 0;
    while i < patterns.len()
        invariant
            i <= patterns@.len(),
            forall|k: int| 0 <= k < i ==> irrefutable(#[trigger] patterns@[k]),
        decreases patterns@.len() - i,
    {
        if !patterns[i].is_irrefutable() {
            return false;
        }
        i += 1;
    }
    true
}

} // verus!
