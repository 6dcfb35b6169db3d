//! The values a pattern is matched against.

use vstd::prelude::*;
use vstd::std_specs::cmp::PartialEqSpecImpl;

verus! {

/// A named field of a tagged variant.
#[derive(Debug, PartialEq, Eq)]
pub struct Field {
    pub name: String,
    pub value: PatternValue,
}

/// A value that can be matched: a scalar, or a structure built from values.
///
/// A value carries no ownership: matching reads it and copies out of it. Two
/// values are equal where they are the same value.
#[derive(Debug)]
pub enum PatternValue {
    /// An integer scalar.
    Int(i64),
    /// A boolean.
    Bool(bool),
    /// An ordered tuple of fixed size.
    Tuple(Vec<PatternValue>),
    /// An ordered sequence.
    Sequence(Vec<PatternValue>),
    /// A tagged variant: its tag and its fields in order.
    Variant { tag: String, fields: Vec<Field> },
    /// A reference to a value.
    Reference(Box<PatternValue>),
}

/// The mathematical model of a [`Field`]: what contracts say of one.
pub ghost struct FieldModel {
    pub name: Seq<char>,
    pub value: ValueModel,
}

/// The mathematical model of a [`PatternValue`]: what contracts say of one.
pub ghost enum ValueModel {
    Int(int),
    Bool(bool),
    Tuple(Seq<ValueModel>),
    Sequence(Seq<ValueModel>),
    Variant { tag: Seq<char>, fields: Seq<FieldModel> },
    Reference(Box<ValueModel>),
}

impl PatternValue {
    /// The model of the value.
    pub open spec fn model(&self) -> ValueModel
        decreases self,
    {
        match self {
            PatternValue::Int(n) => ValueModel::Int(*n as int),
            PatternValue::Bool(b) => ValueModel::Bool(*b),
            PatternValue::Tuple(items) => ValueModel::Tuple(models(items@)),
            PatternValue::Sequence(items) => ValueModel::Sequence(models(items@)),
            PatternValue::Variant { tag, fields } => ValueModel::Variant {
                tag: tag@,
                fields: field_models(fields@),
            },
            PatternValue::Reference(inner) => ValueModel::Reference(Box::new(inner.model())),
        }
    }
}

/// The value that `v` refers to in the end: `v` itself unless it is a
/// reference, else what the value it refers to refers to.
pub open spec fn referent(v: ValueModel) -> ValueModel
    decreases v,
{
    match v {
        ValueModel::Reference(inner) => referent(*inner),
        _ => v,
    }
}

/// The models of a list of values, in order.
pub open spec fn models(items: Seq<PatternValue>) -> Seq<ValueModel>
    decreases items,
{
    Seq::new(
        items.len(),
        |i: int|
            if 0 <= i < items.len() {
                items[i].model()
            } else {
                arbitrary()
            },
    )
}

/// The models of a list of fields, in order.
pub open spec fn field_models(fields: Seq<Field>) -> Seq<FieldModel>
    decreases fields,
{
    Seq::new(
        fields.len(),
        |i: int|
            if 0 <= i < fields.len() {
                FieldModel { name: fields[i].name@, value: fields[i].value.model() }
            } else {
                arbitrary()
            },
    )
}

impl View for Field {
    type V = FieldModel;

    open spec fn view(&self) -> FieldModel {
        FieldModel { name: self.name@, value: self.value.model() }
    }
}

impl View for PatternValue {
    type V = ValueModel;

    open spec fn view(&self) -> ValueModel {
        self.model()
    }
}

impl PatternValue {
    /// A copy of the value.
    pub fn duplicate(&self) -> (copy: PatternValue)
        ensures
            copy@ == self@,
        decreases self,
    {
        match self {
            PatternValue::Int(n) => PatternValue::Int(*n),
            PatternValue::Bool(b) => PatternValue::Bool(*b),
            PatternValue::Tuple(items) => PatternValue::Tuple(duplicate_all(items)),
            PatternValue::Sequence(items) => PatternValue::Sequence(duplicate_all(items)),
            PatternValue::Variant { tag, fields } => PatternValue::Variant {
                tag: tag.clone(),
                fields: duplicate_fields(fields),
            },
            PatternValue::Reference(inner) => PatternValue::Reference(Box::new(inner.duplicate())),
        }
    }

    /// The value that this one refers to in the end.
    pub fn referent(&self) -> (target: &PatternValue)
        ensures
            target@ == referent(self@),
            !(target@ is Reference),
        decreases self,
    {
        match self {
            PatternValue::Reference(inner) => inner.referent(),
            _ => self,
        }
    }

    /// Whether two values are the same value.
    pub fn same(&self, other: &PatternValue) -> (equal: bool)
        ensures
            equal == (self@ == other@),
        decreases self,
    {
        match self {
            PatternValue::Int(a) => match other {
                PatternValue::Int(b) => *a == *b,
                _ => false,
            },
            PatternValue::Bool(a) => match other {
                PatternValue::Bool(b) => *a == *b,
                _ => false,
            },
            PatternValue::Tuple(a) => match other {
                PatternValue::Tuple(b) => same_all(a, b),
                _ => false,
            },
            PatternValue::Sequence(a) => match other {
                PatternValue::Sequence(b) => same_all(a, b),
                _ => false,
            },
            PatternValue::Variant { tag: tag_a, fields: fields_a } => match other {
                PatternValue::Variant { tag: tag_b, fields: fields_b } => *tag_a == *tag_b
                    && same_fields(fields_a, fields_b),
                _ => false,
            },
            PatternValue::Reference(a) => match other {
                PatternValue::Reference(b) => a.same(b),
                _ => false,
            },
        }
    }
}

impl PartialEq for PatternValue {
    fn eq(&self, other: &PatternValue) -> (equal: bool) {
        self.same(other)
    }
}

impl PartialEqSpecImpl for PatternValue {
    open spec fn obeys_eq_spec() -> bool {
        true
    }

    open spec fn eq_spec(&self, other: &PatternValue) -> bool {
        self@ == other@
    }
}

impl Eq for PatternValue {

}

impl Clone for Field {
    fn clone(&self) -> (copy: Field)
        ensures
            copy@ == self@,
    {
        Field { name: self.name.clone(), value: self.value.duplicate() }
    }
}

impl Clone for PatternValue {
    fn clone(&self) -> (copy: PatternValue)
        ensures
            copy@ == self@,
    {
        self.duplicate()
    }
}

/// Copies of the values of a list, in order.
pub fn duplicate_all(items: &Vec<PatternValue>) -> (copies: Vec<PatternValue>)
    ensures
        models(copies@) == models(items@),
    decreases items,
{
    let mut copies: Vec<PatternValue> = Vec::new();
    let mut i: usize = 0;
    while i < items.len()
        invariant
            i <= items@.len(),
            copies@.len() == i,
            forall|k: int| 0 <= k < i ==> (#[trigger] copies@[k]).model() == items@[k].model(),
        decreases items@.len() - i,
    {
        copies.push(items[i].duplicate());
        i += 1;
    }
    assert(models(copies@) =~= models(items@));
    copies
}

/// Copies of the fields of a list, in order.
pub fn duplicate_fields(fields: &Vec<Field>) -> (copies: Vec<Field>)
    ensures
        field_models(copies@) == field_models(fields@),
    decreases fields,
{
    let mut copies: Vec<Field> = Vec::new();
    let mut i: usize = 0;
    while i < fields.len()
        invariant
            i <= fields@.len(),
            copies@.len() == i,
            forall|k: int| 0 <= k < i ==> (#[trigger] copies@[k])@ == fields@[k]@,
        decreases fields@.len() - i,
    {
        let field = &fields[i];
        copies.push(Field { name: field.name.clone(), value: field.value.duplicate() });
        i += 1;
    }
    assert(field_models(copies@) =~= field_models(fields@));
    copies
}

/// Whether two lists hold the same values in the same order.
pub fn same_all(left: &Vec<PatternValue>, right: &Vec<PatternValue>) -> (equal: bool)
    ensures
        equal == (models(left@) == models(right@)),
    decreases left,
{
    if left.len() != right.len() {
        assert(models(left@).len() != models(right@).len());
        return false;
    }
    let mut i: usize = 0;
    while i < left.len()
        invariant
            i <= left@.len(),
            left@.len() == right@.len(),
            forall|k: int| 0 <= k < i ==> (#[trigger] left@[k]).model() == right@[k].model(),
        decreases left@.len() - i,
    {
        if !left[i].same(&right[i]) {
            assert(models(left@)[i as int] != models(right@)[i as int]);
            return false;
        }
        i += 1;
    }
    assert(models(left@) =~= models(right@));
    true
}

/// Whether two lists hold the same fields in the same order.
pub fn same_fields(left: &Vec<Field>, right: &Vec<Field>) -> (equal: bool)
    ensures
        equal == (field_models(left@) == field_models(right@)),
    decreases left,
{
    if left.len() != right.len() {
        assert(field_models(left@).len() != field_models(right@).len());
        return false;
    }
    let mut i: usize = 0;
    while i < left.len()
        invariant
            i <= left@.len(),
            left@.len() == right@.len(),
            forall|k: int| 0 <= k < i ==> (#[trigger] left@[k])@ == right@[k]@,
        decreases left@.len() - i,
    {
        let a = &left[i];
        let b = &right[i];
        if !(a.name == b.name) || !a.value.same(&b.value) {
            assert(field_models(left@)[i as int] != field_models(right@)[i as int]);
            return false;
        }
        i += 1;
    }
    assert(field_models(left@) =~= field_models(right@));
    true
}

} // verus!
