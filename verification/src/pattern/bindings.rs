//! The names a match binds and what it binds them to.

use vstd::prelude::*;
use crate::pattern::value::{PatternValue, ValueModel};

verus! {

/// What a name is bound to.
#[derive(Debug, PartialEq, Eq)]
pub enum Bound {
    /// A copy of the value that stood at the binding's place.
    Value(PatternValue),
    /// The place itself: the positions that lead to it from the matched value,
    /// outermost first. It lets the holder update the matched value in place.
    Slot(Vec<usize>),
}

/// One name and what it is bound to.
#[derive(Debug, PartialEq, Eq)]
pub struct Binding {
    pub name: String,
    pub bound: Bound,
}

/// The bindings of a match, in the order in which the pattern made them.
///
/// Where a name is bound more than once, the last binding is the one in force.
#[derive(Debug, PartialEq, Eq)]
pub struct Bindings {
    pub entries: Vec<Binding>,
}

/// The mathematical model of a [`Bound`].
pub ghost enum BoundModel {
    Value(ValueModel),
    Slot(Seq<int>),
}

/// The model of a list of positions: the positions as integers.
pub open spec fn positions(path: Seq<usize>) -> Seq<int> {
    Seq::new(path.len(), |i: int| path[i] as int)
}

/// The mathematical model of a [`Binding`].
pub ghost struct BindingModel {
    pub name: Seq<char>,
    pub bound: BoundModel,
}

impl View for Bound {
    type V = BoundModel;

    open spec fn view(&self) -> BoundModel {
        match self {
            Bound::Value(v) => BoundModel::Value(v@),
            Bound::Slot(path) => BoundModel::Slot(positions(path@)),
        }
    }
}

impl View for Binding {
    type V = BindingModel;

    open spec fn view(&self) -> BindingModel {
        BindingModel { name: self.name@, bound: self.bound@ }
    }
}

/// The models of a list of bindings, in order.
pub open spec fn binding_models(entries: Seq<Binding>) -> Seq<BindingModel> {
    Seq::new(entries.len(), |i: int| entries[i]@)
}

impl View for Bindings {
    type V = Seq<BindingModel>;

    open spec fn view(&self) -> Seq<BindingModel> {
        binding_models(self.entries@)
    }
}

/// What `name` is bound to in `bindings`: the last binding of that name, if
/// there is one.
pub open spec fn lookup(bindings: Seq<BindingModel>, name: Seq<char>) -> Option<BoundModel>
    decreases bindings.len(),
{
    if bindings.len() == 0 {
        None
    } else if bindings.last().name == name {
        Some(bindings.last().bound)
    } else {
        lookup(bindings.drop_last(), name)
    }
}

/// The bindings as a map from each bound name to what is in force for it.
pub open spec fn binding_map(bindings: Seq<BindingModel>) -> Map<Seq<char>, BoundModel> {
    Map::new(
        |name: Seq<char>| lookup(bindings, name) is Some,
        |name: Seq<char>| lookup(bindings, name)->Some_0,
    )
}

impl Bindings {
    /// No bindings.
    pub fn new() -> (bindings: Bindings)
        ensures
            bindings@ == Seq::<BindingModel>::empty(),
    {
        let bindings = Bindings { entries: Vec::new() };
        assert(bindings@ =~= Seq::<BindingModel>::empty());
        bindings
    }

    /// The number of bindings made, shadowed ones included.
    pub fn len(&self) -> (n: usize)
        ensures
            n == self@.len(),
    {
        self.entries.len()
    }

    /// Whether no binding was made.
    pub fn is_empty(&self) -> (empty: bool)
        ensures
            empty == (self@.len() == 0),
    {
        self.entries.len() == 0
    }

    /// What `name` is bound to, if it is bound: the entry of the map of the
    /// bindings for the name, which is the last binding of the name.
    pub fn get(&self, name: &str) -> (found: Option<&Bound>)
        ensures
            match found {
                Some(bound) => lookup(self@, name@) == Some(bound@),
                None => lookup(self@, name@) is None,
            },
            found is Some == binding_map(self@).dom().contains(name@),
            found matches Some(bound) ==> binding_map(self@)[name@] == bound@,
    {
        let key = name.to_owned();
        let mut i: usize = self.entries.len();
        assert(self@.subrange(0, i as int) =~= self@);
        while i > 0
            invariant
                i <= self.entries@.len(),
                key@ == name@,
                lookup(self@, name@) == lookup(self@.subrange(0, i as int), name@),
            decreases i,
        {
            i -= 1;
            let entry = &self.entries[i];
            assert(self@.subrange(0, i + 1).last() == entry@);
            assert(self@.subrange(0, i + 1).drop_last() =~= self@.subrange(0, i as int));
            if entry.name == key {
                return Some(&entry.bound);
            }
        }
        None
    }

    /// The value that `name` is bound to, if it is bound to a value.
    pub fn value(&self, name: &str) -> (found: Option<&PatternValue>)
        ensures
            match found {
                Some(v) => lookup(self@, name@) == Some(BoundModel::Value(v@)),
                None => !(lookup(self@, name@) matches Some(BoundModel::Value(_))),
            },
    {
        match self.get(name) {
            Some(Bound::Value(v)) => Some(v),
            _ => None,
        }
    }
}

} // verus!
