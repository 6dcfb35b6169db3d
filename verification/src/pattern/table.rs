//! A match whose arms were checked, when it was built, to cover the values
//! it is meant for.

use vstd::prelude::*;
use crate::pattern::bindings::Bindings;
use crate::pattern::cover::{VariantForm, agrees_with_forms, covers_boolean, covers_form,
    covers_integer, irrefutable, law_covered_boolean_matches, law_covered_form_matches,
    law_covered_integer_matches, law_irrefutable_matches};
use crate::pattern::select::{Arm, MatchError, Selection, first_match, gives, law_selection_matches,
    match_value, run_match, takes};
use crate::pattern::shape::{Bounds, is_match, unify};
use crate::pattern::value::{PatternValue, ValueModel, field_models, referent};

verus! {

/// The values a match is meant for.
#[derive(Debug, PartialEq, Eq)]
pub enum Domain {
    /// The two booleans.
    Boolean,
    /// The integers within bounds.
    Integers(Bounds),
    /// The variants of a closed set of forms.
    Variants(Vec<VariantForm>),
    /// Values of a kind without end, which only an arm that matches every
    /// value can cover.
    Open,
}

/// Whether the arms are well formed for the domain: over a closed set of
/// forms each arm agrees with the forms, and over an open domain the last arm
/// matches every value. Over the booleans and over integers within bounds
/// every list of arms is well formed.
pub open spec fn well_formed<A>(domain: Domain, arms: Seq<Arm<A>>) -> bool {
    match domain {
        Domain::Boolean => true,
        Domain::Integers(_) => true,
        Domain::Variants(forms) => forall|i: int|
            0 <= i < arms.len() ==> agrees_with_forms(#[trigger] arms[i].pattern, forms@),
        Domain::Open => arms.len() > 0 && irrefutable(arms.last().pattern),
    }
}

/// Whether the text of some arm shows that it matches the boolean `b`.
pub open spec fn boolean_covered<A>(arms: Seq<Arm<A>>, b: bool) -> bool {
    exists|i: int| 0 <= i < arms.len() && covers_boolean(#[trigger] arms[i].pattern, b)
}

/// Whether the text of some arm shows that it matches the integer `n`.
pub open spec fn integer_covered<A>(arms: Seq<Arm<A>>, n: int) -> bool {
    exists|i: int| 0 <= i < arms.len() && covers_integer(#[trigger] arms[i].pattern, n)
}

/// Whether the text of some arm shows that it matches every variant of the
/// form.
pub open spec fn form_covered<A>(arms: Seq<Arm<A>>, form: VariantForm) -> bool {
    exists|i: int| 0 <= i < arms.len() && covers_form(#[trigger] arms[i].pattern, form)
}

/// Whether the text of the arms shows that they cover the domain.
pub open spec fn exhaustive<A>(domain: Domain, arms: Seq<Arm<A>>) -> bool {
    match domain {
        Domain::Boolean => boolean_covered(arms, true) && boolean_covered(arms, false),
        Domain::Integers(bounds) => forall|n: int|
            bounds.low <= n <= bounds.high ==> #[trigger] integer_covered(arms, n),
        Domain::Variants(forms) => forall|k: int|
            0 <= k < forms@.len() ==> form_covered(arms, #[trigger] forms@[k]),
        Domain::Open => arms.len() > 0 && irrefutable(arms.last().pattern),
    }
}

/// Whether `v` is a value of the domain.
pub open spec fn in_domain(domain: Domain, v: ValueModel) -> bool {
    match domain {
        Domain::Boolean => referent(v) is Bool,
        Domain::Integers(bounds) => bounds.holds(referent(v)),
        Domain::Variants(forms) => referent(v) matches ValueModel::Variant { tag, fields }
            && exists|k: int| 0 <= k < forms@.len() && (#[trigger] forms@[k]).shapes(tag, fields),
        Domain::Open => true,
    }
}

/// A match over a domain, with arms that cover it.
pub struct MatchTable<A> {
    domain: Domain,
    arms: Vec<Arm<A>>,
}

impl<A> MatchTable<A> {
    /// The domain of the match.
    pub closed spec fn domain(&self) -> Domain {
        self.domain
    }

    /// The arms of the match.
    pub closed spec fn arms(&self) -> Seq<Arm<A>> {
        self.arms@
    }

    /// What holds of every table: its arms are well formed for its domain and
    /// cover it.
    #[verifier::type_invariant]
    pub closed spec fn valid(&self) -> bool {
        well_formed(self.domain, self.arms@) && exhaustive(self.domain, self.arms@)
    }
}

/// Arms whose text shows that they cover a domain match every value of it:
/// for such a value the match selects an arm.
pub proof fn law_exhaustive_arms_select<A>(domain: Domain, arms: Seq<Arm<A>>, v: ValueModel)
    requires
        exhaustive(domain, arms),
        in_domain(domain, v),
    ensures
        first_match(v, arms, 0) is Some,
{
    let i = match domain {
        Domain::Boolean => {
            let b = referent(v)->Bool_0;
            let i = choose|i: int|
                0 <= i < arms.len() && covers_boolean(#[trigger] arms[i].pattern, b);
            law_covered_boolean_matches(v, arms[i].pattern, b);
            i
        },
        Domain::Integers(bounds) => {
            let n = referent(v)->Int_0;
            assert(integer_covered(arms, n));
            let i = choose|i: int|
                0 <= i < arms.len() && covers_integer(#[trigger] arms[i].pattern, n);
            law_covered_integer_matches(v, arms[i].pattern, n);
            i
        },
        Domain::Variants(forms) => {
            let tag = referent(v)->Variant_tag;
            let fields = referent(v)->Variant_fields;
            let k = choose|k: int|
                0 <= k < forms@.len() && (#[trigger] forms@[k]).shapes(tag, fields);
            let i = choose|i: int|
                0 <= i < arms.len() && covers_form(#[trigger] arms[i].pattern, forms@[k]);
            law_covered_form_matches(v, arms[i].pattern, forms@[k]);
            i
        },
        Domain::Open => {
            law_irrefutable_matches(v, arms.last().pattern, Seq::empty());
            arms.len() - 1
        },
    };
    assert(0 <= i < arms.len() && is_match(v, arms[i].pattern));
    law_selection_matches(v, arms);
}

/// Whether the text of some arm shows that it matches the boolean `b`.
fn some_arm_is_for_boolean<A>(arms: &Vec<Arm<A>>, b: bool) -> (r: bool)
    ensures
        r == boolean_covered(arms@, b),
{
    let mut i: usize = 0;
    while i < arms.len()
        invariant
            i <= arms@.len(),
            forall|k: int| 0 <= k < i ==> !covers_boolean(#[trigger] arms@[k].pattern, b),
        decreases arms@.len() - i,
    {
        if arms[i].pattern.is_for_boolean(b) {
            return true;
        }
        i += 1;
    }
    false
}

/// Whether the text of some arm shows that it matches every variant of the
/// form.
fn some_arm_is_for_form<A>(arms: &Vec<Arm<A>>, form: &VariantForm) -> (r: bool)
    ensures
        r == form_covered(arms@, *form),
{
    let mut i: usize = 0;
    while i < arms.len()
        invariant
            i <= arms@.len(),
            forall|k: int| 0 <= k < i ==> !covers_form(#[trigger] arms@[k].pattern, *form),
        decreases arms@.len() - i,
    {
        if arms[i].pattern.is_for_form(form) {
            return true;
        }
        i += 1;
    }
    false
}

/// How far the text of some arm shows it to match from `n` on.
fn some_arm_reach<A>(arms: &Vec<Arm<A>>, n: i64) -> (r: Option<i64>)
    ensures
        r is Some == integer_covered(arms@, n as int),
        r matches Some(last) ==> n <= last && forall|k: int|
            n <= k <= last ==> #[trigger] integer_covered(arms@, k),
{
    let mut i: usize = 0;
    while i < arms.len()
        invariant
            i <= arms@.len(),
            forall|k: int| 0 <= k < i ==> !covers_integer(#[trigger] arms@[k].pattern, n as int),
        decreases arms@.len() - i,
    {
        match arms[i].pattern.reach(n) {
            Some(last) => {
                assert forall|k: int| n <= k <= last implies #[trigger] integer_covered(
                    arms@,
                    k,
                ) by {
                    assert(covers_integer(arms@[i as int].pattern, k));
                }
                return Some(last);
            },
            None => {},
        }
        i += 1;
    }
    None
}

/// Whether the text of the arms shows that they match every integer within
/// the bounds: from the lower bound on, each integer not yet shown to be
/// matched must begin a stretch that some arm matches.
fn integers_are_covered<A>(arms: &Vec<Arm<A>>, bounds: &Bounds) -> (r: bool)
    ensures
        r == forall|n: int| bounds.low <= n <= bounds.high ==> #[trigger] integer_covered(arms@, n),
{
    if bounds.low > bounds.high {
        return true;
    }
    let mut next: i64 = bounds.low;
    loop
        invariant
            bounds.low <= next <= bounds.high,
            forall|n: int| bounds.low <= n < next ==> #[trigger] integer_covered(arms@, n),
        decreases bounds.high - next,
    {
        match some_arm_reach(arms, next) {
            Some(last) => {
                if last >= bounds.high {
                    return true;
                }
                next = last + 1;
            },
            None => {
                return false;
            },
        }
    }
}

/// Whether the arms are well formed for the domain.
#[verifier::loop_isolation(false)]
fn arms_are_well_formed<A>(domain: &Domain, arms: &Vec<Arm<A>>) -> (r: bool)
    ensures
        r == well_formed(*domain, arms@),
{
    match domain {
        Domain::Boolean => true,
        Domain::Integers(_) => true,
        Domain::Variants(forms) => {
            let mut i: usize = 0;
            while i < arms.len()
                invariant
                    i <= arms@.len(),
                    forall|k: int|
                        0 <= k < i ==> agrees_with_forms(#[trigger] arms@[k].pattern, forms@),
                decreases arms@.len() - i,
            {
                if !arms[i].pattern.agrees_with(forms) {
                    return false;
                }
                i += 1;
            }
            true
        },
        Domain::Open => arms.len() > 0 && arms[arms.len() - 1].pattern.is_irrefutable(),
    }
}

/// Whether the text of the arms shows that they cover the domain.
#[verifier::loop_isolation(false)]
fn arms_are_exhaustive<A>(domain: &Domain, arms: &Vec<Arm<A>>) -> (r: bool)
    ensures
        r == exhaustive(*domain, arms@),
{
    match domain {
        Domain::Boolean => some_arm_is_for_boolean(arms, true) && some_arm_is_for_boolean(
            arms,
            false,
        ),
        Domain::Integers(bounds) => integers_are_covered(arms, bounds),
        Domain::Variants(forms) => {
            let mut k: usize = 0;
            while k < forms.len()
                invariant
                    k <= forms@.len(),
                    forall|j: int| 0 <= j < k ==> form_covered(arms@, #[trigger] forms@[j]),
                decreases forms@.len() - k,
            {
                if !some_arm_is_for_form(arms, &forms[k]) {
                    return false;
                }
                k += 1;
            }
            true
        },
        Domain::Open => arms.len() > 0 && arms[arms.len() - 1].pattern.is_irrefutable(),
    }
}

impl Domain {
    /// Whether `value` is a value of the domain.
    #[verifier::loop_isolation(false)]
    pub fn contains(&self, value: &PatternValue) -> (r: bool)
        ensures
            r == in_domain(*self, value@),
    {
        match self {
            Domain::Boolean => match value.referent() {
                PatternValue::Bool(_) => true,
                _ => false,
            },
            Domain::Integers(bounds) => bounds.contains(value.referent()),
            Domain::Variants(forms) => match value.referent() {
                PatternValue::Variant { tag, fields } => {
                    let mut k: usize = 0;
                    while k < forms.len()
                        invariant
                            k <= forms@.len(),
                            forall|j: int|
                                0 <= j < k ==> !(#[trigger] forms@[j]).shapes(
                                    tag@,
                                    field_models(fields@),
                                ),
                        decreases forms@.len() - k,
                    {
                        if forms[k].is_form_of(tag, fields) {
                            return true;
                        }
                        k += 1;
                    }
                    false
                },
                _ => false,
            },
            Domain::Open => true,
        }
    }
}

impl<A> MatchTable<A> {
    /// A match over `domain` with the given arms.
    ///
    /// It is refused as malformed where the arms are not well formed for the
    /// domain, and as not exhaustive where their text does not show that they
    /// cover it.
    pub fn new(domain: Domain, arms: Vec<Arm<A>>) -> (r: Result<MatchTable<A>, MatchError>)
        ensures
            match r {
                Ok(table) => {
                    &&& table.domain() == domain
                    &&& table.arms() == arms@
                    &&& well_formed(domain, arms@)
                    &&& exhaustive(domain, arms@)
                },
                Err(MatchError::MalformedPattern) => !well_formed(domain, arms@),
                Err(MatchError::NonExhaustiveMatch) => well_formed(domain, arms@) && !exhaustive(
                    domain,
                    arms@,
                ),
            },
    {
        if !arms_are_well_formed(&domain, &arms) {
            return Err(MatchError::MalformedPattern);
        }
        if !arms_are_exhaustive(&domain, &arms) {
            return Err(MatchError::NonExhaustiveMatch);
        }
        Ok(MatchTable { domain, arms })
    }

    /// The number of arms.
    pub fn arm_count(&self) -> (n: usize)
        ensures
            n == self.arms().len(),
    {
        self.arms.len()
    }

    /// Whether `value` is a value of the match's domain.
    pub fn admits(&self, value: &PatternValue) -> (r: bool)
        ensures
            r == in_domain(self.domain(), value@),
    {
        self.domain.contains(value)
    }

    /// Matches `value` against the arms in their order and selects the first
    /// whose pattern it matches. For a value of the domain there is one; for
    /// another value there may be none.
    pub fn evaluate<'a>(&'a self, value: &PatternValue) -> (r: Result<Selection<'a, A>, MatchError>)
        ensures
            in_domain(self.domain(), value@) ==> r is Ok,
            match r {
                Ok(selection) => {
                    &&& first_match(value@, self.arms(), 0) == Some(selection.index as int)
                    &&& selection.index < self.arms().len()
                    &&& *selection.action == self.arms()[selection.index as int].action
                    &&& unify(value@, self.arms()[selection.index as int].pattern, Seq::empty())
                        == Some(selection.bindings@)
                },
                Err(e) => e == MatchError::NonExhaustiveMatch && first_match(
                    value@,
                    self.arms(),
                    0,
                ) is None,
            },
    {
        proof {
            use_type_invariant(self);
            if in_domain(self.domain, value@) {
                law_exhaustive_arms_select(self.domain, self.arms@, value@);
            }
        }
        match_value(value, &self.arms)
    }
}

impl<R, F: Fn(&Bindings) -> R> MatchTable<F> {
    /// Matches `value` against the arms in their order, selects the first
    /// whose pattern it matches and runs its action on the bindings. For a
    /// value of the domain an arm is selected and its action run.
    pub fn run(&self, value: &PatternValue) -> (r: Result<R, MatchError>)
        requires
            first_match(value@, self.arms(), 0) matches Some(i) ==> takes(
                self.arms()[i].action,
                unify(value@, self.arms()[i].pattern, Seq::empty())->Some_0,
            ),
        ensures
            in_domain(self.domain(), value@) ==> r is Ok,
            match r {
                Ok(result) => first_match(value@, self.arms(), 0) matches Some(i) && gives(
                    self.arms()[i].action,
                    unify(value@, self.arms()[i].pattern, Seq::empty())->Some_0,
                    result,
                ),
                Err(e) => e == MatchError::NonExhaustiveMatch && first_match(
                    value@,
                    self.arms(),
                    0,
                ) is None,
            },
    {
        proof {
            use_type_invariant(self);
            if in_domain(self.domain, value@) {
                law_exhaustive_arms_select(self.domain, self.arms@, value@);
            }
        }
        run_match(value, &self.arms)
    }
}

} // verus!
