//! Matching a value against one pattern, or against the arms of a match.

use vstd::prelude::*;
use crate::pattern::bindings::{Binding, BindingModel, Bindings, binding_models, positions};
use crate::pattern::matcher::unify_into;
use crate::pattern::shape::{Pattern, is_match, unify};
use crate::pattern::value::{PatternValue, ValueModel};

verus! {

/// Why a match or the construction of one failed.
#[derive(Clone, Copy, Debug, PartialEq, Eq, Structural)]
pub enum MatchError {
    /// No arm matched the value.
    NonExhaustiveMatch,
    /// A pattern, or the list of arms, is not of a form that can be matched
    /// against.
    MalformedPattern,
}

/// One arm of a match: a pattern and what to do where it is selected.
#[derive(Debug, PartialEq, Eq)]
pub struct Arm<A> {
    pub pattern: Pattern,
    pub action: A,
}

/// The arm that a match selected.
#[derive(Debug, PartialEq, Eq)]
pub struct Selection<'a, A> {
    /// The position of the arm among the arms.
    pub index: usize,
    /// The arm's action.
    pub action: &'a A,
    /// The bindings that the arm's pattern made.
    pub bindings: Bindings,
}

/// The position of the first arm from `from` on whose pattern `v` matches.
pub open spec fn first_match<A>(v: ValueModel, arms: Seq<Arm<A>>, from: int) -> Option<int>
    decreases arms.len() - from,
{
    if from < 0 || from >= arms.len() {
        None
    } else if is_match(v, arms[from].pattern) {
        Some(from)
    } else {
        first_match(v, arms, from + 1)
    }
}

/// Matches `value` against `pattern` alone: the bindings where it matches,
/// `None` where it does not.
pub fn try_match_one(value: &PatternValue, pattern: &Pattern) -> (found: Option<Bindings>)
    ensures
        match found {
            Some(bindings) => unify(value@, *pattern, Seq::empty()) == Some(bindings@),
            None => !is_match(value@, *pattern),
        },
{
    let mut path: Vec<usize> = Vec::new();
    let mut entries: Vec<Binding> = Vec::new();
    assert(binding_models(entries@) =~= Seq::<BindingModel>::empty());
    assert(positions(path@) =~= Seq::<int>::empty());
    if unify_into(value, pattern, &mut path, &mut entries) {
        assert(Seq::<BindingModel>::empty() + binding_models(entries@) =~= binding_models(
            entries@,
        ));
        Some(Bindings { entries })
    } else {
        None
    }
}

/// Matches `value` against the arms in their order and selects the first
/// whose pattern it matches. Where it matches none, the match is not
/// exhaustive.
pub fn match_value<'a, A>(value: &PatternValue, arms: &'a Vec<Arm<A>>) -> (r: Result<
    Selection<'a, A>,
    MatchError,
>)
    ensures
        match r {
            Ok(selection) => {
                &&& first_match(value@, arms@, 0) == Some(selection.index as int)
                &&& selection.index < arms@.len()
                &&& *selection.action == arms@[selection.index as int].action
                &&& unify(value@, arms@[selection.index as int].pattern, Seq::empty()) == Some(
                    selection.bindings@,
                )
            },
            Err(e) => e == MatchError::NonExhaustiveMatch && first_match(value@, arms@, 0) is None,
        },
{
    let mut i: usize = 0;
    while i < arms.len()
        invariant
            i <= arms@.len(),
            first_match(value@, arms@, 0) == first_match(value@, arms@, i as int),
        decreases arms@.len() - i,
    {
        let arm = &arms[i];
        match try_match_one(value, &arm.pattern) {
            Some(bindings) => {
                return Ok(Selection { index: i, action: &arm.action, bindings });
            },
            None => {},
        }
        i += 1;
    }
    Err(MatchError::NonExhaustiveMatch)
}

/// Whether `action` can be run on bindings with the model `bindings`.
pub open spec fn takes<R, F: Fn(&Bindings) -> R>(action: F, bindings: Seq<BindingModel>) -> bool {
    forall|b: Bindings| b@ == bindings ==> #[trigger] action.requires((&b,))
}

/// Whether `result` is what `action` can give for bindings with the model
/// `bindings`.
pub open spec fn gives<R, F: Fn(&Bindings) -> R>(
    action: F,
    bindings: Seq<BindingModel>,
    result: R,
) -> bool {
    exists|b: Bindings| b@ == bindings && #[trigger] action.ensures((&b,), result)
}

/// Matches `value` against the arms in their order, selects the first whose
/// pattern it matches and runs its action on the bindings: what the action
/// gives is the result of the match. Where the value matches no arm, the
/// match is not exhaustive and no action is run.
pub fn run_match<R, F: Fn(&Bindings) -> R>(value: &PatternValue, arms: &Vec<Arm<F>>) -> (r: Result<
    R,
    MatchError,
>)
    requires
        first_match(value@, arms@, 0) matches Some(i) ==> takes(
            arms@[i].action,
            unify(value@, arms@[i].pattern, Seq::empty())->Some_0,
        ),
    ensures
        match r {
            Ok(result) => first_match(value@, arms@, 0) matches Some(i) && gives(
                arms@[i].action,
                unify(value@, arms@[i].pattern, Seq::empty())->Some_0,
                result,
            ),
            Err(e) => e == MatchError::NonExhaustiveMatch && first_match(value@, arms@, 0) is None,
        },
{
    match match_value(value, arms) {
        Ok(selection) => {
            let action = selection.action;
            let bindings = selection.bindings;
            let result = action(&bindings);
            assert(action.ensures((&bindings,), result));
            Ok(result)
        },
        Err(e) => Err(e),
    }
}

/// The first arm that matches is the one selected: where the value matches
/// the arm at `i` and none before it, the match selects the arm at `i`, and so
/// none after it, whether a later arm would match or not.
pub proof fn law_first_match_wins<A>(v: ValueModel, arms: Seq<Arm<A>>, i: int)
    requires
        0 <= i < arms.len(),
        is_match(v, arms[i].pattern),
        forall|k: int| 0 <= k < i ==> !is_match(v, #[trigger] arms[k].pattern),
    ensures
        first_match(v, arms, 0) == Some(i),
{
    lemma_first_match_skips(v, arms, 0, i);
}

/// Where the value matches an arm, the match selects that arm or one before
/// it, and never one after it, whether a later arm would match or not.
pub proof fn law_no_later_arm_is_selected<A>(v: ValueModel, arms: Seq<Arm<A>>, i: int)
    requires
        0 <= i < arms.len(),
        is_match(v, arms[i].pattern),
    ensures
        first_match(v, arms, 0) matches Some(k) && 0 <= k <= i,
{
    lemma_first_match_found(v, arms, 0);
    if first_match(v, arms, 0) is None {
        lemma_first_match_none(v, arms, 0, i);
    }
}

/// A match selects an arm exactly where the value matches some arm, and the
/// arm it selects matches.
pub proof fn law_selection_matches<A>(v: ValueModel, arms: Seq<Arm<A>>)
    ensures
        first_match(v, arms, 0) is Some <==> exists|i: int|
            0 <= i < arms.len() && is_match(v, #[trigger] arms[i].pattern),
        first_match(v, arms, 0) matches Some(i) ==> {
            &&& 0 <= i < arms.len()
            &&& is_match(v, arms[i].pattern)
            &&& forall|k: int| 0 <= k < i ==> !is_match(v, #[trigger] arms[k].pattern)
        },
{
    lemma_first_match_found(v, arms, 0);
    if exists|i: int| 0 <= i < arms.len() && is_match(v, #[trigger] arms[i].pattern) {
        let i = choose|i: int| 0 <= i < arms.len() && is_match(v, #[trigger] arms[i].pattern);
        if first_match(v, arms, 0) is None {
            lemma_first_match_none(v, arms, 0, i);
        }
    }
}

/// Matching against one pattern is matching against two arms, the pattern and
/// then a wildcard that stands for "no match": the second arm always matches,
/// so the match is never without a selected arm, and the first arm is selected
/// exactly where the pattern matches.
pub proof fn law_try_match_one_is_two_arm_match(v: ValueModel, pattern: Pattern)
    ensures
        first_match(
            v,
            seq![Arm { pattern, action: true }, Arm { pattern: Pattern::Wildcard, action: false }],
            0,
        ) == Some(
            if is_match(v, pattern) {
                0int
            } else {
                1int
            },
        ),
{
    let arms = seq![
        Arm { pattern, action: true },
        Arm { pattern: Pattern::Wildcard, action: false },
    ];
    assert(arms[0].pattern == pattern);
    assert(arms[1].pattern == Pattern::Wildcard);
    assert(is_match(v, Pattern::Wildcard));
    reveal_with_fuel(first_match, 3);
}

proof fn lemma_first_match_skips<A>(v: ValueModel, arms: Seq<Arm<A>>, from: int, i: int)
    requires
        0 <= from <= i < arms.len(),
        is_match(v, arms[i].pattern),
        forall|k: int| from <= k < i ==> !is_match(v, #[trigger] arms[k].pattern),
    ensures
        first_match(v, arms, from) == Some(i),
    decreases i - from,
{
    if from < i {
        lemma_first_match_skips(v, arms, from + 1, i);
    }
}

proof fn lemma_first_match_found<A>(v: ValueModel, arms: Seq<Arm<A>>, from: int)
    requires
        0 <= from,
    ensures
        first_match(v, arms, from) matches Some(i) ==> {
            &&& from <= i < arms.len()
            &&& is_match(v, arms[i].pattern)
            &&& forall|k: int| from <= k < i ==> !is_match(v, #[trigger] arms[k].pattern)
        },
    decreases arms.len() - from,
{
    if from < arms.len() && !is_match(v, arms[from].pattern) {
        lemma_first_match_found(v, arms, from + 1);
    }
}

proof fn lemma_first_match_none<A>(v: ValueModel, arms: Seq<Arm<A>>, from: int, i: int)
    requires
        0 <= from <= i < arms.len(),
        first_match(v, arms, from) is None,
    ensures
        !is_match(v, arms[i].pattern),
    decreases i - from,
{
    if from < i {
        lemma_first_match_none(v, arms, from + 1, i);
    }
}

} // verus!
