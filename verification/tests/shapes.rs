use castmatch::pattern::select::{try_match_one, MatchError};
use castmatch::pattern::shape::{Pattern, Rest};
use castmatch::pattern::slots::Slot;
use castmatch::pattern::value::PatternValue;

fn item(name: &str) -> Slot {
    Slot::Item(Pattern::bind(name))
}

fn seq(items: &[i64]) -> PatternValue {
    PatternValue::Sequence(items.iter().map(|n| PatternValue::Int(*n)).collect())
}

#[test]
fn sequence_shape_from_its_positions() {
    let built = Pattern::sequence(vec![item("first"), Slot::NamedRest("middle".to_string()), item("last")]);
    assert_eq!(
        built,
        Ok(Pattern::Sequence {
            before: vec![Pattern::bind("first")],
            rest: Rest::Named("middle".to_string()),
            after: vec![Pattern::bind("last")],
        })
    );
    let bindings = try_match_one(&seq(&[4, -2, 6]), &built.unwrap()).expect("the shape fits");
    assert_eq!(bindings.value("first"), Some(&PatternValue::Int(4)));
    assert_eq!(bindings.value("middle"), Some(&seq(&[-2])));
    assert_eq!(bindings.value("last"), Some(&PatternValue::Int(6)));
}

#[test]
fn the_rest_may_stand_anywhere_or_nowhere() {
    assert_eq!(
        Pattern::sequence(vec![item("a"), item("b")]),
        Ok(Pattern::Sequence {
            before: vec![Pattern::bind("a"), Pattern::bind("b")],
            rest: Rest::Absent,
            after: vec![],
        })
    );
    assert_eq!(
        Pattern::sequence(vec![Slot::Rest, item("a"), item("b")]),
        Ok(Pattern::Sequence {
            before: vec![],
            rest: Rest::Skipped,
            after: vec![Pattern::bind("a"), Pattern::bind("b")],
        })
    );
    assert_eq!(
        Pattern::sequence(vec![item("a"), item("b"), Slot::Rest]),
        Ok(Pattern::Sequence {
            before: vec![Pattern::bind("a"), Pattern::bind("b")],
            rest: Rest::Skipped,
            after: vec![],
        })
    );
    assert_eq!(
        Pattern::sequence(vec![Slot::NamedRest("all".to_string())]),
        Ok(Pattern::Sequence {
            before: vec![],
            rest: Rest::Named("all".to_string()),
            after: vec![],
        })
    );
    assert_eq!(
        Pattern::sequence(vec![]),
        Ok(Pattern::Sequence { before: vec![], rest: Rest::Absent, after: vec![] })
    );
    assert_eq!(
        Pattern::sequence(vec![
            Slot::Item(Pattern::integer(1)),
            Slot::Item(Pattern::Wildcard),
            Slot::Rest,
            Slot::Item(Pattern::integer(9)),
        ]),
        Ok(Pattern::Sequence {
            before: vec![Pattern::integer(1), Pattern::Wildcard],
            rest: Rest::Skipped,
            after: vec![Pattern::integer(9)],
        })
    );
}

#[test]
fn two_rest_placeholders_are_malformed() {
    assert_eq!(
        Pattern::sequence(vec![Slot::Rest, item("a"), Slot::Rest]),
        Err(MatchError::MalformedPattern)
    );
    assert_eq!(Pattern::sequence(vec![Slot::Rest, Slot::Rest]), Err(MatchError::MalformedPattern));
    assert_eq!(
        Pattern::sequence(vec![
            item("a"),
            Slot::NamedRest("m".to_string()),
            item("b"),
            Slot::NamedRest("n".to_string()),
            item("c"),
        ]),
        Err(MatchError::MalformedPattern)
    );
    assert_eq!(
        Pattern::sequence(vec![Slot::NamedRest("m".to_string()), Slot::Rest]),
        Err(MatchError::MalformedPattern)
    );
    assert_eq!(
        Pattern::tuple(vec![Slot::Rest, item("a"), Slot::Rest]),
        Err(MatchError::MalformedPattern)
    );
}

#[test]
fn tuple_shape_from_its_positions() {
    assert_eq!(
        Pattern::tuple(vec![Slot::Item(Pattern::integer(1)), Slot::Rest]),
        Ok(Pattern::Tuple { before: vec![Pattern::integer(1)], rest: true, after: vec![] })
    );
    assert_eq!(
        Pattern::tuple(vec![item("x"), item("y")]),
        Ok(Pattern::Tuple {
            before: vec![Pattern::bind("x"), Pattern::bind("y")],
            rest: false,
            after: vec![],
        })
    );
    assert_eq!(
        Pattern::tuple(vec![item("x"), Slot::Rest, item("y")]),
        Ok(Pattern::Tuple {
            before: vec![Pattern::bind("x")],
            rest: true,
            after: vec![Pattern::bind("y")],
        })
    );
    assert_eq!(Pattern::tuple(vec![]), Ok(Pattern::Tuple { before: vec![], rest: false, after: vec![] }));
}

#[test]
fn a_tuple_rest_cannot_bind_a_name() {
    assert_eq!(
        Pattern::tuple(vec![item("x"), Slot::NamedRest("others".to_string())]),
        Err(MatchError::MalformedPattern)
    );
    assert_eq!(
        Pattern::tuple(vec![Slot::NamedRest("all".to_string())]),
        Err(MatchError::MalformedPattern)
    );
}

#[test]
fn builders_give_the_forms_they_name() {
    assert_eq!(Pattern::integer(-3), Pattern::Literal(PatternValue::Int(-3)));
    assert_eq!(Pattern::boolean(true), Pattern::Literal(PatternValue::Bool(true)));
    assert_eq!(
        Pattern::bind("n"),
        Pattern::Binding { name: "n".to_string(), inner: None, range: None }
    );
    assert_eq!(Pattern::alias("m"), Pattern::Alias { name: "m".to_string() });
    assert!(try_match_one(&PatternValue::Int(3), &Pattern::within(3, 3)).is_some());
}
