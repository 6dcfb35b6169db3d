use castmatch::pattern::bindings::Bound;
use castmatch::pattern::select::try_match_one;
use castmatch::pattern::shape::{FieldPattern, Pattern, Rest};
use castmatch::pattern::value::{Field, PatternValue};

fn num(n: i64) -> PatternValue {
    PatternValue::Int(n)
}

fn place<'a>(bound: Option<&'a Bound>) -> &'a Vec<usize> {
    match bound {
        Some(Bound::Slot(path)) => path,
        other => panic!("not bound to a place: {:?}", other),
    }
}

fn sample() -> PatternValue {
    PatternValue::Tuple(vec![
        num(1),
        PatternValue::Sequence(vec![num(2), num(3), num(4)]),
        PatternValue::Variant {
            tag: "P".to_string(),
            fields: vec![
                Field { name: "x".to_string(), value: num(5) },
                Field { name: "y".to_string(), value: PatternValue::Reference(Box::new(num(6))) },
            ],
        },
    ])
}

#[test]
fn alias_of_the_whole_value_updates_it_in_place() {
    let mut value = num(6);
    let bindings = try_match_one(&value, &Pattern::alias("m")).expect("an alias matches all");
    let path = place(bindings.get("m")).clone();
    assert!(path.is_empty());
    let now = match value.at(&path) {
        Some(PatternValue::Int(n)) => *n,
        other => panic!("not an integer: {:?}", other),
    };
    assert!(value.put(&path, num(now + 10)));
    assert_eq!(value, num(16));
}

#[test]
fn alias_inside_a_structure_leads_to_its_position() {
    let mut value = sample();
    let pattern = Pattern::Tuple {
        before: vec![
            Pattern::Wildcard,
            Pattern::Sequence {
                before: vec![Pattern::Wildcard],
                rest: Rest::Skipped,
                after: vec![Pattern::alias("last")],
            },
            Pattern::Record {
                tag: "P".to_string(),
                fields: vec![
                    FieldPattern { name: "y".to_string(), pattern: Pattern::alias("y") },
                    FieldPattern {
                        name: "y".to_string(),
                        pattern: Pattern::bind_as("inner", Pattern::within(6, 6)),
                    },
                ],
            },
        ],
        rest: false,
        after: vec![],
    };
    let bindings = try_match_one(&value, &pattern).expect("the shape fits");
    let last = place(bindings.get("last")).clone();
    let y = place(bindings.get("y")).clone();
    assert_eq!(last, vec![1, 2]);
    assert_eq!(y, vec![2, 1]);
    assert_eq!(value.at(&last), Some(&num(4)));
    assert_eq!(value.at(&y), Some(&PatternValue::Reference(Box::new(num(6)))));
    assert_eq!(bindings.value("inner"), Some(&PatternValue::Reference(Box::new(num(6)))));

    assert!(value.put(&last, num(40)));
    assert!(value.put(&y, PatternValue::Bool(true)));
    assert_eq!(
        value,
        PatternValue::Tuple(vec![
            num(1),
            PatternValue::Sequence(vec![num(2), num(3), num(40)]),
            PatternValue::Variant {
                tag: "P".to_string(),
                fields: vec![
                    Field { name: "x".to_string(), value: num(5) },
                    Field { name: "y".to_string(), value: PatternValue::Bool(true) },
                ],
            },
        ])
    );
}

#[test]
fn alias_behind_references_counts_each_reference() {
    let value = PatternValue::Reference(Box::new(PatternValue::Reference(Box::new(
        PatternValue::Tuple(vec![num(7), num(8)]),
    ))));
    let pattern =
        Pattern::Tuple { before: vec![Pattern::Wildcard, Pattern::alias("b")], rest: false, after: vec![] };
    let bindings = try_match_one(&value, &pattern).expect("references are looked through");
    let path = place(bindings.get("b")).clone();
    assert_eq!(path, vec![0, 0, 1]);
    assert_eq!(value.at(&path), Some(&num(8)));
    let whole = try_match_one(&value, &Pattern::alias("all")).unwrap();
    assert!(place(whole.get("all")).is_empty());
}

#[test]
fn positions_and_places() {
    let value = sample();
    assert_eq!(value.item(0), Some(&num(1)));
    assert_eq!(value.item(3), None);
    assert_eq!(num(1).item(0), None);
    assert_eq!(PatternValue::Bool(true).item(0), None);
    let reference = PatternValue::Reference(Box::new(num(9)));
    assert_eq!(reference.item(0), Some(&num(9)));
    assert_eq!(reference.item(1), None);
    assert_eq!(value.at(&vec![]), Some(&value));
    assert_eq!(value.at(&vec![1, 0]), Some(&num(2)));
    assert_eq!(value.at(&vec![2, 0]), Some(&num(5)));
    assert_eq!(value.at(&vec![2, 1, 0]), Some(&num(6)));
    assert_eq!(value.at(&vec![2, 1, 1]), None);
    assert_eq!(value.at(&vec![2, 2]), None);
    assert_eq!(value.at(&vec![0, 0]), None);
    assert_eq!(value.at(&vec![1, 3]), None);
}

#[test]
fn put_at_a_place_that_is_not_there_changes_nothing() {
    let mut value = sample();
    assert!(!value.put(&vec![3], num(0)));
    assert!(!value.put(&vec![0, 0], num(0)));
    assert!(!value.put(&vec![1, 3], num(0)));
    assert!(!value.put(&vec![2, 1, 1], num(0)));
    assert!(!value.put(&vec![2, 1, 0, 0], num(0)));
    assert_eq!(value, sample());
    assert!(value.put(&vec![2, 1, 0], num(60)));
    assert_eq!(value.at(&vec![2, 1]), Some(&PatternValue::Reference(Box::new(num(60)))));
    assert!(value.put(&vec![1, 0], PatternValue::Tuple(vec![])));
    assert_eq!(value.at(&vec![1]), Some(&PatternValue::Sequence(vec![PatternValue::Tuple(vec![]), num(3), num(4)])));
    assert!(value.put(&vec![], num(0)));
    assert_eq!(value, num(0));
}
