use metrics_provider::pkg::label_map::LabelMap;
use metrics_provider::pkg::labels::{InvalidRequirement, Labels, Requirement};
use metrics_provider::pkg::selection::Operator;
use std::collections::BTreeSet;

fn texts(items: &[&str]) -> Vec<String> {
    items.iter().map(|item| item.to_string()).collect()
}

fn labels(pairs: &[(&str, &str)]) -> LabelMap {
    let mut map = LabelMap::new();
    for (key, value) in pairs {
        map.insert(key.to_string(), value.to_string());
    }
    map
}

fn requirement(key: &str, operator: Operator, values: &[&str]) -> Requirement {
    Requirement::new(key.to_string(), operator, texts(values)).unwrap()
}

fn refused(key: &str, operator: Operator, values: &[&str]) -> bool {
    match Requirement::new(key.to_string(), operator, texts(values)) {
        Ok(_) => false,
        Err(error) => error == InvalidRequirement,
    }
}

#[test]
fn membership_needs_a_value() {
    assert!(refused("k", Operator::In, &[]));
    assert!(Requirement::new("k".to_string(), Operator::In, texts(&["a"])).is_ok());
    assert!(Requirement::new("k".to_string(), Operator::In, texts(&["a", "b", "c"])).is_ok());
    assert!(refused("k", Operator::NotIn, &[]));
    assert!(Requirement::new("k".to_string(), Operator::NotIn, texts(&["a"])).is_ok());
    assert!(Requirement::new("k".to_string(), Operator::NotIn, texts(&["a", "b"])).is_ok());
}

#[test]
fn equality_needs_one_value() {
    assert!(refused("k", Operator::Equals, &["a", "b"]));
    assert!(Requirement::new("k".to_string(), Operator::Equals, texts(&["a"])).is_ok());
    assert!(refused("k", Operator::Equals, &[]));
    assert!(refused("k", Operator::DoubleEquals, &["a", "b"]));
    assert!(refused("k", Operator::DoubleEquals, &[]));
    assert!(Requirement::new("k".to_string(), Operator::DoubleEquals, texts(&["a"])).is_ok());
    assert!(refused("k", Operator::NotEquals, &["a", "b"]));
    assert!(refused("k", Operator::NotEquals, &[]));
    assert!(Requirement::new("k".to_string(), Operator::NotEquals, texts(&["a"])).is_ok());
}

#[test]
fn equality_refuses_a_repeated_value() {
    assert!(refused("k", Operator::Equals, &["a", "a"]));
    assert!(refused("k", Operator::GreaterThan, &["1", "1"]));
}

#[test]
fn existence_takes_no_value() {
    assert!(refused("k", Operator::Exists, &["a"]));
    assert!(Requirement::new("k".to_string(), Operator::Exists, texts(&[])).is_ok());
    assert!(refused("k", Operator::DoesNotExist, &["a"]));
    assert!(Requirement::new("k".to_string(), Operator::DoesNotExist, texts(&[])).is_ok());
}

#[test]
fn ordering_needs_one_value_of_any_form() {
    assert!(Requirement::new("k".to_string(), Operator::GreaterThan, texts(&["abc"])).is_ok());
    assert!(Requirement::new("k".to_string(), Operator::LessThan, texts(&["abc"])).is_ok());
    assert!(Requirement::new("k".to_string(), Operator::GreaterThan, texts(&["5"])).is_ok());
    assert!(refused("k", Operator::GreaterThan, &[]));
    assert!(refused("k", Operator::GreaterThan, &["1", "2"]));
    assert!(refused("k", Operator::LessThan, &[]));
    assert!(refused("k", Operator::LessThan, &["1", "2"]));
}

#[test]
fn the_empty_text_is_a_value_and_a_key() {
    let made = requirement("", Operator::Equals, &[""]);
    assert_eq!(made.key(), "");
    assert_eq!(made.values(), texts(&[""]));
    assert!(made.matches(&labels(&[("", "")])));
    assert!(!made.matches(&labels(&[("", "x")])));
}

#[test]
fn accessors_return_what_was_given() {
    let made = requirement("env", Operator::NotIn, &["dev", "staging"]);
    assert_eq!(made.key(), "env");
    assert_eq!(made.operator(), Operator::NotIn);
    assert_eq!(made.values(), texts(&["dev", "staging"]));
}

#[test]
fn values_are_a_set_in_order() {
    let made = requirement("k", Operator::In, &["b", "a", "b", "c", "a", ""]);
    assert_eq!(made.values(), texts(&["", "a", "b", "c"]));
    let other = requirement("k", Operator::In, &["c", "", "a", "b"]);
    assert_eq!(made.values(), other.values());
}

#[test]
fn values_come_in_the_order_of_an_ordered_set() {
    let given = ["é", "z", "a", "ab", "B", "√", "10", "9", "a", "\u{10000}", "\u{ffff}", ""];
    let made = requirement("k", Operator::NotIn, &given);
    let expected: BTreeSet<String> = given.iter().map(|item| item.to_string()).collect();
    assert_eq!(made.values(), expected.into_iter().collect::<Vec<String>>());
}

#[test]
fn values_of_an_existence_requirement_are_none() {
    let made = requirement("k", Operator::Exists, &[]);
    assert_eq!(made.values(), Vec::<String>::new());
}

#[test]
fn clone_keeps_the_requirement() {
    let made = requirement("env", Operator::In, &["b", "a"]);
    let copy = made.clone();
    assert_eq!(copy.key(), "env");
    assert_eq!(copy.operator(), Operator::In);
    assert_eq!(copy.values(), texts(&["a", "b"]));
}

#[test]
fn exists_asks_for_the_key() {
    let exists = requirement("tier", Operator::Exists, &[]);
    assert!(exists.matches(&labels(&[("tier", "web")])));
    assert!(exists.matches(&labels(&[("tier", "")])));
    assert!(!exists.matches(&labels(&[("env", "prod")])));
    assert!(!exists.matches(&labels(&[])));
}

#[test]
fn does_not_exist_asks_for_no_key() {
    let absent = requirement("tier", Operator::DoesNotExist, &[]);
    assert!(!absent.matches(&labels(&[("tier", "web")])));
    assert!(absent.matches(&labels(&[("env", "prod")])));
    assert!(absent.matches(&labels(&[])));
}

#[test]
fn equals_asks_for_the_value() {
    for operator in [Operator::Equals, Operator::DoubleEquals] {
        let equals = requirement("env", operator, &["prod"]);
        assert!(equals.matches(&labels(&[("env", "prod")])));
        assert!(!equals.matches(&labels(&[("env", "dev")])));
        assert!(!equals.matches(&labels(&[("env", "Prod")])));
        assert!(!equals.matches(&labels(&[("tier", "prod")])));
        assert!(!equals.matches(&labels(&[])));
    }
}

#[test]
fn not_equals_is_met_by_another_value_or_none() {
    let differs = requirement("env", Operator::NotEquals, &["prod"]);
    assert!(!differs.matches(&labels(&[("env", "prod")])));
    assert!(differs.matches(&labels(&[("env", "dev")])));
    assert!(differs.matches(&labels(&[("tier", "prod")])));
    assert!(differs.matches(&labels(&[])));
}

#[test]
fn in_asks_for_one_of_the_values() {
    let among = requirement("env", Operator::In, &["prod", "stage"]);
    assert!(among.matches(&labels(&[("env", "prod")])));
    assert!(among.matches(&labels(&[("env", "stage")])));
    assert!(!among.matches(&labels(&[("env", "dev")])));
    assert!(!among.matches(&labels(&[])));
}

#[test]
fn not_in_is_met_by_another_value_or_none() {
    let outside = requirement("env", Operator::NotIn, &["dev", "staging"]);
    assert!(outside.matches(&labels(&[("env", "prod")])));
    assert!(outside.matches(&labels(&[])));
    assert!(!outside.matches(&labels(&[("env", "dev")])));
    assert!(!outside.matches(&labels(&[("env", "staging")])));
    assert!(outside.matches(&labels(&[("tier", "dev")])));
}

#[test]
fn greater_than_compares_integers() {
    let above = requirement("replicas", Operator::GreaterThan, &["5"]);
    assert!(above.matches(&labels(&[("replicas", "6")])));
    assert!(above.matches(&labels(&[("replicas", "+10")])));
    assert!(!above.matches(&labels(&[("replicas", "5")])));
    assert!(!above.matches(&labels(&[("replicas", "4")])));
    assert!(!above.matches(&labels(&[("replicas", "-6")])));
    assert!(!above.matches(&labels(&[])));
    assert!(above.matches(&labels(&[("replicas", "10")])));
    assert!(above.matches(&labels(&[("replicas", "9223372036854775807")])));
}

#[test]
fn less_than_compares_integers() {
    let below = requirement("replicas", Operator::LessThan, &["5"]);
    assert!(below.matches(&labels(&[("replicas", "4")])));
    assert!(below.matches(&labels(&[("replicas", "-6")])));
    assert!(!below.matches(&labels(&[("replicas", "5")])));
    assert!(!below.matches(&labels(&[("replicas", "6")])));
    assert!(!below.matches(&labels(&[("replicas", "10")])));
    assert!(!below.matches(&labels(&[])));
    assert!(below.matches(&labels(&[("replicas", "-9223372036854775808")])));
}

#[test]
fn a_value_that_is_no_integer_fails_the_match() {
    assert!(Requirement::new("k".to_string(), Operator::GreaterThan, texts(&["abc"])).is_ok());
    let above = requirement("k", Operator::GreaterThan, &["5"]);
    assert!(!above.matches(&labels(&[("k", "abc")])));
    let below = requirement("k", Operator::LessThan, &["5"]);
    assert!(!below.matches(&labels(&[("k", "abc")])));
    let unreadable = requirement("k", Operator::GreaterThan, &["abc"]);
    assert!(!unreadable.matches(&labels(&[("k", "7")])));
    assert!(!unreadable.matches(&labels(&[("k", "abc")])));
    let unreadable = requirement("k", Operator::LessThan, &["abc"]);
    assert!(!unreadable.matches(&labels(&[("k", "3")])));
    let too_large = requirement("k", Operator::LessThan, &["9223372036854775808"]);
    assert!(!too_large.matches(&labels(&[("k", "3")])));
    assert!(!below.matches(&labels(&[("k", "-9223372036854775809")])));
    assert!(!above.matches(&labels(&[("k", "6.0")])));
    assert!(!above.matches(&labels(&[("k", " 6")])));
}

#[test]
fn matching_goes_by_the_value_set() {
    let first = requirement("env", Operator::In, &["a", "b", "a"]);
    let second = requirement("env", Operator::In, &["b", "a"]);
    for value in ["a", "b", "c", ""] {
        let tested = labels(&[("env", value)]);
        assert_eq!(first.matches(&tested), second.matches(&tested));
    }
}

#[test]
fn label_map_has_and_gets() {
    let map = labels(&[("env", "prod"), ("tier", "web")]);
    assert!(map.has("env".to_string()));
    assert!(map.has("tier".to_string()));
    assert!(!map.has("zone".to_string()));
    assert_eq!(map.get("env".to_string()), Some("prod".to_string()));
    assert_eq!(map.get("tier".to_string()), Some("web".to_string()));
    assert_eq!(map.get("zone".to_string()), None);
    let empty = LabelMap::new();
    assert!(!empty.has("env".to_string()));
    assert_eq!(empty.get("env".to_string()), None);
}

#[test]
fn label_map_insert_replaces_the_value() {
    let mut map = labels(&[("env", "dev"), ("tier", "web")]);
    map.insert("env".to_string(), "prod".to_string());
    assert_eq!(map.get("env".to_string()), Some("prod".to_string()));
    assert_eq!(map.get("tier".to_string()), Some("web".to_string()));
}
