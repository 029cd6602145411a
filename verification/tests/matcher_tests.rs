use slv::matcher::should_index;
use slv::proto::{FieldCondition, IndexMethod, JsonEntry};

fn b(s: &str) -> Vec<u8> {
    s.as_bytes().to_vec()
}

fn has_key(k: &str) -> FieldCondition {
    FieldCondition::HasKey(b(k))
}

fn key_value(k: &str, v: &str) -> FieldCondition {
    FieldCondition::KeyValue(b(k), b(v))
}

fn entry(fields: &[(&str, &str)]) -> JsonEntry {
    JsonEntry(fields.iter().map(|(k, v)| (b(k), b(v))).collect())
}

#[test]
fn has_key_matches_presence() {
    let m = IndexMethod::new(vec![has_key("level")]);
    assert!(should_index(&m, &entry(&[("level", "info")])));
    assert!(should_index(&m, &entry(&[("level", "error"), ("msg", "x")])));
    assert!(!should_index(&m, &entry(&[("msg", "x")])));
}

#[test]
fn key_value_matches_exact_value() {
    let m = IndexMethod::new(vec![key_value("level", "error")]);
    assert!(should_index(&m, &entry(&[("level", "error")])));
    assert!(!should_index(&m, &entry(&[("level", "info")])));
    assert!(!should_index(&m, &entry(&[("msg", "x")])));
}

#[test]
fn conjunction_of_conditions() {
    let m = IndexMethod::new(vec![has_key("a"), key_value("b", "2")]);
    assert!(should_index(&m, &entry(&[("a", "1"), ("b", "2"), ("c", "3")])));
    assert!(!should_index(&m, &entry(&[("a", "1"), ("c", "3")])));
    assert!(!should_index(&m, &entry(&[("a", "1"), ("b", "3")])));
}

#[test]
fn empty_method_matches_everything() {
    let m = IndexMethod::new(Vec::new());
    assert!(should_index(&m, &entry(&[])));
    assert!(should_index(&m, &entry(&[("a", "1")])));
}

#[test]
fn two_conditions_on_the_same_key() {
    let m = IndexMethod::new(vec![has_key("a"), key_value("a", "1")]);
    assert!(should_index(&m, &entry(&[("a", "1")])));
    assert!(!should_index(&m, &entry(&[("a", "2")])));
}

#[test]
fn new_sorts_conditions_canonically() {
    let m = IndexMethod::new(vec![key_value("b", "2"), has_key("a")]);
    assert_eq!(m.conditions[0], has_key("a"));
    assert_eq!(m.conditions[1], key_value("b", "2"));

    let m2 = IndexMethod::new(vec![key_value("a", "2"), has_key("a"), key_value("a", "1")]);
    assert_eq!(m2.conditions[0], has_key("a"));
    assert_eq!(m2.conditions[1], key_value("a", "1"));
    assert_eq!(m2.conditions[2], key_value("a", "2"));
}

#[test]
fn methods_from_permuted_conditions_are_equal() {
    let m1 = IndexMethod::new(vec![key_value("b", "2"), has_key("a")]);
    let m2 = IndexMethod::new(vec![has_key("a"), key_value("b", "2")]);
    assert_eq!(m1, m2);
}
