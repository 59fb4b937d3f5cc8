use problem_manager_bot::authors::{self, Authors};
use problem_manager_bot::focus::{self, FocusStore, FOCUS_DURATION_NANOS};
use std::collections::HashMap;

#[test]
fn resolve_falls_back_until_a_name_is_set() {
    let mut a = Authors::new();
    assert_eq!(authors::resolve(&a, 42, "Full Name".to_string()), "Full Name");
    authors::set(&mut a, 42, "Nick".to_string());
    assert_eq!(authors::resolve(&a, 42, "Full Name".to_string()), "Nick");
    assert_eq!(authors::resolve(&a, 43, "Other".to_string()), "Other");
    authors::set(&mut a, 42, "Nick2".to_string());
    assert_eq!(authors::resolve(&a, 42, String::new()), "Nick2");
}

#[test]
fn authors_round_trip_through_a_map() {
    let mut m = HashMap::new();
    m.insert(1u64, "one".to_string());
    let a = Authors::from_map(m);
    assert_eq!(authors::resolve(&a, 1, String::new()), "one");
    let m = a.into_map();
    assert_eq!(m.get(&1).map(|s| s.as_str()), Some("one"));
}

#[test]
fn focus_lasts_twenty_minutes() {
    let mut s = FocusStore::new();
    assert_eq!(FOCUS_DURATION_NANOS, 20 * 60 * 1_000_000_000);
    assert_eq!(focus::get(&s, 1, 0), None);
    focus::set(&mut s, 1, "L".to_string(), 1_000);
    assert_eq!(focus::get(&s, 1, 1_000), Some("L".to_string()));
    assert_eq!(focus::get(&s, 1, 1_000 + FOCUS_DURATION_NANOS - 1), Some("L".to_string()));
    assert_eq!(focus::get(&s, 1, 1_000 + FOCUS_DURATION_NANOS), None);
    assert_eq!(focus::get(&s, 1, 0), Some("L".to_string()));
    assert_eq!(focus::get(&s, 2, 1_000), None);
}

#[test]
fn clearing_focus_affects_one_user() {
    let mut s = FocusStore::new();
    focus::set(&mut s, 1, "A".to_string(), 0);
    focus::set(&mut s, 2, "B".to_string(), 0);
    focus::clear(&mut s, 1);
    assert_eq!(focus::get(&s, 1, 5), None);
    assert_eq!(focus::get(&s, 2, 5), Some("B".to_string()));
    focus::set(&mut s, 2, "C".to_string(), 5);
    assert_eq!(focus::get(&s, 2, 6), Some("C".to_string()));
}

#[test]
fn names_read_from_json_text() {
    let a = Authors::from_text("{\"7\": \"Ann\", \"8\": \"Bob\"}");
    assert_eq!(authors::resolve(&a, 7, "x".into()), "Ann");
    assert_eq!(authors::resolve(&a, 8, "x".into()), "Bob");
    let broken = Authors::from_text("not json");
    assert_eq!(authors::resolve(&broken, 7, "x".into()), "x");
    let empty = Authors::from_text("");
    assert_eq!(authors::resolve(&empty, 7, "fallback".into()), "fallback");
}
