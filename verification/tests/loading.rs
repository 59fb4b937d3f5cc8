use problem_manager_bot::loader::{pending_entries, LoadTally};
use problem_manager_bot::sheets::{append_url, rate_limit_error, Outcome, Retries, MAX_RETRIES};

#[test]
fn blank_lines_are_not_entries() {
    let ls = vec!["a".to_string(), "".to_string(), "  \t".to_string(), "b".to_string()];
    assert_eq!(pending_entries(&ls), vec!["a", "b"]);
}

#[test]
fn tally_keeps_failed_entries_in_order() {
    let mut t = LoadTally::new(3);
    assert!(t.can_record());
    t.record("one".into(), true);
    t.record("two".into(), false);
    t.record("three".into(), false);
    assert!(!t.can_record());
    assert_eq!(t.failed(), &vec!["two".to_string(), "three".to_string()]);
    assert_eq!(t.kept_text(), "two\nthree\n");
    assert_eq!(t.summary("problems.jsonl"), "Loaded 1 problems, 2 failed (kept in problems.jsonl)");
}

#[test]
fn tally_of_a_clean_load() {
    let mut t = LoadTally::new(2);
    t.record("a".into(), true);
    t.record("b".into(), true);
    assert_eq!(t.kept_text(), "");
    assert_eq!(t.summary("p"), "Loaded 2 problems");
    assert_eq!(LoadTally::new(0).summary("p"), "Loaded 0 problems");
}

#[test]
fn append_address() {
    assert_eq!(
        append_url("SHEETID", "Sheet1"),
        "https://sheets.googleapis.com/v4/spreadsheets/SHEETID/values/Sheet1!A1:append?valueInputOption=USER_ENTERED"
    );
    assert_eq!(rate_limit_error(), "Sheets API rate limit exceeded after retries");
}

#[test]
fn retries_double_the_delay_and_stop_after_five() {
    let mut r = Retries::new();
    let mut waits = vec![];
    while r.can_send() {
        match r.on_response(429, None) {
            Outcome::Wait(s) => waits.push(s),
            _ => panic!("expected a wait"),
        }
    }
    assert_eq!(waits, vec![1, 2, 4, 8, 16]);
    assert_eq!(r.attempt(), MAX_RETRIES);
}

#[test]
fn retry_after_header_and_statuses() {
    let mut r = Retries::new();
    assert!(matches!(r.on_response(429, Some("7")), Outcome::Wait(7)));
    assert!(matches!(r.on_response(429, Some("soon")), Outcome::Wait(2)));
    assert!(matches!(r.on_response(200, None), Outcome::Appended));
    assert!(matches!(r.on_response(302, None), Outcome::Appended));
    assert!(matches!(r.on_response(404, None), Outcome::Failed));
    assert!(matches!(r.on_response(503, None), Outcome::Failed));
    assert_eq!(r.attempt(), 2);
}

#[test]
fn next_load_tries_what_was_kept() {
    let mut t = LoadTally::new(3);
    t.record("{\"a\":1}".into(), false);
    t.record("{\"b\":2}".into(), true);
    t.record("{\"c\":3}".into(), false);
    let next = pending_entries(&problem_manager_bot::text::lines_of(&t.kept_text()));
    assert_eq!(next, vec!["{\"a\":1}", "{\"c\":3}"]);
    let mut clean = LoadTally::new(1);
    clean.record("x".into(), true);
    let next = pending_entries(&problem_manager_bot::text::lines_of(&clean.kept_text()));
    assert!(next.is_empty());
    assert_eq!(LoadTally::new(next.len()).summary("p"), "Loaded 0 problems");
}
