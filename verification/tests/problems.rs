use problem_manager_bot::problem::{Problem, Timestamp};

fn date() -> Timestamp {
    Timestamp::from_unix(1_700_000_000, 0).unwrap()
}

#[test]
fn message_with_newline_has_name_and_legend() {
    let p = Problem::from_message(
        "https://t.me/g/1".into(),
        "  Two Sum \n  Given an array, find two numbers.\n ".into(),
        "ann".into(),
        date(),
    )
    .unwrap();
    assert_eq!(p.name(), "Two Sum");
    assert_eq!(p.legend(), "Given an array, find two numbers.");
    assert_eq!(p.link(), "https://t.me/g/1");
    assert_eq!(p.author(), "ann");
    assert_eq!(p.editorial(), "");
    assert_eq!(p.difficulty(), "");
    assert_eq!(p.tags(), "");
    assert_eq!(p.editorial_link(), "");
}

#[test]
fn message_without_newline_is_all_legend() {
    let p = Problem::from_message("l".into(), "  just a legend  ".into(), "a".into(), date()).unwrap();
    assert_eq!(p.name(), "");
    assert_eq!(p.legend(), "just a legend");
}

#[test]
fn message_splits_at_first_newline_only() {
    let p = Problem::from_message("l".into(), "N\nline1\nline2".into(), "a".into(), date()).unwrap();
    assert_eq!(p.name(), "N");
    assert_eq!(p.legend(), "line1\nline2");
}

#[test]
fn setters_change_one_field() {
    let mut p = Problem::from_message("l".into(), "N\nL".into(), "a".into(), date()).unwrap();
    p.set_difficulty("1500".into());
    p.set_tags("math".into());
    p.set_editorial("proof".into());
    p.set_editorial_link("https://t.me/g/2".into());
    assert_eq!(p.difficulty(), "1500");
    assert_eq!(p.tags(), "math");
    assert_eq!(p.editorial(), "proof");
    assert_eq!(p.editorial_link(), "https://t.me/g/2");
    assert_eq!(p.name(), "N");
    assert_eq!(p.legend(), "L");
}

#[test]
fn sheet_row_columns_in_order() {
    let mut p = Problem::from_message("https://t.me/g/1".into(), "Name\nLegend".into(), "ann".into(), date()).unwrap();
    p.set_difficulty("D".into());
    p.set_tags("T".into());
    p.set_editorial("E".into());
    p.set_editorial_link("EL".into());
    assert_eq!(
        p.to_sheet_row(),
        vec!["Name", "ann", "D", "2023-11-14 22:13:20", "Legend", "E", "T", "https://t.me/g/1", "EL"]
    );
}

#[test]
fn timestamps_out_of_range_are_refused() {
    assert!(Timestamp::from_unix(i64::MAX, 0).is_none());
    assert!(Timestamp::from_unix(0, 2_000_000_000).is_none());
    let t = Timestamp::from_unix(0, 0).unwrap();
    assert_eq!(t.secs(), 0);
    assert_eq!(t.nanos(), 0);
    assert_eq!(t.sheet_date(), "1970-01-01 00:00:00");
    assert_eq!(Timestamp::from_unix(-1, 500).unwrap().sheet_date(), "1969-12-31 23:59:59");
}

#[test]
fn clone_keeps_every_field() {
    let p = Problem::from_message("l".into(), "N\nL".into(), "a".into(), date()).unwrap();
    let q = p.clone();
    assert_eq!(q.to_sheet_row(), p.to_sheet_row());
    assert_eq!(q.date().secs(), 1_700_000_000);
}

#[test]
fn sheet_row_in_a_configured_date_format() {
    let p = Problem::from_message("l".into(), "N\nL".into(), "a".into(), date()).unwrap();
    let row = p.to_sheet_row_with_format("%d.%m.%Y").unwrap();
    assert_eq!(row[3], "14.11.2023");
    assert_eq!(row[0], "N");
    assert!(p.to_sheet_row_with_format("%Q").is_none());
    assert_eq!(date().format("%H:%M").unwrap(), "22:13");
}

#[test]
fn problems_compare_by_value() {
    let p = Problem::from_message("l".into(), "N\nL".into(), "a".into(), date()).unwrap();
    let q = p.clone();
    assert_eq!(p, q);
    let mut r = p.clone();
    r.set_tags("x".into());
    assert_ne!(p, r);
    assert!(format!("{:?}", p).contains("N"));
}
