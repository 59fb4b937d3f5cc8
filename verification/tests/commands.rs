use problem_manager_bot::authors::{self, Authors};
use problem_manager_bot::commands::{
    clear_focus, decide_editorial, decide_field, find_target_link, focus_problem, help_text,
    is_pending_problem, last_link_posted_by, parse_command, plan_update, rewrite_pending,
    set_name, strip_command, update_reply, private_menu, group_menu, Command, Decision, Edit, Field, RepliedMessage,
};
use problem_manager_bot::focus::{self, FocusStore};
use problem_manager_bot::problem::{Problem, Timestamp};
use problem_manager_bot::text::lines_of;

fn problem(link: &str, name: &str, author: &str) -> Problem {
    Problem::from_parts(
        link.to_string(),
        "legend".to_string(),
        name.to_string(),
        author.to_string(),
        Timestamp::from_unix(1_700_000_000, 0).unwrap(),
        String::new(),
        String::new(),
        String::new(),
        String::new(),
    )
}

#[test]
fn strip_command_plain_and_with_argument() {
    assert_eq!(strip_command("/help", "/help"), Some(""));
    assert_eq!(strip_command("/set_name  Alice B", "/set_name"), Some("Alice B"));
    assert_eq!(strip_command("/set_tags\ndp, graphs", "/set_tags"), Some("dp, graphs"));
}

#[test]
fn strip_command_with_bot_name() {
    assert_eq!(strip_command("/set_name@my_bot Alice", "/set_name"), Some("Alice"));
    assert_eq!(strip_command("/help@my_bot", "/help"), Some(""));
    assert_eq!(strip_command("/set_tags@bot\u{3000}x", "/set_tags"), Some("x"));
}

#[test]
fn strip_command_rejects_other_commands() {
    assert_eq!(strip_command("/set_names x", "/set_name"), None);
    assert_eq!(strip_command("hello /help", "/help"), None);
    assert_eq!(strip_command("/hel", "/help"), None);
    assert_eq!(strip_command("/help\tme", "/help"), None);
}

#[test]
fn commands_in_private_and_group_chats() {
    assert!(matches!(parse_command(Some("/set_name Bob"), true), Command::SetName(n) if n == "Bob"));
    assert!(matches!(parse_command(Some("/help"), true), Command::Help));
    assert!(matches!(parse_command(Some("/load"), true), Command::Ignore));
    assert!(matches!(parse_command(Some("/load"), false), Command::Load));
    assert!(matches!(parse_command(Some("/leave@bot"), false), Command::Leave));
    assert!(matches!(parse_command(Some("/set_difficulty 1800"), false), Command::SetDifficulty(v) if v == "1800"));
    assert!(matches!(parse_command(Some("/set_tags"), false), Command::SetTags(v) if v.is_empty()));
    assert!(matches!(parse_command(Some("/solution"), false), Command::Editorial));
    assert!(matches!(parse_command(Some("/editorial"), false), Command::Editorial));
    assert!(matches!(parse_command(Some("/focus_problem"), false), Command::FocusProblem));
    assert!(matches!(parse_command(Some("/clear_focus"), false), Command::ClearFocus));
    assert!(matches!(parse_command(Some("#problem A\nB"), false), Command::Ignore));
    assert!(matches!(parse_command(None, false), Command::Ignore));
}

#[test]
fn set_name_replies_and_records() {
    let mut a = Authors::new();
    assert_eq!(set_name(&mut a, String::new(), Some(1)), ("Usage: /set_name <your name>".to_string(), false));
    assert_eq!(authors::resolve(&a, 1, "fb".to_string()), "fb");
    assert_eq!(set_name(&mut a, "Alice".to_string(), None), ("Could not identify you as a user.".to_string(), false));
    assert_eq!(set_name(&mut a, "Alice".to_string(), Some(1)), ("Your name is now \"Alice\"".to_string(), true));
    assert_eq!(authors::resolve(&a, 1, "fb".to_string()), "Alice");
}

#[test]
fn help_text_names_the_hashtag() {
    let h = help_text("##problem");
    assert!(h.starts_with("#problem <Legend>\nor\n#problem <Problem Name>\n<Legend>\n\nSubmit a problem."));
    assert!(h.ends_with("/help \u{2014} show this message"));
    assert!(h.contains("/set_name <name> \u{2014} set your display name for attribution\n"));
}

#[test]
fn target_link_prefers_reply_then_focus_then_last_problem() {
    let mut store = FocusStore::new();
    let pending = vec![
        problem("https://t.me/g/1", "A", "ann"),
        problem("https://t.me/other/2", "B", "ann"),
        problem("https://t.me/g/3", "C", "bob"),
        problem("https://t.me/g/4", "D", "ann"),
        problem("https://t.me/g/5", "E", "bob"),
    ];
    let p = "https://t.me/g/";
    assert_eq!(
        find_target_link(Some("r".into()), Some(9), &store, 0, Some(&pending), p, "ann"),
        Some("r".to_string())
    );
    assert_eq!(find_target_link(None, Some(9), &store, 0, Some(&pending), p, "ann"), Some("https://t.me/g/4".to_string()));
    focus::set(&mut store, 9, "https://t.me/g/1".into(), 100);
    assert_eq!(find_target_link(None, Some(9), &store, 200, Some(&pending), p, "ann"), Some("https://t.me/g/1".to_string()));
    assert_eq!(find_target_link(None, None, &store, 200, Some(&pending), p, "bob"), Some("https://t.me/g/5".to_string()));
    assert_eq!(find_target_link(None, None, &store, 200, None, p, "bob"), None);
    assert_eq!(last_link_posted_by(&pending, p, "carol"), None);
}

#[test]
fn focus_problem_sets_and_clears() {
    let mut store = FocusStore::new();
    let pending = vec![problem("https://t.me/g/1", "A", "ann")];
    assert!(is_pending_problem(&pending, "https://t.me/g/1"));
    assert_eq!(
        focus_problem(&mut store, Some("https://t.me/g/2".into()), Some(5), &pending, 0),
        Some("The replied message is not a known pending problem.".to_string())
    );
    assert_eq!(focus::get(&store, 5, 0), None);
    assert_eq!(
        focus_problem(&mut store, Some("https://t.me/g/1".into()), Some(5), &pending, 0),
        Some("Focus set for 20 minutes.".to_string())
    );
    assert_eq!(focus::get(&store, 5, 10), Some("https://t.me/g/1".to_string()));
    assert_eq!(focus_problem(&mut store, Some("https://t.me/g/1".into()), None, &pending, 0), None);
    assert_eq!(focus_problem(&mut store, None, Some(5), &pending, 0), Some("Focus cleared.".to_string()));
    assert_eq!(focus::get(&store, 5, 10), None);
    focus::set(&mut store, 5, "x".into(), 0);
    assert_eq!(clear_focus(&mut store, Some(5)), "Focus cleared.");
    assert_eq!(focus::get(&store, 5, 1), None);
}

#[test]
fn field_decisions() {
    let store = FocusStore::new();
    let pending = vec![problem("https://t.me/g/1", "A", "ann")];
    match decide_field(Field::Difficulty, String::new(), None, Some(1), &store, 0, Some(&pending), "https://t.me/g/", "ann") {
        Decision::Reply(r) => assert_eq!(r, "Usage: /set_difficulty <value>"),
        _ => panic!("expected a reply"),
    }
    match decide_field(Field::Tags, "dp".into(), None, Some(1), &store, 0, Some(&pending), "https://t.me/g/", "bob") {
        Decision::Reply(r) => assert_eq!(r, "No matching problem found in the pending list."),
        _ => panic!("expected a reply"),
    }
    match decide_field(Field::Tags, "dp".into(), None, Some(1), &store, 0, Some(&pending), "https://t.me/g/", "ann") {
        Decision::Update { target, edit: Edit::Tags(v) } => {
            assert_eq!(target, "https://t.me/g/1");
            assert_eq!(v, "dp");
        }
        _ => panic!("expected an update"),
    }
}

#[test]
fn editorial_decisions() {
    let store = FocusStore::new();
    let pending = vec![problem("https://t.me/g/1", "A", "ann")];
    let pre = "https://t.me/g/";
    match decide_editorial(None, Some(1), &store, 0, Some(&pending), pre, "ann") {
        Decision::Reply(r) => assert_eq!(r, "Reply to a message containing the editorial."),
        _ => panic!(),
    }
    let no_text = RepliedMessage { text: None, link: "https://t.me/g/7".into(), statement_link: None };
    match decide_editorial(Some(no_text), Some(1), &store, 0, Some(&pending), pre, "ann") {
        Decision::Reply(r) => assert_eq!(r, "The replied message has no text."),
        _ => panic!(),
    }
    let to_statement = RepliedMessage {
        text: Some("Use DP".into()),
        link: "https://t.me/g/7".into(),
        statement_link: Some("https://t.me/g/3".into()),
    };
    match decide_editorial(Some(to_statement), Some(1), &store, 0, Some(&pending), pre, "ann") {
        Decision::Update { target, edit: Edit::Editorial { text, link } } => {
            assert_eq!(target, "https://t.me/g/3");
            assert_eq!(text, "Use DP");
            assert_eq!(link, "https://t.me/g/7");
        }
        _ => panic!(),
    }
    let alone = RepliedMessage { text: Some("Greedy".into()), link: "https://t.me/g/8".into(), statement_link: None };
    match decide_editorial(Some(alone), Some(1), &store, 0, Some(&pending), pre, "ann") {
        Decision::Update { target, .. } => assert_eq!(target, "https://t.me/g/1"),
        _ => panic!(),
    }
    let alone = RepliedMessage { text: Some("Greedy".into()), link: "https://t.me/g/8".into(), statement_link: None };
    match decide_editorial(Some(alone), Some(1), &store, 0, Some(&pending), pre, "bob") {
        Decision::Reply(r) => assert_eq!(r, "No matching problem found in the pending list."),
        _ => panic!(),
    }
}

#[test]
fn plan_update_edits_the_first_matching_problem() {
    let parsed = vec![
        None,
        Some(problem("https://t.me/g/1", "", "ann")),
        Some(problem("https://t.me/g/1", "Second", "ann")),
    ];
    let u = plan_update(&parsed, "https://t.me/g/1", Edit::Difficulty("2000".into())).unwrap();
    assert_eq!(u.index, 1);
    assert_eq!(u.problem.difficulty(), "2000");
    assert_eq!(u.display, "https://t.me/g/1");
    let u = plan_update(
        &parsed,
        "https://t.me/g/1",
        Edit::Editorial { text: "sol".into(), link: "https://t.me/g/9".into() },
    )
    .unwrap();
    assert_eq!(u.problem.editorial(), "sol");
    assert_eq!(u.problem.editorial_link(), "https://t.me/g/9");
    assert_eq!(u.problem.name(), "");
    let e = plan_update(&parsed, "https://t.me/g/2", Edit::Tags("x".into()));
    assert_eq!(e.err(), Some("Problem not found in pending list.".to_string()));
}

#[test]
fn rewrite_pending_replaces_one_line() {
    let content = "l0\nl1\nl2\n";
    let lines = lines_of(content);
    let text = rewrite_pending(lines, 1, "new".to_string());
    assert_eq!(text, "l0\nnew\nl2\n");
    assert_eq!(lines_of(&text), vec!["l0", "new", "l2"]);
}

#[test]
fn command_menus() {
    let private = private_menu();
    assert_eq!(private.len(), 2);
    assert_eq!(private[0], ("set_name".to_string(), "Set your display name for attribution".to_string()));
    let group = group_menu();
    let names: Vec<&str> = group.iter().map(|(n, _)| n.as_str()).collect();
    assert_eq!(
        names,
        vec!["set_name", "set_difficulty", "set_tags", "editorial", "solution", "focus_problem", "clear_focus", "load", "leave", "help"]
    );
    assert_eq!(group[4].1, "Alias for /editorial");
}

#[test]
fn update_reply_texts() {
    assert_eq!(update_reply(Ok("Two Sum".into())), "Updated: Two Sum");
    assert_eq!(update_reply(Err("Cannot read x".into())), "Cannot read x");
}

/// The same recognition written with `str`'s own methods.
fn strip_with_std<'a>(text: &'a str, cmd: &str) -> Option<&'a str> {
    let rest = text.strip_prefix(cmd)?;
    let rest = match rest.chars().next() {
        None | Some(' ') | Some('\n') => rest,
        Some('@') => {
            let after_at = &rest[1..];
            match after_at.find(|c: char| c.is_whitespace()) {
                Some(i) => &after_at[i..],
                None => "",
            }
        }
        _ => return None,
    };
    Some(rest.trim_start())
}

#[test]
fn strip_command_agrees_with_str_methods() {
    let texts = [
        "/help", "/help ", "/help\n", "/help@b", "/help@b x", "/help@b\u{2003}y z", "/helpx",
        "/help\u{A0}x", "/set_name  Émile  ", "/set_name@ bot", "/set_name@", "", "/", "help",
        "/set_name\n\nA\nB", "/set_tags@bot\tdp",
    ];
    for t in texts {
        for c in ["/help", "/set_name", "/set_tags", "", "/"] {
            assert_eq!(strip_command(t, c), strip_with_std(t, c), "text {:?} command {:?}", t, c);
        }
    }
}

#[test]
fn solution_and_editorial_are_the_same_command() {
    for rest in ["", " x", "\ny", "@bot z"] {
        let e = format!("/editorial{rest}");
        let s = format!("/solution{rest}");
        assert!(matches!(parse_command(Some(&e), false), Command::Editorial));
        assert!(matches!(parse_command(Some(&s), false), Command::Editorial));
    }
}
