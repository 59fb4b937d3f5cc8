use problem_manager_bot::problem::Timestamp;
use problem_manager_bot::scanner::{
    chat_link_prefix, date_time_of, element_text, file_order_key, has_tag_link,
    is_message_file, links_of, make_link, message_date, reading_order, text_after,
    ExportMessage, ExportText, HtmlNode, ScanState,
};
use problem_manager_bot::problem::Problem;

fn text(s: &str) -> HtmlNode {
    HtmlNode::Text(s.to_string())
}

fn el(name: &str, children: Vec<HtmlNode>) -> HtmlNode {
    HtmlNode::Element { name: name.to_string(), children }
}

fn message(id: &str, from: Option<&str>, body_text: &str) -> ExportMessage {
    ExportMessage {
        from_name: from.map(|s| s.to_string()),
        date_title: Some("01.02.2024 10:20:30 UTC+03:00".to_string()),
        text: Some(ExportText {
            anchor_texts: vec![" #problem ".to_string()],
            children: vec![
                el("a", vec![text("#problem")]),
                text(body_text),
                el("br", vec![]),
                text("Legend text."),
            ],
        }),
        id: Some(id.to_string()),
    }
}

#[test]
fn links_for_public_and_private_groups() {
    assert_eq!(make_link("12", Some("@mygroup"), Some("-100")), Some("https://t.me/mygroup/12".to_string()));
    assert_eq!(make_link("12", None, Some("-1001234")), Some("https://t.me/c/1001234/12".to_string()));
    assert_eq!(make_link("12", None, None), None);
    assert_eq!(chat_link_prefix(Some("g"), None), Some("https://t.me/g/".to_string()));
}

#[test]
fn message_files_and_their_order() {
    assert!(is_message_file("messages.html"));
    assert!(is_message_file("messages12.html"));
    assert!(!is_message_file("photo.html"));
    assert!(!is_message_file("messages.htm"));
    assert_eq!(file_order_key(Some("messages")), 1);
    assert_eq!(file_order_key(Some("messages2")), 2);
    assert_eq!(file_order_key(Some("messages10")), 10);
    assert_eq!(file_order_key(Some("messagesX")), u64::MAX);
    assert_eq!(file_order_key(Some("other")), u64::MAX);
    assert_eq!(file_order_key(None), u64::MAX);
    let keys = vec![10, 1, u64::MAX, 2, 2, u64::MAX];
    assert_eq!(reading_order(&keys), vec![1, 3, 4, 0, 2, 5]);
    assert_eq!(reading_order(&vec![]), Vec::<usize>::new());
}

#[test]
fn element_text_follows_the_tree() {
    let children = vec![
        text("a"),
        el("br", vec![text("ignored")]),
        el("b", vec![text("bold"), el("i", vec![text("!")])]),
        HtmlNode::Other,
        text("z"),
    ];
    assert_eq!(element_text(&children), "a\nbold!z");
}

#[test]
fn dates_of_the_export() {
    assert_eq!(date_time_of("01.02.2024 10:20:30 UTC+03:00"), "01.02.2024 10:20:30");
    assert_eq!(date_time_of("01.02.2024 10:20:30"), "01.02.2024 10:20:30");
    assert_eq!(date_time_of("01.02.2024"), "01.02.2024");
    let t = message_date("01.02.2024 10:20:30 UTC+03:00").unwrap();
    assert_eq!(t.secs(), 1_706_782_830);
    assert!(message_date("2024-02-01 10:20:30").is_none());
}

#[test]
fn text_after_the_hashtag() {
    assert_eq!(text_after("#problem  Name\nLegend ", "#problem"), "Name\nLegend");
    assert_eq!(text_after("no tag here", "#problem"), "");
    assert!(has_tag_link(&vec!["x".into(), " #problem\n".into()], "#problem"));
    assert!(!has_tag_link(&vec!["#problems".into()], "#problem"));
}

#[test]
fn scan_adds_new_problems_and_skips_known_links() {
    let mut s = ScanState::new(vec!["https://t.me/g/5".to_string()]);
    let m = message("message7", Some("  Ann  "), " Two Sum");
    let p = s.scan_message(&m, "#problem", Some("g"), None).unwrap();
    assert_eq!(p.link(), "https://t.me/g/7");
    assert_eq!(p.name(), "Two Sum");
    assert_eq!(p.legend(), "Legend text.");
    assert_eq!(p.author(), "Ann");
    assert_eq!(p.date().secs(), 1_706_782_830);
    assert!(s.is_awaiting());
    s.finish_write(true);
    assert!(!s.is_awaiting());
    // The same message again is a duplicate; so is a known link.
    assert!(s.scan_message(&m, "#problem", Some("g"), None).is_none());
    let known = message("message5", None, " X");
    assert!(s.scan_message(&known, "#problem", Some("g"), None).is_none());
    // A message without a sender name keeps the last author.
    let next = message("message8", None, " Next");
    let q = s.scan_message(&next, "#problem", Some("g"), None).unwrap();
    assert_eq!(q.author(), "Ann");
    s.finish_write(false);
    assert_eq!(s.report(), "Added 1 new problems, skipped 2 duplicates");
    assert_eq!(
        s.summary(),
        "Messages: 4 total, 0 no-date, 0 no-text, 0 no-tag, 0 bad-date, 0 bad-problem, 2 duplicate, 1 added"
    );
}

#[test]
fn scan_counts_messages_it_cannot_use() {
    let mut s = ScanState::new(vec![]);
    let mut no_date = message("message1", None, " A");
    no_date.date_title = None;
    assert!(s.scan_message(&no_date, "#problem", None, None).is_none());
    let mut no_text = message("message2", None, " A");
    no_text.text = None;
    assert!(s.scan_message(&no_text, "#problem", None, None).is_none());
    let mut no_tag = message("message3", None, " A");
    if let Some(t) = no_tag.text.as_mut() {
        t.anchor_texts = vec!["#other".into()];
    }
    assert!(s.scan_message(&no_tag, "#problem", None, None).is_none());
    let mut bad_date = message("message4", None, " A");
    bad_date.date_title = Some("yesterday".into());
    assert!(s.scan_message(&bad_date, "#problem", None, None).is_none());
    let bad_id = message("msg5", None, " A");
    assert!(s.scan_message(&bad_id, "#problem", None, None).is_none());
    // Without a chat, the link is the bare id and is never a duplicate.
    let bare = message("message6", None, " A");
    let p = s.scan_message(&bare, "#problem", None, None).unwrap();
    assert_eq!(p.link(), "6");
    s.finish_write(true);
    assert!(s.scan_message(&bare, "#problem", None, None).is_some());
    s.finish_write(true);
    assert_eq!(
        s.summary(),
        "Messages: 7 total, 1 no-date, 1 no-text, 1 no-tag, 1 bad-date, 0 bad-problem, 0 duplicate, 2 added"
    );
    assert!(s.can_take_message());
}

#[test]
fn links_of_problems() {
    let t = Timestamp::from_unix(0, 0).unwrap();
    let ps = vec![
        Problem::from_message("a".into(), "x".into(), "n".into(), t.clone()).unwrap(),
        Problem::from_message("b".into(), "y".into(), "n".into(), t).unwrap(),
    ];
    assert_eq!(links_of(&ps), vec!["a", "b"]);
}

#[test]
fn export_page_is_read_into_messages() {
    let html = r#"<html><body>
<div class="message default clearfix" id="message12">
  <div class="body">
    <div class="from_name"> Ann </div>
    <div class="pull_right date details" title="01.02.2024 10:20:30 UTC+03:00">10:20</div>
    <div class="text"><a href="">#problem</a> Two Sum<br>Find two <b>numbers</b>.</div>
  </div>
</div>
<div class="message default clearfix joined" id="message13">
  <div class="body"><div class="date" title="02.02.2024 11:00:00 UTC+03:00">11:00</div></div>
</div>
<div class="message service" id="message14"><div class="body">joined</div></div>
</body></html>"#;
    let messages = problem_manager_bot::scanner::export_messages(html).unwrap();
    assert_eq!(messages.len(), 2);
    let m = &messages[0];
    assert_eq!(m.from_name.as_deref(), Some(" Ann "));
    assert_eq!(m.date_title.as_deref(), Some("01.02.2024 10:20:30 UTC+03:00"));
    assert_eq!(m.id.as_deref(), Some("message12"));
    let body = m.text.as_ref().unwrap();
    assert_eq!(body.anchor_texts, vec!["#problem".to_string()]);
    assert_eq!(element_text(&body.children), "#problem Two Sum\nFind two numbers.");
    let second = &messages[1];
    assert!(second.from_name.is_none());
    assert!(second.text.is_none());
    assert_eq!(second.id.as_deref(), Some("message13"));

    let mut s = ScanState::new(vec![]);
    let p = s.scan_message(m, "#problem", Some("g"), None).unwrap();
    assert_eq!(p.link(), "https://t.me/g/12");
    assert_eq!(p.name(), "Two Sum");
    assert_eq!(p.legend(), "Find two numbers.");
    assert_eq!(p.author(), "Ann");
}
