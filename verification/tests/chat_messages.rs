use problem_manager_bot::chat::{
    decode_utf16_lossy, encode_utf16, handle, link_prefix_of_message, target_hashtag, Entity,
    IncomingMessage,
};
use problem_manager_bot::personal;
use problem_manager_bot::chat::submission;
use problem_manager_bot::problem::Timestamp;
use problem_manager_bot::text::chars_of;

fn tag_entity(text: &str, tag: &str) -> Entity {
    let start = text.find(tag).unwrap();
    Entity {
        is_hashtag: true,
        offset: text[..start].encode_utf16().count(),
        length: tag.encode_utf16().count(),
    }
}

#[test]
fn hashtag_has_one_leading_hash() {
    assert_eq!(target_hashtag("problem"), "#problem");
    assert_eq!(target_hashtag("##problem"), "#problem");
    assert_eq!(target_hashtag(""), "#");
}

#[test]
fn utf16_encoding_matches_std() {
    for s in ["", "abc", "привет", "😀x😀", "\u{FFFF}\u{10000}\u{10FFFF}"] {
        let expected: Vec<u16> = s.encode_utf16().collect();
        assert_eq!(encode_utf16(&chars_of(s)), expected);
    }
}

#[test]
fn utf16_lossy_decoding_matches_std() {
    let cases: Vec<Vec<u16>> = vec![
        vec![],
        vec![0x61, 0xD83D, 0xDE00, 0x62],
        vec![0xD83D],
        vec![0xDE00, 0x61],
        vec![0xD83D, 0xD83D, 0xDE00],
        vec![0xFFFD, 0xDFFF],
    ];
    for u in cases {
        let expected: Vec<u32> = String::from_utf16_lossy(&u).chars().map(|c| c as u32).collect();
        assert_eq!(decode_utf16_lossy(&u, 0, u.len()), expected, "units {:?}", u);
    }
    let u = vec![0x41, 0xD83D, 0xDE00, 0x42];
    assert_eq!(decode_utf16_lossy(&u, 1, 2), vec![0xFFFD]);
    assert_eq!(decode_utf16_lossy(&u, 1, 3), vec![0x1F600]);
}

#[test]
fn group_message_with_the_hashtag_is_logged() {
    let text = "😀 #problem Two Sum\nlegend";
    let msg = IncomingMessage {
        is_private: false,
        text: Some(text.to_string()),
        entities: vec![tag_entity(text, "#problem")],
    };
    assert_eq!(handle(&msg, "problem"), Some(text.to_string()));
    assert_eq!(handle(&msg, "#problem"), Some(text.to_string()));
    assert_eq!(handle(&msg, "other"), None);
}

#[test]
fn messages_without_a_matching_entity_are_not_logged() {
    let text = "#problem Two Sum";
    let not_hashtag = Entity { is_hashtag: false, offset: 0, length: 8 };
    let too_long = Entity { is_hashtag: true, offset: 0, length: 100 };
    let wrong_place = Entity { is_hashtag: true, offset: 1, length: 8 };
    let msg = IncomingMessage {
        is_private: false,
        text: Some(text.to_string()),
        entities: vec![not_hashtag, too_long, wrong_place],
    };
    assert_eq!(handle(&msg, "problem"), None);
    let private = IncomingMessage {
        is_private: true,
        text: Some(text.to_string()),
        entities: vec![tag_entity(text, "#problem")],
    };
    assert_eq!(handle(&private, "problem"), None);
    let no_text = IncomingMessage { is_private: false, text: None, entities: vec![] };
    assert_eq!(handle(&no_text, "problem"), None);
}

#[test]
fn private_messages_are_logged() {
    let m = IncomingMessage { is_private: true, text: Some("hi".into()), entities: vec![] };
    assert_eq!(personal::handle(&m), Some("hi".to_string()));
    let g = IncomingMessage { is_private: false, text: Some("hi".into()), entities: vec![] };
    assert_eq!(personal::handle(&g), None);
    let n = IncomingMessage { is_private: true, text: None, entities: vec![] };
    assert_eq!(personal::handle(&n), None);
}

#[test]
fn chat_prefix_of_a_message_link() {
    assert_eq!(link_prefix_of_message("https://t.me/group/15"), "https://t.me/group/");
    assert_eq!(link_prefix_of_message("https://t.me/c/123/15"), "https://t.me/c/123/");
    assert_eq!(link_prefix_of_message("nolink"), "");
}

#[test]
fn submission_is_the_text_after_the_hashtag() {
    let text = "#problem Two Sum\nFind two numbers.";
    let msg = IncomingMessage {
        is_private: false,
        text: Some(text.to_string()),
        entities: vec![tag_entity(text, "#problem")],
    };
    let date = Timestamp::from_unix(1_700_000_000, 0).unwrap();
    let p = submission(&msg, "problem", "https://t.me/g/3".into(), "Ann".into(), date).unwrap();
    assert_eq!(p.name(), "Two Sum");
    assert_eq!(p.legend(), "Find two numbers.");
    assert_eq!(p.link(), "https://t.me/g/3");
    assert_eq!(p.author(), "Ann");
    let plain = IncomingMessage { is_private: false, text: Some("hello".into()), entities: vec![] };
    let date = Timestamp::from_unix(0, 0).unwrap();
    assert!(submission(&plain, "problem", "l".into(), "a".into(), date).is_none());
}
