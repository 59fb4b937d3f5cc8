use problem_manager_bot::numbers::{decimal, parse_u64};
use problem_manager_bot::text::{
    chars_of, contains_str, ends_with, file_text_of, find_str, is_whitespace, lines_of,
    starts_with, str_eq, trim_start_matches_char, trim_start_str, trim_str,
};

#[test]
fn whitespace_matches_std_for_every_char() {
    for v in 0u32..=0x10FFFF {
        if let Some(c) = char::from_u32(v) {
            assert_eq!(is_whitespace(c), c.is_whitespace(), "char {:?}", c);
        }
    }
}

#[test]
fn trim_matches_std() {
    for s in ["", "   ", "  a b  ", "\u{3000}x\u{2028}", "\t\nname\r\n", "plain", " \u{85}é "] {
        assert_eq!(trim_str(s), s.trim());
        assert_eq!(trim_start_str(s), s.trim_start());
    }
}

#[test]
fn trim_start_matches_removes_all_leading_copies() {
    assert_eq!(trim_start_matches_char("##tag#", '#'), "tag#");
    assert_eq!(trim_start_matches_char("@@group", '@'), "group");
    assert_eq!(trim_start_matches_char("-1001234", '-'), "1001234");
    assert_eq!(trim_start_matches_char("", '#'), "");
    assert_eq!(trim_start_matches_char("###", '#'), "");
}

#[test]
fn chars_of_gives_the_characters() {
    assert_eq!(chars_of("añ😀"), vec!['a', 'ñ', '😀']);
}

#[test]
fn prefix_suffix_and_equality() {
    assert!(starts_with("messages12.html", "messages"));
    assert!(!starts_with("message", "messages"));
    assert!(ends_with("messages12.html", ".html"));
    assert!(!ends_with("messages12.htm", ".html"));
    assert!(str_eq("é", "é"));
    assert!(!str_eq("a", "ab"));
}

#[test]
fn find_counts_characters() {
    assert_eq!(find_str("ab#problem x #problem", "#problem"), Some(2));
    assert_eq!(find_str("é#p", "#p"), Some(1));
    assert_eq!(find_str("abc", "d"), None);
    assert_eq!(find_str("abc", ""), Some(0));
    assert_eq!(find_str("ab", "abc"), None);
}

#[test]
fn contains_str_finds_equal_strings() {
    let v = vec!["x".to_string(), "https://t.me/g/1".to_string()];
    assert!(contains_str(&v, "https://t.me/g/1"));
    assert!(!contains_str(&v, "https://t.me/g/2"));
}

#[test]
fn lines_match_std() {
    for s in ["", "a", "a\n", "a\nb", "a\r\nb\r\n", "\n\n", "x\r", "a\n\nb\n", "\r\n"] {
        let expected: Vec<String> = s.lines().map(|l| l.to_string()).collect();
        assert_eq!(lines_of(s), expected, "text {:?}", s);
    }
}

#[test]
fn file_text_joins_with_final_newline() {
    assert_eq!(file_text_of(&vec![]), "");
    assert_eq!(file_text_of(&vec!["".to_string()]), "");
    assert_eq!(file_text_of(&vec!["a".to_string()]), "a\n");
    assert_eq!(file_text_of(&vec!["a".to_string(), "b".to_string()]), "a\nb\n");
    assert_eq!(file_text_of(&vec!["".to_string(), "".to_string()]), "\n\n");
}

#[test]
fn file_text_reads_back_as_the_same_lines() {
    let ls = vec!["{\"a\":1}".to_string(), "".to_string(), "{\"b\":2}".to_string()];
    assert_eq!(lines_of(&file_text_of(&ls)), ls);
}

#[test]
fn decimal_matches_display() {
    for n in [0u64, 7, 10, 99, 100, 12345, u64::MAX] {
        assert_eq!(decimal(n), n.to_string());
    }
}

#[test]
fn parse_u64_matches_std() {
    for s in ["", "+", "0", "+5", "-5", "12a", "18446744073709551615", "18446744073709551616", "007", " 1", "99999999999999999999"] {
        assert_eq!(parse_u64(s), s.parse::<u64>().ok(), "text {:?}", s);
    }
}
