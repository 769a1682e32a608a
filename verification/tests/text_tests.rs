use chat_app::strmap::StrMap;
use chat_app::text::{
    concat_in_reverse, ends_with, join_underscore, le_text, parse_u32, same_text, split_on,
    starts_with, trim,
};

#[test]
fn split_on_underscore_gives_every_piece() {
    assert_eq!(split_on("a_b", '_'), vec!["a".to_string(), "b".to_string()]);
    assert_eq!(split_on("", '_'), vec!["".to_string()]);
    assert_eq!(
        split_on("_x__y_", '_'),
        vec!["", "x", "", "y", ""].into_iter().map(String::from).collect::<Vec<_>>()
    );
}

#[test]
fn reversed_pieces_are_written_without_separator() {
    let pieces = split_on("alice_bob", '_');
    assert_eq!(concat_in_reverse(&pieces), "bobalice");
    assert_eq!(concat_in_reverse(&Vec::new()), "");
}

#[test]
fn prefixes_and_suffixes() {
    assert!(starts_with("alice_bob", "alice_"));
    assert!(!starts_with("alice_bob", "bob_"));
    assert!(starts_with("abc", ""));
    assert!(!starts_with("ab", "abc"));
    assert!(ends_with("alice_bob", "_bob"));
    assert!(!ends_with("alice_bob", "_alice"));
    assert!(!ends_with("b", "_bob"));
}

#[test]
fn order_of_text_is_that_of_str() {
    for (a, b) in [("a", "b"), ("b", "a"), ("ab", "a"), ("", "x"), ("Zed", "alpha"), ("same", "same")] {
        assert_eq!(le_text(a, b), a <= b, "{a} <= {b}");
    }
}

#[test]
fn joining_and_comparing_text() {
    assert_eq!(join_underscore("x", "y"), "x_y");
    assert!(same_text("bye", "bye"));
    assert!(!same_text("bye", "Bye"));
}

#[test]
fn trim_removes_unicode_white_space_at_both_ends() {
    assert_eq!(trim("  1 \n"), "1");
    assert_eq!(trim("\t\u{3000}hello world\u{a0}\r\n"), "hello world");
    assert_eq!(trim("   "), "");
    assert_eq!(trim("x"), "x");
    for s in [" a b ", "\n\nq", "z\u{2003}", ""] {
        assert_eq!(trim(s), s.trim());
    }
}

#[test]
fn parse_u32_follows_from_str() {
    for s in ["0", "1", "+2", "42", "4294967295", "4294967296", "", "+", "-1", "1a", " 1", "007", "99999999999999"] {
        assert_eq!(parse_u32(s), s.parse::<u32>().ok(), "input {s:?}");
    }
}

#[test]
fn strmap_reads_back_what_was_written() {
    let mut m: StrMap<String> = StrMap::new();
    assert_eq!(m.insert("k".to_string(), "v1".to_string()), None);
    assert_eq!(m.insert("j".to_string(), "w".to_string()), None);
    assert_eq!(m.get("k"), Some(&"v1".to_string()));
    assert_eq!(m.insert("k".to_string(), "v2".to_string()), Some("v1".to_string()));
    assert_eq!(m.get("k"), Some(&"v2".to_string()));
    assert_eq!(m.len(), 2);
    let (key, value) = m.entry_at(0);
    assert_eq!((key.as_str(), value.as_str()), ("k", "v2"));
    assert_eq!(m.remove("k"), Some("v2".to_string()));
    assert!(!m.contains_key("k"));
    assert!(m.contains_key("j"));
    assert_eq!(m.remove("k"), None);
    assert_eq!(m.len(), 1);
}

#[test]
fn white_space_is_that_of_char_is_whitespace() {
    for n in 0u32..0x110000 {
        if let Some(c) = char::from_u32(n) {
            assert_eq!(chat_app::text::char_is_whitespace(c), c.is_whitespace(), "U+{n:04X}");
        }
    }
}
