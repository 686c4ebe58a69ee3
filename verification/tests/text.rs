use vless_harvester::text::{
    contains_text, is_white_space, join, last_part, lines, pad_right, remove_chars,
    remove_white_space, repeat_char, replace_text, same_text, split_first, take_chars, to_decimal,
    trim,
};

fn samples() -> Vec<&'static str> {
    vec![
        "",
        " ",
        "\n",
        "\r\n",
        "a",
        " a ",
        "\u{a0}a b\u{3000}",
        "a\nb",
        "a\r\nb\r\n",
        "a\n\n\nb\n",
        "a\rb\r",
        "\r",
        "\n\r",
        "one\u{2028}two\n\tthree \u{85}",
        "vless://x@y:1#\u{1f310} name",
    ]
}

#[test]
fn white_space_is_that_of_unicode() {
    for code in 0..=0x10ffffu32 {
        if let Some(c) = char::from_u32(code) {
            assert_eq!(is_white_space(c), c.is_whitespace(), "{code:#x}");
        }
    }
}

#[test]
fn lines_end_in_line_feeds() {
    assert_eq!(lines("a\r\nb\n\nc\r"), vec!["a", "b", "", "c\r"]);
    for s in samples() {
        let expected: Vec<&str> = s.lines().collect();
        assert_eq!(lines(s), expected, "{s:?}");
    }
}

#[test]
fn trim_removes_outer_white_space() {
    assert_eq!(trim("\u{a0} a b\u{3000}\n"), "a b");
    for s in samples() {
        assert_eq!(trim(s), s.trim(), "{s:?}");
        assert_eq!(trim(&trim(s)), s.trim(), "{s:?}");
    }
}

#[test]
fn remove_white_space_removes_all_of_it() {
    assert_eq!(remove_white_space(" a\tb\u{3000}c\n"), "abc");
    for s in samples() {
        assert_eq!(
            remove_white_space(s),
            s.replace(|c: char| c.is_whitespace(), "")
        );
    }
}

#[test]
fn replace_goes_from_the_left_without_overlap() {
    assert_eq!(replace_text("aaaaa", "aa", "b"), "bba");
    assert_eq!(replace_text("a&amp;b&amp;amp;c", "&amp;", "&"), "a&b&amp;c");
    assert_eq!(replace_text("IncIncInc", "Inc", ""), "");
    assert_eq!(replace_text("abc", "abcd", "x"), "abc");
    assert_eq!(replace_text("", "x", "y"), "");
}

#[test]
fn contains_finds_a_pattern_anywhere() {
    assert!(contains_text("xxvless://yy", "vless://"));
    assert!(contains_text("vless://", "vless://"));
    assert!(contains_text("abc", ""));
    assert!(contains_text("", ""));
    assert!(!contains_text("vless:/", "vless://"));
    assert!(!contains_text("", "a"));
}

#[test]
fn splitting_cuts_at_the_first_or_the_last() {
    assert_eq!(
        split_first("a#b#c", '#'),
        ("a".to_string(), Some("b#c".to_string()))
    );
    assert_eq!(split_first("abc", '#'), ("abc".to_string(), None));
    assert_eq!(
        split_first("#", '#'),
        (String::new(), Some(String::new()))
    );
    assert_eq!(last_part("a#b#c", '#'), "c");
    assert_eq!(last_part("abc", '#'), "abc");
    assert_eq!(last_part("abc#", '#'), "");
}

#[test]
fn characters_are_removed_and_taken() {
    assert_eq!(remove_chars("[a]|b|", "[]|"), "ab");
    assert_eq!(remove_chars("", "[]|"), "");
    assert_eq!(take_chars("\u{1f310}bc", 2), "\u{1f310}b");
    assert_eq!(take_chars("ab", 30), "ab");
    assert_eq!(take_chars("ab", 0), "");
}

#[test]
fn join_puts_the_separator_between() {
    let parts = vec!["a".to_string(), String::new(), "b".to_string()];
    assert_eq!(join(&parts, "\n"), "a\n\nb");
    assert_eq!(join(&Vec::new(), "\n"), "");
    assert_eq!(join(&vec!["x".to_string()], "\n"), "x");
}

#[test]
fn numbers_are_written_in_decimal() {
    for n in [0u128, 7, 10, 443, 65535, u64::MAX as u128, u128::MAX] {
        assert_eq!(to_decimal(n), n.to_string());
    }
}

#[test]
fn padding_counts_characters() {
    assert_eq!(pad_right("\u{e9}", 3), format!("{:<3}", "\u{e9}"));
    assert_eq!(pad_right("abcd", 3), "abcd");
    assert_eq!(pad_right("", 0), "");
    assert_eq!(repeat_char('-', 4), "----");
    assert_eq!(repeat_char('-', 0), "");
}

#[test]
fn equal_texts_are_the_same() {
    assert!(same_text("abc", "abc"));
    assert!(!same_text("abc", "abd"));
    assert!(!same_text("abc", "ab"));
    assert!(same_text("", ""));
}
