use corvus::text::{
    contains, ends_with, eq_ignore_ascii_case, from_chars, parse_unsigned, same_text, starts_with,
    to_ascii_lowercase, to_chars, to_decimal, to_signed_decimal, trim,
};

#[test]
fn white_space_is_that_of_unicode() {
    for c in '\u{0}'..=char::MAX {
        let text = format!("{c}x{c}");
        assert_eq!(trim(&text), text.trim(), "{c:?}");
    }
    assert_eq!(trim("  "), "");
}

#[test]
fn numbers_are_written_and_read() {
    for n in [0, 1, 9, 10, 99, 100, 12345, u64::MAX] {
        assert_eq!(to_decimal(n), n.to_string());
        assert_eq!(parse_unsigned(&n.to_string(), u64::MAX), Some(n));
    }
    for n in [0, -1, 1, i32::MIN, i32::MAX] {
        assert_eq!(to_signed_decimal(n), n.to_string());
    }
    for text in ["", "+", "-0", "1 ", "0x1", "١", "++1", "18446744073709551616", "007", "+7"] {
        assert_eq!(parse_unsigned(text, u64::MAX), text.parse().ok(), "{text:?}");
        assert_eq!(
            parse_unsigned(text, u32::MAX as u64),
            text.parse::<u32>().ok().map(u64::from),
            "{text:?}"
        );
    }
    assert_eq!(parse_unsigned("4294967296", u32::MAX as u64), None);
    assert_eq!(parse_unsigned("5", 4), None);
}

#[test]
fn texts_are_compared_and_searched() {
    for (hay, needle) in [
        ("", ""),
        ("abc", ""),
        ("abc", "bc"),
        ("abc", "abcd"),
        ("aaab", "aab"),
        ("高危操作", "危操"),
        ("abc", "x"),
    ] {
        assert_eq!(contains(hay, needle), hay.contains(needle), "{hay} {needle}");
    }
    for (s, part) in [("abc", "ab"), ("abc", "bc"), ("", ""), ("a", "ab"), ("字b", "b"), ("abc", "")] {
        assert_eq!(starts_with(s, part), s.starts_with(part), "{s} {part}");
        assert_eq!(ends_with(s, part), s.ends_with(part), "{s} {part}");
    }
    assert_eq!(to_ascii_lowercase("AbZ É[@"), "AbZ É[@".to_ascii_lowercase());
    assert!(eq_ignore_ascii_case("ExIt", "eXiT"));
    assert!(!eq_ignore_ascii_case("É", "é"));
    assert!(same_text("a字", "a字") && !same_text("a", "ab") && !same_text("a", "b"));
    let chars = to_chars("a字b");
    assert_eq!(chars, vec!['a', '字', 'b']);
    assert_eq!(from_chars(&chars, 1, 3), "字b");
}
