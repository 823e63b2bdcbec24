use summer::display::QuotedString;

fn limit(width: usize) -> Option<usize> {
    if width == 0 {
        None
    } else {
        Some(width)
    }
}

fn check(string: &[u8], width: usize, expected: &str, truncated: bool) {
    let qs = QuotedString::new(string, limit(width));
    assert_eq!(qs.to_string(), expected);
    assert_eq!(qs.is_truncated(), truncated);
}

#[test]
fn quote_strings() {
    check(b"\xEF\xBC\xA1 \xEF\xBC\xA2", 0, "Ａ Ｂ", false);
    check(b"\xCE\xB1 \xEF\xBC", 0, "α \\xEF\\xBC", false);
    check(b"\xCE\xB1 \xEF\xBC \xCE\xB1", 0, "α \\xEF\\xBC α", false);
    check(b"a\n\0\x11b", 0, "a\\x0A\\x00\\x11b", false);

    check(b"aaa", 3, "aaa", false);
    check(b"bbbbb", 3, "bb", true);
    check(b"\xCE\xB1 \xEF\xBC", 3, "α ", true);
}

#[test]
fn maximum_of_zero_is_no_maximum() {
    let qs = QuotedString::new(b"a long name", Some(0));
    assert_eq!(qs.to_string(), "a long name");
    assert!(!qs.is_truncated());
    let qs = QuotedString::new(b"\xCE\xB1\xCE\xB2\xCE\xB3", Some(0));
    assert_eq!(qs.as_str(), "αβγ");
    assert!(!qs.is_truncated());
}

#[test]
fn plain_names_that_fit_are_kept() {
    check(b"", 1, "", false);
    check(b"a", 1, "a", false);
    check(b"ab", 1, "", true);
    check(b"abcd", 4, "abcd", false);
    check(b"abcde", 4, "abc", true);
    check(b"a b~c", 0, "a b~c", false);
}

#[test]
fn wide_characters_are_never_split() {
    // Each of the characters takes two columns.
    let name = "ＡＢＣ".as_bytes();
    check(name, 7, "ＡＢＣ", false);
    // The name takes six columns: it fits exactly.
    check(name, 6, "ＡＢＣ", false);
    check(name, 5, "ＡＢ", true);
    check(name, 4, "Ａ", true);
    check(name, 3, "Ａ", true);
    check(name, 2, "", true);
    check(name, 1, "", true);
}

#[test]
fn truncated_text_leaves_room_for_the_ellipsis() {
    use_width_check("αβγδε".as_bytes());
    use_width_check("ＡＢＣ".as_bytes());
    use_width_check(b"a\x01b\x02c");
    use_width_check(b"\xff\xfe\xfd");
    use_width_check("aＡbＢ".as_bytes());
}

fn use_width_check(name: &[u8]) {
    let whole = QuotedString::new(name, None);
    let width: usize = whole.as_str().chars().map(display_width).sum();
    for max in 1..30usize {
        let qs = QuotedString::new(name, Some(max));
        let shown: usize = qs.as_str().chars().map(display_width).sum();
        // A name is cut exactly where it is wider than the maximum.
        assert_eq!(qs.is_truncated(), width > max);
        if qs.is_truncated() {
            assert!(shown + 1 <= max);
            assert!(whole.as_str().starts_with(qs.as_str()));
        } else {
            assert_eq!(qs.as_str(), whole.as_str());
        }
    }
}

fn display_width(c: char) -> usize {
    if (c as u32) < 0x7f {
        1
    } else if c == 'Ａ' || c == 'Ｂ' || c == 'Ｃ' {
        2
    } else {
        1
    }
}

#[test]
fn escapes_take_four_columns() {
    check(b"a\x01b", 7, "a\\x01b", false);
    // The name takes six columns: it fits exactly.
    check(b"a\x01b", 6, "a\\x01b", false);
    check(b"a\x01b", 5, "a", true);
    check(b"\x1f", 0, "\\x1F", false);
    check(b"\xff", 0, "\\xFF", false);
    check(b"\xff", 5, "\\xFF", false);
    check(b"\xff", 4, "\\xFF", false);
    check(b"\xff", 3, "", true);
}

#[test]
fn malformed_text_is_escaped_byte_by_byte() {
    // An overlong encoding, a surrogate, a code that is too large, and a
    // character that is cut short.
    check(b"\xC0\x80", 0, "\\xC0\\x80", false);
    check(b"\xE0\x80\x80", 0, "\\xE0\\x80\\x80", false);
    check(b"\xED\xA0\x80", 0, "\\xED\\xA0\\x80", false);
    check(b"\xF4\x90\x80\x80", 0, "\\xF4\\x90\\x80\\x80", false);
    check(b"\xF0\x9F\x98", 0, "\\xF0\\x9F\\x98", false);
    check(b"\x80a", 0, "\\x80a", false);
    // Well-formed characters of two, three and four bytes.
    check("é€😀".as_bytes(), 0, "é€😀", false);
    check(b"\xED\x9F\xBF", 0, "\u{D7FF}", false);
    check(b"\xEE\x80\x80", 0, "\u{E000}", false);
    check(b"\xF4\x8F\xBF\xBF", 0, "\u{10FFFF}", false);
}

#[test]
fn all_control_characters_are_escaped() {
    check(b"\x00\x1f", 0, "\\x00\\x1F", false);
    check(b"a\x7fb", 0, "a\\x7Fb", false);
    check("a\u{80}b\u{9f}".as_bytes(), 0, "a\\x80b\\x9F", false);
    check("\u{a0}".as_bytes(), 0, "\u{a0}", false);
    check(b" ~", 0, " ~", false);
    // The escape of a control character takes four columns too.
    check("\u{85}".as_bytes(), 5, "\\x85", false);
    check("\u{85}".as_bytes(), 4, "\\x85", false);
    check("\u{85}".as_bytes(), 3, "", true);
}

#[test]
fn names_that_fit_exactly_are_kept() {
    check(b"aaa", 3, "aaa", false);
    check("αβγ".as_bytes(), 3, "αβγ", false);
    check("αβγ".as_bytes(), 2, "α", true);
    check("αβγδ".as_bytes(), 3, "αβ", true);
    check(b"\x01", 4, "\\x01", false);
    check(b"\x01", 3, "", true);
    check(b"\xCE\xB1 \xEF\xBC", 10, "α \\xEF\\xBC", false);
    check(b"\xCE\xB1 \xEF\xBC", 9, "α \\xEF", true);
    check("aＡ".as_bytes(), 3, "aＡ", false);
    check("aＡ".as_bytes(), 2, "a", true);
}
