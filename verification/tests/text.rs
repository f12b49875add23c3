use shlibdeps::text::{has_prefix, trimmed_text};

#[test]
fn whitespace_at_both_ends_is_left_out() {
    assert_eq!(trimmed_text(b"  ab c \n"), Some("ab c"));
    assert_eq!(trimmed_text(b"abc"), Some("abc"));
    assert_eq!(trimmed_text(b" \t\n\x0c\rabc \t\n\x0c\r"), Some("abc"));
    assert_eq!(trimmed_text(b""), Some(""));
    assert_eq!(trimmed_text(b" \t\r"), Some(""));
}

#[test]
fn only_the_five_ascii_characters_are_whitespace() {
    for b in 0..=127u8 {
        let bytes = [b, b'x', b];
        let text = trimmed_text(&bytes).unwrap();
        let expected = std::str::from_utf8(&bytes)
            .unwrap()
            .trim_matches(|c: char| c.is_ascii_whitespace());
        assert_eq!(text, expected, "{b}");
        assert_eq!(text == "x", matches!(b, b' ' | b'\t' | b'\n' | 0x0c | b'\r'), "{b}");
    }
    assert_eq!(trimmed_text("\u{a0}x\u{2003}".as_bytes()), Some("\u{a0}x\u{2003}"));
    assert_eq!(trimmed_text(b"\x0bx\x0b"), Some("\x0bx\x0b"));
}

#[test]
fn bytes_that_are_not_utf8_are_no_text() {
    assert_eq!(trimmed_text(b"\xff"), None);
    assert_eq!(trimmed_text(b" a\x80 "), None);
    assert_eq!(trimmed_text(b"\xc3"), None);
    assert_eq!(trimmed_text(b" \xc3 "), None);
    assert_eq!(trimmed_text(b"\xc0\xaf"), None);
    assert_eq!(trimmed_text(b"\xed\xa0\x80"), None);
    assert_eq!(trimmed_text(b"\xf4\x90\x80\x80"), None);
    assert_eq!(trimmed_text(b"\xc3\xa9 "), Some("\u{e9}"));
}

#[test]
fn text_is_decoded_as_utf8() {
    assert_eq!(
        trimmed_text(" \u{e9}\u{65e5}\u{1f600} ".as_bytes()),
        Some("\u{e9}\u{65e5}\u{1f600}")
    );
}

#[test]
fn prefix_of_a_text() {
    assert!(has_prefix("libgcc-s1", "libgcc-"));
    assert!(has_prefix("libgcc-", "libgcc-"));
    assert!(has_prefix("abc", ""));
    assert!(has_prefix("", ""));
    assert!(!has_prefix("libgcc", "libgcc-"));
    assert!(!has_prefix(" libgcc-s1", "libgcc-"));
    assert!(!has_prefix("", "a"));
    assert!(has_prefix("\u{e9}t\u{e9}", "\u{e9}t"));
    assert!(!has_prefix("\u{e9}t\u{e9}", "\u{e8}"));
}
