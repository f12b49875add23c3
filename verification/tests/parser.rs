use shlibdeps::error::ResolveError;
use shlibdeps::parser::{
    find_depends_value, parse_dependencies, parse_dependency_list, parse_specifier,
};

fn list(items: &[&str]) -> Vec<String> {
    items.iter().map(|s| s.to_string()).collect()
}

#[test]
fn tagged_line_is_split_trimmed_and_filtered() {
    let deps = parse_dependencies(b"shlibs:Depends=libfoo (>= 1.0), libgcc-s1, libbar").unwrap();
    assert_eq!(deps, list(&["libfoo (>= 1.0)", "libbar"]));
}

#[test]
fn output_without_tagged_line_is_refused() {
    let result = parse_dependencies(b"misc:Depends=libfoo\nshlibs:Recommends=libbar\n");
    assert!(matches!(
        result,
        Err(ResolveError::Format("Failed to find dependency specification."))
    ));
}

#[test]
fn empty_output_is_refused() {
    assert!(matches!(parse_dependencies(b""), Err(ResolveError::Format(_))));
}

#[test]
fn first_tagged_line_wins() {
    let output = b"noise\nshlibs:Depends=libc6 (>= 2.34)\nshlibs:Depends=libz1\n";
    assert_eq!(parse_dependencies(output).unwrap(), list(&["libc6 (>= 2.34)"]));
    assert_eq!(find_depends_value(output), Some(&b"libc6 (>= 2.34)"[..]));
}

#[test]
fn tag_must_begin_the_line() {
    assert_eq!(find_depends_value(b" shlibs:Depends=libc6\n"), None);
    assert_eq!(find_depends_value(b"shlibs:Depends"), None);
    assert_eq!(find_depends_value(b"x\nshlibs:Depends="), Some(&b""[..]));
}

#[test]
fn both_runtime_support_spellings_are_left_out() {
    let deps =
        parse_dependency_list(b"libgcc1 (>= 1:3.0), libc6 (>= 2.4), libgcc-s1 (>= 3.0), libgcc");
    assert_eq!(deps, list(&["libc6 (>= 2.4)", "libgcc"]));
    assert!(deps.iter().any(|d| d.starts_with("libc")));
    assert!(!deps.iter().any(|d| d.starts_with("libgcc-") || d.starts_with("libgcc1")));
}

#[test]
fn runtime_support_is_recognised_after_trimming() {
    assert_eq!(parse_specifier(b" \t libgcc-s1 "), None);
    assert_eq!(parse_specifier(b"\rlibgcc1\n"), None);
    assert_eq!(parse_specifier(b"x libgcc-s1"), Some("x libgcc-s1".to_string()));
}

#[test]
fn whitespace_is_trimmed_at_both_ends_only() {
    assert_eq!(
        parse_specifier(b" \t\n\x0c\r libfoo (>= 1.0)\r\n \t\x0c"),
        Some("libfoo (>= 1.0)".to_string())
    );
    assert_eq!(parse_specifier(b"\x0blibfoo"), Some("\x0blibfoo".to_string()));
    assert_eq!(parse_specifier(b"   "), Some(String::new()));
    assert_eq!(parse_specifier(b""), Some(String::new()));
}

#[test]
fn empty_pieces_are_kept_as_empty_specifiers() {
    assert_eq!(parse_dependency_list(b""), list(&[""]));
    assert_eq!(parse_dependency_list(b"a,,b,"), list(&["a", "", "b", ""]));
    assert_eq!(parse_dependencies(b"shlibs:Depends=\n").unwrap(), list(&[""]));
}

#[test]
fn pieces_that_are_not_text_are_dropped() {
    assert_eq!(parse_specifier(b"lib\xff"), None);
    assert_eq!(parse_specifier(b" \xc3 "), None);
    assert_eq!(parse_specifier(b"\xed\xa0\x80"), None);
    assert_eq!(parse_dependency_list(b"liba, lib\xffb, libc"), list(&["liba", "libc"]));
}

#[test]
fn text_beyond_ascii_is_decoded() {
    assert_eq!(parse_specifier(" libé\u{a0} ".as_bytes()), Some("libé\u{a0}".to_string()));
    assert_eq!(parse_specifier("日本".as_bytes()), Some("日本".to_string()));
}

#[test]
fn duplicates_and_order_are_kept() {
    assert_eq!(parse_dependency_list(b"b, a, b ,a"), list(&["b", "a", "b", "a"]));
}

#[test]
fn calls_do_not_depend_on_each_other() {
    let first = b"shlibs:Depends=liba, libb\n";
    let second = b"shlibs:Depends=libx\n";
    let one = parse_dependencies(first).unwrap();
    let two = parse_dependencies(second).unwrap();
    let again = parse_dependencies(first).unwrap();
    assert_eq!(one, list(&["liba", "libb"]));
    assert_eq!(two, list(&["libx"]));
    assert_eq!(again, one);
}

#[test]
fn c_library_dependency_is_listed() {
    let output = b"shlibs:Depends=libgcc-s1 (>= 3.0), libc6 (>= 2.34)\n";
    let deps = parse_dependencies(output).unwrap();
    assert_eq!(deps, list(&["libc6 (>= 2.34)"]));
    assert!(deps.iter().any(|d| d.starts_with("libc")));
    assert!(!deps.iter().any(|d| d.starts_with("libgcc")), "{deps:?}");
}

#[test]
fn list_of_two_runs_is_the_two_lists_in_a_row() {
    let mut expected = parse_dependency_list(b"liba , libgcc1, lib\xffb");
    expected.extend(parse_dependency_list(b" libc6,,libgcc-s1 , libz1 "));
    let whole = parse_dependency_list(b"liba , libgcc1, lib\xffb, libc6,,libgcc-s1 , libz1 ");
    assert_eq!(whole, expected);
    assert_eq!(whole, list(&["liba", "libc6", "", "libz1"]));
}

#[test]
fn listed_entries_are_the_specifiers_of_the_pieces() {
    let value: &[u8] = b"libfoo (>= 1.0), libgcc-s1,\xfe, libbar ,libfoo (>= 1.0)";
    let deps = parse_dependency_list(value);
    let mut kept = Vec::new();
    for piece in value.split(|b| *b == b',') {
        if let Some(text) = parse_specifier(piece) {
            assert!(deps.contains(&text));
            kept.push(text);
        }
    }
    assert_eq!(deps, kept);
}

#[test]
fn runtime_support_prefix_must_be_complete() {
    assert_eq!(parse_specifier(b"libgcc"), Some("libgcc".to_string()));
    assert_eq!(parse_specifier(b"libgcc2"), Some("libgcc2".to_string()));
    assert_eq!(parse_specifier(b"libgccjit0"), Some("libgccjit0".to_string()));
    assert_eq!(parse_specifier(b"Libgcc-s1"), Some("Libgcc-s1".to_string()));
    assert_eq!(parse_specifier(b"libgcc-"), None);
    assert_eq!(parse_specifier(b"libgcc1"), None);
    assert_eq!(parse_specifier(b"libgcc1-dbg"), None);
    assert_eq!(parse_specifier("libgcc-\u{e9}".as_bytes()), None);
    assert_eq!(parse_specifier("\u{e9}libgcc-s1".as_bytes()), Some("\u{e9}libgcc-s1".to_string()));
}

#[test]
fn lines_end_at_line_feeds_only() {
    let output = b"a\rshlibs:Depends=libx\nshlibs:Depends=liby\r\n";
    assert_eq!(parse_dependencies(output).unwrap(), list(&["liby"]));
    assert_eq!(find_depends_value(b"shlibs:Depends=a, b\nrest"), Some(&b"a, b"[..]));
}
