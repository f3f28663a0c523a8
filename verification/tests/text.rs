use p_rust::text::{chars_of, contains_ignore_ascii_case, is_blank, is_whitespace_char, preview};

#[test]
fn whitespace_matches_std() {
    for u in 0u32..0x3100 {
        if let Some(c) = char::from_u32(u) {
            assert_eq!(is_whitespace_char(c), c.is_whitespace(), "{:?}", c);
        }
    }
}

#[test]
fn blank_is_trim_empty() {
    for s in ["", " ", "\t\n", "\u{3000}\u{a0}", " a ", "x", "\u{200b}"] {
        assert_eq!(is_blank(s), s.trim().is_empty(), "{:?}", s);
    }
}

#[test]
fn preview_takes_first_chars() {
    assert_eq!(preview("héllo wörld, this is long text", 20), "héllo wörld, this is");
    assert_eq!(preview("short", 20), "short");
    assert_eq!(preview("", 20), "");
    let s = "ééééééééééééééééééééééé";
    assert_eq!(preview(s, 20), s.chars().take(20).collect::<String>());
}

#[test]
fn contains_ignores_ascii_case_only() {
    assert!(contains_ignore_ascii_case("Hello World", "o w"));
    assert!(contains_ignore_ascii_case("Hello", ""));
    assert!(contains_ignore_ascii_case("", ""));
    assert!(!contains_ignore_ascii_case("", "a"));
    assert!(!contains_ignore_ascii_case("Héllo", "HÉLLO"));
    assert!(contains_ignore_ascii_case("Héllo", "HéLLO"));
    assert!(!contains_ignore_ascii_case("abc", "abcd"));
}

#[test]
fn chars_of_copies_chars() {
    assert_eq!(chars_of("aé😀"), vec!['a', 'é', '😀']);
}
