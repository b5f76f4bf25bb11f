use hyprlauncher::text::{
    contains_substr, delete_word, ends_with_str, lex_le_str, split_on, split_tokens,
    starts_with_str, str_eq,
};

#[test]
fn string_equality() {
    assert!(str_eq("abc", "abc"));
    assert!(!str_eq("abc", "abd"));
    assert!(!str_eq("abc", "ab"));
}

#[test]
fn suffix_and_prefix() {
    assert!(ends_with_str("org.gnome.Nautilus.desktop", ".desktop"));
    assert!(!ends_with_str("README.md", ".desktop"));
    assert!(ends_with_str("x", "x"));
    assert!(!ends_with_str("", "x"));
    assert!(starts_with_str("/usr/bin/ls", "/usr"));
    assert!(!starts_with_str("ls", "/usr"));
}

#[test]
fn substring_search() {
    assert!(contains_substr("text/plain; charset=utf-8", "text/"));
    assert!(!contains_substr("image/png", "text/"));
    assert!(contains_substr("anything", ""));
}

#[test]
fn splits_tokens_on_whitespace() {
    assert_eq!(split_tokens("ls -la  /tmp"), vec!["ls", "-la", "/tmp"]);
    assert_eq!(split_tokens("  "), Vec::<String>::new());
    assert_eq!(split_tokens("one"), vec!["one"]);
}

#[test]
fn splits_fields_on_separator() {
    assert_eq!(split_on("/a:/b", 0, ':'), vec!["/a", "/b"]);
    assert_eq!(split_on("a::b:", 0, ':'), vec!["a", "", "b", ""]);
    assert_eq!(split_on("", 0, ':'), vec![""]);
}

#[test]
fn lexicographic_order() {
    assert!(lex_le_str("apple", "banana"));
    assert!(!lex_le_str("cherry", "banana"));
    assert!(lex_le_str("same", "same"));
    assert!(lex_le_str("ab", "abc"));
    assert!(!lex_le_str("abc", "ab"));
}

#[test]
fn delete_word_removes_word_before_cursor() {
    // deleting at the end of "hello world" removes "world"
    let (text, pos) = delete_word("hello world", 11).unwrap();
    assert_eq!(text, "hello");
    assert_eq!(pos, 5);
}

#[test]
fn delete_word_skips_trailing_spaces() {
    let (text, pos) = delete_word("hello world   ", 14).unwrap();
    assert_eq!(text, "hello");
    assert_eq!(pos, 5);
}

#[test]
fn delete_word_at_start_is_nothing() {
    assert!(delete_word("hello", 0).is_none());
    assert!(delete_word("", 0).is_none());
}

#[test]
fn delete_word_mid_text() {
    // cursor after "hello wo" deletes just "wo"
    let (text, pos) = delete_word("hello world", 8).unwrap();
    assert_eq!(text, "hello rld");
    assert_eq!(pos, 6);
}
