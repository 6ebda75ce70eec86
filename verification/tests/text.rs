use colgrep::text::{
    chars_of, contains_text, holds_text, join_texts, same_text, split_lines, split_words,
};

#[test]
fn words_are_split_at_any_whitespace() {
    assert_eq!(split_words("  async\t fn\n"), vec!["async", "fn"]);
    assert_eq!(split_words("a\u{a0}b\u{3000}c"), vec!["a", "b", "c"]);
    assert!(split_words(" \r\n").is_empty());
}

#[test]
fn lines_lose_their_ends() {
    assert_eq!(split_lines("a\r\nb\n\nc"), vec!["a", "b", "", "c"]);
    assert_eq!(split_lines("a\rb\n"), vec!["a\rb"]);
    assert_eq!(split_lines("a\r"), vec!["a\r"]);
    assert!(split_lines("").is_empty());
}

#[test]
fn lines_agree_with_the_standard_library() {
    for text in ["", "\n", "\r\n", "x", "x\n", "x\n\n", "x\r\r\ny", "\n\r\nz\r"] {
        let expected: Vec<&str> = text.lines().collect();
        assert_eq!(split_lines(text), expected);
    }
}

#[test]
fn texts_are_found_in_texts() {
    assert!(contains_text("needle in hay", "in h"));
    assert!(contains_text("anything", ""));
    assert!(contains_text("", ""));
    assert!(!contains_text("ab", "abc"));
    assert!(contains_text("aab", "ab"));
    assert!(!contains_text("needle", "Needle"));
}

#[test]
fn texts_are_joined() {
    let parts = vec!["a".to_string(), String::new(), "c".to_string()];
    assert_eq!(join_texts(&parts, ", "), "a, , c");
    assert_eq!(join_texts(&Vec::new(), ", "), "");
}

#[test]
fn texts_are_compared_by_content() {
    assert!(same_text("ä", "ä"));
    assert!(!same_text("a", "A"));
    assert!(holds_text(&vec!["x".to_string(), "y".to_string()], "y"));
    assert!(!holds_text(&vec!["x".to_string()], "z"));
    assert_eq!(chars_of("aä"), vec!['a', 'ä']);
}
