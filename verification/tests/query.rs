use colgrep::query::{merge_query_with_pattern, semantic_query, strip_regex_for_semantic};

#[test]
fn test_strip_regex_basic_patterns() {
    // Character classes should be stripped, leaving meaningful text
    assert_eq!(strip_regex_for_semantic(r"fn\s+\w+"), "fn");
    assert_eq!(strip_regex_for_semantic(r"async\s+fn"), "async fn");
    assert_eq!(strip_regex_for_semantic(r"\btest\b"), "test");
}

#[test]
fn test_strip_regex_quantifiers() {
    // Quantifiers should be stripped
    assert_eq!(strip_regex_for_semantic("foo+"), "foo");
    assert_eq!(strip_regex_for_semantic("bar*"), "bar");
    assert_eq!(strip_regex_for_semantic("baz?"), "baz");
    assert_eq!(strip_regex_for_semantic("qux{2,5}"), "qux");
}

#[test]
fn test_strip_regex_alternation() {
    // Alternation should become space-separated
    assert_eq!(strip_regex_for_semantic("foo|bar"), "foo bar");
    assert_eq!(strip_regex_for_semantic("a|b|c"), "a b c");
}

#[test]
fn test_strip_regex_anchors() {
    // Anchors should be stripped
    assert_eq!(strip_regex_for_semantic("^start"), "start");
    assert_eq!(strip_regex_for_semantic("end$"), "end");
    assert_eq!(strip_regex_for_semantic("^both$"), "both");
}

#[test]
fn test_strip_regex_character_classes() {
    // Character class brackets should be stripped entirely
    assert_eq!(strip_regex_for_semantic("[abc]"), "");
    assert_eq!(strip_regex_for_semantic("pre[abc]post"), "prepost");
    assert_eq!(strip_regex_for_semantic("[a-z]+"), "");
}

#[test]
fn test_strip_regex_groups() {
    // Grouping parens should be stripped but contents kept
    assert_eq!(strip_regex_for_semantic("(foo)"), "foo");
    assert_eq!(strip_regex_for_semantic("(foo)(bar)"), "foobar");
}

#[test]
fn test_strip_regex_escaped_literals() {
    // Escaped metacharacters should become literals
    assert_eq!(strip_regex_for_semantic(r"foo\.bar"), "foo.bar");
    assert_eq!(strip_regex_for_semantic(r"a\*b"), "a*b");
    assert_eq!(strip_regex_for_semantic(r"Result\<T\>"), "Result<T>");
}

#[test]
fn test_strip_regex_dots() {
    // Dots (any char) should be stripped
    assert_eq!(strip_regex_for_semantic("a.b"), "ab");
    assert_eq!(strip_regex_for_semantic("Result<.*>"), "Result<>");
}

#[test]
fn test_strip_regex_plain_text() {
    // Plain text should pass through unchanged
    assert_eq!(strip_regex_for_semantic("hello"), "hello");
    assert_eq!(strip_regex_for_semantic("hello world"), "hello world");
    assert_eq!(strip_regex_for_semantic("foo_bar"), "foo_bar");
}

#[test]
fn test_strip_regex_complex_patterns() {
    // Complex real-world patterns
    assert_eq!(strip_regex_for_semantic(r"impl\s+\w+\s+for"), "impl for");
    assert_eq!(strip_regex_for_semantic(r"fn\s+test_\w+"), "fn test_");
    assert_eq!(
        strip_regex_for_semantic(r"pub\s+(async\s+)?fn"),
        "pub async fn"
    );
}

#[test]
fn test_strip_regex_empty_result() {
    // Patterns that result in empty string
    assert_eq!(strip_regex_for_semantic(r"\s+"), "");
    assert_eq!(strip_regex_for_semantic(r"\w+"), "");
    assert_eq!(strip_regex_for_semantic(r".*"), "");
    assert_eq!(strip_regex_for_semantic(r"[a-z]+"), "");
}

#[test]
fn test_merge_query_no_duplicates() {
    // No duplicates - all pattern tokens added
    assert_eq!(
        merge_query_with_pattern("error handling", "Result"),
        "error handling Result"
    );
    assert_eq!(
        merge_query_with_pattern("function", "async fn"),
        "function async fn"
    );
}

#[test]
fn test_merge_query_with_duplicates() {
    // Duplicates should be removed (case-insensitive)
    assert_eq!(
        merge_query_with_pattern("async function", "async fn"),
        "async function fn"
    );
    assert_eq!(
        merge_query_with_pattern("error handling", "error"),
        "error handling"
    );
    assert_eq!(
        merge_query_with_pattern("Error Handling", "error handling"),
        "Error Handling"
    );
}

#[test]
fn test_merge_query_all_duplicates() {
    // All pattern tokens are duplicates - just return query
    assert_eq!(merge_query_with_pattern("foo bar", "foo bar"), "foo bar");
    assert_eq!(merge_query_with_pattern("FOO BAR", "foo bar"), "FOO BAR");
}

#[test]
fn test_merge_query_empty_pattern() {
    // Empty pattern - just return query
    assert_eq!(merge_query_with_pattern("query", ""), "query");
}

#[test]
fn test_merge_query_partial_duplicates() {
    // Mix of duplicate and new tokens
    assert_eq!(
        merge_query_with_pattern("impl trait", "impl for"),
        "impl trait for"
    );
    assert_eq!(
        merge_query_with_pattern("pub fn", "pub async fn test"),
        "pub fn async test"
    );
}

#[test]
fn unclosed_classes_and_ranges_reach_to_the_end() {
    assert_eq!(strip_regex_for_semantic("a[bc"), "a");
    assert_eq!(strip_regex_for_semantic("a{2"), "a");
    assert_eq!(strip_regex_for_semantic(r"a[\]b]c"), "ac");
    assert_eq!(strip_regex_for_semantic("a[[b]c]d"), "ad");
    assert_eq!(strip_regex_for_semantic("a\\"), "a");
    assert_eq!(strip_regex_for_semantic("]a}"), "]a}");
}

#[test]
fn stripped_text_has_single_spaces() {
    assert_eq!(strip_regex_for_semantic("  a   b| |c "), "a b c");
    assert_eq!(strip_regex_for_semantic(r"a\ b"), "a b");
}

#[test]
fn merging_twice_adds_nothing() {
    let once = merge_query_with_pattern("find it", "fn It main");
    assert_eq!(once, "find it fn main");
    assert_eq!(merge_query_with_pattern(&once, "fn It main"), once);
    // Words that the pattern repeats are added as often as they occur.
    assert_eq!(merge_query_with_pattern("a", "b b"), "a b b");
    assert_eq!(merge_query_with_pattern("a", "  "), "a");
}

#[test]
fn case_is_ignored_in_any_script() {
    assert_eq!(merge_query_with_pattern("ÄPFEL", "äpfel birnen"), "ÄPFEL birnen");
}

#[test]
fn a_text_pattern_enriches_the_query() {
    assert_eq!(
        semantic_query("async function", Some(r"async\s+fn")),
        "async function fn"
    );
    assert_eq!(semantic_query("query", Some(".*")), "query");
    assert_eq!(semantic_query("query", None), "query");
}
