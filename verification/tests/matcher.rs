use colgrep::matcher::{CodeUnit, PatternMatcher};
use colgrep::parts::FilePath;

fn unit(line: usize, code: &str) -> CodeUnit {
    CodeUnit {
        file: FilePath::new("/a.rs"),
        line,
        end_line: line,
        code: code.to_string(),
        text_format: false,
    }
}

#[test]
fn regular_expressions_ignore_case() {
    let m = PatternMatcher::new("fo+", "fo+", true, false, false);
    assert!(matches!(m, PatternMatcher::Regex(_)));
    assert!(m.hits_line("a FOO b"));
    assert!(!m.hits_line("fxo"));
}

#[test]
fn words_have_boundaries() {
    let m = PatternMatcher::new("fn", "fn", true, false, true);
    assert!(m.hits_line("pub fn x"));
    assert!(!m.hits_line("confn"));
    let alternatives = PatternMatcher::new("a|b", "a|b", true, false, true);
    // The boundaries stand around the pattern as a whole.
    assert!(alternatives.hits_line("ax"));
}

#[test]
fn fixed_words_are_escaped() {
    let m = PatternMatcher::new("a.b", "", false, true, true);
    assert!(matches!(m, PatternMatcher::Regex(_)));
    assert!(m.hits_line("x A.B y"));
    assert!(!m.hits_line("x acb y"));
    assert!(!m.hits_line("x a.bc y"));
}

#[test]
fn fixed_strings_win_over_regular_expressions() {
    let m = PatternMatcher::new("A.B", "A.B", true, true, false);
    match &m {
        PatternMatcher::Literal(lower) => assert_eq!(lower, "a.b"),
        PatternMatcher::Regex(_) => panic!("a fixed string needs no regular expression"),
    }
    assert!(m.hits_line("xa.By"));
    assert!(!m.hits_line("acb"));
}

#[test]
fn a_pattern_that_does_not_compile_is_taken_literally() {
    let m = PatternMatcher::new("Foo(", "Foo(", true, false, false);
    match &m {
        PatternMatcher::Literal(lower) => assert_eq!(lower, "foo("),
        PatternMatcher::Regex(_) => panic!("the group is not closed"),
    }
    let large = PatternMatcher::new(r"\w{5000}", r"\w{5000}", true, false, false);
    assert!(matches!(large, PatternMatcher::Literal(_)));
    let failed = regex::Regex::new("(");
    assert!(matches!(
        PatternMatcher::from_compiled(failed, "("),
        PatternMatcher::Literal(_)
    ));
    let compiled = regex::Regex::new("x");
    assert!(matches!(
        PatternMatcher::from_compiled(compiled, "x"),
        PatternMatcher::Regex(_)
    ));
}

#[test]
fn lines_are_counted_from_the_unit() {
    let m = PatternMatcher::new("let", "let", true, false, false);
    let u = unit(10, "fn f() {\n    let a = 1;\n    LET\n}\n");
    assert_eq!(m.find_matches_in_unit(&u), vec![11, 12]);
    let literal = PatternMatcher::new("F(", "", false, true, false);
    assert_eq!(literal.find_matches_in_unit(&u), vec![10]);
    assert!(literal.find_matches_in_unit(&unit(1, "")).is_empty());
}

#[test]
fn a_regular_expression_without_a_match_is_looked_for_as_it_is_written() {
    let m = PatternMatcher::new("a+B", "a+B", true, false, false);
    let u = unit(3, "x\ny A+b z\n");
    assert_eq!(m.find_matches_in_unit(&u), vec![4]);
    assert_eq!(m.literal_fallback(&u), vec![4]);
    // Where the expression matches, the text that it is written as is not looked for.
    let v = unit(3, "aab\na+b\n");
    assert_eq!(m.find_matches_in_unit(&v), vec![3]);
}

#[test]
fn case_is_ignored_beyond_ascii() {
    let m = PatternMatcher::new("ÄPFEL", "", false, true, false);
    assert!(m.hits_line("zwei Äpfel"));
    assert!(m.hits_line("zwei äpfel"));
    assert!(!m.hits_line("zwei apfel"));
}
