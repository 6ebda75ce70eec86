use colgrep::display::{
    display_frame, output_mode, plan_display, prints_notes, shows_content, DisplayPlan, OutputMode,
};
use colgrep::matcher::{CodeUnit, PatternMatcher};
use colgrep::parts::FilePath;

fn unit(line: usize, end_line: usize, code: &str, text_format: bool) -> CodeUnit {
    CodeUnit {
        file: FilePath::new("/a.rs"),
        line,
        end_line,
        code: code.to_string(),
        text_format,
    }
}

fn literal(text: &str) -> PatternMatcher {
    PatternMatcher::new(text, "", false, true, false)
}

#[test]
fn content_is_shown_on_demand() {
    assert!(shows_content(true, None, false));
    assert!(shows_content(false, Some(1), false));
    assert!(!shows_content(false, Some(0), false));
    assert!(!shows_content(false, None, false));
    assert!(shows_content(false, Some(0), true));
}

#[test]
fn output_has_one_form() {
    assert_eq!(output_mode(true, true, true, true), OutputMode::Files);
    assert_eq!(output_mode(false, true, true, true), OutputMode::Json);
    assert_eq!(output_mode(false, false, true, true), OutputMode::NoResults);
    assert_eq!(output_mode(false, false, false, true), OutputMode::Verbose);
    assert_eq!(output_mode(false, false, false, false), OutputMode::Compact);
    assert!(prints_notes(false, false));
    assert!(!prints_notes(true, false));
    assert!(!prints_notes(false, true));
}

#[test]
fn code_is_shown_whole_and_documents_up_to_a_limit() {
    let code = display_frame(&unit(3, 90, "", false), 40, 21, true);
    assert_eq!((code.end, code.half_context, code.max_lines), (40, 10, usize::MAX));
    let document = display_frame(&unit(3, 9, "", true), 40, 20, true);
    assert_eq!((document.end, document.half_context, document.max_lines), (9, 10, 250));
    let context = display_frame(&unit(3, 9, "", true), 40, 20, false);
    assert_eq!(context.max_lines, 20);
}

#[test]
fn a_pattern_decides_alone_what_is_shown() {
    let u = unit(5, 6, "alpha\nbeta", false);
    let plan = plan_display(&Some(literal("BETA")), &literal("alpha"), &u, vec![5], 10);
    assert!(matches!(plan, DisplayPlan::Around(v) if v == vec![6]));
    let plan = plan_display(&Some(literal("gamma")), &literal("alpha"), &u, vec![5], 10);
    assert!(matches!(plan, DisplayPlan::Around(v) if v.is_empty()));
}

#[test]
fn without_a_pattern_the_query_is_looked_for() {
    let u = unit(5, 6, "alpha\nbeta", false);
    let plan = plan_display(&None, &literal("beta"), &u, vec![5], 10);
    assert!(matches!(plan, DisplayPlan::Around(v) if v == vec![6]));
    let plan = plan_display(&None, &literal("gamma"), &u, vec![5], 10);
    assert!(matches!(plan, DisplayPlan::Around(v) if v == vec![5]));
    let plan = plan_display(&None, &literal("gamma"), &u, vec![], 10);
    assert!(matches!(plan, DisplayPlan::From(4)));
    let plan = plan_display(&None, &literal("gamma"), &u, vec![], 4);
    assert!(matches!(plan, DisplayPlan::Nothing));
    let plan = plan_display(&None, &literal("gamma"), &unit(0, 0, "", false), vec![], 1);
    assert!(matches!(plan, DisplayPlan::From(0)));
}
