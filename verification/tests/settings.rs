use colgrep::settings::{
    effective_extended_regexp, resolve_context_lines, resolve_model, resolve_pool_factor,
    resolve_top_k, resolve_verbose, Config, DEFAULT_POOL_FACTOR,
};

fn saved() -> Option<Config> {
    Some(Config {
        default_model: Some("some/model".to_string()),
        default_k: Some(7),
        default_n: Some(6),
        verbose: true,
        pool_factor: 4,
    })
}

#[test]
fn test_resolve_top_k_cli_provided() {
    // CLI value should take precedence
    assert_eq!(resolve_top_k(Some(30), &None, 15), 30);
    assert_eq!(resolve_top_k(Some(1), &None, 20), 1);
    assert_eq!(resolve_top_k(Some(100), &saved(), 15), 100);
}

#[test]
fn test_resolve_top_k_fallback_to_default() {
    // When CLI not provided and no config, should use default
    let result = resolve_top_k(None, &None, 15);
    assert!(result > 0);
    assert_eq!(result, 15);
    assert_eq!(resolve_top_k(None, &saved(), 15), 7);
}

#[test]
fn test_resolve_context_lines_cli_provided() {
    // CLI value should take precedence
    assert_eq!(resolve_context_lines(Some(10), &None, 20), 10);
    assert_eq!(resolve_context_lines(Some(0), &None, 20), 0);
    assert_eq!(resolve_context_lines(Some(30), &saved(), 20), 30);
}

#[test]
fn test_resolve_context_lines_fallback_to_default() {
    // When CLI not provided and no config, should use default
    let result = resolve_context_lines(None, &None, 20);
    assert!(result <= 100); // sanity check
    assert_eq!(result, 20);
    assert_eq!(resolve_context_lines(None, &saved(), 20), 6);
}

#[test]
fn model_comes_from_the_command_line_first() {
    assert_eq!(resolve_model(Some("a/b"), &saved(), "c/d"), "a/b");
    assert_eq!(resolve_model(None, &saved(), "c/d"), "some/model");
    assert_eq!(resolve_model(None, &None, "c/d"), "c/d");
    let mut silent = saved();
    if let Some(c) = &mut silent {
        c.default_model = None;
    }
    assert_eq!(resolve_model(None, &silent, "c/d"), "c/d");
}

#[test]
fn verbose_comes_from_the_configuration() {
    assert!(resolve_verbose(&saved()));
    assert!(!resolve_verbose(&None));
}

#[test]
fn pool_factor_is_at_least_one() {
    assert_eq!(DEFAULT_POOL_FACTOR, 2);
    assert_eq!(resolve_pool_factor(Some(5), true, &saved()), Some(1));
    assert_eq!(resolve_pool_factor(Some(0), false, &None), Some(1));
    assert_eq!(resolve_pool_factor(Some(5), false, &saved()), Some(5));
    assert_eq!(resolve_pool_factor(None, false, &saved()), Some(4));
    assert_eq!(resolve_pool_factor(None, false, &None), Some(2));
}

#[test]
fn a_text_pattern_is_a_regular_expression_unless_fixed() {
    assert!(effective_extended_regexp(false, true, false));
    assert!(!effective_extended_regexp(false, true, true));
    assert!(!effective_extended_regexp(false, false, false));
    assert!(effective_extended_regexp(true, false, true));
}
