use yl::linter::{Level, LintContext};
use yl::rules::style::{LineLengthRule, TrailingSpacesRule};
use yl::rules::ConfigValue;

fn create_test_context(content: &str, path: &str) -> LintContext {
    LintContext::new(path, content)
}

#[test]
fn test_line_length_rule_creation() {
    let rule = LineLengthRule::new();
    assert_eq!(rule.id(), "line-length");
    assert_eq!(rule.default_max, 80);

    let rule = LineLengthRule::with_default_max(120);
    assert_eq!(rule.default_max, 120);
}

#[test]
fn test_line_length_rule_default_config() {
    let rule = LineLengthRule::new();
    let config = rule.default_config();

    assert!(config.enabled);
    assert_eq!(config.level, Level::Error);
    assert_eq!(config.get_int("max"), Some(80));
    assert_eq!(config.get_bool("allow-non-breakable-words"), Some(false));
}

#[test]
fn test_line_length_rule_config_validation() {
    let rule = LineLengthRule::new();

    let mut valid_config = rule.default_config();
    valid_config.set_param("max", ConfigValue::Int(100));
    assert!(rule.validate_config(&valid_config).is_ok());

    let mut invalid_config = rule.default_config();
    invalid_config.set_param("max", ConfigValue::Int(-1));
    assert!(rule.validate_config(&invalid_config).is_err());

    let mut zero_config = rule.default_config();
    zero_config.set_param("max", ConfigValue::Int(0));
    assert!(rule.validate_config(&zero_config).is_err());
}

#[test]
fn test_line_length_rule_check_short_lines() {
    let rule = LineLengthRule::new();
    let config = rule.default_config();
    let content = "short line\nanother short line";
    let context = create_test_context(content, "test.yaml");

    let problems = rule.check(&context, &config).expect("Check failed");
    assert!(problems.is_empty());
}

#[test]
fn test_line_length_rule_check_long_lines() {
    let rule = LineLengthRule::new();
    let config = rule.default_config();
    // Create a long line with spaces (breakable)
    let long_line = "this is a very long line with many words that definitely exceeds the eighty character limit";
    let context = create_test_context(long_line, "test.yaml");

    let problems = rule.check(&context, &config).expect("Check failed");
    assert_eq!(problems.len(), 1);
    assert_eq!(problems[0].line, 1);
    assert_eq!(problems[0].column, 81); // max + 1
    assert_eq!(problems[0].rule, "line-length");
    assert!(problems[0].message.contains("line too long"));
}

#[test]
fn test_line_length_rule_custom_max() {
    let rule = LineLengthRule::new();
    let mut config = rule.default_config();
    config.set_param("max", ConfigValue::Int(50));

    // Use a line with spaces that exceeds 50 characters
    let line = "this is a line with spaces that exceeds fifty characters";
    let context = create_test_context(line, "test.yaml");

    let problems = rule.check(&context, &config).expect("Check failed");
    assert_eq!(problems.len(), 1);
    assert_eq!(problems[0].column, 51); // custom max + 1
}

#[test]
fn test_line_length_rule_non_breakable_words() {
    let rule = LineLengthRule::new();

    // Under the default configuration every overlong line is reported,
    // a long URL without spaces included.
    let config = rule.default_config();
    let url_line = "https://example.com/very/long/path/that/exceeds/eighty/characters/but/should/be/allowed/because/no/spaces";
    let context = create_test_context(url_line, "test.yaml");

    let problems = rule.check(&context, &config).expect("Check failed");
    assert_eq!(problems.len(), 1);

    // With the exemption switched on, the unbroken line passes.
    let mut lenient = rule.default_config();
    lenient.set_param("allow-non-breakable-words", ConfigValue::Bool(true));
    let context = create_test_context(url_line, "test.yaml");

    let problems = rule.check(&context, &lenient).expect("Check failed");
    assert!(problems.is_empty());

    // A long line with spaces is reported either way.
    let breakable_line = "this is a very long line with many words that definitely exceeds the eighty character limit";
    let context = create_test_context(breakable_line, "test.yaml");

    let problems = rule.check(&context, &lenient).expect("Check failed");
    assert_eq!(problems.len(), 1);
}

#[test]
fn test_line_length_rule_disabled() {
    let rule = LineLengthRule::new();
    let mut config = rule.default_config();
    config.enabled = false;

    let long_line = "a".repeat(200);
    let context = create_test_context(&long_line, "test.yaml");

    let problems = rule.check(&context, &config).expect("Check failed");
    assert!(problems.is_empty());
}

#[test]
fn test_trailing_spaces_rule_creation() {
    let rule = TrailingSpacesRule::new();
    assert_eq!(rule.id(), "trailing-spaces");
}

#[test]
fn test_trailing_spaces_rule_check_clean_lines() {
    let rule = TrailingSpacesRule::new();
    let config = rule.default_config();
    let context = create_test_context("clean line\nanother clean line", "test.yaml");

    let problems = rule.check(&context, &config).expect("Check failed");
    assert!(problems.is_empty());
}

#[test]
fn test_trailing_spaces_rule_check_trailing_spaces() {
    let rule = TrailingSpacesRule::new();
    let config = rule.default_config();
    let context = create_test_context("line with trailing spaces   \nclean line", "test.yaml");

    let problems = rule.check(&context, &config).expect("Check failed");
    assert_eq!(problems.len(), 1);
    assert_eq!(problems[0].line, 1);
    assert_eq!(problems[0].rule, "trailing-spaces");
    assert_eq!(problems[0].message, "trailing whitespace");
}

#[test]
fn test_trailing_spaces_rule_disabled() {
    let rule = TrailingSpacesRule::new();
    let mut config = rule.default_config();
    config.enabled = false;

    let context = create_test_context("line with trailing spaces   ", "test.yaml");

    let problems = rule.check(&context, &config).expect("Check failed");
    assert!(problems.is_empty());
}

#[test]
fn test_overlong_unbroken_line_reported_by_default() {
    // A single line of 95 non-space characters, under the default
    // configuration: one problem at the column just past the limit.
    let rule = LineLengthRule::new();
    let config = rule.default_config();
    let line = "x".repeat(95);
    let context = create_test_context(&line, "test.yaml");

    let problems = rule.check(&context, &config).expect("Check failed");
    assert_eq!(problems.len(), 1);
    assert_eq!(problems[0].line, 1);
    assert_eq!(problems[0].column, 81);
    assert_eq!(problems[0].level, Level::Error);
    assert_eq!(problems[0].rule, "line-length");
}

#[test]
fn test_is_non_breakable_line() {
    let rule = LineLengthRule::new();

    assert!(rule.is_non_breakable_line("https://example.com/very/long/url"));
    assert!(rule.is_non_breakable_line("  https://example.com/very/long/url"));
    assert!(rule.is_non_breakable_line("# https://example.com/very/long/url"));
    assert!(rule.is_non_breakable_line("very-long-hyphenated-identifier-without-spaces"));

    assert!(!rule.is_non_breakable_line("this has spaces"));
    assert!(!rule.is_non_breakable_line("key: value with spaces"));
    assert!(!rule.is_non_breakable_line("# comment with spaces"));
}
