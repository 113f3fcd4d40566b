use yl::linter::{Level, LintContext};
use yl::rules::formatting::{BracesRule, BracketsRule, ColonsRule, CommasRule, HyphensRule};
use yl::rules::semantic::{FloatValuesRule, KeyOrderingRule, OctalValuesRule, QuotedStringsRule};
use yl::rules::style::{EmptyLinesRule, IndentationRule, NewLineAtEndOfFileRule};
use yl::rules::syntax::{CommentsRule, YamlSyntaxRule};
use yl::rules::ConfigValue;

fn ctx(content: &str) -> LintContext {
    LintContext::new("test.yaml", content)
}

#[test]
fn test_brackets_rule_spacing() {
    let rule = BracketsRule::new();
    let mut config = rule.default_config();
    config.enabled = true;
    // One space inside is allowed by default, two are not.
    let problems = rule.check(&ctx("list: [ 1, 2 ]"), &config).unwrap();
    assert!(problems.is_empty());
    let problems = rule.check(&ctx("list: [  1, 2 ]"), &config).unwrap();
    assert_eq!(problems.len(), 1);
    assert_eq!(problems[0].rule, "brackets");
    assert_eq!(problems[0].column, 7);
    assert!(problems[0].message.contains("too many spaces inside brackets"));
}

#[test]
fn test_brackets_rule_empty_pair() {
    let rule = BracketsRule::new();
    let mut config = rule.default_config();
    config.enabled = true;
    let problems = rule.check(&ctx("list: [ ]"), &config).unwrap();
    assert_eq!(problems.len(), 1);
    assert!(problems[0].message.contains("empty brackets"));
}

#[test]
fn test_braces_rule_spacing() {
    let rule = BracesRule::new();
    let mut config = rule.default_config();
    config.enabled = true;
    let problems = rule.check(&ctx("map: {a: 1,  b: 2  }"), &config).unwrap();
    assert_eq!(problems.len(), 1);
    assert_eq!(problems[0].rule, "braces");
    assert!(problems[0].message.contains("too many spaces inside braces"));
}

#[test]
fn test_colons_rule_spacing() {
    let rule = ColonsRule::new();
    let mut config = rule.default_config();
    config.enabled = true;
    let problems = rule.check(&ctx("key : value"), &config).unwrap();
    assert_eq!(problems.len(), 1);
    assert_eq!(problems[0].column, 5);
    assert_eq!(
        problems[0].message,
        "too many spaces before colon, expected at most 0"
    );
    let problems = rule.check(&ctx("key:value"), &config).unwrap();
    assert_eq!(problems.len(), 1);
    assert_eq!(
        problems[0].message,
        "too few spaces after colon, expected at least 1"
    );
}

#[test]
fn test_colons_rule_ignores_strings() {
    let rule = ColonsRule::new();
    let mut config = rule.default_config();
    config.enabled = true;
    let problems = rule.check(&ctx("key: \"a : b\""), &config).unwrap();
    assert!(problems.is_empty());
}

#[test]
fn test_commas_rule_spacing() {
    let rule = CommasRule::new();
    let mut config = rule.default_config();
    config.enabled = true;
    let problems = rule.check(&ctx("list: [1 ,2]"), &config).unwrap();
    assert_eq!(problems.len(), 2);
    assert!(problems[0].message.contains("too many spaces before comma"));
    assert!(problems[1].message.contains("too few spaces after comma"));
}

#[test]
fn test_hyphens_rule_spacing() {
    let rule = HyphensRule::new();
    let mut config = rule.default_config();
    config.enabled = true;
    let problems = rule.check(&ctx("-item"), &config).unwrap();
    assert_eq!(problems.len(), 1);
    assert_eq!(problems[0].message, "missing space after hyphen");
    let problems = rule.check(&ctx("-   item"), &config).unwrap();
    assert_eq!(problems.len(), 1);
    assert!(problems[0].message.contains("too many spaces after hyphen"));
    let problems = rule.check(&ctx("- item"), &config).unwrap();
    assert!(problems.is_empty());
}

#[test]
fn test_empty_lines_rule_runs() {
    let rule = EmptyLinesRule::new();
    let mut config = rule.default_config();
    config.enabled = true;
    let problems = rule.check(&ctx("a: 1\n\n\n\nb: 2"), &config).unwrap();
    assert_eq!(problems.len(), 1);
    assert_eq!(problems[0].message, "too many blank lines (3 > 2)");
    let problems = rule.check(&ctx("\na: 1"), &config).unwrap();
    assert_eq!(problems.len(), 1);
    assert!(problems[0].message.contains("beginning of file"));
}

#[test]
fn test_indentation_rule_misaligned() {
    let rule = IndentationRule::new();
    let mut config = rule.default_config();
    config.enabled = true;
    let problems = rule.check(&ctx("a: 1\n   b: 2"), &config).unwrap();
    assert_eq!(problems.len(), 1);
    assert_eq!(
        problems[0].message,
        "wrong indentation: expected multiple of 2, got 3"
    );
}

#[test]
fn test_indentation_rule_tab() {
    let rule = IndentationRule::new();
    let mut config = rule.default_config();
    config.enabled = true;
    let problems = rule.check(&ctx("a: 1\n\tb: 2"), &config).unwrap();
    assert_eq!(problems.len(), 1);
    assert!(problems[0].message.contains("'\\t'"));
}

#[test]
fn test_new_line_at_end_rule() {
    let rule = NewLineAtEndOfFileRule::new();
    let mut config = rule.default_config();
    config.enabled = true;
    let problems = rule.check(&ctx("a: 1"), &config).unwrap();
    assert_eq!(problems.len(), 1);
    assert_eq!(problems[0].line, 1);
    assert_eq!(problems[0].column, 5);
    assert_eq!(problems[0].message, "missing newline at end of file");
    let problems = rule.check(&ctx("a: 1\n"), &config).unwrap();
    assert!(problems.is_empty());
}

#[test]
fn test_comments_rule_spacing() {
    let rule = CommentsRule::new();
    let mut config = rule.default_config();
    config.enabled = true;
    let problems = rule.check(&ctx("a: 1 #comment"), &config).unwrap();
    assert_eq!(problems.len(), 2);
    assert_eq!(problems[0].message, "missing starting space in comment");
    assert!(problems[1].message.contains("too few spaces before comment"));
    let problems = rule.check(&ctx("a: 1  # comment"), &config).unwrap();
    assert!(problems.is_empty());
}

#[test]
fn test_quoted_strings_rule_quote_type() {
    let rule = QuotedStringsRule::new();
    let mut config = rule.default_config();
    config.enabled = true;
    config.set_param("quote-type", ConfigValue::String("single".to_string()));
    let problems = rule.check(&ctx("a: \"value\""), &config).unwrap();
    assert_eq!(problems.len(), 1);
    assert_eq!(problems[0].message, "string should be single-quoted");
}

#[test]
fn test_quoted_strings_rule_unneeded_quotes() {
    let rule = QuotedStringsRule::new();
    let mut config = rule.default_config();
    config.enabled = true;
    config.set_param("required-only-when-needed", ConfigValue::Bool(true));
    let problems = rule.check(&ctx("a: \"plain\""), &config).unwrap();
    assert_eq!(problems.len(), 1);
    assert_eq!(problems[0].message, "string should not be quoted");
    // A string that reads as a number keeps its quotes.
    let problems = rule.check(&ctx("a: \"42.5\""), &config).unwrap();
    assert!(problems.is_empty());
}

#[test]
fn test_yaml_syntax_rule_parse_error() {
    let rule = YamlSyntaxRule::new();
    let config = rule.default_config();
    let problems = rule.check(&ctx("key: [unclosed"), &config).unwrap();
    assert_eq!(problems.len(), 1);
    assert_eq!(problems[0].rule, "yaml-syntax");
    assert_eq!(problems[0].level, Level::Error);
    assert!(problems[0].message.starts_with("syntax error: "));
}

#[test]
fn test_yaml_syntax_rule_valid() {
    let rule = YamlSyntaxRule::new();
    let config = rule.default_config();
    let problems = rule.check(&ctx("key: value\n"), &config).unwrap();
    assert!(problems.is_empty());
}

#[test]
fn test_key_ordering_rule() {
    let rule = KeyOrderingRule::new();
    let config = rule.default_config();
    let problems = rule.check(&ctx("b: 1\na: 2\n"), &config).unwrap();
    assert_eq!(problems.len(), 1);
    assert_eq!(problems[0].message, "wrong ordering of key \"b\" in mapping");
    let problems = rule.check(&ctx("a: 1\nb: 2\n"), &config).unwrap();
    assert!(problems.is_empty());
}

#[test]
fn test_float_values_require_numeral() {
    let rule = FloatValuesRule::new();
    let mut config = rule.default_config();
    config.enabled = true;
    config.set_param("require-numeral-before-decimal", ConfigValue::Bool(true));
    let problems = rule.check(&ctx("v: .5"), &config).unwrap();
    assert_eq!(problems.len(), 1);
    assert!(problems[0].message.contains("numeral before decimal point"));
    // Exponent forms and infinities still read as floats.
    let problems = rule.check(&ctx("v: 1e5"), &config).unwrap();
    assert!(problems.is_empty());
}

#[test]
fn test_octal_values_explicit() {
    let rule = OctalValuesRule::new();
    let mut config = rule.default_config();
    config.enabled = true;
    config.set_param("forbid-explicit-octal", ConfigValue::Bool(true));
    let problems = rule.check(&ctx("mode: 0o755"), &config).unwrap();
    assert_eq!(problems.len(), 1);
    assert!(problems[0].message.contains("explicit octal"));
}

#[test]
fn test_indentation_rejects_non_positive_spaces() {
    let rule = IndentationRule::new();
    let mut config = rule.default_config();
    config.set_param("spaces", ConfigValue::Int(0));
    assert!(rule.validate_config(&config).is_err());
    config.set_param("spaces", ConfigValue::Int(-2));
    assert!(rule.validate_config(&config).is_err());
    config.set_param("spaces", ConfigValue::Int(2));
    assert!(rule.validate_config(&config).is_ok());
}

#[test]
fn test_colons_rejects_negative_min_spaces_after() {
    let rule = ColonsRule::new();
    let mut config = rule.default_config();
    config.set_param("min-spaces-after", ConfigValue::Int(-1));
    let r = rule.validate_config(&config);
    assert!(r.is_err());
    assert!(r.unwrap_err().message.contains("min-spaces-after"));
    config.set_param("min-spaces-after", ConfigValue::Int(0));
    assert!(rule.validate_config(&config).is_ok());
}

#[test]
fn test_commas_rejects_negative_min_spaces_after() {
    let rule = CommasRule::new();
    let mut config = rule.default_config();
    config.set_param("min-spaces-after", ConfigValue::Int(-3));
    assert!(rule.validate_config(&config).is_err());
}

#[test]
fn test_brackets_rejects_negative_min_spaces_inside() {
    let rule = BracketsRule::new();
    let mut config = rule.default_config();
    config.set_param("min-spaces-inside", ConfigValue::Int(-1));
    assert!(rule.validate_config(&config).is_err());
    let mut config = rule.default_config();
    config.set_param("min-spaces-inside-empty", ConfigValue::Int(-1));
    assert!(rule.validate_config(&config).is_err());
    assert!(rule.validate_config(&rule.default_config()).is_ok());
}

#[test]
fn test_braces_rejects_negative_min_spaces_inside() {
    let rule = BracesRule::new();
    let mut config = rule.default_config();
    config.set_param("min-spaces-inside", ConfigValue::Int(-5));
    assert!(rule.validate_config(&config).is_err());
}

#[test]
fn test_comments_rejects_negative_min_spaces_from_content() {
    let rule = CommentsRule::new();
    let mut config = rule.default_config();
    config.set_param("min-spaces-from-content", ConfigValue::Int(-1));
    let r = rule.validate_config(&config);
    assert!(r.is_err());
    assert!(r.unwrap_err().message.contains("min-spaces-from-content"));
    config.set_param("min-spaces-from-content", ConfigValue::Int(2));
    assert!(rule.validate_config(&config).is_ok());
}
