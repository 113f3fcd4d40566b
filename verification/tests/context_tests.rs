use yl::linter::LintContext;
use yl::rules::syntax::{AnchorsRule, DocumentStructureRule, KeyDuplicatesRule};
use yl::rules::semantic::{FloatValuesRule, OctalValuesRule, TruthyRule};
use yl::rules::ConfigValue;

fn create_test_context(content: &str, path: &str) -> LintContext {
    LintContext::new(path, content)
}

#[test]
fn test_context_creation() {
    let content = "key: value\nother: data";
    let context = LintContext::new("test.yaml", content);

    assert_eq!(context.file_path, "test.yaml");
    assert_eq!(context.content, content);
    assert_eq!(context.current_line, 0);
    assert!(context.yaml_path.is_empty());
}

#[test]
fn test_file_name() {
    let context = LintContext::new("/path/to/test.yaml", "");
    assert_eq!(context.file_name(), "test.yaml");
}

#[test]
fn test_file_name_unknown() {
    let context = LintContext::new("", "");
    assert_eq!(context.file_name(), "<unknown>");
}

#[test]
fn test_get_line() {
    let content = "line1\nline2\nline3";
    let context = LintContext::new("test.yaml", content);

    assert_eq!(context.get_line(1), Some("line1".to_string()));
    assert_eq!(context.get_line(2), Some("line2".to_string()));
    assert_eq!(context.get_line(3), Some("line3".to_string()));
    assert_eq!(context.get_line(0), None);
    assert_eq!(context.get_line(4), None);
}

#[test]
fn test_line_count() {
    let context = LintContext::new("test.yaml", "line1\nline2\nline3");
    assert_eq!(context.line_count(), 3);
}

#[test]
fn test_line_count_empty() {
    let context = LintContext::new("test.yaml", "");
    assert_eq!(context.line_count(), 0);
}

#[test]
fn test_yaml_path_matches() {
    let mut context = LintContext::new("test.yaml", "");

    context.yaml_path = vec!["spec".to_string(), "containers".to_string(), "0".to_string()];

    assert!(context.yaml_path_matches("spec.containers.0"));
    assert!(context.yaml_path_matches("spec.containers.*"));
    assert!(context.yaml_path_matches("spec.*.0"));
    assert!(context.yaml_path_matches("*.*.*"));

    assert!(!context.yaml_path_matches("spec.containers"));
    assert!(!context.yaml_path_matches("spec.containers.0.name"));
    assert!(!context.yaml_path_matches("metadata.name.test"));
}

#[test]
fn test_yaml_path_string() {
    let mut context = LintContext::new("test.yaml", "");

    context.yaml_path = vec!["spec".to_string(), "containers".to_string(), "0".to_string()];
    assert_eq!(context.yaml_path_string(), "spec.containers.0");

    context.yaml_path.clear();
    assert_eq!(context.yaml_path_string(), "");
}

#[test]
fn test_key_duplicates_rule_no_duplicates() {
    let rule = KeyDuplicatesRule::new();
    let context = create_test_context("key1: value1\nkey2: value2", "test.yaml");
    let mut config = rule.default_config();
    config.enabled = true;

    let problems = rule.check(&context, &config).unwrap();
    assert!(problems.is_empty());
}

#[test]
fn test_key_duplicates_rule_with_duplicates() {
    let rule = KeyDuplicatesRule::new();
    let context = create_test_context("key1: value1\nkey1: value2", "test.yaml");
    let mut config = rule.default_config();
    config.enabled = true;

    let problems = rule.check(&context, &config).unwrap();
    assert_eq!(problems.len(), 1);
    assert_eq!(problems[0].rule, "key-duplicates");
    assert!(problems[0].message.contains("duplicate key"));
}

#[test]
fn test_document_structure_rule_missing_start() {
    let rule = DocumentStructureRule::new();
    let context = create_test_context("key: value", "test.yaml");
    let mut config = rule.default_config();
    config.enabled = true;

    let problems = rule.check(&context, &config).unwrap();
    assert_eq!(problems.len(), 1);
    assert_eq!(problems[0].rule, "document-structure");
    assert!(problems[0].message.contains("missing document start"));
}

#[test]
fn test_document_structure_rule_with_start() {
    let rule = DocumentStructureRule::new();
    let context = create_test_context("---\nkey: value", "test.yaml");
    let mut config = rule.default_config();
    config.enabled = true;

    let problems = rule.check(&context, &config).unwrap();
    assert!(problems.is_empty());
}

#[test]
fn test_truthy_rule_valid_values() {
    let rule = TruthyRule::new();
    let context = create_test_context("enabled: true\ndisabled: false", "test.yaml");
    let mut config = rule.default_config();
    config.enabled = true;

    let problems = rule.check(&context, &config).unwrap();
    assert!(problems.is_empty());
}

#[test]
fn test_truthy_rule_invalid_values() {
    let rule = TruthyRule::new();
    let context = create_test_context("enabled: yes\ndisabled: no", "test.yaml");
    let mut config = rule.default_config();
    config.enabled = true;

    let problems = rule.check(&context, &config).unwrap();
    assert_eq!(problems.len(), 2);
    assert!(problems[0].message.contains("truthy value should be"));
}

#[test]
fn test_octal_values_rule_implicit_octal() {
    let rule = OctalValuesRule::new();
    let context = create_test_context("mode: 0755", "test.yaml");
    let mut config = rule.default_config();
    config.enabled = true;

    let problems = rule.check(&context, &config).unwrap();
    assert_eq!(problems.len(), 1);
    assert!(problems[0].message.contains("implicit octal"));
}

#[test]
fn test_float_values_rule_scientific_notation() {
    let rule = FloatValuesRule::new();
    let context = create_test_context("value: 1.23e-4", "test.yaml");
    let mut config = rule.default_config();
    config.enabled = true;
    config.set_param("forbid-scientific-notation", ConfigValue::Bool(true));

    let problems = rule.check(&context, &config).unwrap();
    assert_eq!(problems.len(), 1);
    assert!(problems[0].message.contains("scientific notation is forbidden"));
}

#[test]
fn test_anchors_rule_valid_anchor_alias() {
    let rule = AnchorsRule::new();
    let context = create_test_context("anchor: &my_anchor value\nalias: *my_anchor", "test.yaml");
    let mut config = rule.default_config();
    config.enabled = true;

    let problems = rule.check(&context, &config).unwrap();
    assert!(problems.is_empty());
}

#[test]
fn test_anchors_rule_undefined_alias() {
    let rule = AnchorsRule::new();
    let context = create_test_context("alias: *undefined_anchor", "test.yaml");
    let mut config = rule.default_config();
    config.enabled = true;

    let problems = rule.check(&context, &config).unwrap();
    assert_eq!(problems.len(), 1);
    assert_eq!(problems[0].rule, "anchors");
    assert!(problems[0].message.contains("undefined alias"));
}

#[test]
fn test_anchors_rule_duplicate_anchor() {
    let rule = AnchorsRule::new();
    let context =
        create_test_context("anchor1: &my_anchor value1\nanchor2: &my_anchor value2", "test.yaml");
    let mut config = rule.default_config();
    config.enabled = true;
    config.set_param("forbid-duplicated-anchors", ConfigValue::Bool(true));

    let problems = rule.check(&context, &config).unwrap();
    assert_eq!(problems.len(), 1);
    assert_eq!(problems[0].rule, "anchors");
    assert!(problems[0].message.contains("duplicate anchor"));
}
