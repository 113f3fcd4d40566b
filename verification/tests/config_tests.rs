use yl::config::Config;
use yl::linter::{Level, LintError, Linter};
use yl::rules::{ConfigValue, RuleConfig};

#[test]
fn test_default_config_rules() {
    let config = Config::default();
    assert!(config.rules.get("line-length").is_some());
    assert!(config.rules.get("line-length").unwrap().enabled);
    assert!(config.rules.get("trailing-spaces").unwrap().enabled);
    assert!(config.rules.get("yaml-syntax").unwrap().enabled);
    assert!(!config.rules.get("empty-lines").unwrap().enabled);
    assert!(config.rules.get("no-such-rule").is_none());
}

#[test]
fn test_strict_and_relaxed_levels() {
    let strict = Config::strict();
    assert_eq!(strict.rules.get("line-length").unwrap().level, Level::Error);
    let relaxed = Config::relaxed();
    assert_eq!(relaxed.rules.get("line-length").unwrap().level, Level::Warning);
}

#[test]
fn test_is_yaml_file() {
    let config = Config::default();
    assert!(config.is_yaml_file("test.yaml"));
    assert!(config.is_yaml_file("dir/test.yml"));
    assert!(config.is_yaml_file(".yamllint"));
    assert!(!config.is_yaml_file("test.txt"));
}

#[test]
fn test_is_file_ignored() {
    let config = Config::default();
    assert!(config.is_file_ignored("test.generated.yaml"));
    assert!(config.is_file_ignored("node_modules/x/test.yaml"));
    assert!(!config.is_file_ignored("test.yaml"));
}

#[test]
fn test_merge_with_base() {
    let mut own = Config::default();
    own.rules.clear();
    own.ignore = Vec::new();
    let mut rc = RuleConfig::new(false, Level::Warning);
    rc.set_param("max", ConfigValue::Int(50));
    own.rules.set("line-length".to_string(), rc);

    let base = Config::default();
    let merged = own.merge_with_base(base);

    // The explicit entry wins, empty pattern lists fall back to the base.
    assert!(!merged.rules.get("line-length").unwrap().enabled);
    assert_eq!(merged.rules.get("line-length").unwrap().get_int("max"), Some(50));
    assert!(merged.rules.get("trailing-spaces").unwrap().enabled);
    assert!(!merged.ignore.is_empty());
}

#[test]
fn test_config_validation_error_aborts_file() {
    // An inline override that drives line-length's maximum to zero is
    // rejected by the rule's validator, which aborts the whole file.
    let linter = Linter::new(Config::default());
    let result = linter.lint_content("test.yaml", "# yl:set line-length.max=0\nkey: value");
    match result {
        Err(LintError::ConfigValidation { rule, .. }) => assert_eq!(rule, "line-length"),
        other => panic!("Expected a configuration validation error, got {:?}", other),
    }
}

#[test]
fn test_inline_config_override_applies() {
    let linter = Linter::new(Config::default());
    let mut content = String::from("# yl:set line-length.max=40\n");
    content.push_str("this line is a little over forty characters");
    let problems = linter.lint_content("test.yaml", &content).expect("Linting failed");
    assert_eq!(problems.len(), 1);
    assert_eq!(problems[0].rule, "line-length");
    assert_eq!(problems[0].column, 41);
}

#[test]
fn test_disable_block_suppresses_rest_of_file() {
    let linter = Linter::new(Config::default());
    let content = "# yl:disable trailing-spaces\na: 1   \nb: 2   ";
    let problems = linter.lint_content("test.yaml", content).expect("Linting failed");
    assert!(problems.is_empty());
}

#[test]
fn test_enable_after_disable_restores() {
    let linter = Linter::new(Config::default());
    let content = "# yl:disable trailing-spaces\na: 1   \n# yl:enable trailing-spaces\nb: 2   ";
    let problems = linter.lint_content("test.yaml", content).expect("Linting failed");
    // The enable clears the block state entirely, so both lines report.
    assert_eq!(problems.len(), 2);
}

#[test]
fn test_lint_content_syntax_error_position() {
    let linter = Linter::new(Config::default());
    let problems = linter
        .lint_content("test.yaml", "key: value\n  bad indent: [\n")
        .expect("Linting failed");
    assert!(problems.iter().any(|p| p.rule == "yaml-syntax"));
}

#[test]
fn test_disable_block_spares_earlier_lines() {
    // A block disable starts at its own line: a problem on an earlier line
    // is still reported.
    let linter = Linter::new(Config::default());
    let content = "a: 1   \n# yl:disable trailing-spaces\nb: 2   ";
    let problems = linter.lint_content("test.yaml", content).expect("Linting failed");
    assert_eq!(problems.len(), 1);
    assert_eq!(problems[0].line, 1);
    assert_eq!(problems[0].rule, "trailing-spaces");
}
