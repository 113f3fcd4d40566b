use yl::cli::{Cli, OutputFormat};
use yl::config::Config;
use yl::linter::{Level, Problem};
use yl::rules::ConfigValue;

#[test]
fn test_output_format_default() {
    assert!(matches!(OutputFormat::default(), OutputFormat::Human));
}

#[test]
fn test_get_disabled_rules() {
    let cli = Cli {
        disable: vec!["rule1,rule2".to_string(), "rule3".to_string()],
        ..Default::default()
    };

    let disabled = cli.get_disabled_rules();
    assert_eq!(disabled, vec!["rule1", "rule2", "rule3"]);
}

#[test]
fn test_get_enabled_rules() {
    let cli = Cli {
        enable: vec!["rule1,rule2".to_string(), "rule3".to_string()],
        ..Default::default()
    };

    let enabled = cli.get_enabled_rules();
    assert_eq!(enabled, vec!["rule1", "rule2", "rule3"]);
}

#[test]
fn test_get_rule_settings() {
    let cli = Cli {
        set: vec![
            "line-length.max=120".to_string(),
            "indentation.spaces=4".to_string(),
            "invalid-setting".to_string(), // Should be ignored
        ],
        ..Default::default()
    };

    let settings = cli.get_rule_settings();
    assert_eq!(settings.len(), 2);
    assert_eq!(
        settings[0],
        ("line-length".to_string(), "max".to_string(), "120".to_string())
    );
    assert_eq!(
        settings[1],
        ("indentation".to_string(), "spaces".to_string(), "4".to_string())
    );
}

#[test]
fn test_get_files_default() {
    let cli = Cli { files: vec![], ..Default::default() };

    let files = cli.get_files();
    assert_eq!(files, vec![String::from(".")]);
}

#[test]
fn test_get_files_specified() {
    let cli = Cli {
        files: vec![String::from("file1.yaml"), String::from("file2.yaml")],
        ..Default::default()
    };

    let files = cli.get_files();
    assert_eq!(files, vec![String::from("file1.yaml"), String::from("file2.yaml")]);
}

#[test]
fn test_parse_config_value() {
    assert_eq!(yl::cli::parse_config_value("true").unwrap(), ConfigValue::Bool(true));
    assert_eq!(yl::cli::parse_config_value("false").unwrap(), ConfigValue::Bool(false));
    assert_eq!(yl::cli::parse_config_value("42").unwrap(), ConfigValue::Int(42));
    assert_eq!(
        yl::cli::parse_config_value("hello").unwrap(),
        ConfigValue::String("hello".to_string())
    );
}

#[test]
fn test_filter_results_all() {
    let cli = Cli { errors_only: false, ..Default::default() };
    let results = vec![(
        String::from("test.yaml"),
        vec![
            Problem::new(1, 1, Level::Error, "rule1", "error"),
            Problem::new(2, 1, Level::Warning, "rule2", "warning"),
        ],
    )];

    let filtered = yl::cli::filter_results(results, &cli);
    assert_eq!(filtered.len(), 1);
    assert_eq!(filtered[0].1.len(), 2);
}

#[test]
fn test_filter_results_errors_only() {
    let cli = Cli { errors_only: true, ..Default::default() };
    let results = vec![(
        String::from("test.yaml"),
        vec![
            Problem::new(1, 1, Level::Error, "rule1", "error"),
            Problem::new(2, 1, Level::Warning, "rule2", "warning"),
        ],
    )];

    let filtered = yl::cli::filter_results(results, &cli);
    assert_eq!(filtered.len(), 1);
    assert_eq!(filtered[0].1.len(), 1);
    assert_eq!(filtered[0].1[0].level, Level::Error);
}

#[test]
fn test_apply_cli_overrides_disable() {
    let mut config = Config::default();
    let cli = Cli { disable: vec!["line-length".to_string()], ..Default::default() };

    yl::cli::apply_cli_overrides(&mut config, &cli).expect("Failed to apply overrides");

    let rule_config = config.rules.get("line-length").unwrap();
    assert!(!rule_config.enabled);
}

#[test]
fn test_apply_cli_overrides_set_param() {
    let mut config = Config::default();
    let cli = Cli { set: vec!["line-length.max=120".to_string()], ..Default::default() };

    yl::cli::apply_cli_overrides(&mut config, &cli).expect("Failed to apply overrides");

    let rule_config = config.rules.get("line-length").unwrap();
    assert_eq!(rule_config.get_int("max"), Some(120));
}
