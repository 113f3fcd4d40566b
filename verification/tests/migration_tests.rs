use yl::config::Config;
use yl::migration::YamllintMigrator;

#[test]
fn test_convert_rule_name() {
    assert_eq!(YamllintMigrator::convert_rule_name("line-length"), "line-length");
    assert_eq!(YamllintMigrator::convert_rule_name("document-start"), "document-structure");
    assert_eq!(YamllintMigrator::convert_rule_name("document-end"), "document-structure");
    assert_eq!(YamllintMigrator::convert_rule_name("comments-indentation"), "comments");
}

#[test]
fn test_generate_migration_report() {
    let mut config = Config::default();
    config.extends = Some("default".to_string());

    let report = YamllintMigrator::generate_migration_report("original", &config).unwrap();

    assert!(report.contains("# YL Migration Report"));
    assert!(report.contains("**Extends**: default"));
    assert!(report.contains("## Migration Notes"));
}

#[test]
fn test_convert_directives() {
    let content = r#"
key: value
# yamllint disable-line rule:line-length
very_long_line: "this line would normally be too long"
# yamllint disable rule:trailing-spaces
messy_content: "value"
# yamllint enable rule:trailing-spaces
clean_content: "value"
"#;

    let converted = YamllintMigrator::convert_directives(content);

    assert!(converted.contains("# yl:disable-line line-length"));
    assert!(converted.contains("# yl:disable trailing-spaces"));
    assert!(converted.contains("# yl:enable trailing-spaces"));
}
