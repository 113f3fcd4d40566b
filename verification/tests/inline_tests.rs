use yl::config::inline::InlineConfigManager;
use yl::rules::ConfigValue;

#[test]
fn test_file_ignore() {
    let mut manager = InlineConfigManager::new();
    let content = "# yl:ignore-file\nkey: value";

    manager.process_file(content).unwrap();
    assert!(manager.is_file_ignored());
}

#[test]
fn test_disable_line() {
    let mut manager = InlineConfigManager::new();
    let content = "key: value # yl:disable-line line-length\nother: data";

    manager.process_file(content).unwrap();

    assert!(manager.is_rule_disabled("line-length", 1));
    assert!(!manager.is_rule_disabled("line-length", 2));
    assert!(!manager.is_rule_disabled("trailing-spaces", 1));
}

#[test]
fn test_disable_all_line() {
    let mut manager = InlineConfigManager::new();
    let content = "key: value # yl:disable-line\nother: data";

    manager.process_file(content).unwrap();

    assert!(manager.is_rule_disabled("line-length", 1));
    assert!(manager.is_rule_disabled("trailing-spaces", 1));
    assert!(!manager.is_rule_disabled("line-length", 2));
}

#[test]
fn test_disable_block() {
    let mut manager = InlineConfigManager::new();
    let content = "# yl:disable line-length\nkey: value\nother: data";

    manager.process_file(content).unwrap();

    assert!(manager.is_rule_disabled("line-length", 2));
    assert!(manager.is_rule_disabled("line-length", 3));
    assert!(!manager.is_rule_disabled("trailing-spaces", 2));
}

#[test]
fn test_disable_block_starts_at_its_line() {
    let mut manager = InlineConfigManager::new();
    let content = "key: value\n# yl:disable line-length\nother: data";

    manager.process_file(content).unwrap();

    assert!(!manager.is_rule_disabled("line-length", 1));
    assert!(manager.is_rule_disabled("line-length", 2));
    assert!(manager.is_rule_disabled("line-length", 3));
}

#[test]
fn test_disable_all_starts_at_its_line() {
    let mut manager = InlineConfigManager::new();
    let content = "key: value\n# yl:disable\nother: data";

    manager.process_file(content).unwrap();

    assert!(!manager.is_rule_disabled("trailing-spaces", 1));
    assert!(manager.is_rule_disabled("trailing-spaces", 2));
    assert!(manager.is_rule_disabled("line-length", 3));
}

#[test]
fn test_set_parameter() {
    let mut manager = InlineConfigManager::new();
    let content = "# yl:set line-length.max=120\nkey: value";

    manager.process_file(content).unwrap();

    let config = manager.get_rule_config("line-length", 2).unwrap();
    assert_eq!(config.get_int("max"), Some(120));
}

#[test]
fn test_config_multiple_params() {
    let mut manager = InlineConfigManager::new();
    let content = "# yl:config line-length max=120,allow-non-breakable-words=false\nkey: value";

    manager.process_file(content).unwrap();

    let config = manager.get_rule_config("line-length", 2).unwrap();
    assert_eq!(config.get_int("max"), Some(120));
    assert_eq!(config.get_bool("allow-non-breakable-words"), Some(false));
}

#[test]
fn test_enable_after_disable() {
    let mut manager = InlineConfigManager::new();
    let content = "# yl:disable line-length\nkey: value\n# yl:enable line-length\nother: data";

    manager.process_file(content).unwrap();

    // The enable directive removes the rule's record entirely, so no line
    // is left disabled.
    assert!(!manager.is_rule_disabled("line-length", 2));
    assert!(!manager.is_rule_disabled("line-length", 4));
}

#[test]
fn test_multiple_directives_same_line() {
    let mut manager = InlineConfigManager::new();
    let content = "key: value # yl:disable-line line-length";

    manager.process_file(content).unwrap();

    let on_line_one = manager.directives.iter().filter(|d| d.0 == 1).count();
    assert_eq!(on_line_one, 1);
}

#[test]
fn test_config_value_parsing() {
    assert_eq!(
        InlineConfigManager::parse_config_value("true").unwrap(),
        ConfigValue::Bool(true)
    );
    assert_eq!(
        InlineConfigManager::parse_config_value("false").unwrap(),
        ConfigValue::Bool(false)
    );
    assert_eq!(InlineConfigManager::parse_config_value("42").unwrap(), ConfigValue::Int(42));
    assert_eq!(
        InlineConfigManager::parse_config_value("hello").unwrap(),
        ConfigValue::String("hello".to_string())
    );
}

#[test]
fn test_config_value_parsing_edges() {
    assert_eq!(
        InlineConfigManager::parse_config_value("-9223372036854775808").unwrap(),
        ConfigValue::Int(i64::MIN)
    );
    assert_eq!(
        InlineConfigManager::parse_config_value("9223372036854775808").unwrap(),
        ConfigValue::String("9223372036854775808".to_string())
    );
    assert_eq!(
        InlineConfigManager::parse_config_value("+7").unwrap(),
        ConfigValue::Int(7)
    );
    assert_eq!(
        InlineConfigManager::parse_config_value("True").unwrap(),
        ConfigValue::String("True".to_string())
    );
}
