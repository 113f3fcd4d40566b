use yl::linter::Level;
use yl::rules::{ConfigValue, RuleConfig, RuleRegistry};

#[test]
fn test_config_value_conversions() {
    let bool_val = ConfigValue::from(true);
    assert_eq!(bool_val.as_bool(), Some(true));
    assert_eq!(bool_val.as_int(), None);

    let int_val = ConfigValue::from(42i64);
    assert_eq!(int_val.as_int(), Some(42));
    assert_eq!(int_val.as_bool(), None);

    let string_val = ConfigValue::from("test".to_string());
    assert_eq!(string_val.as_string(), Some("test"));
    assert_eq!(string_val.as_int(), None);

    let array_val = ConfigValue::from(vec![ConfigValue::from(1i64), ConfigValue::from(2i64)]);
    assert_eq!(array_val.as_array().unwrap().len(), 2);
}

#[test]
fn test_rule_config() {
    let mut config = RuleConfig::new(true, Level::Warning);

    assert!(config.enabled);
    assert_eq!(config.level, Level::Warning);
    assert!(config.params.is_empty());

    config.set_param("max", ConfigValue::from(100i64));
    config.set_param("enabled", ConfigValue::from(true));

    assert_eq!(config.get_int("max"), Some(100));
    assert_eq!(config.get_bool("enabled"), Some(true));
    assert_eq!(config.get_string("nonexistent"), None);
}

#[test]
fn test_rule_config_default() {
    let config = RuleConfig::default();
    assert!(config.enabled);
    assert_eq!(config.level, Level::Error);
    assert!(config.params.is_empty());
}

#[test]
fn test_rule_registry() {
    let mut registry = RuleRegistry::new();
    assert!(registry.rule_ids().is_empty());

    let rule = yl::rules::AnyRule::LineLength(yl::rules::style::LineLengthRule::new());
    let rule_id = rule.id();
    registry.register(rule);

    assert_eq!(registry.rule_ids(), vec![rule_id]);
    assert!(registry.get(rule_id).is_some());
    assert!(registry.get("nonexistent").is_none());
}

#[test]
fn test_rule_registry_with_defaults() {
    let registry = RuleRegistry::with_default_rules();
    assert!(!registry.rule_ids().is_empty());
    assert!(registry.get("line-length").is_some());
}
