use yl::linter::LintContext;
use yl::plugins::{ExamplePlugin, ExampleRule, RulePlugin};

#[test]
fn test_example_plugin() {
    let plugin = ExamplePlugin;
    assert_eq!(plugin.name(), "example-plugin");
    assert_eq!(plugin.version(), "1.0.0");
    assert!(!plugin.description().is_empty());
}

#[test]
fn test_example_rule() {
    let rule = ExampleRule;
    let content = "key: value\n# TODO: fix this\nother: data";
    let context = LintContext::new("test.yaml", content);
    let config = rule.default_config();

    let problems = rule.check(&context, &config).unwrap();
    assert_eq!(problems.len(), 1);
    assert_eq!(problems[0].rule, "example-rule");
    assert_eq!(problems[0].line, 2);
    assert!(problems[0].message.contains("TODO"));
}
