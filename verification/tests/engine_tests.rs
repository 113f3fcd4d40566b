use yl::config::Config;
use yl::linter::{Level, LintError, Linter};

#[test]
fn test_linter_creation() {
    let config = Config::default();
    let linter = Linter::new(config);

    assert!(!linter.registry.rule_ids().is_empty());
}

#[test]
fn test_lint_content_valid_yaml() {
    let config = Config::default();
    let linter = Linter::new(config);

    let content = "key: value\nother: data";
    let problems = linter.lint_content("test.yaml", content).expect("Linting failed");

    // Should have no problems for valid, short content
    assert!(problems.is_empty());
}

#[test]
fn test_lint_content_long_lines() {
    let config = Config::default();
    let linter = Linter::new(config);

    // Use a breakable long line (with spaces)
    let long_line = "this is a very long line with many words that definitely exceeds the eighty character limit";
    let problems = linter.lint_content("test.yaml", long_line).expect("Linting failed");

    // Should have line-length problem
    assert_eq!(problems.len(), 1);
    assert_eq!(problems[0].rule, "line-length");
    assert_eq!(problems[0].line, 1);
}

#[test]
fn test_lint_content_trailing_spaces() {
    let config = Config::default();
    let linter = Linter::new(config);

    let content = "key: value   \nother: data";
    let problems = linter.lint_content("test.yaml", content).expect("Linting failed");

    // Should have trailing-spaces problem
    assert_eq!(problems.len(), 1);
    assert_eq!(problems[0].rule, "trailing-spaces");
    assert_eq!(problems[0].line, 1);
}

#[test]
fn test_problem_sorting() {
    let config = Config::default();
    let linter = Linter::new(config);

    let content = format!(
        "{}\n{}\n{}",
        "this is a very long line with many words that definitely exceeds the eighty character limit",
        "short",
        "trailing   "
    );

    let problems = linter.lint_content("test.yaml", &content).expect("Linting failed");

    // Problems should be sorted by line number
    assert_eq!(problems.len(), 2);
    assert_eq!(problems[0].line, 1); // line-length problem
    assert_eq!(problems[1].line, 3); // trailing-spaces problem
}

#[test]
fn test_clean_default_content() {
    // Default configuration: line-length at 80, trailing-spaces enabled,
    // most others disabled; a short clean mapping reports nothing.
    let linter = Linter::new(Config::default());
    let problems = linter.lint_content("test.yaml", "key: value\n").expect("Linting failed");
    assert!(problems.is_empty());
}

#[test]
fn test_trailing_spaces_position() {
    let linter = Linter::new(Config::default());
    let problems =
        linter.lint_content("test.yaml", "key: value   \nother: data").expect("Linting failed");
    assert_eq!(problems.len(), 1);
    assert_eq!(problems[0].line, 1);
    assert_eq!(problems[0].column, 11);
    assert_eq!(problems[0].level, Level::Error);
    assert_eq!(problems[0].rule, "trailing-spaces");
}

#[test]
fn test_overlong_unbroken_line_position() {
    // A single line of 95 non-space characters under the default
    // configuration yields exactly one line-length problem at column 81.
    let linter = Linter::new(Config::default());
    let line = "x".repeat(95);
    let problems = linter.lint_content("test.yaml", &line).expect("Linting failed");
    assert_eq!(problems.len(), 1);
    assert_eq!(problems[0].line, 1);
    assert_eq!(problems[0].column, 81);
    assert_eq!(problems[0].level, Level::Error);
    assert_eq!(problems[0].rule, "line-length");
}

#[test]
fn test_overlong_breakable_line_position() {
    let linter = Linter::new(Config::default());
    let line = "word ".repeat(19); // 95 characters, breakable
    let problems = linter.lint_content("test.yaml", line.trim_end()).expect("Linting failed");
    assert_eq!(problems.len(), 1);
    assert_eq!(problems[0].line, 1);
    assert_eq!(problems[0].column, 81);
    assert_eq!(problems[0].level, Level::Error);
    assert_eq!(problems[0].rule, "line-length");
}

#[test]
fn test_invalid_set_directive_is_an_error() {
    let linter = Linter::new(Config::default());
    let result = linter.lint_content("test.yaml", "# yl:set invalid-format\nkey: value");
    match result {
        Err(LintError::DirectiveParse { .. }) => {}
        other => panic!("Expected a directive parse error, got {:?}", other),
    }
}

#[test]
fn test_ignore_file_suppresses_everything() {
    let linter = Linter::new(Config::default());
    let content = "# yl:ignore-file\nkey: value   \nthis line is long long long long long long long long long long long long long long";
    let problems = linter.lint_content("test.yaml", content).expect("Linting failed");
    assert!(problems.is_empty());
}

#[test]
fn test_lint_twice_is_identical() {
    let linter = Linter::new(Config::default());
    let content = "key: value   \nother line that is fine\nlast: one   ";
    let first = linter.lint_content("test.yaml", content).expect("Linting failed");
    let second = linter.lint_content("test.yaml", content).expect("Linting failed");
    assert_eq!(first, second);
}

#[test]
fn test_disable_line_scopes_to_its_line() {
    let linter = Linter::new(Config::default());
    let content = "key: value    # yl:disable-line trailing-spaces\nother: data   ";
    let problems = linter.lint_content("test.yaml", content).expect("Linting failed");
    assert_eq!(problems.len(), 1);
    assert_eq!(problems[0].line, 2);
    assert_eq!(problems[0].rule, "trailing-spaces");
}

#[test]
fn test_set_directive_later_wins() {
    let linter = Linter::new(Config::default());
    let mut content = String::from("# yl:set line-length.max=120\n# yl:set line-length.max=30\n");
    content.push_str("this line has quite a few words and exceeds thirty characters easily");
    let problems = linter.lint_content("test.yaml", &content).expect("Linting failed");
    assert_eq!(problems.len(), 1);
    assert_eq!(problems[0].rule, "line-length");
    assert_eq!(problems[0].column, 31);
}

#[test]
fn test_sorting_keeps_every_problem() {
    // The final sort only reorders: every rule finding is still present,
    // once, after it.
    let config = Config::default();
    let linter = Linter::new(config);

    let long = "x".repeat(89);
    let content = format!("a: 1   \nlong: {}\nb: 2   ", long);

    let problems = linter.lint_content("test.yaml", &content).expect("Linting failed");

    let mut found: Vec<(usize, String)> =
        problems.iter().map(|p| (p.line, p.rule.clone())).collect();
    found.sort();
    assert_eq!(
        found,
        vec![
            (1, "trailing-spaces".to_owned()),
            (2, "line-length".to_owned()),
            (3, "trailing-spaces".to_owned()),
        ]
    );
}
