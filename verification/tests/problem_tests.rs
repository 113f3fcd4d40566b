use yl::linter::{Level, Problem};

#[test]
fn test_level_display() {
    assert_eq!(Level::Info.to_string(), "info");
    assert_eq!(Level::Warning.to_string(), "warning");
    assert_eq!(Level::Error.to_string(), "error");
}

#[test]
fn test_level_ordering() {
    assert!(Level::Info < Level::Warning);
    assert!(Level::Warning < Level::Error);
    assert!(Level::Info < Level::Error);
}

#[test]
fn test_problem_creation() {
    let problem = Problem::new(10, 5, Level::Error, "test-rule", "Test message");

    assert_eq!(problem.line, 10);
    assert_eq!(problem.column, 5);
    assert_eq!(problem.level, Level::Error);
    assert_eq!(problem.rule, "test-rule");
    assert_eq!(problem.message, "Test message");
    assert_eq!(problem.suggestion, None);
}

#[test]
fn test_problem_with_suggestion() {
    let problem = Problem::with_suggestion(
        15,
        8,
        Level::Warning,
        "style-rule",
        "Style issue",
        "Fix suggestion",
    );

    assert_eq!(problem.line, 15);
    assert_eq!(problem.column, 8);
    assert_eq!(problem.level, Level::Warning);
    assert_eq!(problem.rule, "style-rule");
    assert_eq!(problem.message, "Style issue");
    assert_eq!(problem.suggestion, Some("Fix suggestion".to_string()));
}

#[test]
fn test_problem_formatted_message() {
    let problem = Problem::new(1, 1, Level::Error, "test", "message");
    assert_eq!(problem.formatted_message(), "message (test)");
}

#[test]
fn test_problem_display() {
    let problem = Problem::new(10, 5, Level::Error, "test-rule", "Test message");
    assert_eq!(problem.to_string(), "10:5: Test message (test-rule)");
}

#[test]
fn test_problem_ordering() {
    let p1 = Problem::new(1, 1, Level::Error, "rule", "msg");
    let p2 = Problem::new(1, 2, Level::Error, "rule", "msg");
    let p3 = Problem::new(2, 1, Level::Error, "rule", "msg");
    let p4 = Problem::new(1, 1, Level::Warning, "rule", "msg");

    assert!(p1 < p2); // Same line, different column
    assert!(p1 < p3); // Different line
    assert!(p4 < p1); // Same position, different level
}

#[test]
fn test_problem_equality() {
    let p1 = Problem::new(1, 1, Level::Error, "rule", "msg");
    let p2 = Problem::new(1, 1, Level::Error, "rule", "msg");
    let p3 = Problem::new(1, 1, Level::Error, "rule", "different msg");

    assert_eq!(p1, p2);
    assert_ne!(p1, p3);
}
