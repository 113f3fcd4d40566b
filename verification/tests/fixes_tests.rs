use yl::fixes::{EmptyLinesFix, FixEngine, NewLineAtEndOfFileFix, TrailingSpacesFix};
use yl::linter::{Level, Problem};

#[test]
fn test_fix_engine_creation() {
    let engine = FixEngine::new();
    assert!(!engine.fixes.is_empty());
}

#[test]
fn test_trailing_spaces_fix() {
    let fix = TrailingSpacesFix;
    let problem = Problem::new(2, 10, Level::Error, "trailing-spaces", "trailing whitespace");
    let content = "line1\nline2   \nline3";

    assert!(fix.can_fix(&problem));

    let fixed = fix.apply_fix(content, &problem).unwrap();
    assert_eq!(fixed, "line1\nline2\nline3");
}

#[test]
fn test_newline_at_end_fix() {
    let fix = NewLineAtEndOfFileFix;
    let problem = Problem::new(1, 5, Level::Error, "new-line-at-end-of-file", "missing newline");
    let content = "line1\nline2";

    assert!(fix.can_fix(&problem));

    let fixed = fix.apply_fix(content, &problem).unwrap();
    assert_eq!(fixed, "line1\nline2\n");
}

#[test]
fn test_empty_lines_fix_consecutive() {
    let fix = EmptyLinesFix;
    let problem = Problem::new(3, 1, Level::Error, "empty-lines", "too many blank lines (3 > 2)");
    let content = "line1\n\n\n\nline2";

    assert!(fix.can_fix(&problem));

    let fixed = fix.apply_fix(content, &problem).unwrap();
    assert_eq!(fixed, "line1\n\n\nline2");
}

#[test]
fn test_empty_lines_fix_at_beginning() {
    let fix = EmptyLinesFix;
    let problem =
        Problem::new(1, 1, Level::Error, "empty-lines", "too many blank lines at beginning");
    let content = "\n\nline1\nline2";

    assert!(fix.can_fix(&problem));

    let fixed = fix.apply_fix(content, &problem).unwrap();
    assert_eq!(fixed, "line1\nline2");
}

#[test]
fn test_fix_engine_apply_multiple() {
    let engine = FixEngine::new();
    let problems = vec![
        Problem::new(1, 8, Level::Error, "trailing-spaces", "trailing whitespace"),
        Problem::new(3, 1, Level::Error, "new-line-at-end-of-file", "missing newline"),
    ];
    let content = "line1   \nline2\nline3";

    let fixed = engine.fix_problems(content, &problems).unwrap();
    assert_eq!(fixed, "line1\nline2\nline3\n");
}

#[test]
fn test_fix_engine_no_applicable_fixes() {
    let engine = FixEngine::new();
    let problems = vec![Problem::new(1, 5, Level::Error, "unknown-rule", "some error")];
    let content = "line1\nline2";

    let fixed = engine.fix_problems(content, &problems).unwrap();
    assert_eq!(fixed, content); // Should be unchanged
}
