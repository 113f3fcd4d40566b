use yl::config::Config;
use yl::diff::{ChangeType, ChangedRange, DiffLinter, GitDiff};

#[test]
fn test_diff_linter_creation() {
    let config = Config::default();
    let linter = DiffLinter::new(config);
    assert_eq!(linter.context_lines, 3);
}

#[test]
fn test_with_context_lines() {
    let config = Config::default();
    let linter = DiffLinter::new(config).with_context_lines(5);
    assert_eq!(linter.context_lines, 5);
}

#[test]
fn test_changed_range() {
    let range = ChangedRange { start_line: 5, end_line: 10, change_type: ChangeType::Modified };

    assert_eq!(range.start_line, 5);
    assert_eq!(range.end_line, 10);
    assert_eq!(range.change_type, ChangeType::Modified);
}

#[test]
fn test_git_diff_struct() {
    let git_diff = GitDiff {
        file_path: String::from("test.yaml"),
        is_new_file: true,
        is_deleted_file: false,
    };

    assert_eq!(git_diff.file_path, String::from("test.yaml"));
    assert!(git_diff.is_new_file);
    assert!(!git_diff.is_deleted_file);
}
