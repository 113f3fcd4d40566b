use yl::linter::{Level, Problem};
use yl::output::human::HumanFormatter;
use yl::output::json::{JsonProblem, JsonStats};
use yl::output::LintStats;

#[test]
fn test_lint_stats_empty() {
    let results = vec![];
    let stats = LintStats::from_results(&results);

    assert_eq!(stats.total_files, 0);
    assert_eq!(stats.files_with_problems, 0);
    assert_eq!(stats.total_problems, 0);
    assert_eq!(stats.errors, 0);
    assert_eq!(stats.warnings, 0);
    assert_eq!(stats.info, 0);
    assert!(!stats.has_errors());
    assert!(!stats.has_problems());
}

#[test]
fn test_lint_stats_with_problems() {
    let results = vec![
        (
            String::from("file1.yaml"),
            vec![
                Problem::new(1, 1, Level::Error, "rule1", "error message"),
                Problem::new(2, 1, Level::Warning, "rule2", "warning message"),
            ],
        ),
        (String::from("file2.yaml"), vec![]),
        (
            String::from("file3.yaml"),
            vec![Problem::new(1, 1, Level::Info, "rule3", "info message")],
        ),
    ];

    let stats = LintStats::from_results(&results);

    assert_eq!(stats.total_files, 3);
    assert_eq!(stats.files_with_problems, 2);
    assert_eq!(stats.total_problems, 3);
    assert_eq!(stats.errors, 1);
    assert_eq!(stats.warnings, 1);
    assert_eq!(stats.info, 1);
    assert!(stats.has_errors());
    assert!(stats.has_problems());
}

#[test]
fn test_human_formatter_no_problems() {
    let formatter = HumanFormatter::with_colors(false);
    let results = vec![
        (String::from("file1.yaml"), vec![]),
        (String::from("file2.yaml"), vec![]),
    ];

    let output = formatter.format_results(&results);
    assert_eq!(output, "No problems found");
}

#[test]
fn test_human_formatter_with_problems() {
    let formatter = HumanFormatter::with_colors(false);
    let results = vec![(
        String::from("test.yaml"),
        vec![
            Problem::new(10, 5, Level::Error, "line-length", "line too long"),
            Problem::with_suggestion(
                15,
                1,
                Level::Warning,
                "trailing-spaces",
                "trailing whitespace",
                "Remove trailing spaces",
            ),
        ],
    )];

    let output = formatter.format_results(&results);
    let lines: Vec<&str> = output.lines().collect();

    assert_eq!(lines[0], "test.yaml");
    assert_eq!(lines[1], "  10:5: error line too long (line-length)");
    assert_eq!(lines[2], "  15:1: warning trailing whitespace (trailing-spaces)");
    assert_eq!(lines[3], "    Suggestion: Remove trailing spaces");
    assert_eq!(lines[5], "Found 1 error, 1 warning");
}

#[test]
fn test_format_level_no_colors() {
    let formatter = HumanFormatter::with_colors(false);

    assert_eq!(formatter.format_level(&Level::Error), "error");
    assert_eq!(formatter.format_level(&Level::Warning), "warning");
    assert_eq!(formatter.format_level(&Level::Info), "info");
}

#[test]
fn test_format_level_with_colors() {
    let formatter = HumanFormatter::with_colors(true);

    assert_eq!(formatter.format_level(&Level::Error), "\x1b[31merror\x1b[0m");
    assert_eq!(formatter.format_level(&Level::Warning), "\x1b[33mwarning\x1b[0m");
    assert_eq!(formatter.format_level(&Level::Info), "\x1b[36minfo\x1b[0m");
}

#[test]
fn test_format_position() {
    let formatter = HumanFormatter::with_colors(false);
    assert_eq!(formatter.format_position(10, 5), "10:5");
}

#[test]
fn test_format_rule() {
    let formatter = HumanFormatter::with_colors(false);
    assert_eq!(formatter.format_rule("test-rule"), "(test-rule)");
}

#[test]
fn test_format_stats_no_problems() {
    let formatter = HumanFormatter::with_colors(false);
    let stats = LintStats::default();

    assert_eq!(formatter.format_stats(&stats), "No problems found");
}

#[test]
fn test_format_stats_with_problems() {
    let formatter = HumanFormatter::with_colors(false);
    let stats = LintStats {
        total_files: 3,
        files_with_problems: 2,
        total_problems: 5,
        errors: 2,
        warnings: 2,
        info: 1,
    };

    assert_eq!(formatter.format_stats(&stats), "Found 2 errors, 2 warnings, 1 info");
}

#[test]
fn test_format_stats_single_items() {
    let formatter = HumanFormatter::with_colors(false);
    let stats = LintStats {
        total_files: 1,
        files_with_problems: 1,
        total_problems: 1,
        errors: 1,
        warnings: 0,
        info: 0,
    };

    assert_eq!(formatter.format_stats(&stats), "Found 1 error");
}

#[test]
fn test_json_problem_conversion() {
    let problem =
        Problem::with_suggestion(42, 13, Level::Info, "test-rule", "test message", "test suggestion");

    let json_problem = JsonProblem::of_problem(&problem);

    assert_eq!(json_problem.line, 42);
    assert_eq!(json_problem.column, 13);
    assert_eq!(json_problem.level, "info");
    assert_eq!(json_problem.rule, "test-rule");
    assert_eq!(json_problem.message, "test message");
    assert_eq!(json_problem.suggestion, Some("test suggestion".to_string()));
}

#[test]
fn test_json_stats_conversion() {
    let stats = LintStats {
        total_files: 5,
        files_with_problems: 3,
        total_problems: 10,
        errors: 4,
        warnings: 5,
        info: 1,
    };

    let json_stats = JsonStats::of_stats(&stats);

    assert_eq!(json_stats.total_files, 5);
    assert_eq!(json_stats.files_with_problems, 3);
    assert_eq!(json_stats.total_problems, 10);
    assert_eq!(json_stats.errors, 4);
    assert_eq!(json_stats.warnings, 5);
    assert_eq!(json_stats.info, 1);
}
