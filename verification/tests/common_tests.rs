use yl::rules::common::{
    count_leading_whitespace, extract_comment, has_trailing_whitespace, is_comment_only_line,
    is_empty_line, trailing_whitespace_start,
};

#[test]
fn test_is_empty_line() {
    assert!(is_empty_line(""));
    assert!(is_empty_line("   "));
    assert!(is_empty_line("\t\t"));
    assert!(is_empty_line(" \t \n"));
    assert!(!is_empty_line("content"));
    assert!(!is_empty_line("  content  "));
}

#[test]
fn test_count_leading_whitespace() {
    assert_eq!(count_leading_whitespace(""), 0);
    assert_eq!(count_leading_whitespace("no_spaces"), 0);
    assert_eq!(count_leading_whitespace("  two_spaces"), 2);
    assert_eq!(count_leading_whitespace("\t\ttwo_tabs"), 2);
    assert_eq!(count_leading_whitespace("  \tmixed"), 3);
}

#[test]
fn test_is_comment_only_line() {
    assert!(is_comment_only_line(""));
    assert!(is_comment_only_line("   "));
    assert!(is_comment_only_line("# comment"));
    assert!(is_comment_only_line("  # indented comment"));
    assert!(!is_comment_only_line("key: value # comment"));
    assert!(!is_comment_only_line("key: value"));
}

#[test]
fn test_extract_comment() {
    assert_eq!(extract_comment("key: value # comment"), Some("# comment".to_string()));
    assert_eq!(extract_comment("# full comment"), Some("# full comment".to_string()));
    assert_eq!(extract_comment("key: value"), None);
    assert_eq!(extract_comment(""), None);
    assert_eq!(extract_comment("key: # empty comment"), Some("# empty comment".to_string()));
}

#[test]
fn test_has_trailing_whitespace() {
    assert!(!has_trailing_whitespace(""));
    assert!(!has_trailing_whitespace("no_trailing"));
    assert!(has_trailing_whitespace("has_trailing "));
    assert!(has_trailing_whitespace("has_trailing\t"));
    assert!(has_trailing_whitespace("multiple   "));
    assert!(!has_trailing_whitespace("  leading_only"));
}

#[test]
fn test_trailing_whitespace_start() {
    assert_eq!(trailing_whitespace_start(""), None);
    assert_eq!(trailing_whitespace_start("no_trailing"), None);
    assert_eq!(trailing_whitespace_start("trailing "), Some(8));
    assert_eq!(trailing_whitespace_start("trailing\t"), Some(8));
    assert_eq!(trailing_whitespace_start("multiple   "), Some(8));
    assert_eq!(trailing_whitespace_start("  leading_only"), None);
}
