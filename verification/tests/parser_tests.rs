use yl::parser::{CommentProcessor, Directive, Scope};

fn processor() -> CommentProcessor {
    CommentProcessor::new()
}

#[test]
fn test_parse_disable_all() {
    let processor = processor();
    let directive = processor.parse_directive("# yl:disable").unwrap().unwrap();

    match directive {
        Directive::Disable { rules, scope } => {
            assert!(rules.is_empty());
            assert_eq!(scope, Scope::Block);
        }
        _ => panic!("Expected Disable directive"),
    }
}

#[test]
fn test_parse_disable_specific_rules() {
    let processor = processor();
    let directive =
        processor.parse_directive("# yl:disable line-length,trailing-spaces").unwrap().unwrap();

    match directive {
        Directive::Disable { rules, scope } => {
            assert_eq!(rules, vec!["line-length", "trailing-spaces"]);
            assert_eq!(scope, Scope::Block);
        }
        _ => panic!("Expected Disable directive"),
    }
}

#[test]
fn test_parse_disable_line() {
    let processor = processor();
    let directive = processor.parse_directive("# yl:disable-line line-length").unwrap().unwrap();

    match directive {
        Directive::DisableLine { rules } => {
            assert_eq!(rules, vec!["line-length"]);
        }
        _ => panic!("Expected DisableLine directive, got: {:?}", directive),
    }
}

#[test]
fn test_parse_enable() {
    let processor = processor();
    let directive = processor.parse_directive("# yl:enable line-length").unwrap().unwrap();

    match directive {
        Directive::Enable { rules, scope } => {
            assert_eq!(rules, vec!["line-length"]);
            assert_eq!(scope, Scope::Block);
        }
        _ => panic!("Expected Enable directive"),
    }
}

#[test]
fn test_parse_set() {
    let processor = processor();
    let directive = processor.parse_directive("# yl:set line-length.max=120").unwrap().unwrap();

    match directive {
        Directive::SetParam { rule, params } => {
            assert_eq!(rule, "line-length");
            assert_eq!(params.get("max"), Some(&"120".to_string()));
        }
        _ => panic!("Expected Set directive"),
    }
}

#[test]
fn test_parse_config() {
    let processor = processor();
    let directive = processor
        .parse_directive("# yl:config line-length max=120,allow-non-breakable-words=false")
        .unwrap()
        .unwrap();

    match directive {
        Directive::Config { rule, params } => {
            assert_eq!(rule, "line-length");
            assert_eq!(params.get("max"), Some(&"120".to_string()));
            assert_eq!(params.get("allow-non-breakable-words"), Some(&"false".to_string()));
        }
        _ => panic!("Expected Config directive"),
    }
}

#[test]
fn test_parse_ignore_file() {
    let processor = processor();
    let directive = processor.parse_directive("# yl:ignore-file").unwrap().unwrap();

    match directive {
        Directive::IgnoreFile => {}
        _ => panic!("Expected IgnoreFile directive"),
    }
}

#[test]
fn test_parse_ignore_section() {
    let processor = processor();
    let directive = processor.parse_directive("# yl:ignore-section line-length").unwrap().unwrap();

    match directive {
        Directive::IgnoreSection { rules } => {
            assert_eq!(rules, vec!["line-length"]);
        }
        _ => panic!("Expected IgnoreSection directive"),
    }
}

#[test]
fn test_parse_non_directive_comment() {
    let processor = processor();
    let result = processor.parse_directive("# This is just a regular comment").unwrap();
    assert!(result.is_none());
}

#[test]
fn test_parse_invalid_set_format() {
    let processor = processor();
    let result = processor.parse_directive("# yl:set invalid-format");
    assert!(result.is_err());
}

#[test]
fn test_whitespace_handling() {
    let processor = processor();

    // Test various whitespace scenarios
    let directive1 = processor.parse_directive("  #   yl:disable   line-length  ").unwrap().unwrap();
    let directive2 = processor.parse_directive("#yl:disable line-length").unwrap().unwrap();

    // Both should parse the same way
    match (directive1, directive2) {
        (Directive::Disable { rules: r1, .. }, Directive::Disable { rules: r2, .. }) => {
            assert_eq!(r1, r2);
            assert_eq!(r1, vec!["line-length"]);
        }
        _ => panic!("Expected Disable directives"),
    }
}

#[test]
fn test_rule_list_parsing() {
    let processor = processor();

    // Test comma-separated rules with various spacing
    let directive =
        processor.parse_directive("# yl:disable rule1, rule2 ,rule3,  rule4  ").unwrap().unwrap();

    match directive {
        Directive::Disable { rules, .. } => {
            assert_eq!(rules, vec!["rule1", "rule2", "rule3", "rule4"]);
        }
        _ => panic!("Expected Disable directive"),
    }
}

#[test]
fn test_parse_verb_needs_delimiter() {
    // A verb counts only as a whole word: an unrecognized word starting
    // with a verb yields no directive.
    let processor = processor();
    assert!(processor.parse_directive("# yl:disablefoo").unwrap().is_none());
    assert!(processor.parse_directive("# yl:ignore-filed").unwrap().is_none());
    // A bare verb at the end of the comment still counts.
    let directive = processor.parse_directive("# yl:disable").unwrap().unwrap();
    match directive {
        Directive::Disable { rules, scope } => {
            assert!(rules.is_empty());
            assert_eq!(scope, Scope::Block);
        }
        _ => panic!("Expected Disable directive"),
    }
}

#[test]
fn test_parse_directive_found_later_in_comment() {
    // The directive head may stand anywhere in the comment, not only at the
    // start.
    let processor = processor();
    let directive = processor
        .parse_directive("# some note # yl:disable-line line-length")
        .unwrap()
        .unwrap();
    match directive {
        Directive::DisableLine { rules } => {
            assert_eq!(rules, vec!["line-length"]);
        }
        _ => panic!("Expected DisableLine directive"),
    }
}

#[test]
fn test_parse_config_rule_only() {
    let processor = processor();
    let directive = processor.parse_directive("# yl:config line-length").unwrap().unwrap();
    match directive {
        Directive::Config { rule, params } => {
            assert_eq!(rule, "line-length");
            assert!(params.is_empty());
        }
        _ => panic!("Expected Config directive"),
    }
}

#[test]
fn test_parse_set_with_surrounding_text() {
    // The `rule.param=value` shape is found anywhere in the arguments.
    let processor = processor();
    let directive =
        processor.parse_directive("# yl:set please line-length.max=120 thanks").unwrap().unwrap();
    match directive {
        Directive::SetParam { rule, params } => {
            assert_eq!(rule, "line-length");
            assert_eq!(params.get("max"), Some(&"120".to_string()));
        }
        _ => panic!("Expected Set directive"),
    }
}

#[test]
fn test_parse_config_skips_malformed_segment() {
    // Unlike `set`, a `config` segment without `=` is silently skipped.
    let processor = processor();
    let directive =
        processor.parse_directive("# yl:config line-length max=90,oops,min=1").unwrap().unwrap();
    match directive {
        Directive::Config { rule, params } => {
            assert_eq!(rule, "line-length");
            assert_eq!(params.get("max"), Some(&"90".to_string()));
            assert_eq!(params.get("min"), Some(&"1".to_string()));
            assert_eq!(params.len(), 2);
        }
        _ => panic!("Expected Config directive"),
    }
}
