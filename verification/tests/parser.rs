use envsentinel::env::model::ParseIssueKind;
use envsentinel::env::parser::{needs_quotes, parse_file, parse_value};

#[test]
fn parses_keys_while_ignoring_comments_and_blank_lines() {
    let contents = r#"
# comment

API_KEY=abc123
export DEBUG=true
NAME="Env Sentinel"
"#;

    let file = parse_file("/tmp/.env", contents);

    assert_eq!(file.key_names(), vec!["API_KEY", "DEBUG", "NAME"]);
    assert_eq!(file.value_for("API_KEY"), Some("abc123"));
    assert_eq!(file.value_for("DEBUG"), Some("true"));
    assert_eq!(file.value_for("NAME"), Some("Env Sentinel"));
    assert!(file.issues.is_empty());
}

#[test]
fn records_duplicate_malformed_empty_and_missing_quotes_issues() {
    let contents = r#"
API_KEY=abc 123
API_KEY=second
MISSING_LINE
EMPTY=
QUOTED="value with spaces"
"#;

    let file = parse_file("/tmp/.env", contents);

    let kinds: Vec<ParseIssueKind> = file.issues.iter().map(|issue| issue.kind.clone()).collect();

    assert!(kinds.contains(&ParseIssueKind::MissingQuotes));
    assert!(kinds.contains(&ParseIssueKind::DuplicateKey));
    assert!(kinds.contains(&ParseIssueKind::MalformedLine));
    assert!(kinds.contains(&ParseIssueKind::EmptyValue));
    assert_eq!(file.value_for("EMPTY"), Some(""));
}

#[test]
fn issues_carry_messages_keys_and_line_numbers() {
    let file = parse_file("/p/.env", "A=1\nA=2\nbroken\n=x\nB=\nC=a#b\n");
    let issues: Vec<(ParseIssueKind, String, Option<String>, Option<usize>)> = file
        .issues
        .iter()
        .map(|i| (i.kind, i.message.clone(), i.key.clone(), i.line_number))
        .collect();
    assert_eq!(
        issues,
        vec![
            (ParseIssueKind::DuplicateKey, "Duplicate key: A".to_string(), Some("A".to_string()), Some(2)),
            (ParseIssueKind::MalformedLine, "Malformed env line: broken".to_string(), None, Some(3)),
            (ParseIssueKind::MalformedLine, "Malformed env line: =x".to_string(), None, Some(4)),
            (ParseIssueKind::EmptyValue, "Empty value for key: B".to_string(), Some("B".to_string()), Some(5)),
            (ParseIssueKind::MissingQuotes, "Value for C should be quoted".to_string(), Some("C".to_string()), Some(6)),
        ]
    );
    assert_eq!(file.key_names(), vec!["A", "B", "C"]);
    assert_eq!(file.value_for("A"), Some("1"));
    assert_eq!(file.keys[2].line_number, Some(6));
    assert_eq!(file.keys[0].source, Some("/p/.env".to_string()));
    assert_eq!(file.path, "/p/.env");
}

#[test]
fn crlf_lines_and_surrounding_whitespace_are_trimmed() {
    let file = parse_file("/p/.env", "  KEY = 'quoted value' \r\nexport   OTHER=x\r\n\t# note\r\n");
    assert_eq!(file.key_names(), vec!["KEY", "OTHER"]);
    assert_eq!(file.value_for("KEY"), Some("quoted value"));
    assert_eq!(file.value_for("OTHER"), Some("x"));
    // the raw value ` 'quoted value' ` was quoted, so no quoting issue
    assert!(file.issues.is_empty());
}

#[test]
fn raw_value_with_a_leading_space_is_flagged_for_quotes() {
    let file = parse_file("/p/.env", "KEY= value");
    assert_eq!(file.value_for("KEY"), Some("value"));
    assert_eq!(file.issues.len(), 1);
    assert_eq!(file.issues[0].kind, ParseIssueKind::MissingQuotes);
}

#[test]
fn empty_text_has_no_keys_or_issues() {
    let file = parse_file("/p/.env", "");
    assert!(file.keys.is_empty());
    assert!(file.issues.is_empty());
    assert_eq!(file.value_for("X"), None);
}

#[test]
fn parse_value_strips_matching_quotes_only() {
    assert_eq!(parse_value("  \"a b\"  "), ("a b".to_string(), true));
    assert_eq!(parse_value("'x'"), ("x".to_string(), true));
    assert_eq!(parse_value("\"x'"), ("\"x'".to_string(), false));
    assert_eq!(parse_value("\""), ("\"".to_string(), false));
    assert_eq!(parse_value("\"\""), ("".to_string(), true));
    assert!(needs_quotes("a\tb", false));
    assert!(!needs_quotes("a b", true));
    assert!(!needs_quotes("plain", false));
}

#[test]
fn empty_keys_lists_absent_and_empty_values() {
    let file = parse_file("/p/.env", "A=\nB=1\nC=''\n");
    assert_eq!(file.empty_keys(), vec!["A", "C"]);
}

#[test]
fn each_content_line_gives_exactly_one_key_or_line_issue() {
    let file = parse_file("/p/.env", "A=1\n\n# c\nbad\nA=2\nB= x y\n");
    let line_issues: Vec<Option<usize>> = file
        .issues
        .iter()
        .filter(|i| matches!(i.kind, ParseIssueKind::MalformedLine | ParseIssueKind::DuplicateKey))
        .map(|i| i.line_number)
        .collect();
    let key_lines: Vec<Option<usize>> = file.keys.iter().map(|k| k.line_number).collect();
    assert_eq!(key_lines, vec![Some(1), Some(6)]);
    assert_eq!(line_issues, vec![Some(4), Some(5)]);
    assert!(file.issues.iter().all(|i| i.line_number != Some(2) && i.line_number != Some(3)));
}
