use envsentinel::env::model::{EnvFile, EnvKey, ParseIssue, ParseIssueKind};
use envsentinel::env::parser::parse_file;
use envsentinel::env::validate::{contains_string, validate};

#[test]
fn errors_and_warnings_follow_issue_kinds() {
    let file = parse_file("/p/.env", "GOOD=value\nGOOD=second\nBROKEN_LINE\nEMPTY=\nQ=a b\n");
    let result = validate(&file);
    assert_eq!(result.errors, vec!["Duplicate key: GOOD", "Malformed env line: BROKEN_LINE"]);
    assert_eq!(result.warnings, vec!["Empty value for key: EMPTY", "Value for Q should be quoted"]);
}

#[test]
fn clean_file_has_no_errors_or_warnings() {
    let result = validate(&parse_file("/p/.env", "A=1\nB=\"two words\"\n"));
    assert!(result.errors.is_empty());
    assert!(result.warnings.is_empty());
}

#[test]
fn empty_keys_without_an_issue_get_one_warning() {
    let file = EnvFile {
        path: "/p/.env".to_string(),
        keys: vec![
            EnvKey { name: "A".to_string(), value: None, source: None, line_number: None },
            EnvKey { name: "B".to_string(), value: Some(String::new()), source: None, line_number: Some(2) },
        ],
        issues: vec![ParseIssue {
            kind: ParseIssueKind::EmptyValue,
            message: "Empty value for key: B".to_string(),
            key: Some("B".to_string()),
            line_number: Some(2),
        }],
    };
    let result = validate(&file);
    assert!(result.errors.is_empty());
    assert_eq!(result.warnings, vec!["Empty value for key: B", "Empty value for key: A"]);
    assert!(contains_string(&result.warnings, &"Empty value for key: A".to_string()));
}
