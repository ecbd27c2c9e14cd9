use envsentinel::env::compare::compare;
use envsentinel::env::model::{EnvFile, EnvKey, ParseIssue};

fn env_file(path: &str, entries: &[(&str, Option<&str>)]) -> EnvFile {
    EnvFile {
        path: path.to_string(),
        keys: entries
            .iter()
            .enumerate()
            .map(|(index, (name, value))| EnvKey {
                name: (*name).to_string(),
                value: value.map(|value| value.to_string()),
                source: Some(path.to_string()),
                line_number: Some(index + 1),
            })
            .collect(),
        issues: Vec::<ParseIssue>::new(),
    }
}

#[test]
fn compares_template_and_target_keys() {
    let template = env_file(
        "/tmp/.env.example",
        &[("API_KEY", Some("")), ("DATABASE_URL", Some("")), ("DEBUG", Some(""))],
    );
    let target = env_file(
        "/tmp/.env",
        &[("API_KEY", Some("secret")), ("DEBUG", Some("")), ("EXTRA", Some("value"))],
    );

    let result = compare(&template, &target);

    assert_eq!(result.missing_keys, vec!["DATABASE_URL"]);
    assert_eq!(result.extra_keys, vec!["EXTRA"]);
    assert_eq!(result.empty_values, vec!["DEBUG"]);
}

#[test]
fn swapping_template_and_target_swaps_missing_and_extra() {
    let a = env_file("/a", &[("A", Some("1")), ("B", Some("2")), ("C", None)]);
    let b = env_file("/b", &[("B", Some("")), ("D", Some("4"))]);

    let ab = compare(&a, &b);
    let ba = compare(&b, &a);

    assert_eq!(ab.missing_keys, ba.extra_keys);
    assert_eq!(ab.extra_keys, ba.missing_keys);
    assert_eq!(ab.missing_keys, vec!["A", "C"]);
    assert_eq!(ab.extra_keys, vec!["D"]);
    assert_eq!(ab.empty_values, vec!["B"]);
}

#[test]
fn a_file_compared_with_itself_has_no_missing_or_extra_keys() {
    let file = env_file("/a", &[("A", Some("1")), ("B", None)]);
    let result = compare(&file, &file);
    assert!(result.missing_keys.is_empty());
    assert!(result.extra_keys.is_empty());
    assert_eq!(result.empty_values, vec!["B"]);
}

#[test]
fn absent_value_counts_as_empty_in_target() {
    let template = env_file("/t", &[("TOKEN", Some("x"))]);
    let target = env_file("/e", &[("TOKEN", None)]);
    let result = compare(&template, &target);
    assert_eq!(result.empty_values, vec!["TOKEN"]);
    assert!(result.missing_keys.is_empty());
}
