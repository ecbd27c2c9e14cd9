use envsentinel::config::defaults::Defaults;
use envsentinel::config::document::TomlValue;
use envsentinel::config::file::{ConfigFile, ConfigSource};

const CONFIG_PATH: &str = "/tmp/project/config/envsentinel.toml";

#[test]
fn loads_config_from_defaults_table() {
    let contents = r#"
[defaults]
strict = true
template_file = ".env.example"
target_files = [".env", ".env.local"]
ignore_directories = ["node_modules", "target", "dist"]
"#;

    let config = ConfigFile::from_source(CONFIG_PATH, ConfigSource::Text(contents.to_string())).expect("load config");

    assert!(config.defaults.strict);
    assert_eq!(config.defaults.template_file, Some(".env.example".to_string()));
    assert_eq!(config.defaults.target_files, vec![".env".to_string(), ".env.local".to_string()]);
    assert_eq!(
        config.defaults.ignore_directories,
        vec!["node_modules".to_string(), "target".to_string(), "dist".to_string()]
    );
    assert_eq!(config.path, CONFIG_PATH);
}

#[test]
fn rejects_unknown_keys_and_invalid_types() {
    let contents = r#"
[defaults]
strict = "yes"
template_file = 123
target_files = [".env", 42]
ignore_directories = [""]
extra_key = true

[other]
value = true
"#;

    let error = ConfigFile::from_source(CONFIG_PATH, ConfigSource::Text(contents.to_string()))
        .expect_err("config should fail validation");

    assert!(error.issues.iter().any(|issue| issue.contains("`defaults.strict` must be a boolean")));
    assert!(error.issues.iter().any(|issue| issue.contains("`defaults.template_file` must be a string")));
    assert!(error.issues.iter().any(|issue| issue.contains("`defaults.target_files` must contain only strings")));
    assert!(error.issues.iter().any(|issue| issue.contains("`defaults.ignore_directories` cannot contain empty strings")));
    assert!(error.issues.iter().any(|issue| issue.contains("Unknown key `defaults.extra_key`")));
    assert!(error.issues.iter().any(|issue| issue.contains("Unknown top-level key `other`")));
}

#[test]
fn missing_config_file_falls_back_to_defaults() {
    let config = ConfigFile::from_source(CONFIG_PATH, ConfigSource::Missing).expect("missing config should not fail");

    assert_eq!(config.defaults, Defaults::default());
}

#[test]
fn default_settings_ignore_common_build_directories() {
    let d = Defaults::default();
    assert!(!d.strict);
    assert_eq!(d.template_file, None);
    assert!(d.target_files.is_empty());
    assert_eq!(d.ignore_directories, vec!["node_modules", "target", "dist"]);
}

#[test]
fn issue_messages_name_the_kind_found() {
    let contents = "[defaults]\nstrict = 1.5\ntemplate_file = \"  \"\ntarget_files = \"x\"\n";
    let error = ConfigFile::from_str(CONFIG_PATH, contents).expect_err("invalid");
    assert_eq!(
        error.issues,
        vec![
            "`defaults.strict` must be a boolean, got float".to_string(),
            "`defaults.target_files` must be an array of strings, got string".to_string(),
            "`defaults.template_file` cannot be empty".to_string(),
        ]
    );
    assert_eq!(
        error.message(),
        format!(
            "{}: `defaults.strict` must be a boolean, got float; `defaults.target_files` must be an array of strings, got string; `defaults.template_file` cannot be empty",
            CONFIG_PATH
        )
    );
}

#[test]
fn missing_defaults_table_is_an_error() {
    let error = ConfigFile::from_str(CONFIG_PATH, "title = \"x\"\n").expect_err("no defaults");
    assert_eq!(error.issues, vec!["Unknown top-level key `title`", "Missing [defaults] table"]);

    let error = ConfigFile::from_str(CONFIG_PATH, "defaults = 3\n").expect_err("not a table");
    assert_eq!(error.issues, vec!["`defaults` must be a table"]);
}

#[test]
fn empty_defaults_table_gives_default_settings() {
    let config = ConfigFile::from_str(CONFIG_PATH, "[defaults]\n").expect("valid");
    assert_eq!(config.defaults, Defaults::default());
}

#[test]
fn invalid_toml_is_reported_with_the_parser_message() {
    let error = ConfigFile::from_str(CONFIG_PATH, "[defaults\nstrict = ").expect_err("invalid toml");
    assert_eq!(error.issues.len(), 1);
    assert!(error.issues[0].starts_with("Invalid TOML: "));
    assert!(error.issues[0].len() > "Invalid TOML: ".len());
}

#[test]
fn unreadable_config_is_reported() {
    let error = ConfigFile::from_source(CONFIG_PATH, ConfigSource::Unreadable("permission denied".to_string()))
        .expect_err("unreadable");
    assert_eq!(error.issues, vec!["Failed to read config: permission denied"]);
    assert_eq!(error.path, CONFIG_PATH);
}

#[test]
fn documents_can_be_checked_without_parsing() {
    let doc = TomlValue::Table(vec![(
        "defaults".to_string(),
        TomlValue::Table(vec![
            ("ignore_directories".to_string(), TomlValue::Array(vec![TomlValue::String("vendor".to_string())])),
            ("strict".to_string(), TomlValue::Boolean(true)),
        ]),
    )]);
    let config = ConfigFile::from_document(CONFIG_PATH, Ok(doc)).expect("valid");
    assert!(config.defaults.strict);
    assert_eq!(config.defaults.ignore_directories, vec!["vendor"]);

    let error = ConfigFile::from_document(CONFIG_PATH, Ok(TomlValue::Integer(3))).expect_err("not a table");
    assert_eq!(error.issues, vec!["Config root must be a TOML table"]);

    let error = ConfigFile::from_document(CONFIG_PATH, Err("bad".to_string())).expect_err("parse error");
    assert_eq!(error.issues, vec!["Invalid TOML: bad"]);
}

#[test]
fn non_string_path_items_are_reported() {
    let doc = TomlValue::Table(vec![(
        "defaults".to_string(),
        TomlValue::Table(vec![
            ("target_files".to_string(), TomlValue::Array(vec![TomlValue::Datetime, TomlValue::String("a".to_string())])),
        ]),
    )]);
    let error = ConfigFile::from_document(CONFIG_PATH, Ok(doc)).expect_err("datetime item");
    assert_eq!(error.issues, vec!["`defaults.target_files` must contain only strings, got datetime"]);
}
