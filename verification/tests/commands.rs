use envsentinel::cli::args::CommandOptions;
use envsentinel::commands::init::{check_target, generate, plan, refuse_existing, template_text, write_failed};
use envsentinel::commands::{
    format_list, format_paths, load_env_file, preferred_template_name, resolve_config_path, resolve_path,
    resolve_root, section, CommandContext,
};
use envsentinel::config::file::ConfigSource;
use envsentinel::env::parser::parse_file;

fn strings(items: &[&str]) -> Vec<String> {
    items.iter().map(|s| s.to_string()).collect()
}

#[test]
fn lists_are_comma_separated_or_none() {
    assert_eq!(format_list(&Vec::new()), "none");
    assert_eq!(format_list(&strings(&["a", "b"])), "a, b");
    assert_eq!(format_paths(&strings(&["/x"])), "/x");
}

#[test]
fn roots_and_paths_resolve_against_the_working_directory() {
    let mut options = CommandOptions::default();
    assert_eq!(resolve_root(&options, "/work"), "/work");
    options.root = Some("proj".to_string());
    assert_eq!(resolve_root(&options, "/work"), "/work/proj");
    options.root = Some("/abs".to_string());
    assert_eq!(resolve_root(&options, "/work"), "/abs");
    assert_eq!(resolve_config_path(&options, "/abs"), "/abs/config/envsentinel.toml");
    options.config = Some("my.toml".to_string());
    assert_eq!(resolve_config_path(&options, "/abs"), "/abs/my.toml");
    assert_eq!(resolve_path("/abs", "/etc/x"), "/etc/x");
}

#[test]
fn template_names_are_recognised() {
    assert!(preferred_template_name("/p/.env.example"));
    assert!(preferred_template_name(".env.sample"));
    assert!(preferred_template_name("x/.env.template"));
    assert!(!preferred_template_name("/p/.env"));
    assert!(!preferred_template_name("/p/.env.example/.."));
}

#[test]
fn context_reports_config_errors_as_text() {
    let options = CommandOptions::default();
    let err = CommandContext::from_options(&options, "/w", ConfigSource::Text("[other]\n".to_string()))
        .expect_err("config error");
    assert_eq!(err, "/w/config/envsentinel.toml: Unknown top-level key `other`; Missing [defaults] table");
    let ok = CommandContext::from_options(
        &options,
        "/w",
        ConfigSource::Text("[defaults]\ntemplate_file = \"tpl\"\n".to_string()),
    )
    .expect("context");
    assert_eq!(ok.config.defaults.template_file, Some("tpl".to_string()));
    assert_eq!(ok.config_path, "/w/config/envsentinel.toml");
}

#[test]
fn unreadable_env_file_error_names_the_path() {
    let err = load_env_file("/p/.env", &Err("denied".to_string())).expect_err("unreadable");
    assert_eq!(err, "/p/.env: denied");
    let ok = load_env_file("/p/.env", &Ok("A=1".to_string())).expect("parsed");
    assert_eq!(ok.key_names(), vec!["A"]);
    let s = section("H".to_string(), strings(&["l"]));
    assert_eq!(s.heading, "H");
}

#[test]
fn init_writes_each_key_with_an_empty_value() {
    let source = parse_file("/p/.env", "A=1\n# c\nexport B=two\nC=\n");
    assert_eq!(template_text(&source), "A=\nB=\nC=\n");
    assert_eq!(template_text(&parse_file("/p/.env", "")), "");
}

#[test]
fn template_reads_back_as_the_same_keys() {
    let source = parse_file("/p/.env", "API_KEY=abc\nDEBUG=true\nNAME=\"x y\"\n");
    let back = parse_file("/p/.env.example", &template_text(&source));
    assert_eq!(back.key_names(), source.key_names());
}

#[test]
fn init_plan_and_generation() {
    let options = CommandOptions::default();
    let ctx = CommandContext::from_options(&options, "/p", ConfigSource::Missing).expect("context");

    let stop = plan(&options, &ctx, false, &Vec::new()).err().expect("no source");
    assert_eq!(stop.exit_code, 2);
    assert_eq!(stop.message, "No source .env file found at /p/.env. Create one before running init.");

    let found = plan(&options, &ctx, false, &strings(&["/p/sub/.env.local", "/p/sub/.env"])).ok().expect("plan");
    assert_eq!(found.source_path, "/p/sub/.env");
    assert_eq!(found.target_path, "/p/.env.example");

    let p = plan(&options, &ctx, true, &Vec::new()).ok().expect("plan");
    assert_eq!(p.source_path, "/p/.env");

    let (contents, message) = generate(&p, &Ok("A=1\nB=\n".to_string())).ok().expect("generated");
    assert_eq!(contents, "A=\nB=\n");
    assert_eq!(message, "Generated /p/.env.example from /p/.env using 2 key(s). Warnings: Empty value for key: B");

    let refused = generate(&p, &Ok("A=1\nA=2\n".to_string())).err().expect("errors");
    assert_eq!(refused.exit_code, 1);
    assert_eq!(refused.message, "/p/.env has validation errors: Duplicate key: A");

    let unreadable = generate(&p, &Err("gone".to_string())).err().expect("unreadable");
    assert_eq!(unreadable.message, "/p/.env: gone");

    assert!(check_target(&p, false).is_ok());
    let existing = check_target(&p, true).err().expect("refused");
    assert_eq!(existing.exit_code, 1);
    assert_eq!(existing.message, "/p/.env.example already exists; refusing to overwrite.");

    assert_eq!(refuse_existing("/p/.env.example").message, "/p/.env.example already exists; refusing to overwrite.");
    assert_eq!(write_failed("/p/x", "disk full").message, "/p/x: disk full");
}
