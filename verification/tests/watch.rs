use envsentinel::cli::args::CommandOptions;
use envsentinel::commands::{scan, validate, watch, CommandContext, CommandOutcome};
use envsentinel::config::file::ConfigSource;
use envsentinel::report::{json, markdown, text};

const ROOT: &str = "/tmp/envsentinel-watch";

fn read(path: &str) -> Result<String, String> {
    if path == format!("{}/.env.example", ROOT) {
        Ok("API_KEY=\nDATABASE_URL=\n".to_string())
    } else if path == format!("{}/.env", ROOT) {
        Ok("API_KEY=secret\nEXTRA=value\n".to_string())
    } else {
        Err("No such file or directory (os error 2)".to_string())
    }
}

#[test]
fn watch_cycle_combines_scan_and_validate_results() {
    let options = CommandOptions {
        root: Some(ROOT.to_string()),
        config: None,
        template: Some(".env.example".to_string()),
        targets: vec![".env".to_string()],
        strict: false,
    };

    let context = CommandContext::from_options(&options, "/", ConfigSource::Missing).expect("load context");
    let discovered = vec![format!("{}/.env", ROOT), format!("{}/.env.example", ROOT)];

    let scan_plan = scan::plan(&options, &context, &discovered).expect("scan plan");
    let template = scan_plan.template_path.as_ref().map(|p| read(p));
    let reads: Vec<_> = scan_plan.target_paths.iter().map(|p| read(p)).collect();
    let scan_outcome = scan::run(&options, &context, &discovered, &scan_plan, &template, &reads);

    let targets = validate::plan(&options, &context, &discovered).expect("validate plan");
    let reads: Vec<_> = targets.iter().map(|p| read(p)).collect();
    let validate_outcome = validate::run(&context, &targets, &reads);

    let cycle = watch::build_cycle_outcome(&context, &scan_outcome, &validate_outcome);

    assert_eq!(cycle.exit_code, 1);
    assert!(cycle.message.contains("[scan]"));
    assert!(cycle.message.contains("[validate]"));
    assert!(cycle.message.contains("Missing: DATABASE_URL"));
    assert!(cycle.message.contains("Extra: EXTRA"));
}

#[test]
fn watch_startup_banner_renders_through_shared_output_formats() {
    let options = CommandOptions {
        root: Some(ROOT.to_string()),
        config: None,
        template: None,
        targets: Vec::new(),
        strict: false,
    };

    let context = CommandContext::from_options(&options, "/", ConfigSource::Missing).expect("load context");
    let startup = watch::startup_outcome(&context);

    let text_output = text::render(&startup);
    let markdown_output = markdown::render(&startup);
    let json_output = json::render(&startup);

    assert!(text_output.contains("Watching"));
    assert!(text_output.contains("Press Ctrl+C to stop."));
    assert!(markdown_output.starts_with("# EnvSentinel"));
    assert!(markdown_output.contains("Watching"));
    assert!(json_output.contains("\"message\":"));
    assert!(json_output.contains("Watching"));
}

#[test]
fn startup_banner_names_root_and_interval() {
    let options = CommandOptions::default();
    let context = CommandContext::from_options(&options, "/srv/app", ConfigSource::Missing).expect("context");
    let startup = watch::startup_outcome(&context);
    assert_eq!(startup.exit_code, 0);
    assert_eq!(startup.message, "Watching /srv/app for env file changes every 2s. Press Ctrl+C to stop.");
}

#[test]
fn cycle_exit_code_is_the_worse_of_the_two() {
    let context = CommandContext::from_options(&CommandOptions::default(), "/r", ConfigSource::Missing).expect("context");
    for (a, b, expected) in [(0, 0, 0), (0, 1, 1), (1, 0, 1), (2, 1, 2), (1, 2, 2), (2, 0, 2)] {
        let s = CommandOutcome::new(a, "s".to_string());
        let v = CommandOutcome::new(b, "v".to_string());
        let cycle = watch::build_cycle_outcome(&context, &s, &v);
        assert_eq!(cycle.exit_code, expected);
        assert_eq!(cycle.message, "Watch cycle for /r\n\n[scan]\ns\n\n[validate]\nv");
    }
}

#[test]
fn a_cycle_is_rendered_only_when_its_report_changes() {
    let cycle = CommandOutcome::new(0, "same".to_string());
    assert!(!watch::should_render(&cycle, &"same".to_string()));
    assert!(watch::should_render(&cycle, &String::new()));
}
