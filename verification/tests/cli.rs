use envsentinel::cli::args::{parse, CliCommand, CommandOptions};
use envsentinel::cli::output::format_outcome;
use envsentinel::commands::{diff, scan, validate, CommandContext, CommandOutcome};
use envsentinel::config::file::ConfigSource;
use envsentinel::env::scanner::select_candidates;
use envsentinel::fs::paths::paths_equal;

/// A project tree held in memory: paths relative to the root and their text.
struct Project {
    root: &'static str,
    files: Vec<(&'static str, &'static str)>,
}

impl Project {
    fn read(&self, path: &str) -> Result<String, String> {
        for (rel, text) in &self.files {
            if paths_equal(&format!("{}/{}", self.root, rel), path) {
                return Ok(text.to_string());
            }
        }
        Err("No such file or directory (os error 2)".to_string())
    }

    fn discovered(&self, context: &CommandContext) -> Vec<String> {
        let entries: Vec<String> = self.files.iter().map(|(rel, _)| rel.to_string()).collect();
        select_candidates(&context.root, &entries, &context.config.defaults.ignore_directories)
    }
}

fn context(project: &Project, options: &CommandOptions) -> CommandContext {
    let ctx = CommandContext::from_options(options, "/work", ConfigSource::Missing).expect("context");
    assert_eq!(ctx.root, project.root);
    ctx
}

fn run_cli(project: &Project, args: &[&str]) -> (i32, String) {
    let parsed = parse(args.iter().map(|a| a.to_string()).collect());
    let outcome = match parsed.command {
        CliCommand::Scan(options) => {
            let ctx = context(project, &options);
            let discovered = project.discovered(&ctx);
            match scan::plan(&options, &ctx, &discovered) {
                Err(outcome) => outcome,
                Ok(plan) => {
                    let template = plan.template_path.as_ref().map(|p| project.read(p));
                    let reads: Vec<_> = plan.target_paths.iter().map(|p| project.read(p)).collect();
                    scan::run(&options, &ctx, &discovered, &plan, &template, &reads)
                }
            }
        }
        CliCommand::Diff(options) => {
            let ctx = context(project, &options);
            let discovered = project.discovered(&ctx);
            match diff::plan(&options, &ctx, &discovered) {
                Err(outcome) => outcome,
                Ok(plan) => {
                    let template = project.read(&plan.template_path);
                    let reads: Vec<_> = plan.target_paths.iter().map(|p| project.read(p)).collect();
                    diff::run(&options, &ctx, &plan, &template, &reads)
                }
            }
        }
        CliCommand::Validate(options) => {
            let ctx = context(project, &options);
            let discovered = project.discovered(&ctx);
            match validate::plan(&options, &ctx, &discovered) {
                Err(outcome) => outcome,
                Ok(targets) => {
                    let reads: Vec<_> = targets.iter().map(|p| project.read(p)).collect();
                    validate::run(&ctx, &targets, &reads)
                }
            }
        }
        _ => CommandOutcome::usage("usage".to_string()),
    };
    (outcome.exit_code, format_outcome(&outcome, parsed.output_format))
}

#[test]
fn scan_reports_no_drift_and_exits_successfully() {
    let project = Project {
        root: "/tmp/envsentinel-scan",
        files: vec![
            (".env.example", "API_KEY=\nDEBUG=\n"),
            (".env", "API_KEY=secret\nDEBUG=true\n"),
            (".env.local", "API_KEY=secret\nDEBUG=true\n"),
        ],
    };

    let (exit_code, stdout) = run_cli(&project, &["scan", "--root", project.root]);

    assert_eq!(exit_code, 0);
    assert!(stdout.contains("Template:"));
    assert!(stdout.contains("Drift: none"));
}

#[test]
fn scan_never_compares_the_template_with_itself_however_its_path_is_spelled() {
    let project = Project {
        root: "/tmp/envsentinel-spelling",
        files: vec![(".env.example", "API_KEY=\nDEBUG=\n"), (".env", "API_KEY=secret\nDEBUG=true\n")],
    };

    let (exit_code, stdout) =
        run_cli(&project, &["scan", "--root", project.root, "--template", "./.env.example"]);

    assert_eq!(exit_code, 0);
    assert!(stdout.contains("Drift: none"));
    assert!(!stdout.contains("Empty"));
}

#[test]
fn validate_exits_with_ci_failure_on_malformed_env() {
    let project = Project {
        root: "/tmp/envsentinel-validate",
        files: vec![("bad.env", "GOOD=value\nGOOD=second\nBROKEN_LINE\n")],
    };

    let (exit_code, stdout) = run_cli(&project, &["validate", "--root", project.root, "--target", "bad.env"]);

    assert_eq!(exit_code, 1);
    assert!(stdout.contains("Errors:"));
    assert!(stdout.contains("Duplicate key: GOOD"));
    assert!(stdout.contains("Malformed env line: BROKEN_LINE"));
}

#[test]
fn diff_reports_missing_and_extra_keys_with_failure_exit_code() {
    let project = Project {
        root: "/tmp/envsentinel-diff",
        files: vec![
            (".env.example", "API_KEY=\nDATABASE_URL=\n"),
            (".env", "API_KEY=secret\nEXTRA_KEY=value\n"),
        ],
    };

    let (exit_code, stdout) = run_cli(
        &project,
        &["diff", "--root", project.root, "--template", ".env.example", "--target", ".env"],
    );

    assert_eq!(exit_code, 1);
    assert!(stdout.contains("Missing: DATABASE_URL"));
    assert!(stdout.contains("Extra: EXTRA_KEY"));
}

#[test]
fn validate_can_render_json_output_for_ci_automation() {
    let project = Project {
        root: "/tmp/envsentinel-json",
        files: vec![("bad.env", "GOOD=value\nGOOD=second\nBROKEN_LINE\n")],
    };

    let (exit_code, stdout) =
        run_cli(&project, &["validate", "--json", "--root", project.root, "--target", "bad.env"]);

    let rendered = stdout.trim();

    assert_eq!(exit_code, 1);
    assert!(rendered.starts_with('{'));
    assert!(rendered.contains("\"exit_code\":1"));
    assert!(rendered.contains("Duplicate key: GOOD"));
    assert!(!rendered.contains('\n'));
    assert!(rendered.contains("\\n"));
}

#[test]
fn scan_can_render_markdown_output() {
    let project = Project {
        root: "/tmp/envsentinel-markdown",
        files: vec![(".env.example", "API_KEY=\nDEBUG=\n"), (".env", "API_KEY=secret\nDEBUG=true\n")],
    };

    let (exit_code, stdout) = run_cli(&project, &["scan", "--markdown", "--root", project.root]);

    let rendered = stdout.trim();

    assert_eq!(exit_code, 0);
    assert!(rendered.starts_with("# EnvSentinel"));
    assert!(rendered.contains("Drift: none"));
}

#[test]
fn diff_report_lists_template_and_each_target() {
    let project = Project {
        root: "/p",
        files: vec![(".env.example", "A=\nB=\n"), (".env", "A=1\nB=\n"), (".env.local", "A=1\nB=2\nC=3\n")],
    };
    let (exit_code, stdout) = run_cli(&project, &["diff", "--root", "/p"]);
    assert_eq!(exit_code, 1);
    assert_eq!(
        stdout,
        "Template: /p/.env.example\n\nTarget: /p/.env\nEmpty values: B\n\nTarget: /p/.env.local\nExtra: C"
    );
}

#[test]
fn extra_keys_fail_only_in_strict_mode() {
    let project = Project {
        root: "/p",
        files: vec![(".env.example", "A=\n"), (".env", "A=1\nC=3\n")],
    };
    assert_eq!(run_cli(&project, &["diff", "--root", "/p"]).0, 0);
    assert_eq!(run_cli(&project, &["diff", "--root", "/p", "--strict"]).0, 1);
}

#[test]
fn diff_without_template_is_a_usage_error() {
    let project = Project { root: "/p", files: vec![(".env", "A=1\n")] };
    let (exit_code, stdout) = run_cli(&project, &["diff", "--root", "/p"]);
    assert_eq!(exit_code, 2);
    assert_eq!(stdout, "No template env file found under /p. Provide --template or create .env.example.");
}

#[test]
fn diff_reports_unreadable_target() {
    let project = Project { root: "/p", files: vec![(".env.example", "A=\n")] };
    let (exit_code, stdout) = run_cli(&project, &["diff", "--root", "/p", "--target", "missing.env"]);
    assert_eq!(exit_code, 1);
    assert!(stdout.contains("Error: /p/missing.env: No such file or directory (os error 2)"));
}

#[test]
fn validate_without_env_files_is_a_usage_error() {
    let project = Project { root: "/p", files: vec![("README.md", "x")] };
    let (exit_code, stdout) = run_cli(&project, &["validate", "--root", "/p"]);
    assert_eq!(exit_code, 2);
    assert_eq!(stdout, "No env files found under /p. Provide explicit targets or add .env files.");
}

#[test]
fn validate_reports_ok_and_warnings() {
    let project = Project {
        root: "/p",
        files: vec![(".env", "A=1\n"), (".env.local", "B=\n")],
    };
    let (exit_code, stdout) = run_cli(&project, &["validate", "--root", "/p"]);
    assert_eq!(exit_code, 0);
    assert_eq!(stdout, "Root: /p\n\nFile: /p/.env\nOK\n\nFile: /p/.env.local\nWarnings: Empty value for key: B");
}

#[test]
fn scan_without_targets_reports_header_and_stops() {
    let project = Project { root: "/p", files: vec![(".env.example", "A=\n")] };
    let (exit_code, stdout) = run_cli(&project, &["scan", "--root", "/p"]);
    assert_eq!(exit_code, 2);
    assert_eq!(
        stdout,
        "Root: /p\nConfig: /p/config/envsentinel.toml\nDiscovered env files: 1\nTemplate: /p/.env.example\nNo target env files found."
    );
}

#[test]
fn scan_skips_ignored_directories() {
    let project = Project {
        root: "/p",
        files: vec![(".env.example", "A=\n"), (".env", "A=1\n"), ("node_modules/pkg/.env", "X=1\n")],
    };
    let (exit_code, stdout) = run_cli(&project, &["scan", "--root", "/p"]);
    assert_eq!(exit_code, 0);
    assert!(stdout.contains("Discovered env files: 2"));
    assert!(!stdout.contains("node_modules"));
}
