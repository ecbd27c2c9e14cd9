use envsentinel::cli::output::{format_outcome, OutputFormat};
use envsentinel::commands::{CommandOutcome, OutcomeKind};
use envsentinel::report::json::{escape_json, render as render_json};
use envsentinel::report::markdown::render as render_markdown;
use envsentinel::report::text::render as render_text;

#[test]
fn json_report_escapes_message_and_gives_exit_code() {
    let outcome = CommandOutcome::new(1, "line \"one\"\n\tback\\slash\r".to_string());
    assert_eq!(
        render_json(&outcome),
        "{\"message\":\"line \\\"one\\\"\\n\\tback\\\\slash\\r\",\"exit_code\":1}"
    );
    assert_eq!(escape_json("plain"), "plain");
    assert!(!escape_json("a\nb").contains('\n'));
}

#[test]
fn json_report_writes_negative_and_large_codes() {
    assert!(render_json(&CommandOutcome::new(-3, "x".to_string())).ends_with("\"exit_code\":-3}"));
    assert!(render_json(&CommandOutcome::new(i32::MIN, "x".to_string())).ends_with("\"exit_code\":-2147483648}"));
    assert!(render_json(&CommandOutcome::new(120, "x".to_string())).ends_with("\"exit_code\":120}"));
}

#[test]
fn markdown_and_text_reports() {
    let outcome = CommandOutcome::new(0, "body".to_string());
    assert_eq!(render_markdown(&outcome), "# EnvSentinel\n\nbody");
    assert_eq!(render_text(&outcome), "body");
}

#[test]
fn cli_output_formats() {
    let outcome = CommandOutcome::new(2, "say \"hi\"\nnow".to_string());
    assert_eq!(format_outcome(&outcome, OutputFormat::Text), "say \"hi\"\nnow");
    assert_eq!(
        format_outcome(&outcome, OutputFormat::Json),
        "{\"message\":\"say \\\"hi\\\"\\nnow\",\"exit_code\":2}"
    );
    assert_eq!(format_outcome(&outcome, OutputFormat::Json), render_json(&outcome));
    assert!(!format_outcome(&outcome, OutputFormat::Json).contains('\n'));
    assert_eq!(format_outcome(&outcome, OutputFormat::Markdown), "# EnvSentinel\n\nsay \"hi\"\nnow");
}

#[test]
fn outcome_constructors_set_kind_title_and_code() {
    let o = CommandOutcome::new(0, "m".to_string());
    assert_eq!((o.exit_code, o.kind, o.title.as_str(), o.summary.as_str()), (0, OutcomeKind::Success, "EnvSentinel", "m"));
    assert!(o.is_success());
    assert_eq!(CommandOutcome::new(1, String::new()).kind, OutcomeKind::Findings);
    assert_eq!(CommandOutcome::new(2, String::new()).kind, OutcomeKind::Error);
    assert_eq!(CommandOutcome::new(7, String::new()).kind, OutcomeKind::Error);
    let u = CommandOutcome::usage("help".to_string());
    assert_eq!((u.exit_code, u.kind, u.title.as_str()), (2, OutcomeKind::Usage, "Usage"));
    let e = CommandOutcome::error("T".to_string(), "bad".to_string());
    assert_eq!((e.exit_code, e.kind, e.message.as_str()), (2, OutcomeKind::Error, "bad"));
    let f = CommandOutcome::findings("T".to_string(), "some".to_string());
    assert_eq!((f.exit_code, f.kind), (1, OutcomeKind::Findings));
    assert!(!f.is_success());
    let s = CommandOutcome::success("T".to_string(), "ok".to_string())
        .with_section("Files".to_string(), vec!["a".to_string()]);
    assert_eq!(s.sections.len(), 1);
    assert_eq!(s.sections[0].heading, "Files");
    let s = s.with_sections(Vec::new());
    assert!(s.sections.is_empty());
}
