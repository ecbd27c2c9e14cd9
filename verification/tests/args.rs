use envsentinel::cli::args::{parse, CliCommand, CommandOptions, ParsedArgs};
use envsentinel::cli::output::OutputFormat;

fn args(items: &[&str]) -> Vec<String> {
    items.iter().map(|s| s.to_string()).collect()
}

#[test]
fn no_arguments_mean_help_in_text() {
    assert_eq!(parse(Vec::new()), ParsedArgs { command: CliCommand::Help, output_format: OutputFormat::Text });
}

#[test]
fn options_flags_and_positional_targets() {
    let parsed = parse(args(&[
        "--json", "diff", "--root", "r", "--config", "c.toml", "--template", "t", "--target", "a", "b", "--strict",
        "--unknown",
    ]));
    assert_eq!(parsed.output_format, OutputFormat::Json);
    assert_eq!(
        parsed.command,
        CliCommand::Diff(CommandOptions {
            root: Some("r".to_string()),
            config: Some("c.toml".to_string()),
            template: Some("t".to_string()),
            targets: args(&["a", "b"]),
            strict: true,
        })
    );
}

#[test]
fn last_command_word_and_format_win() {
    let parsed = parse(args(&["scan", "validate", "--markdown", "--json", "--markdown"]));
    assert_eq!(parsed.output_format, OutputFormat::Markdown);
    assert_eq!(parsed.command, CliCommand::Validate(CommandOptions::default()));
}

#[test]
fn positional_before_command_is_dropped_and_option_values_are_not_commands() {
    let parsed = parse(args(&["early", "init", "--target", "scan", "--root"]));
    let mut expected = CommandOptions::default();
    expected.targets = args(&["scan"]);
    assert_eq!(parsed.command, CliCommand::Init(expected));
}

#[test]
fn unknown_words_alone_give_help() {
    assert_eq!(parse(args(&["frobnicate"])).command, CliCommand::Help);
    assert!(matches!(parse(args(&["watch"])).command, CliCommand::Watch(_)));
}
