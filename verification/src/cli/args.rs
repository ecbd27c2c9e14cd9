//! Command-line arguments: a command word, output flags and options.
use vstd::prelude::*;

use super::output::OutputFormat;
use crate::util::text;

verus! {

#[derive(Debug, Clone, Copy, PartialEq, Eq, Structural)]
pub enum CommandName {
    Scan,
    Diff,
    Validate,
    Init,
    Watch,
    Help,
}

#[derive(Debug, Clone, PartialEq, Eq)]
pub struct ParsedArgs {
    pub command: CliCommand,
    pub output_format: OutputFormat,
}

#[derive(Debug, Clone, PartialEq, Eq)]
pub enum CliCommand {
    Scan(CommandOptions),
    Diff(CommandOptions),
    Validate(CommandOptions),
    Init(CommandOptions),
    Watch(CommandOptions),
    Help,
}

#[derive(Debug, Clone, PartialEq, Eq)]
pub struct CommandOptions {
    pub root: Option<String>,
    pub config: Option<String>,
    pub template: Option<String>,
    pub targets: Vec<String>,
    pub strict: bool,
}

/// Mathematical picture of [`CommandOptions`].
pub struct OptionsView {
    pub root: Option<Seq<char>>,
    pub config: Option<Seq<char>>,
    pub template: Option<Seq<char>>,
    pub targets: Seq<Seq<char>>,
    pub strict: bool,
}

impl View for CommandOptions {
    type V = OptionsView;

    open spec fn view(&self) -> OptionsView {
        OptionsView {
            root: self.root.deep_view(),
            config: self.config.deep_view(),
            template: self.template.deep_view(),
            targets: self.targets.deep_view(),
            strict: self.strict,
        }
    }
}

/// No options given.
pub open spec fn no_options() -> OptionsView {
    OptionsView { root: None, config: None, template: None, targets: Seq::empty(), strict: false }
}

impl Default for CommandOptions {
    fn default() -> (o: Self)
        ensures
            o@ == no_options(),
    {
        let o = CommandOptions { root: None, config: None, template: None, targets: Vec::new(), strict: false };
        assert(o@.targets =~= Seq::<Seq<char>>::empty());
        o
    }
}

/// Mathematical picture of [`ParsedArgs`]: the command, its options (none for
/// help) and the output format.
pub struct ParsedView {
    pub command: CommandName,
    pub options: Option<OptionsView>,
    pub output_format: OutputFormat,
}

pub open spec fn command_view(c: CliCommand) -> (CommandName, Option<OptionsView>) {
    match c {
        CliCommand::Scan(o) => (CommandName::Scan, Some(o@)),
        CliCommand::Diff(o) => (CommandName::Diff, Some(o@)),
        CliCommand::Validate(o) => (CommandName::Validate, Some(o@)),
        CliCommand::Init(o) => (CommandName::Init, Some(o@)),
        CliCommand::Watch(o) => (CommandName::Watch, Some(o@)),
        CliCommand::Help => (CommandName::Help, None),
    }
}

impl View for ParsedArgs {
    type V = ParsedView;

    open spec fn view(&self) -> ParsedView {
        ParsedView {
            command: command_view(self.command).0,
            options: command_view(self.command).1,
            output_format: self.output_format,
        }
    }
}

/// What has been read of the arguments so far.
pub struct ArgState {
    pub name: CommandName,
    pub format: OutputFormat,
    pub options: OptionsView,
}

pub open spec fn is_flag(a: Seq<char>) -> bool {
    a.len() >= 2 && a[0] == '-' && a[1] == '-'
}

/// Reads `args[i..]` on top of `st`. Command words select the command (the
/// last one wins), `--json`/`--markdown` the output format, `--strict` strict
/// mode; `--root`, `--config`, `--template` and `--target` take the next
/// argument as their value (when there is one); any other argument that is not
/// a flag is a target once a command has been named.
pub open spec fn parse_from(args: Seq<Seq<char>>, i: int, st: ArgState) -> ArgState
    decreases args.len() - i,
{
    if i < 0 || i >= args.len() {
        st
    } else {
        let a = args[i];
        let o = st.options;
        if a == "scan"@ {
            parse_from(args, i + 1, ArgState { name: CommandName::Scan, ..st })
        } else if a == "diff"@ {
            parse_from(args, i + 1, ArgState { name: CommandName::Diff, ..st })
        } else if a == "validate"@ {
            parse_from(args, i + 1, ArgState { name: CommandName::Validate, ..st })
        } else if a == "init"@ {
            parse_from(args, i + 1, ArgState { name: CommandName::Init, ..st })
        } else if a == "watch"@ {
            parse_from(args, i + 1, ArgState { name: CommandName::Watch, ..st })
        } else if a == "--json"@ {
            parse_from(args, i + 1, ArgState { format: OutputFormat::Json, ..st })
        } else if a == "--markdown"@ {
            parse_from(args, i + 1, ArgState { format: OutputFormat::Markdown, ..st })
        } else if a == "--strict"@ {
            parse_from(args, i + 1, ArgState { options: OptionsView { strict: true, ..o }, ..st })
        } else if a == "--root"@ || a == "--config"@ || a == "--template"@ || a == "--target"@ {
            if i + 1 < args.len() {
                let v = args[i + 1];
                let o2 = if a == "--root"@ {
                    OptionsView { root: Some(v), ..o }
                } else if a == "--config"@ {
                    OptionsView { config: Some(v), ..o }
                } else if a == "--template"@ {
                    OptionsView { template: Some(v), ..o }
                } else {
                    OptionsView { targets: o.targets.push(v), ..o }
                };
                parse_from(args, i + 2, ArgState { options: o2, ..st })
            } else {
                parse_from(args, i + 1, st)
            }
        } else if !is_flag(a) && st.name != CommandName::Help {
            parse_from(args, i + 1, ArgState { options: OptionsView { targets: o.targets.push(a), ..o }, ..st })
        } else {
            parse_from(args, i + 1, st)
        }
    }
}

/// The parsed command line: no arguments at all means help in text form.
pub open spec fn parse_spec(args: Seq<Seq<char>>) -> ParsedView {
    let st = parse_from(
        args,
        0,
        ArgState { name: CommandName::Help, format: OutputFormat::Text, options: no_options() },
    );
    ParsedView {
        command: st.name,
        options: if st.name == CommandName::Help {
            None
        } else {
            Some(st.options)
        },
        output_format: st.format,
    }
}

fn push_target(options: &mut CommandOptions, value: String)
    ensures
        final(options)@ == (OptionsView { targets: old(options)@.targets.push(value@), ..old(options)@ }),
{
    let ghost before = options.targets.deep_view();
    options.targets.push(value);
    assert(options.targets.deep_view() =~= before.push(value@));
}

/// Parses the program arguments (without the program name).
pub fn parse(args: Vec<String>) -> (parsed: ParsedArgs)
    ensures
        parsed@ == parse_spec(args.deep_view()),
{
    let ghost all = args.deep_view();
    if args.len() == 0 {
        return ParsedArgs { command: CliCommand::Help, output_format: OutputFormat::Text };
    }
    let mut output_format = OutputFormat::Text;
    let mut command_name = CommandName::Help;
    let mut options = CommandOptions::default();
    let mut index: usize = 0;
    while index < args.len()
        invariant
            all == args.deep_view(),
            index <= args.len(),
            parse_spec(all).command == parse_from(
                all,
                index as int,
                ArgState { name: command_name, format: output_format, options: options@ },
            ).name,
            parse_spec(all).output_format == parse_from(
                all,
                index as int,
                ArgState { name: command_name, format: output_format, options: options@ },
            ).format,
            parse_spec(all).options == (if parse_spec(all).command == CommandName::Help {
                None
            } else {
                Some(
                    parse_from(
                        all,
                        index as int,
                        ArgState { name: command_name, format: output_format, options: options@ },
                    ).options,
                )
            }),
        decreases args.len() - index,
    {
        let argument = &args[index];
        let ghost a = all[index as int];
        assert(argument@ == a);
        let has_next = index + 1 < args.len();
        if *argument == text("scan") {
            command_name = CommandName::Scan;
        } else if *argument == text("diff") {
            command_name = CommandName::Diff;
        } else if *argument == text("validate") {
            command_name = CommandName::Validate;
        } else if *argument == text("init") {
            command_name = CommandName::Init;
        } else if *argument == text("watch") {
            command_name = CommandName::Watch;
        } else if *argument == text("--json") {
            output_format = OutputFormat::Json;
        } else if *argument == text("--markdown") {
            output_format = OutputFormat::Markdown;
        } else if *argument == text("--strict") {
            options.strict = true;
        } else if *argument == text("--root") {
            if has_next {
                options.root = Some(args[index + 1].clone());
                index += 1;
            }
        } else if *argument == text("--config") {
            if has_next {
                options.config = Some(args[index + 1].clone());
                index += 1;
            }
        } else if *argument == text("--template") {
            if has_next {
                options.template = Some(args[index + 1].clone());
                index += 1;
            }
        } else if *argument == text("--target") {
            if has_next {
                push_target(&mut options, args[index + 1].clone());
                index += 1;
            }
        } else {
            let chars = crate::util::chars_of(argument.as_str());
            let flag = chars.len() >= 2 && chars[0] == '-' && chars[1] == '-';
            if !flag && command_name != CommandName::Help {
                push_target(&mut options, argument.clone());
            }
        }
        index += 1;
    }
    let command = match command_name {
        CommandName::Scan => CliCommand::Scan(options),
        CommandName::Diff => CliCommand::Diff(options),
        CommandName::Validate => CliCommand::Validate(options),
        CommandName::Init => CliCommand::Init(options),
        CommandName::Watch => CliCommand::Watch(options),
        CommandName::Help => CliCommand::Help,
    };
    ParsedArgs { command, output_format }
}

} // verus!
