//! What the commands share: outcomes, path resolution against the project
//! root, list formatting and the command context.
use vstd::prelude::*;

use crate::cli::args::CommandOptions;
use crate::config::file::{ConfigFile, ConfigFileView, ConfigSource, config_from_source};
use crate::env::compare::{ComparisonView, compare, compare_spec};
use crate::env::model::{EnvFile, EnvFileView};
use crate::env::validate::{ValidationResult, ValidationView};
use crate::env::parser::{parse_file, parse_file_spec};
use crate::fs::paths::{file_name, file_name_spec, join_path, join_spec, paths_equal, same_path};
use crate::util::{concat2, concat3, join, join_strings, text};

pub mod diff;
pub mod init;
pub mod scan;
pub mod validate;
pub mod watch;

verus! {

#[derive(Debug, Clone, Copy, PartialEq, Eq, Structural)]
pub enum OutcomeKind {
    Success,
    Findings,
    Error,
    Usage,
}

#[derive(Debug, Clone, PartialEq, Eq)]
pub struct ReportSection {
    pub heading: String,
    pub lines: Vec<String>,
}

/// Mathematical picture of a [`ReportSection`].
pub struct SectionView {
    pub heading: Seq<char>,
    pub lines: Seq<Seq<char>>,
}

impl View for ReportSection {
    type V = SectionView;

    open spec fn view(&self) -> SectionView {
        SectionView { heading: self.heading@, lines: self.lines.deep_view() }
    }
}

impl ReportSection {
    pub fn new(heading: String, lines: Vec<String>) -> (s: Self)
        ensures
            s.heading == heading,
            s.lines == lines,
    {
        ReportSection { heading, lines }
    }
}

#[derive(Debug, Clone)]
pub struct CommandContext {
    pub root: String,
    pub config_path: String,
    pub config: ConfigFile,
}

#[derive(Debug, Clone, PartialEq, Eq)]
pub struct CommandOutcome {
    pub exit_code: i32,
    pub kind: OutcomeKind,
    pub title: String,
    pub summary: String,
    pub sections: Vec<ReportSection>,
    pub message: String,
}

/// Mathematical picture of a [`CommandOutcome`].
pub struct OutcomeView {
    pub exit_code: i32,
    pub kind: OutcomeKind,
    pub title: Seq<char>,
    pub summary: Seq<char>,
    pub sections: Seq<SectionView>,
    pub message: Seq<char>,
}

impl View for CommandOutcome {
    type V = OutcomeView;

    open spec fn view(&self) -> OutcomeView {
        OutcomeView {
            exit_code: self.exit_code,
            kind: self.kind,
            title: self.title@,
            summary: self.summary@,
            sections: self.sections@.map_values(|s: ReportSection| s@),
            message: self.message@,
        }
    }
}

/// The kind an exit code stands for: 0 success, 1 findings, anything else an error.
pub open spec fn kind_for_code(exit_code: i32) -> OutcomeKind {
    if exit_code == 0 {
        OutcomeKind::Success
    } else if exit_code == 1 {
        OutcomeKind::Findings
    } else {
        OutcomeKind::Error
    }
}

/// An outcome with a message and no sections.
pub open spec fn outcome_spec(exit_code: i32, kind: OutcomeKind, title: Seq<char>, message: Seq<char>) -> OutcomeView {
    OutcomeView { exit_code, kind, title, summary: message, sections: Seq::empty(), message }
}

/// The outcome `CommandOutcome::new` gives: titled `EnvSentinel`, its kind read off the exit code.
pub open spec fn outcome_for(exit_code: i32, message: Seq<char>) -> OutcomeView {
    outcome_spec(exit_code, kind_for_code(exit_code), "EnvSentinel"@, message)
}

fn plain_outcome(exit_code: i32, kind: OutcomeKind, title: String, summary: String) -> (o: CommandOutcome)
    ensures
        o@ == outcome_spec(exit_code, kind, title@, summary@),
{
    let o = CommandOutcome {
        exit_code,
        kind,
        title,
        summary: summary.clone(),
        sections: Vec::new(),
        message: summary,
    };
    assert(o@.sections =~= Seq::<SectionView>::empty());
    o
}

impl CommandOutcome {
    /// An outcome titled `EnvSentinel` whose kind follows the exit code.
    pub fn new(exit_code: i32, message: String) -> (o: Self)
        ensures
            o@ == outcome_for(exit_code, message@),
    {
        let kind = if exit_code == 0 {
            OutcomeKind::Success
        } else if exit_code == 1 {
            OutcomeKind::Findings
        } else {
            OutcomeKind::Error
        };
        plain_outcome(exit_code, kind, text("EnvSentinel"), message)
    }

    pub fn success(title: String, summary: String) -> (o: Self)
        ensures
            o@ == outcome_spec(0, OutcomeKind::Success, title@, summary@),
    {
        plain_outcome(0, OutcomeKind::Success, title, summary)
    }

    pub fn findings(title: String, summary: String) -> (o: Self)
        ensures
            o@ == outcome_spec(1, OutcomeKind::Findings, title@, summary@),
    {
        plain_outcome(1, OutcomeKind::Findings, title, summary)
    }

    pub fn error(title: String, summary: String) -> (o: Self)
        ensures
            o@ == outcome_spec(2, OutcomeKind::Error, title@, summary@),
    {
        plain_outcome(2, OutcomeKind::Error, title, summary)
    }

    pub fn usage(summary: String) -> (o: Self)
        ensures
            o@ == outcome_spec(2, OutcomeKind::Usage, "Usage"@, summary@),
    {
        plain_outcome(2, OutcomeKind::Usage, text("Usage"), summary)
    }

    /// The outcome with one more section at the end.
    pub fn with_section(self, heading: String, lines: Vec<String>) -> (o: Self)
        ensures
            o@ == (OutcomeView {
                sections: self@.sections.push(SectionView { heading: heading@, lines: lines.deep_view() }),
                ..self@
            }),
    {
        let mut o = self;
        let ghost before = o@.sections;
        let s = ReportSection::new(heading, lines);
        o.sections.push(s);
        assert(o@.sections =~= before.push(s@));
        o
    }

    /// The outcome with its sections replaced.
    pub fn with_sections(self, sections: Vec<ReportSection>) -> (o: Self)
        ensures
            o@ == (OutcomeView { sections: sections@.map_values(|s: ReportSection| s@), ..self@ }),
    {
        let mut o = self;
        o.sections = sections;
        o
    }

    pub fn is_success(&self) -> (b: bool)
        ensures
            b == (self.exit_code == 0),
    {
        self.exit_code == 0
    }
}

pub fn section(heading: String, lines: Vec<String>) -> (s: ReportSection)
    ensures
        s.heading == heading,
        s.lines == lines,
{
    ReportSection::new(heading, lines)
}

/// What reading a file gave, by views: its text or the read error's message.
pub open spec fn read_view(read: Result<String, String>) -> Result<Seq<char>, Seq<char>> {
    match read {
        Ok(c) => Ok(c@),
        Err(e) => Err(e@),
    }
}

pub open spec fn reads_view(reads: Seq<Result<String, String>>) -> Seq<Result<Seq<char>, Seq<char>>> {
    reads.map_values(|r: Result<String, String>| read_view(r))
}

/// The env file at `path` given what reading it gave; a read error is
/// reported after the path.
pub open spec fn load_spec(path: Seq<char>, read: Result<Seq<char>, Seq<char>>) -> Result<EnvFileView, Seq<char>> {
    match read {
        Ok(contents) => Ok(parse_file_spec(path, contents)),
        Err(e) => Err(path + ": "@ + e),
    }
}

pub open spec fn loaded_view(r: Result<EnvFile, String>) -> Result<EnvFileView, Seq<char>> {
    match r {
        Ok(f) => Ok(f@),
        Err(e) => Err(e@),
    }
}

/// Reads an env file from what reading `path` gave: its text, or the read
/// error's message, which is reported after the path.
pub fn load_env_file(path: &str, read: &Result<String, String>) -> (r: Result<EnvFile, String>)
    ensures
        loaded_view(r) == load_spec(path@, read_view(*read)),
{
    match read {
        Ok(contents) => Ok(parse_file(path, contents.as_str())),
        Err(error) => Err(concat3(path, ": ", error.as_str())),
    }
}

/// Appends a line to a report.
pub fn push_line(lines: &mut Vec<String>, line: String)
    ensures
        final(lines).deep_view() == old(lines).deep_view().push(line@),
{
    let ghost before = lines.deep_view();
    lines.push(line);
    assert(lines.deep_view() =~= before.push(line@));
}

/// The `Errors:` and `Warnings:` lines of a validation (each only when there
/// are any) and whether they fail the run (errors do).
pub open spec fn issue_lines(v: ValidationView) -> (Seq<Seq<char>>, bool) {
    let l1: Seq<Seq<char>> = if v.errors.len() > 0 {
        seq!["Errors: "@ + list_text(v.errors)]
    } else {
        Seq::empty()
    };
    let l2: Seq<Seq<char>> = if v.warnings.len() > 0 {
        seq!["Warnings: "@ + list_text(v.warnings)]
    } else {
        Seq::empty()
    };
    (l1 + l2, v.errors.len() > 0)
}

/// Appends the issue lines of validating `file`; true when they fail the run.
pub fn push_issues(lines: &mut Vec<String>, v: &ValidationResult) -> (failed: bool)
    ensures
        final(lines).deep_view() == old(lines).deep_view() + issue_lines(v@).0,
        failed == issue_lines(v@).1,
{
    let ghost l0 = lines.deep_view();
    if v.errors.len() > 0 {
        push_line(lines, concat2("Errors: ", format_list(&v.errors).as_str()));
    }
    let ghost l1 = lines.deep_view();
    if v.warnings.len() > 0 {
        push_line(lines, concat2("Warnings: ", format_list(&v.warnings).as_str()));
    }
    proof {
        let e: Seq<Seq<char>> = Seq::empty();
        let a: Seq<Seq<char>> = if v@.errors.len() > 0 {
            seq!["Errors: "@ + list_text(v@.errors)]
        } else {
            e
        };
        let b: Seq<Seq<char>> = if v@.warnings.len() > 0 {
            seq!["Warnings: "@ + list_text(v@.warnings)]
        } else {
            e
        };
        assert(l1 =~= l0 + a);
        assert(lines.deep_view() =~= l0 + (a + b));
    }
    v.errors.len() > 0
}

/// The drift lines of one comparison, and whether they fail the run: missing
/// keys and empty values always do, extra keys only in strict mode.
pub open spec fn drift_lines(c: ComparisonView, strict: bool, no_drift: Seq<char>) -> (Seq<Seq<char>>, bool) {
    if c.missing_keys.len() == 0 && c.extra_keys.len() == 0 && c.empty_values.len() == 0 {
        (seq![no_drift], false)
    } else {
        let l1: Seq<Seq<char>> = if c.missing_keys.len() > 0 {
            seq!["Missing: "@ + list_text(c.missing_keys)]
        } else {
            Seq::empty()
        };
        let l2: Seq<Seq<char>> = if c.extra_keys.len() > 0 {
            seq!["Extra: "@ + list_text(c.extra_keys)]
        } else {
            Seq::empty()
        };
        let l3: Seq<Seq<char>> = if c.empty_values.len() > 0 {
            seq!["Empty values: "@ + list_text(c.empty_values)]
        } else {
            Seq::empty()
        };
        (l1 + l2 + l3, c.missing_keys.len() > 0 || (strict && c.extra_keys.len() > 0) || c.empty_values.len() > 0)
    }
}

/// Appends the drift lines of `template` against `target`; true when they fail the run.
pub fn push_drift(lines: &mut Vec<String>, template: &EnvFile, target: &EnvFile, strict: bool, no_drift: &str) -> (failed:
    bool)
    ensures
        final(lines).deep_view() == old(lines).deep_view() + drift_lines(
            compare_spec(template@, target@),
            strict,
            no_drift@,
        ).0,
        failed == drift_lines(compare_spec(template@, target@), strict, no_drift@).1,
{
    let c = compare(template, target);
    let ghost l0 = lines.deep_view();
    if c.missing_keys.len() == 0 && c.extra_keys.len() == 0 && c.empty_values.len() == 0 {
        push_line(lines, text(no_drift));
        assert(lines.deep_view() =~= l0 + seq![no_drift@]);
        return false;
    }
    let mut failed = false;
    if c.missing_keys.len() > 0 {
        failed = true;
        push_line(lines, concat2("Missing: ", format_list(&c.missing_keys).as_str()));
    }
    let ghost l1 = lines.deep_view();
    if c.extra_keys.len() > 0 {
        if strict {
            failed = true;
        }
        push_line(lines, concat2("Extra: ", format_list(&c.extra_keys).as_str()));
    }
    let ghost l2 = lines.deep_view();
    if c.empty_values.len() > 0 {
        failed = true;
        push_line(lines, concat2("Empty values: ", format_list(&c.empty_values).as_str()));
    }
    proof {
        let d = drift_lines(c@, strict, no_drift@);
        let e: Seq<Seq<char>> = Seq::empty();
        let m: Seq<Seq<char>> = if c@.missing_keys.len() > 0 {
            seq!["Missing: "@ + list_text(c@.missing_keys)]
        } else {
            e
        };
        let x: Seq<Seq<char>> = if c@.extra_keys.len() > 0 {
            seq!["Extra: "@ + list_text(c@.extra_keys)]
        } else {
            e
        };
        let y: Seq<Seq<char>> = if c@.empty_values.len() > 0 {
            seq!["Empty values: "@ + list_text(c@.empty_values)]
        } else {
            e
        };
        assert(l1 =~= l0 + m);
        assert(l2 =~= l0 + m + x);
        assert(lines.deep_view() =~= l0 + (m + x + y));
    }
    failed
}

/// The project root: the `--root` option taken against the working directory,
/// or the working directory itself.
pub open spec fn root_spec(options: crate::cli::args::OptionsView, current_dir: Seq<char>) -> Seq<char> {
    match options.root {
        Some(p) => join_spec(current_dir, p),
        None => current_dir,
    }
}

pub fn resolve_root(options: &CommandOptions, current_dir: &str) -> (r: String)
    ensures
        r@ == root_spec(options@, current_dir@),
{
    match &options.root {
        Some(p) => join_path(current_dir, p.as_str()),
        None => text(current_dir),
    }
}

/// A path given relative to `root` (an absolute one stands as it is).
pub fn resolve_path(root: &str, value: &str) -> (r: String)
    ensures
        r@ == join_spec(root@, value@),
{
    join_path(root, value)
}

/// Where the configuration file is: the `--config` option against the root,
/// or `config/envsentinel.toml` under the root.
pub open spec fn config_path_spec(options: crate::cli::args::OptionsView, root: Seq<char>) -> Seq<char> {
    match options.config {
        Some(p) => join_spec(root, p),
        None => join_spec(join_spec(root, "config"@), "envsentinel.toml"@),
    }
}

pub fn resolve_config_path(options: &CommandOptions, root: &str) -> (r: String)
    ensures
        r@ == config_path_spec(options@, root@),
{
    match &options.config {
        Some(p) => join_path(root, p.as_str()),
        None => {
            let dir = join_path(root, "config");
            join_path(dir.as_str(), "envsentinel.toml")
        },
    }
}

/// Mathematical picture of a [`CommandContext`].
pub struct ContextView {
    pub root: Seq<char>,
    pub config_path: Seq<char>,
    pub config: ConfigFileView,
}

impl View for CommandContext {
    type V = ContextView;

    open spec fn view(&self) -> ContextView {
        ContextView { root: self.root@, config_path: self.config_path@, config: self.config@ }
    }
}

impl CommandContext {
    /// The context of a command run from `current_dir`, given what reading the
    /// configuration file at [`resolve_config_path`] gave. A configuration
    /// error becomes its message.
    pub fn from_options(options: &CommandOptions, current_dir: &str, config: ConfigSource) -> (r: Result<
        CommandContext,
        String,
    >)
        ensures
            ({
                let root = root_spec(options@, current_dir@);
                let config_path = config_path_spec(options@, root);
                match config_from_source(config_path, config) {
                    Ok(c) => r matches Ok(ctx) && ctx@ == (ContextView { root, config_path, config: c }),
                    Err(e) => r matches Err(m) && m@ == e.path + ": "@ + join(e.issues, "; "@),
                }
            }),
    {
        let root = resolve_root(options, current_dir);
        let config_path = resolve_config_path(options, root.as_str());
        match ConfigFile::from_source(config_path.as_str(), config) {
            Ok(config) => Ok(CommandContext { root, config_path, config }),
            Err(error) => Err(error.message()),
        }
    }
}

/// `items` separated by `, `, or `none` when there are none.
pub open spec fn list_text(items: Seq<Seq<char>>) -> Seq<char> {
    if items.len() == 0 {
        "none"@
    } else {
        join(items, ", "@)
    }
}

pub fn format_list(items: &Vec<String>) -> (r: String)
    ensures
        r@ == list_text(items.deep_view()),
{
    if items.len() == 0 {
        text("none")
    } else {
        join_strings(items, ", ")
    }
}

pub fn format_paths(items: &Vec<String>) -> (r: String)
    ensures
        r@ == list_text(items.deep_view()),
{
    format_list(items)
}

/// File names that mark a template: `.env.example`, `.env.sample` and `.env.template`.
pub open spec fn is_template_name(name: Seq<char>) -> bool {
    name == ".env.example"@ || name == ".env.sample"@ || name == ".env.template"@
}

pub open spec fn preferred_template_spec(path: Seq<char>) -> bool {
    file_name_spec(path) matches Some(n) && is_template_name(n)
}

/// Whether the file name of `path` marks a template.
pub fn preferred_template_name(path: &str) -> (b: bool)
    ensures
        b == preferred_template_spec(path@),
{
    match file_name(path) {
        Some(name) => name == text(".env.example") || name == text(".env.sample") || name == text(
            ".env.template",
        ),
        None => false,
    }
}

/// Each of `paths` taken against `root`.
pub open spec fn resolve_all_spec(root: Seq<char>, paths: Seq<Seq<char>>) -> Seq<Seq<char>> {
    paths.map_values(|p: Seq<char>| join_spec(root, p))
}

pub fn resolve_all(root: &str, paths: &Vec<String>) -> (r: Vec<String>)
    ensures
        r.deep_view() == resolve_all_spec(root@, paths.deep_view()),
{
    let mut r: Vec<String> = Vec::new();
    let mut i: usize = 0;
    while i < paths.len()
        invariant
            i <= paths.len(),
            r.deep_view() =~= resolve_all_spec(root@, paths.deep_view()).take(i as int),
        decreases paths.len() - i,
    {
        let ghost before = r.deep_view();
        r.push(resolve_path(root, paths[i].as_str()));
        assert(r.deep_view() =~= before.push(join_spec(root@, paths.deep_view()[i as int])));
        i += 1;
    }
    r
}

/// `paths` without every path that is the same path as `p` (compared by
/// components, as `PathBuf`s compare).
pub open spec fn without_path(paths: Seq<Seq<char>>, p: Seq<char>) -> Seq<Seq<char>>
    decreases paths.len(),
{
    if paths.len() == 0 {
        Seq::empty()
    } else {
        let rest = without_path(paths.drop_last(), p);
        if same_path(paths.last(), p) {
            rest
        } else {
            rest.push(paths.last())
        }
    }
}

pub fn remove_path(paths: &Vec<String>, p: &String) -> (r: Vec<String>)
    ensures
        r.deep_view() == without_path(paths.deep_view(), p@),
{
    let ghost all = paths.deep_view();
    let mut r: Vec<String> = Vec::new();
    let mut i: usize = 0;
    while i < paths.len()
        invariant
            i <= paths.len(),
            all == paths.deep_view(),
            r.deep_view() == without_path(all.take(i as int), p@),
        decreases paths.len() - i,
    {
        assert(all.take(i + 1).drop_last() =~= all.take(i as int));
        if !paths_equal(paths[i].as_str(), p.as_str()) {
            let ghost before = r.deep_view();
            r.push(paths[i].clone());
            assert(r.deep_view() =~= before.push(all[i as int]));
        }
        i += 1;
    }
    assert(all.take(paths.len() as int) =~= all);
    r
}

/// The first of `paths` whose file name marks a template.
pub open spec fn first_template(paths: Seq<Seq<char>>) -> Option<Seq<char>>
    decreases paths.len(),
{
    if paths.len() == 0 {
        None
    } else if preferred_template_spec(paths[0]) {
        Some(paths[0])
    } else {
        first_template(paths.drop_first())
    }
}

pub fn find_template(paths: &Vec<String>) -> (r: Option<String>)
    ensures
        r.deep_view() == first_template(paths.deep_view()),
{
    let ghost all = paths.deep_view();
    let mut i: usize = 0;
    assert(all.skip(0) =~= all);
    while i < paths.len()
        invariant
            i <= paths.len(),
            all == paths.deep_view(),
            first_template(all) == first_template(all.skip(i as int)),
        decreases paths.len() - i,
    {
        assert(all.skip(i as int).drop_first() =~= all.skip(i + 1));
        assert(all.skip(i as int)[0] == paths[i as int]@);
        if preferred_template_name(paths[i].as_str()) {
            return Some(paths[i].clone());
        }
        i += 1;
    }
    assert(all.skip(i as int) =~= Seq::<Seq<char>>::empty());
    None
}

/// An issue report names every issue: `Errors: ` followed by all error
/// messages, in order, separated by `, ` when there are errors, and likewise
/// `Warnings: ` for the warnings; nothing when there are neither. It fails the
/// run exactly when there are errors.
pub proof fn law_issue_report_names_every_issue(v: ValidationView)
    ensures
        v.errors.len() > 0 ==> issue_lines(v).0.contains("Errors: "@ + join(v.errors, ", "@)),
        v.warnings.len() > 0 ==> issue_lines(v).0.contains("Warnings: "@ + join(v.warnings, ", "@)),
        issue_lines(v).0.len() <= 2,
        forall|i: int|
            0 <= i < issue_lines(v).0.len() ==> (#[trigger] issue_lines(v).0[i] == "Errors: "@ + join(
                v.errors,
                ", "@,
            ) && v.errors.len() > 0) || (issue_lines(v).0[i] == "Warnings: "@ + join(v.warnings, ", "@)
                && v.warnings.len() > 0),
        issue_lines(v).1 == (v.errors.len() > 0),
{
    let lines = issue_lines(v).0;
    if v.errors.len() > 0 {
        assert(lines[0] == "Errors: "@ + join(v.errors, ", "@));
    }
    if v.warnings.len() > 0 {
        assert(lines[lines.len() - 1] == "Warnings: "@ + join(v.warnings, ", "@));
    }
}

/// A drift report names every key that differs: `Missing: ` followed by all
/// template keys the target lacks, in order, separated by `, `; likewise
/// `Extra: ` for the keys only the target has and `Empty values: ` for the
/// template keys it leaves empty; with none of these it is the single
/// no-drift line. It fails the run exactly when keys are missing or empty, or
/// (in strict mode) extra.
pub proof fn law_drift_report_names_every_key(c: ComparisonView, strict: bool, no_drift: Seq<char>)
    ensures
        c.missing_keys.len() > 0 ==> drift_lines(c, strict, no_drift).0.contains(
            "Missing: "@ + join(c.missing_keys, ", "@),
        ),
        c.extra_keys.len() > 0 ==> drift_lines(c, strict, no_drift).0.contains(
            "Extra: "@ + join(c.extra_keys, ", "@),
        ),
        c.empty_values.len() > 0 ==> drift_lines(c, strict, no_drift).0.contains(
            "Empty values: "@ + join(c.empty_values, ", "@),
        ),
        c.missing_keys.len() == 0 && c.extra_keys.len() == 0 && c.empty_values.len() == 0 ==> drift_lines(
            c,
            strict,
            no_drift,
        ).0 == seq![no_drift],
        drift_lines(c, strict, no_drift).0.len() <= 3,
        !(c.missing_keys.len() == 0 && c.extra_keys.len() == 0 && c.empty_values.len() == 0) ==> forall|i: int|
            0 <= i < drift_lines(c, strict, no_drift).0.len() ==> {
                ||| (#[trigger] drift_lines(c, strict, no_drift).0[i] == "Missing: "@ + join(c.missing_keys, ", "@)
                    && c.missing_keys.len() > 0)
                ||| (drift_lines(c, strict, no_drift).0[i] == "Extra: "@ + join(c.extra_keys, ", "@)
                    && c.extra_keys.len() > 0)
                ||| (drift_lines(c, strict, no_drift).0[i] == "Empty values: "@ + join(c.empty_values, ", "@)
                    && c.empty_values.len() > 0)
            },
        drift_lines(c, strict, no_drift).1 == (c.missing_keys.len() > 0 || c.empty_values.len() > 0 || (strict
            && c.extra_keys.len() > 0)),
{
    let lines = drift_lines(c, strict, no_drift).0;
    if !(c.missing_keys.len() == 0 && c.extra_keys.len() == 0 && c.empty_values.len() == 0) {
        let e: Seq<Seq<char>> = Seq::empty();
        let m: Seq<Seq<char>> = if c.missing_keys.len() > 0 {
            seq!["Missing: "@ + list_text(c.missing_keys)]
        } else {
            e
        };
        let x: Seq<Seq<char>> = if c.extra_keys.len() > 0 {
            seq!["Extra: "@ + list_text(c.extra_keys)]
        } else {
            e
        };
        let y: Seq<Seq<char>> = if c.empty_values.len() > 0 {
            seq!["Empty values: "@ + list_text(c.empty_values)]
        } else {
            e
        };
        assert(lines == m + x + y);
        if c.missing_keys.len() > 0 {
            assert(lines[0] == m[0]);
        }
        if c.extra_keys.len() > 0 {
            assert(lines[m.len() as int] == x[0]);
        }
        if c.empty_values.len() > 0 {
            assert(lines[(m.len() + x.len()) as int] == y[0]);
        }
    }
}


} // verus!
