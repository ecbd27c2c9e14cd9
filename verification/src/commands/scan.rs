//! `scan`: every target file validated and compared with the template.
use vstd::prelude::*;

use super::diff::{resolve_template_path, template_path_spec};
use super::{
    CommandContext, CommandOutcome, ContextView, OutcomeView, drift_lines, issue_lines, load_env_file, load_spec,
    law_issue_report_names_every_issue, outcome_for, push_drift, push_issues, push_line, read_view, reads_view,
    remove_path, resolve_all, resolve_all_spec, without_path,
};
use crate::env::parser::parse_file_spec;
use crate::cli::args::{CommandOptions, OptionsView};
use crate::env::compare::compare_spec;
use crate::env::model::{EnvFile, EnvFileView};
use crate::env::validate::{validate, validate_spec};
use crate::util::{concat2, decimal, join, join_strings, lemma_concat_contains, text, usize_text};

verus! {

/// The targets: the `--target` options, else the configured target files
/// (both taken against the root), else the discovered files other than the template.
pub open spec fn target_paths_spec(
    options: OptionsView,
    context: ContextView,
    discovered: Seq<Seq<char>>,
    template: Option<Seq<char>>,
) -> Seq<Seq<char>> {
    if options.targets.len() > 0 {
        resolve_all_spec(context.root, options.targets)
    } else if context.config.defaults.target_files.len() > 0 {
        resolve_all_spec(context.root, context.config.defaults.target_files)
    } else {
        match template {
            Some(t) => without_path(discovered, t),
            None => discovered,
        }
    }
}

pub fn resolve_target_paths(
    options: &CommandOptions,
    context: &CommandContext,
    discovered: &Vec<String>,
    template_path: &Option<String>,
) -> (r: Vec<String>)
    ensures
        r.deep_view() == target_paths_spec(options@, context@, discovered.deep_view(), template_path.deep_view()),
{
    if options.targets.len() > 0 {
        return resolve_all(context.root.as_str(), &options.targets);
    }
    if context.config.defaults.target_files.len() > 0 {
        return resolve_all(context.root.as_str(), &context.config.defaults.target_files);
    }
    match template_path {
        Some(t) => remove_path(discovered, t),
        None => {
            let mut copy: Vec<String> = Vec::new();
            let mut i: usize = 0;
            while i < discovered.len()
                invariant
                    i <= discovered.len(),
                    copy.deep_view() =~= discovered.deep_view().take(i as int),
                decreases discovered.len() - i,
            {
                push_line(&mut copy, discovered[i].clone());
                i += 1;
            }
            assert(discovered.deep_view().take(discovered.len() as int) =~= discovered.deep_view());
            copy
        },
    }
}

/// The opening lines of the report: root, configuration path, how many env
/// files were discovered and the template.
pub open spec fn header_lines(context: ContextView, discovered: nat, template: Option<Seq<char>>) -> Seq<Seq<char>> {
    seq![
        "Root: "@ + context.root,
        "Config: "@ + context.config_path,
        "Discovered env files: "@ + decimal(discovered),
        match template {
            Some(t) => "Template: "@ + t,
            None => "Template: not found"@,
        },
    ]
}

/// Which files `scan` reads: the template, if there is one, and the targets.
pub struct ScanPlan {
    pub template_path: Option<String>,
    pub target_paths: Vec<String>,
}

pub open spec fn plan_spec(options: OptionsView, context: ContextView, discovered: Seq<Seq<char>>) -> Result<
    (Option<Seq<char>>, Seq<Seq<char>>),
    OutcomeView,
> {
    let template = template_path_spec(options, context, discovered);
    let targets = target_paths_spec(options, context, discovered, template);
    if targets.len() == 0 {
        Err(
            outcome_for(
                2,
                join(header_lines(context, discovered.len(), template) + seq!["No target env files found."@], "\n"@),
            ),
        )
    } else {
        Ok((template, targets))
    }
}

pub open spec fn plan_view(r: Result<ScanPlan, CommandOutcome>) -> Result<
    (Option<Seq<char>>, Seq<Seq<char>>),
    OutcomeView,
> {
    match r {
        Ok(p) => Ok((p.template_path.deep_view(), p.target_paths.deep_view())),
        Err(o) => Err(o@),
    }
}

fn push_header(lines: &mut Vec<String>, context: &CommandContext, discovered: usize, template: &Option<String>)
    ensures
        final(lines).deep_view() == old(lines).deep_view() + header_lines(
            context@,
            discovered as nat,
            template.deep_view(),
        ),
{
    let ghost l0 = lines.deep_view();
    push_line(lines, concat2("Root: ", context.root.as_str()));
    push_line(lines, concat2("Config: ", context.config_path.as_str()));
    push_line(lines, concat2("Discovered env files: ", usize_text(discovered).as_str()));
    match template {
        Some(t) => push_line(lines, concat2("Template: ", t.as_str())),
        None => push_line(lines, text("Template: not found")),
    }
    assert(lines.deep_view() =~= l0 + header_lines(context@, discovered as nat, template.deep_view()));
}

/// Decides the template and targets; with no target the run stops with a usage error.
pub fn plan(options: &CommandOptions, context: &CommandContext, discovered: &Vec<String>) -> (r: Result<
    ScanPlan,
    CommandOutcome,
>)
    ensures
        plan_view(r) == plan_spec(options@, context@, discovered.deep_view()),
{
    let template_path = resolve_template_path(options, context, discovered);
    let target_paths = resolve_target_paths(options, context, discovered, &template_path);
    if target_paths.len() == 0 {
        let mut lines: Vec<String> = Vec::new();
        push_header(&mut lines, context, discovered.len(), &template_path);
        push_line(&mut lines, text("No target env files found."));
        assert(lines.deep_view() =~= header_lines(context@, discovered.deep_view().len(), template_path.deep_view())
            + seq!["No target env files found."@]);
        return Err(CommandOutcome::new(2, join_strings(&lines, "\n")));
    }
    Ok(ScanPlan { template_path, target_paths })
}

/// The template file when it could be read; an unreadable template is skipped.
pub open spec fn template_file_spec(template_path: Option<Seq<char>>, template: Option<Result<Seq<char>, Seq<char>>>) -> Option<
    EnvFileView,
> {
    match (template_path, template) {
        (Some(p), Some(read)) => match load_spec(p, read) {
            Ok(f) => Some(f),
            Err(_) => None,
        },
        _ => None,
    }
}

/// The lines for one target and whether it fails the run.
pub open spec fn target_lines(
    template: Option<EnvFileView>,
    path: Seq<char>,
    read: Result<Seq<char>, Seq<char>>,
    strict: bool,
) -> (Seq<Seq<char>>, bool) {
    let head = seq![Seq::<char>::empty(), "File: "@ + path];
    match load_spec(path, read) {
        Ok(target) => {
            let v = issue_lines(validate_spec(target));
            match template {
                Some(t) => {
                    let d = drift_lines(compare_spec(t, target), strict, "Drift: none"@);
                    (head + v.0 + d.0, v.1 || d.1)
                },
                None => (head + v.0, v.1),
            }
        },
        Err(e) => (head + seq!["Error: "@ + e], true),
    }
}

pub open spec fn targets_lines(
    template: Option<EnvFileView>,
    paths: Seq<Seq<char>>,
    reads: Seq<Result<Seq<char>, Seq<char>>>,
    strict: bool,
) -> (Seq<Seq<char>>, bool)
    decreases paths.len(),
{
    if paths.len() == 0 {
        (Seq::empty(), false)
    } else {
        let prev = targets_lines(template, paths.drop_last(), reads.take(paths.len() - 1), strict);
        let last = target_lines(template, paths.last(), reads[paths.len() - 1], strict);
        (prev.0 + last.0, prev.1 || last.1)
    }
}

/// The report of `scan`: each target's validation issues and, when the
/// template could be read, its drift; the run fails when a target cannot be
/// read, has errors, lacks template keys, leaves them empty or (in strict
/// mode) has extra keys.
pub open spec fn run_spec(
    strict: bool,
    context: ContextView,
    discovered: nat,
    template_path: Option<Seq<char>>,
    template: Option<Result<Seq<char>, Seq<char>>>,
    target_paths: Seq<Seq<char>>,
    reads: Seq<Result<Seq<char>, Seq<char>>>,
) -> OutcomeView {
    let body = targets_lines(template_file_spec(template_path, template), target_paths, reads, strict);
    outcome_for(
        if body.1 {
            1
        } else {
            0
        },
        join(header_lines(context, discovered, template_path) + body.0, "\n"@),
    )
}

pub open spec fn option_read_view(r: Option<Result<String, String>>) -> Option<Result<Seq<char>, Seq<char>>> {
    match r {
        Some(x) => Some(read_view(x)),
        None => None,
    }
}

pub open spec fn opt_file_view(f: Option<EnvFile>) -> Option<EnvFileView> {
    match f {
        Some(f) => Some(f@),
        None => None,
    }
}

/// Appends the lines of one target; true when it fails the run.
fn push_target(
    lines: &mut Vec<String>,
    template_file: &Option<EnvFile>,
    path: &String,
    read: &Result<String, String>,
    strict: bool,
) -> (failed: bool)
    ensures
        final(lines).deep_view() == old(lines).deep_view() + target_lines(
            opt_file_view(*template_file),
            path@,
            read_view(*read),
            strict,
        ).0,
        failed == target_lines(opt_file_view(*template_file), path@, read_view(*read), strict).1,
{
    let ghost l0 = lines.deep_view();
    push_line(lines, String::new());
    push_line(lines, concat2("File: ", path.as_str()));
    let ghost head = seq![Seq::<char>::empty(), "File: "@ + path@];
    assert(lines.deep_view() =~= l0 + head);
    match load_env_file(path.as_str(), read) {
        Ok(target_file) => {
            let validation = validate(&target_file);
            let mut failed = push_issues(lines, &validation);
            let ghost l2 = lines.deep_view();
            let ghost v = issue_lines(validate_spec(target_file@));
            assert(l2 =~= l0 + head + v.0);
            match template_file {
                Some(t) => {
                    let d = push_drift(lines, t, &target_file, strict, "Drift: none");
                    let ghost dd = drift_lines(compare_spec(t@, target_file@), strict, "Drift: none"@);
                    assert(lines.deep_view() =~= l0 + (head + v.0 + dd.0));
                    failed = failed || d;
                },
                None => {
                    assert(lines.deep_view() =~= l0 + (head + v.0));
                },
            }
            failed
        },
        Err(error) => {
            push_line(lines, concat2("Error: ", error.as_str()));
            assert(lines.deep_view() =~= l0 + (head + seq!["Error: "@ + error@]));
            true
        },
    }
}

/// Runs `scan` on the files of `plan`, given what reading each of them gave:
/// `template` for the template (when the plan has one) and `targets[i]` for
/// `plan.target_paths[i]`.
pub fn run(
    options: &CommandOptions,
    context: &CommandContext,
    discovered: &Vec<String>,
    plan: &ScanPlan,
    template: &Option<Result<String, String>>,
    targets: &Vec<Result<String, String>>,
) -> (o: CommandOutcome)
    requires
        targets.len() == plan.target_paths.len(),
    ensures
        o@ == run_spec(
            options.strict || context.config.defaults.strict,
            context@,
            discovered.deep_view().len(),
            plan.template_path.deep_view(),
            option_read_view(*template),
            plan.target_paths.deep_view(),
            reads_view(targets@),
        ),
{
    let strict = options.strict || context.config.defaults.strict;
    let mut lines: Vec<String> = Vec::new();
    push_header(&mut lines, context, discovered.len(), &plan.template_path);
    let ghost first = lines.deep_view();
    let template_file = match (&plan.template_path, template) {
        (Some(p), Some(read)) => match load_env_file(p.as_str(), read) {
            Ok(f) => Some(f),
            Err(_) => None,
        },
        _ => None,
    };
    let ghost tf = opt_file_view(template_file);
    assert(tf == template_file_spec(plan.template_path.deep_view(), option_read_view(*template)));
    let ghost paths = plan.target_paths.deep_view();
    let ghost rv = reads_view(targets@);
    let mut failed = false;
    let mut i: usize = 0;
    while i < plan.target_paths.len()
        invariant
            i <= plan.target_paths.len() == targets.len(),
            paths == plan.target_paths.deep_view(),
            rv == reads_view(targets@),
            tf == opt_file_view(template_file),
            lines.deep_view() == first + targets_lines(tf, paths.take(i as int), rv.take(i as int), strict).0,
            failed == targets_lines(tf, paths.take(i as int), rv.take(i as int), strict).1,
        decreases plan.target_paths.len() - i,
    {
        let ghost l0 = lines.deep_view();
        let this_failed = push_target(&mut lines, &template_file, &plan.target_paths[i], &targets[i], strict);
        proof {
            assert(paths.take(i + 1).drop_last() =~= paths.take(i as int));
            assert(rv.take(i + 1).take(i as int) =~= rv.take(i as int));
            assert(rv.take(i + 1)[i as int] == read_view(targets@[i as int]));
            assert(lines.deep_view() =~= first + targets_lines(tf, paths.take(i + 1), rv.take(i + 1), strict).0);
        }
        failed = failed || this_failed;
        i += 1;
    }
    proof {
        assert(paths.take(plan.target_paths.len() as int) =~= paths);
        assert(rv.take(plan.target_paths.len() as int) =~= rv);
        assert(first + targets_lines(tf, paths, rv, strict).0 =~= header_lines(
            context@,
            discovered.deep_view().len(),
            plan.template_path.deep_view(),
        ) + targets_lines(tf, paths, rv, strict).0);
    }
    CommandOutcome::new(if failed { 1 } else { 0 }, join_strings(&lines, "\n"))
}

proof fn lemma_targets_pass(
    template: Option<EnvFileView>,
    paths: Seq<Seq<char>>,
    reads: Seq<Result<Seq<char>, Seq<char>>>,
    strict: bool,
    i: int,
)
    requires
        !targets_lines(template, paths, reads, strict).1,
        0 <= i < paths.len(),
        reads.len() == paths.len(),
    ensures
        !target_lines(template, paths[i], reads[i], strict).1,
    decreases paths.len(),
{
    let n = paths.len() - 1;
    if i < n {
        assert(paths.drop_last()[i] == paths[i]);
        assert(reads.take(n)[i] == reads[i]);
        lemma_targets_pass(template, paths.drop_last(), reads.take(n), strict, i);
    }
}

/// A clean `scan` (exit code 0) means every target could be read and has no
/// validation errors and, when the template could be read, has all of its
/// keys, none of them empty, and (in strict mode) no key the template lacks.
pub proof fn law_clean_scan_has_no_findings(
    strict: bool,
    context: ContextView,
    discovered: nat,
    template_path: Option<Seq<char>>,
    template: Option<Result<Seq<char>, Seq<char>>>,
    paths: Seq<Seq<char>>,
    reads: Seq<Result<Seq<char>, Seq<char>>>,
    i: int,
)
    requires
        run_spec(strict, context, discovered, template_path, template, paths, reads).exit_code == 0,
        reads.len() == paths.len(),
        0 <= i < paths.len(),
    ensures
        load_spec(paths[i], reads[i]) matches Ok(f) && validate_spec(f).errors.len() == 0 && (template_file_spec(
            template_path,
            template,
        ) matches Some(t) ==> {
            let c = compare_spec(t, f);
            &&& c.missing_keys.len() == 0
            &&& c.empty_values.len() == 0
            &&& strict ==> c.extra_keys.len() == 0
        }),
{
    lemma_targets_pass(template_file_spec(template_path, template), paths, reads, strict, i);
}

/// A target fails `scan` when it cannot be read, has validation errors, or
/// (when the template could be read) lacks template keys, leaves them empty,
/// or in strict mode has keys the template lacks. Warnings never fail.
pub open spec fn target_fails(
    template: Option<EnvFileView>,
    path: Seq<char>,
    read: Result<Seq<char>, Seq<char>>,
    strict: bool,
) -> bool {
    match load_spec(path, read) {
        Err(_) => true,
        Ok(f) => validate_spec(f).errors.len() > 0 || match template {
            Some(t) => {
                let c = compare_spec(t, f);
                c.missing_keys.len() > 0 || c.empty_values.len() > 0 || (strict && c.extra_keys.len() > 0)
            },
            None => false,
        },
    }
}

proof fn lemma_targets_fail(
    template: Option<EnvFileView>,
    paths: Seq<Seq<char>>,
    reads: Seq<Result<Seq<char>, Seq<char>>>,
    strict: bool,
)
    requires
        reads.len() == paths.len(),
    ensures
        targets_lines(template, paths, reads, strict).1 <==> exists|i: int|
            0 <= i < paths.len() && target_fails(template, #[trigger] paths[i], reads[i], strict),
    decreases paths.len(),
{
    if paths.len() > 0 {
        let n = paths.len() - 1;
        lemma_targets_fail(template, paths.drop_last(), reads.take(n), strict);
        assert(target_lines(template, paths[n], reads[n], strict).1 == target_fails(template, paths[n], reads[n], strict));
        if exists|i: int| 0 <= i < paths.len() && target_fails(template, #[trigger] paths[i], reads[i], strict) {
            let i = choose|i: int| 0 <= i < paths.len() && target_fails(template, #[trigger] paths[i], reads[i], strict);
            if i < n {
                assert(paths.drop_last()[i] == paths[i] && reads.take(n)[i] == reads[i]);
            }
        }
        if exists|i: int|
            0 <= i < n && target_fails(template, #[trigger] paths.drop_last()[i], reads.take(n)[i], strict) {
            let i = choose|i: int|
                0 <= i < n && target_fails(template, #[trigger] paths.drop_last()[i], reads.take(n)[i], strict);
            assert(paths.drop_last()[i] == paths[i] && reads.take(n)[i] == reads[i]);
        }
    }
}

/// The exit code of `scan`: 1 exactly when some target fails, 0 otherwise;
/// and with no target the plan stops with 2 and a report that ends with
/// `No target env files found.`.
pub proof fn law_scan_exit_code(
    options: OptionsView,
    discovered_paths: Seq<Seq<char>>,
    strict: bool,
    context: ContextView,
    discovered: nat,
    template_path: Option<Seq<char>>,
    template: Option<Result<Seq<char>, Seq<char>>>,
    paths: Seq<Seq<char>>,
    reads: Seq<Result<Seq<char>, Seq<char>>>,
)
    requires
        reads.len() == paths.len(),
    ensures
        run_spec(strict, context, discovered, template_path, template, paths, reads).exit_code == if exists|i: int|
            0 <= i < paths.len() && target_fails(
                template_file_spec(template_path, template),
                #[trigger] paths[i],
                reads[i],
                strict,
            ) {
            1i32
        } else {
            0i32
        },
        ({
            let t = template_path_spec(options, context, discovered_paths);
            target_paths_spec(options, context, discovered_paths, t).len() == 0 ==> plan_spec(
                options,
                context,
                discovered_paths,
            ) == Err::<(Option<Seq<char>>, Seq<Seq<char>>), OutcomeView>(
                outcome_for(
                    2,
                    join(
                        header_lines(context, discovered_paths.len(), t) + seq!["No target env files found."@],
                        "\n"@,
                    ),
                ),
            )
        }),
{
    lemma_targets_fail(template_file_spec(template_path, template), paths, reads, strict);
}

/// One target's part of a scan report starts with its `File:` line. A
/// readable target's part holds its validation findings whether or not the
/// template could be read (`Errors: ` with every error, `Warnings: ` with
/// every warning), then, with a template, its drift lines; it fails the run
/// when the target has errors or its drift fails. An unreadable target is
/// reported with the reading error and fails the run.
pub proof fn law_scan_target_report(
    template: Option<EnvFileView>,
    path: Seq<char>,
    read: Result<Seq<char>, Seq<char>>,
    strict: bool,
)
    ensures
        target_lines(template, path, read, strict).0.len() >= 2,
        target_lines(template, path, read, strict).0[1] == "File: "@ + path,
        read matches Err(e) ==> target_lines(template, path, read, strict).0.contains("Error: "@ + path + ": "@ + e)
            && target_lines(template, path, read, strict).1,
        read matches Ok(contents) ==> {
            let target = parse_file_spec(path, contents);
            let v = validate_spec(target);
            let r = target_lines(template, path, read, strict);
            &&& v.errors.len() > 0 ==> r.0.contains("Errors: "@ + join(v.errors, ", "@))
            &&& v.warnings.len() > 0 ==> r.0.contains("Warnings: "@ + join(v.warnings, ", "@))
            &&& template is None ==> r.1 == (v.errors.len() > 0)
            &&& template matches Some(t) ==> {
                let d = drift_lines(compare_spec(t, target), strict, "Drift: none"@);
                &&& forall|line: Seq<char>| #[trigger] d.0.contains(line) ==> r.0.contains(line)
                &&& r.1 == (v.errors.len() > 0 || d.1)
            }
        },
{
    let head = seq![Seq::<char>::empty(), "File: "@ + path];
    match read {
        Err(e) => {
            let r = target_lines(template, path, read, strict);
            assert(r.0[2] == "Error: "@ + path + ": "@ + e);
        },
        Ok(contents) => {
            let target = parse_file_spec(path, contents);
            let v = validate_spec(target);
            law_issue_report_names_every_issue(v);
            let iv = issue_lines(v);
            lemma_concat_contains(head, iv.0);
            match template {
                Some(t) => {
                    let d = drift_lines(compare_spec(t, target), strict, "Drift: none"@);
                    lemma_concat_contains(head + iv.0, d.0);
                },
                None => {},
            }
        },
    }
}

/// Every target's lines are in the scan report.
pub proof fn law_scan_report_holds_every_target(
    template: Option<EnvFileView>,
    paths: Seq<Seq<char>>,
    reads: Seq<Result<Seq<char>, Seq<char>>>,
    strict: bool,
)
    requires
        reads.len() == paths.len(),
    ensures
        forall|i: int, line: Seq<char>|
            0 <= i < paths.len() && #[trigger] target_lines(template, paths[i], reads[i], strict).0.contains(line)
                ==> #[trigger] targets_lines(template, paths, reads, strict).0.contains(line),
    decreases paths.len(),
{
    if paths.len() > 0 {
        let n = paths.len() - 1;
        let init = paths.drop_last();
        let rs = reads.take(n);
        law_scan_report_holds_every_target(template, init, rs, strict);
        let prev = targets_lines(template, init, rs, strict);
        let last = target_lines(template, paths.last(), reads[n], strict);
        lemma_concat_contains(prev.0, last.0);
        assert(targets_lines(template, paths, reads, strict).0 == prev.0 + last.0);
        assert forall|i: int, line: Seq<char>|
            0 <= i < paths.len() && #[trigger] target_lines(template, paths[i], reads[i], strict).0.contains(line)
                implies #[trigger] targets_lines(template, paths, reads, strict).0.contains(line) by {
            if i < n {
                assert(init[i] == paths[i] && rs[i] == reads[i]);
                assert(target_lines(template, init[i], rs[i], strict).0.contains(line));
                assert(prev.0.contains(line));
            } else {
                assert(paths[i] == paths.last());
                assert(last.0.contains(line));
            }
        }
    }
}


} // verus!
