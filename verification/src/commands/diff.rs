//! `diff`: key-level drift between a template and one or more target files.
use vstd::prelude::*;

use super::{
    CommandContext, CommandOutcome, ContextView, OutcomeView, drift_lines, find_template, first_template,
    load_env_file, load_spec, outcome_for, push_drift, push_line, read_view, reads_view, remove_path,
    resolve_all, resolve_all_spec, resolve_path, without_path,
};
use crate::cli::args::{CommandOptions, OptionsView};
use crate::env::compare::compare_spec;
use crate::env::model::EnvFileView;
use crate::fs::paths::join_spec;
use crate::env::parser::parse_file_spec;
use crate::util::{concat2, concat3, join, join_strings, lemma_concat_contains};

verus! {

/// The template: the `--template` option, else the configured template file
/// (both taken against the root), else the first discovered file whose name
/// marks a template.
pub open spec fn template_path_spec(options: OptionsView, context: ContextView, discovered: Seq<Seq<char>>) -> Option<
    Seq<char>,
> {
    match options.template {
        Some(t) => Some(join_spec(context.root, t)),
        None => match context.config.defaults.template_file {
            Some(t) => Some(join_spec(context.root, t)),
            None => first_template(discovered),
        },
    }
}

/// The targets: the `--target` options, else the configured target files
/// (both taken against the root), else the discovered files; the template
/// itself is dropped unless the targets were given on the command line.
pub open spec fn target_paths_spec(
    options: OptionsView,
    context: ContextView,
    discovered: Seq<Seq<char>>,
    template: Option<Seq<char>>,
) -> Seq<Seq<char>> {
    if options.targets.len() > 0 {
        resolve_all_spec(context.root, options.targets)
    } else {
        let targets = if context.config.defaults.target_files.len() > 0 {
            resolve_all_spec(context.root, context.config.defaults.target_files)
        } else {
            discovered
        };
        match template {
            Some(t) => without_path(targets, t),
            None => targets,
        }
    }
}

pub fn resolve_template_path(options: &CommandOptions, context: &CommandContext, discovered: &Vec<String>) -> (r:
    Option<String>)
    ensures
        r.deep_view() == template_path_spec(options@, context@, discovered.deep_view()),
{
    if let Some(template) = &options.template {
        return Some(resolve_path(context.root.as_str(), template.as_str()));
    }
    if let Some(template) = &context.config.defaults.template_file {
        return Some(resolve_path(context.root.as_str(), template.as_str()));
    }
    find_template(discovered)
}

pub fn resolve_target_paths(
    options: &CommandOptions,
    context: &CommandContext,
    discovered: &Vec<String>,
    template_path: &Option<String>,
) -> (r: Vec<String>)
    ensures
        r.deep_view() == target_paths_spec(options@, context@, discovered.deep_view(), template_path.deep_view()),
{
    if options.targets.len() > 0 {
        return resolve_all(context.root.as_str(), &options.targets);
    }
    let targets = if context.config.defaults.target_files.len() > 0 {
        resolve_all(context.root.as_str(), &context.config.defaults.target_files)
    } else {
        let mut copy: Vec<String> = Vec::new();
        let mut i: usize = 0;
        while i < discovered.len()
            invariant
                i <= discovered.len(),
                copy.deep_view() =~= discovered.deep_view().take(i as int),
            decreases discovered.len() - i,
        {
            push_line(&mut copy, discovered[i].clone());
            i += 1;
        }
        assert(discovered.deep_view().take(discovered.len() as int) =~= discovered.deep_view());
        copy
    };
    match template_path {
        Some(t) => remove_path(&targets, t),
        None => targets,
    }
}

/// Which files `diff` reads: the template and the targets.
pub struct DiffPlan {
    pub template_path: String,
    pub target_paths: Vec<String>,
}

/// The plan, or the usage error when there is no template or no target.
pub open spec fn plan_spec(options: OptionsView, context: ContextView, discovered: Seq<Seq<char>>) -> Result<
    (Seq<char>, Seq<Seq<char>>),
    OutcomeView,
> {
    let template = template_path_spec(options, context, discovered);
    let targets = target_paths_spec(options, context, discovered, template);
    match template {
        None => Err(
            outcome_for(
                2,
                "No template env file found under "@ + context.root
                    + ". Provide --template or create .env.example."@,
            ),
        ),
        Some(t) => if targets.len() == 0 {
            Err(outcome_for(2, "No target env files found for template "@ + t + "."@))
        } else {
            Ok((t, targets))
        },
    }
}

pub open spec fn plan_view(r: Result<DiffPlan, CommandOutcome>) -> Result<(Seq<char>, Seq<Seq<char>>), OutcomeView> {
    match r {
        Ok(p) => Ok((p.template_path@, p.target_paths.deep_view())),
        Err(o) => Err(o@),
    }
}

/// Decides the template and targets from the options, the configuration and
/// the env files discovered under the root.
pub fn plan(options: &CommandOptions, context: &CommandContext, discovered: &Vec<String>) -> (r: Result<
    DiffPlan,
    CommandOutcome,
>)
    ensures
        plan_view(r) == plan_spec(options@, context@, discovered.deep_view()),
{
    let template_path = resolve_template_path(options, context, discovered);
    let target_paths = resolve_target_paths(options, context, discovered, &template_path);
    match template_path {
        None => Err(
            CommandOutcome::new(
                2,
                concat3(
                    "No template env file found under ",
                    context.root.as_str(),
                    ". Provide --template or create .env.example.",
                ),
            ),
        ),
        Some(template_path) => {
            if target_paths.len() == 0 {
                Err(
                    CommandOutcome::new(
                        2,
                        concat3("No target env files found for template ", template_path.as_str(), "."),
                    ),
                )
            } else {
                Ok(DiffPlan { template_path, target_paths })
            }
        },
    }
}

/// The lines for one target and whether it fails the run.
pub open spec fn target_lines(
    template: EnvFileView,
    path: Seq<char>,
    read: Result<Seq<char>, Seq<char>>,
    strict: bool,
) -> (Seq<Seq<char>>, bool) {
    let head = seq![Seq::<char>::empty(), "Target: "@ + path];
    match load_spec(path, read) {
        Ok(target) => {
            let d = drift_lines(compare_spec(template, target), strict, "No drift detected."@);
            (head + d.0, d.1)
        },
        Err(e) => (head + seq!["Error: "@ + e], true),
    }
}

/// The lines for the targets `paths` (with what reading each gave) and whether any fails the run.
pub open spec fn targets_lines(
    template: EnvFileView,
    paths: Seq<Seq<char>>,
    reads: Seq<Result<Seq<char>, Seq<char>>>,
    strict: bool,
) -> (Seq<Seq<char>>, bool)
    decreases paths.len(),
{
    if paths.len() == 0 {
        (Seq::empty(), false)
    } else {
        let prev = targets_lines(template, paths.drop_last(), reads.take(paths.len() - 1), strict);
        let last = target_lines(template, paths.last(), reads[paths.len() - 1], strict);
        (prev.0 + last.0, prev.1 || last.1)
    }
}

/// The report of `diff`: an unreadable template is a finding on its own;
/// otherwise the template is compared with each target, and the run fails
/// when a target cannot be read, lacks template keys, leaves them empty or
/// (in strict mode) has extra keys.
pub open spec fn run_spec(
    strict: bool,
    template_path: Seq<char>,
    template: Result<Seq<char>, Seq<char>>,
    target_paths: Seq<Seq<char>>,
    reads: Seq<Result<Seq<char>, Seq<char>>>,
) -> OutcomeView {
    match load_spec(template_path, template) {
        Err(e) => outcome_for(1, e),
        Ok(t) => {
            let body = targets_lines(t, target_paths, reads, strict);
            let lines = seq!["Template: "@ + template_path] + body.0;
            outcome_for(if body.1 { 1 } else { 0 }, join(lines, "\n"@))
        },
    }
}

/// Runs `diff` on the files of `plan`, given what reading each of them gave
/// (`targets[i]` for `plan.target_paths[i]`).
pub fn run(
    options: &CommandOptions,
    context: &CommandContext,
    plan: &DiffPlan,
    template: &Result<String, String>,
    targets: &Vec<Result<String, String>>,
) -> (o: CommandOutcome)
    requires
        targets.len() == plan.target_paths.len(),
    ensures
        o@ == run_spec(
            options.strict || context.config.defaults.strict,
            plan.template_path@,
            read_view(*template),
            plan.target_paths.deep_view(),
            reads_view(targets@),
        ),
{
    let template_file = match load_env_file(plan.template_path.as_str(), template) {
        Ok(file) => file,
        Err(error) => return CommandOutcome::new(1, error),
    };
    let strict = options.strict || context.config.defaults.strict;
    let ghost paths = plan.target_paths.deep_view();
    let ghost rv = reads_view(targets@);
    let mut lines: Vec<String> = Vec::new();
    push_line(&mut lines, concat2("Template: ", plan.template_path.as_str()));
    let ghost first = lines.deep_view();
    let mut failed = false;
    let mut i: usize = 0;
    while i < plan.target_paths.len()
        invariant
            i <= plan.target_paths.len() == targets.len(),
            paths == plan.target_paths.deep_view(),
            rv == reads_view(targets@),
            first == seq!["Template: "@ + plan.template_path@],
            (lines.deep_view(), failed) == (first + targets_lines(
                template_file@,
                paths.take(i as int),
                rv.take(i as int),
                strict,
            ).0, targets_lines(template_file@, paths.take(i as int), rv.take(i as int), strict).1),
        decreases plan.target_paths.len() - i,
    {
        let path = &plan.target_paths[i];
        let ghost before = lines.deep_view();
        push_line(&mut lines, String::new());
        push_line(&mut lines, concat2("Target: ", path.as_str()));
        let ghost after_head = lines.deep_view();
        let mut this_failed = false;
        match load_env_file(path.as_str(), &targets[i]) {
            Ok(target_file) => {
                this_failed = push_drift(&mut lines, &template_file, &target_file, strict, "No drift detected.");
            },
            Err(error) => {
                this_failed = true;
                push_line(&mut lines, concat2("Error: ", error.as_str()));
            },
        }
        proof {
            assert(paths.take(i + 1).drop_last() =~= paths.take(i as int));
            assert(rv.take(i + 1).take(i as int) =~= rv.take(i as int));
            assert(rv.take(i + 1)[i as int] == read_view(targets@[i as int]));
            let last = target_lines(template_file@, paths[i as int], rv[i as int], strict);
            assert(after_head =~= before + seq![Seq::<char>::empty(), "Target: "@ + paths[i as int]]);
            assert(lines.deep_view() =~= before + last.0);
            assert(this_failed == last.1);
        }
        failed = failed || this_failed;
        i += 1;
    }
    proof {
        assert(paths.take(plan.target_paths.len() as int) =~= paths);
        assert(rv.take(plan.target_paths.len() as int) =~= rv);
    }
    let message = join_strings(&lines, "\n");
    CommandOutcome::new(if failed { 1 } else { 0 }, message)
}

proof fn lemma_targets_pass(
    template: EnvFileView,
    paths: Seq<Seq<char>>,
    reads: Seq<Result<Seq<char>, Seq<char>>>,
    strict: bool,
    i: int,
)
    requires
        !targets_lines(template, paths, reads, strict).1,
        0 <= i < paths.len(),
        reads.len() == paths.len(),
    ensures
        !target_lines(template, paths[i], reads[i], strict).1,
    decreases paths.len(),
{
    let n = paths.len() - 1;
    if i < n {
        assert(paths.drop_last()[i] == paths[i]);
        assert(reads.take(n)[i] == reads[i]);
        lemma_targets_pass(template, paths.drop_last(), reads.take(n), strict, i);
    }
}

/// A clean `diff` (exit code 0) means every target could be read and has all
/// of the template's keys, none of them empty, and (in strict mode) no key
/// the template lacks.
pub proof fn law_clean_diff_has_no_drift(
    strict: bool,
    template_path: Seq<char>,
    template: Result<Seq<char>, Seq<char>>,
    paths: Seq<Seq<char>>,
    reads: Seq<Result<Seq<char>, Seq<char>>>,
    i: int,
)
    requires
        run_spec(strict, template_path, template, paths, reads).exit_code == 0,
        reads.len() == paths.len(),
        0 <= i < paths.len(),
    ensures
        load_spec(template_path, template) matches Ok(t) && load_spec(paths[i], reads[i]) matches Ok(f) && {
            let c = compare_spec(t, f);
            &&& c.missing_keys.len() == 0
            &&& c.empty_values.len() == 0
            &&& strict ==> c.extra_keys.len() == 0
        },
{
    match load_spec(template_path, template) {
        Ok(t) => {
            lemma_targets_pass(t, paths, reads, strict, i);
        },
        Err(_) => {},
    }
}

/// A target fails the run when it cannot be read, lacks template keys, leaves
/// them empty, or (in strict mode) has keys the template lacks.
pub open spec fn target_fails(
    template: EnvFileView,
    path: Seq<char>,
    read: Result<Seq<char>, Seq<char>>,
    strict: bool,
) -> bool {
    match load_spec(path, read) {
        Err(_) => true,
        Ok(f) => {
            let c = compare_spec(template, f);
            c.missing_keys.len() > 0 || c.empty_values.len() > 0 || (strict && c.extra_keys.len() > 0)
        },
    }
}

proof fn lemma_targets_fail(
    template: EnvFileView,
    paths: Seq<Seq<char>>,
    reads: Seq<Result<Seq<char>, Seq<char>>>,
    strict: bool,
)
    requires
        reads.len() == paths.len(),
    ensures
        targets_lines(template, paths, reads, strict).1 <==> exists|i: int|
            0 <= i < paths.len() && target_fails(template, #[trigger] paths[i], reads[i], strict),
    decreases paths.len(),
{
    if paths.len() > 0 {
        let n = paths.len() - 1;
        lemma_targets_fail(template, paths.drop_last(), reads.take(n), strict);
        assert(target_lines(template, paths[n], reads[n], strict).1 == target_fails(template, paths[n], reads[n], strict));
        if exists|i: int| 0 <= i < paths.len() && target_fails(template, #[trigger] paths[i], reads[i], strict) {
            let i = choose|i: int| 0 <= i < paths.len() && target_fails(template, #[trigger] paths[i], reads[i], strict);
            if i < n {
                assert(paths.drop_last()[i] == paths[i] && reads.take(n)[i] == reads[i]);
            }
        }
        if exists|i: int|
            0 <= i < n && target_fails(template, #[trigger] paths.drop_last()[i], reads.take(n)[i], strict) {
            let i = choose|i: int|
                0 <= i < n && target_fails(template, #[trigger] paths.drop_last()[i], reads.take(n)[i], strict);
            assert(paths.drop_last()[i] == paths[i] && reads.take(n)[i] == reads[i]);
        }
    }
}

/// The exit code of `diff`: 1 exactly when the template cannot be read or
/// some target fails, 0 otherwise; and the plan stops with 2 exactly when
/// there is no template or no target.
pub proof fn law_diff_exit_code(
    options: OptionsView,
    context: ContextView,
    discovered: Seq<Seq<char>>,
    strict: bool,
    template_path: Seq<char>,
    template: Result<Seq<char>, Seq<char>>,
    paths: Seq<Seq<char>>,
    reads: Seq<Result<Seq<char>, Seq<char>>>,
)
    requires
        reads.len() == paths.len(),
    ensures
        run_spec(strict, template_path, template, paths, reads).exit_code == (match load_spec(template_path, template) {
            Err(_) => 1i32,
            Ok(t) => if exists|i: int| 0 <= i < paths.len() && target_fails(t, #[trigger] paths[i], reads[i], strict) {
                1i32
            } else {
                0i32
            },
        }),
        plan_spec(options, context, discovered) is Err <==> (template_path_spec(options, context, discovered) is None
            || target_paths_spec(options, context, discovered, template_path_spec(options, context, discovered)).len()
            == 0),
        plan_spec(options, context, discovered) matches Err(o) ==> o.exit_code == 2,
{
    match load_spec(template_path, template) {
        Ok(t) => {
            lemma_targets_fail(t, paths, reads, strict);
        },
        Err(_) => {},
    }
}

/// One target's part of a diff report starts with its `Target:` line; a
/// readable target's part holds its drift lines and fails the run exactly when
/// its drift does; an unreadable one is reported with the reading error and
/// fails the run.
pub proof fn law_diff_target_report(
    template: EnvFileView,
    path: Seq<char>,
    read: Result<Seq<char>, Seq<char>>,
    strict: bool,
)
    ensures
        target_lines(template, path, read, strict).0.len() >= 2,
        target_lines(template, path, read, strict).0[1] == "Target: "@ + path,
        read matches Err(e) ==> target_lines(template, path, read, strict).0.contains("Error: "@ + path + ": "@ + e)
            && target_lines(template, path, read, strict).1,
        read matches Ok(contents) ==> {
            let d = drift_lines(compare_spec(template, parse_file_spec(path, contents)), strict, "No drift detected."@);
            let r = target_lines(template, path, read, strict);
            &&& forall|line: Seq<char>| #[trigger] d.0.contains(line) ==> r.0.contains(line)
            &&& r.1 == d.1
        },
{
    let head = seq![Seq::<char>::empty(), "Target: "@ + path];
    match read {
        Err(e) => {
            let r = target_lines(template, path, read, strict);
            assert(r.0[2] == "Error: "@ + path + ": "@ + e);
        },
        Ok(contents) => {
            let d = drift_lines(compare_spec(template, parse_file_spec(path, contents)), strict, "No drift detected."@);
            lemma_concat_contains(head, d.0);
        },
    }
}

/// Every target's lines are in the diff report.
pub proof fn law_diff_report_holds_every_target(
    template: EnvFileView,
    paths: Seq<Seq<char>>,
    reads: Seq<Result<Seq<char>, Seq<char>>>,
    strict: bool,
)
    requires
        reads.len() == paths.len(),
    ensures
        forall|i: int, line: Seq<char>|
            0 <= i < paths.len() && #[trigger] target_lines(template, paths[i], reads[i], strict).0.contains(line)
                ==> #[trigger] targets_lines(template, paths, reads, strict).0.contains(line),
    decreases paths.len(),
{
    if paths.len() > 0 {
        let n = paths.len() - 1;
        let init = paths.drop_last();
        let rs = reads.take(n);
        law_diff_report_holds_every_target(template, init, rs, strict);
        let prev = targets_lines(template, init, rs, strict);
        let last = target_lines(template, paths.last(), reads[n], strict);
        lemma_concat_contains(prev.0, last.0);
        assert(targets_lines(template, paths, reads, strict).0 == prev.0 + last.0);
        assert forall|i: int, line: Seq<char>|
            0 <= i < paths.len() && #[trigger] target_lines(template, paths[i], reads[i], strict).0.contains(line)
                implies #[trigger] targets_lines(template, paths, reads, strict).0.contains(line) by {
            if i < n {
                assert(init[i] == paths[i] && rs[i] == reads[i]);
                assert(target_lines(template, init[i], rs[i], strict).0.contains(line));
                assert(prev.0.contains(line));
            } else {
                assert(paths[i] == paths.last());
                assert(last.0.contains(line));
            }
        }
    }
}


} // verus!
