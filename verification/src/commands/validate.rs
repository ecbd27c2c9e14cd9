//! `validate`: syntax and content checks of env files.
use vstd::prelude::*;

use super::{
    CommandContext, CommandOutcome, ContextView, OutcomeView, issue_lines, load_env_file, load_spec, outcome_for,
    push_issues, push_line, read_view, reads_view, resolve_all, resolve_all_spec,
};
use crate::cli::args::{CommandOptions, OptionsView};
use crate::env::validate::{validate, validate_spec};
use crate::util::{concat2, concat3, join, join_strings, text};

verus! {

/// The files to validate: the `--target` options, else the configured target
/// files (both taken against the root), else the discovered env files.
pub open spec fn validation_targets_spec(options: OptionsView, context: ContextView, discovered: Seq<Seq<char>>) -> Seq<
    Seq<char>,
> {
    if options.targets.len() > 0 {
        resolve_all_spec(context.root, options.targets)
    } else if context.config.defaults.target_files.len() > 0 {
        resolve_all_spec(context.root, context.config.defaults.target_files)
    } else {
        discovered
    }
}

pub fn resolve_validation_targets(options: &CommandOptions, context: &CommandContext, discovered: &Vec<String>) -> (r:
    Vec<String>)
    ensures
        r.deep_view() == validation_targets_spec(options@, context@, discovered.deep_view()),
{
    if options.targets.len() > 0 {
        return resolve_all(context.root.as_str(), &options.targets);
    }
    if context.config.defaults.target_files.len() > 0 {
        return resolve_all(context.root.as_str(), &context.config.defaults.target_files);
    }
    let mut copy: Vec<String> = Vec::new();
    let mut i: usize = 0;
    while i < discovered.len()
        invariant
            i <= discovered.len(),
            copy.deep_view() =~= discovered.deep_view().take(i as int),
        decreases discovered.len() - i,
    {
        push_line(&mut copy, discovered[i].clone());
        i += 1;
    }
    assert(discovered.deep_view().take(discovered.len() as int) =~= discovered.deep_view());
    copy
}

/// The files to validate, or the usage error when there are none.
pub open spec fn plan_spec(options: OptionsView, context: ContextView, discovered: Seq<Seq<char>>) -> Result<
    Seq<Seq<char>>,
    OutcomeView,
> {
    let targets = validation_targets_spec(options, context, discovered);
    if targets.len() == 0 {
        Err(
            outcome_for(
                2,
                "No env files found under "@ + context.root + ". Provide explicit targets or add .env files."@,
            ),
        )
    } else {
        Ok(targets)
    }
}

pub open spec fn plan_view(r: Result<Vec<String>, CommandOutcome>) -> Result<Seq<Seq<char>>, OutcomeView> {
    match r {
        Ok(p) => Ok(p.deep_view()),
        Err(o) => Err(o@),
    }
}

/// Decides which files to validate.
pub fn plan(options: &CommandOptions, context: &CommandContext, discovered: &Vec<String>) -> (r: Result<
    Vec<String>,
    CommandOutcome,
>)
    ensures
        plan_view(r) == plan_spec(options@, context@, discovered.deep_view()),
{
    let targets = resolve_validation_targets(options, context, discovered);
    if targets.len() == 0 {
        Err(
            CommandOutcome::new(
                2,
                concat3(
                    "No env files found under ",
                    context.root.as_str(),
                    ". Provide explicit targets or add .env files.",
                ),
            ),
        )
    } else {
        Ok(targets)
    }
}

/// The lines for one file and whether it fails the run: `OK` when it has
/// neither errors nor warnings.
pub open spec fn file_lines(path: Seq<char>, read: Result<Seq<char>, Seq<char>>) -> (Seq<Seq<char>>, bool) {
    let head = seq![Seq::<char>::empty(), "File: "@ + path];
    match load_spec(path, read) {
        Ok(file) => {
            let v = validate_spec(file);
            if v.errors.len() == 0 && v.warnings.len() == 0 {
                (head + seq!["OK"@], false)
            } else {
                (head + issue_lines(v).0, issue_lines(v).1)
            }
        },
        Err(e) => (head + seq!["Error: "@ + e], true),
    }
}

pub open spec fn files_lines(paths: Seq<Seq<char>>, reads: Seq<Result<Seq<char>, Seq<char>>>) -> (
    Seq<Seq<char>>,
    bool,
)
    decreases paths.len(),
{
    if paths.len() == 0 {
        (Seq::empty(), false)
    } else {
        let prev = files_lines(paths.drop_last(), reads.take(paths.len() - 1));
        let last = file_lines(paths.last(), reads[paths.len() - 1]);
        (prev.0 + last.0, prev.1 || last.1)
    }
}

/// The report of `validate`: each file's errors and warnings; the run fails
/// when a file cannot be read or has errors.
pub open spec fn run_spec(root: Seq<char>, paths: Seq<Seq<char>>, reads: Seq<Result<Seq<char>, Seq<char>>>) -> OutcomeView {
    let body = files_lines(paths, reads);
    outcome_for(if body.1 { 1 } else { 0 }, join(seq!["Root: "@ + root] + body.0, "\n"@))
}

/// Appends the lines of one file; true when it fails the run.
pub fn push_file(lines: &mut Vec<String>, path: &String, read: &Result<String, String>) -> (failed: bool)
    ensures
        final(lines).deep_view() == old(lines).deep_view() + file_lines(path@, read_view(*read)).0,
        failed == file_lines(path@, read_view(*read)).1,
{
    let ghost l0 = lines.deep_view();
    push_line(lines, String::new());
    push_line(lines, concat2("File: ", path.as_str()));
    let ghost l1 = lines.deep_view();
    assert(l1 =~= l0 + seq![Seq::<char>::empty(), "File: "@ + path@]);
    match load_env_file(path.as_str(), read) {
        Ok(file) => {
            let result = validate(&file);
            if result.errors.len() == 0 && result.warnings.len() == 0 {
                push_line(lines, text("OK"));
                assert(lines.deep_view() =~= l0 + (seq![Seq::<char>::empty(), "File: "@ + path@] + seq!["OK"@]));
                false
            } else {
                let failed = push_issues(lines, &result);
                assert(lines.deep_view() =~= l0 + (seq![Seq::<char>::empty(), "File: "@ + path@] + issue_lines(
                    result@,
                ).0));
                failed
            }
        },
        Err(error) => {
            push_line(lines, concat2("Error: ", error.as_str()));
            assert(lines.deep_view() =~= l0 + (seq![Seq::<char>::empty(), "File: "@ + path@] + seq![
                "Error: "@ + error@,
            ]));
            true
        },
    }
}

/// Runs `validate` on `targets`, given what reading each of them gave.
pub fn run(context: &CommandContext, targets: &Vec<String>, reads: &Vec<Result<String, String>>) -> (o: CommandOutcome)
    requires
        reads.len() == targets.len(),
    ensures
        o@ == run_spec(context.root@, targets.deep_view(), reads_view(reads@)),
{
    let ghost paths = targets.deep_view();
    let ghost rv = reads_view(reads@);
    let mut lines: Vec<String> = Vec::new();
    push_line(&mut lines, concat2("Root: ", context.root.as_str()));
    let ghost first = lines.deep_view();
    let mut failed = false;
    let mut i: usize = 0;
    while i < targets.len()
        invariant
            i <= targets.len() == reads.len(),
            paths == targets.deep_view(),
            rv == reads_view(reads@),
            first == seq!["Root: "@ + context.root@],
            lines.deep_view() == first + files_lines(paths.take(i as int), rv.take(i as int)).0,
            failed == files_lines(paths.take(i as int), rv.take(i as int)).1,
        decreases targets.len() - i,
    {
        let ghost before = lines.deep_view();
        let this_failed = push_file(&mut lines, &targets[i], &reads[i]);
        proof {
            assert(paths.take(i + 1).drop_last() =~= paths.take(i as int));
            assert(rv.take(i + 1).take(i as int) =~= rv.take(i as int));
            assert(rv.take(i + 1)[i as int] == read_view(reads@[i as int]));
            assert(lines.deep_view() =~= first + files_lines(paths.take(i + 1), rv.take(i + 1)).0);
        }
        failed = failed || this_failed;
        i += 1;
    }
    proof {
        assert(paths.take(targets.len() as int) =~= paths);
        assert(rv.take(targets.len() as int) =~= rv);
    }
    CommandOutcome::new(if failed { 1 } else { 0 }, join_strings(&lines, "\n"))
}

proof fn lemma_files_pass(paths: Seq<Seq<char>>, reads: Seq<Result<Seq<char>, Seq<char>>>, i: int)
    requires
        !files_lines(paths, reads).1,
        0 <= i < paths.len(),
        reads.len() == paths.len(),
    ensures
        !file_lines(paths[i], reads[i]).1,
    decreases paths.len(),
{
    let n = paths.len() - 1;
    if i < n {
        assert(paths.drop_last()[i] == paths[i]);
        assert(reads.take(n)[i] == reads[i]);
        lemma_files_pass(paths.drop_last(), reads.take(n), i);
    }
}

/// A clean `validate` (exit code 0) means every file could be read and has
/// no errors (no malformed lines, no duplicate keys).
pub proof fn law_clean_validate_has_no_errors(
    root: Seq<char>,
    paths: Seq<Seq<char>>,
    reads: Seq<Result<Seq<char>, Seq<char>>>,
    i: int,
)
    requires
        run_spec(root, paths, reads).exit_code == 0,
        reads.len() == paths.len(),
        0 <= i < paths.len(),
    ensures
        load_spec(paths[i], reads[i]) matches Ok(f) && validate_spec(f).errors.len() == 0,
{
    lemma_files_pass(paths, reads, i);
}

/// A file fails `validate` when it cannot be read or has errors.
pub open spec fn file_fails(path: Seq<char>, read: Result<Seq<char>, Seq<char>>) -> bool {
    match load_spec(path, read) {
        Err(_) => true,
        Ok(f) => validate_spec(f).errors.len() > 0,
    }
}

proof fn lemma_files_fail(paths: Seq<Seq<char>>, reads: Seq<Result<Seq<char>, Seq<char>>>)
    requires
        reads.len() == paths.len(),
    ensures
        files_lines(paths, reads).1 <==> exists|i: int| 0 <= i < paths.len() && file_fails(#[trigger] paths[i], reads[i]),
    decreases paths.len(),
{
    if paths.len() > 0 {
        let n = paths.len() - 1;
        lemma_files_fail(paths.drop_last(), reads.take(n));
        assert(file_lines(paths[n], reads[n]).1 == file_fails(paths[n], reads[n]));
        if exists|i: int| 0 <= i < paths.len() && file_fails(#[trigger] paths[i], reads[i]) {
            let i = choose|i: int| 0 <= i < paths.len() && file_fails(#[trigger] paths[i], reads[i]);
            if i < n {
                assert(paths.drop_last()[i] == paths[i] && reads.take(n)[i] == reads[i]);
            }
        }
        if exists|i: int| 0 <= i < n && file_fails(#[trigger] paths.drop_last()[i], reads.take(n)[i]) {
            let i = choose|i: int| 0 <= i < n && file_fails(#[trigger] paths.drop_last()[i], reads.take(n)[i]);
            assert(paths.drop_last()[i] == paths[i] && reads.take(n)[i] == reads[i]);
        }
    }
}

/// The exit code of `validate`: 1 exactly when some file cannot be read or
/// has errors (warnings never fail), 0 otherwise; a readable file with
/// neither errors nor warnings is reported `OK`; and with no file to check
/// the plan stops with 2 and says where it looked.
pub proof fn law_validate_exit_code(
    options: OptionsView,
    context: ContextView,
    discovered: Seq<Seq<char>>,
    root: Seq<char>,
    paths: Seq<Seq<char>>,
    reads: Seq<Result<Seq<char>, Seq<char>>>,
)
    requires
        reads.len() == paths.len(),
    ensures
        run_spec(root, paths, reads).exit_code == if exists|i: int|
            0 <= i < paths.len() && file_fails(#[trigger] paths[i], reads[i]) {
            1i32
        } else {
            0i32
        },
        forall|i: int|
            0 <= i < paths.len() ==> (load_spec(#[trigger] paths[i], reads[i]) matches Ok(f) && validate_spec(
                f,
            ).errors.len() == 0 && validate_spec(f).warnings.len() == 0 ==> file_lines(paths[i], reads[i]).0.last()
                == "OK"@),
        validation_targets_spec(options, context, discovered).len() == 0 ==> plan_spec(options, context, discovered)
            == Err::<Seq<Seq<char>>, OutcomeView>(
            outcome_for(
                2,
                "No env files found under "@ + context.root + ". Provide explicit targets or add .env files."@,
            ),
        ),
        validation_targets_spec(options, context, discovered).len() > 0 ==> plan_spec(options, context, discovered)
            == Ok::<Seq<Seq<char>>, OutcomeView>(validation_targets_spec(options, context, discovered)),
{
    lemma_files_fail(paths, reads);
}

} // verus!
