//! `init`: a starter template generated from an existing `.env`: every key
//! of the source, each with an empty value.
use vstd::prelude::*;

use super::{
    CommandContext, CommandOutcome, ContextView, OutcomeView, list_text, load_env_file, load_spec, outcome_for,
    push_line, read_view,
};
use crate::cli::args::{CommandOptions, OptionsView};
use crate::env::model::{EnvFile, IssueView, KeyView, names_of};
use crate::env::parser::{
    export_prefix, is_key_name, lines_of, parse_file_spec, parse_line, parse_lines, strip_export, well_formed_keys,
};
use crate::util::{is_whitespace, trim, trim_end, trim_start};
use crate::env::validate::{validate, validate_spec};
use crate::fs::paths::{file_name, file_name_spec, join_path, join_spec};
use crate::util::{concat2, concat3, decimal, join, join_strings, text, usize_text};

verus! {

/// The first of `paths` whose file name is `.env`.
pub open spec fn first_dot_env(paths: Seq<Seq<char>>) -> Option<Seq<char>>
    decreases paths.len(),
{
    if paths.len() == 0 {
        None
    } else if file_name_spec(paths[0]) == Some(".env"@) {
        Some(paths[0])
    } else {
        first_dot_env(paths.drop_first())
    }
}

/// The source: the first `--target` (against the root), else `.env` in the
/// root when it exists, else the first discovered file called `.env`.
pub open spec fn source_path_spec(
    options: OptionsView,
    context: ContextView,
    root_env_exists: bool,
    discovered: Seq<Seq<char>>,
) -> Option<Seq<char>> {
    if options.targets.len() > 0 {
        Some(join_spec(context.root, options.targets[0]))
    } else if root_env_exists {
        Some(join_spec(context.root, ".env"@))
    } else {
        first_dot_env(discovered)
    }
}

/// The template to write: `--template`, else the configured template file
/// (both against the root), else `.env.example` in the root.
pub open spec fn target_path_spec(options: OptionsView, context: ContextView) -> Seq<char> {
    match options.template {
        Some(t) => join_spec(context.root, t),
        None => match context.config.defaults.template_file {
            Some(t) => join_spec(context.root, t),
            None => join_spec(context.root, ".env.example"@),
        },
    }
}

/// Whether the root holds a file called `.env` is asked of the file system
/// as `resolve_source_path` decides; `root_env_exists` is that answer.
pub fn resolve_source_path(
    options: &CommandOptions,
    context: &CommandContext,
    root_env_exists: bool,
    discovered: &Vec<String>,
) -> (r: Option<String>)
    ensures
        r.deep_view() == source_path_spec(options@, context@, root_env_exists, discovered.deep_view()),
{
    if options.targets.len() > 0 {
        return Some(join_path(context.root.as_str(), options.targets[0].as_str()));
    }
    if root_env_exists {
        return Some(join_path(context.root.as_str(), ".env"));
    }
    let ghost all = discovered.deep_view();
    let dot_env = text(".env");
    let mut i: usize = 0;
    assert(all.skip(0) =~= all);
    while i < discovered.len()
        invariant
            i <= discovered.len(),
            all == discovered.deep_view(),
            dot_env@ == ".env"@,
            options.targets.len() == 0,
            !root_env_exists,
            first_dot_env(all) == first_dot_env(all.skip(i as int)),
        decreases discovered.len() - i,
    {
        assert(all.skip(i as int).drop_first() =~= all.skip(i + 1));
        assert(all.skip(i as int)[0] == discovered[i as int]@);
        let fname = file_name(discovered[i].as_str());
        let is_env = match &fname {
            Some(name) => *name == dot_env,
            None => false,
        };
        assert(is_env == (file_name_spec(all.skip(i as int)[0]) == Some(".env"@)));
        if is_env {
            assert(first_dot_env(all.skip(i as int)) == Some(all.skip(i as int)[0]));
            let found = discovered[i].clone();
            assert(found@ == all.skip(i as int)[0]);
            return Some(found);
        }
        i += 1;
    }
    assert(all.skip(i as int) =~= Seq::<Seq<char>>::empty());
    None
}

pub fn resolve_target_path(options: &CommandOptions, context: &CommandContext) -> (r: String)
    ensures
        r@ == target_path_spec(options@, context@),
{
    match &options.template {
        Some(t) => join_path(context.root.as_str(), t.as_str()),
        None => match &context.config.defaults.template_file {
            Some(t) => join_path(context.root.as_str(), t.as_str()),
            None => join_path(context.root.as_str(), ".env.example"),
        },
    }
}

/// Which file `init` reads and which it writes.
pub struct InitPlan {
    pub source_path: String,
    pub target_path: String,
}

pub open spec fn plan_spec(
    options: OptionsView,
    context: ContextView,
    root_env_exists: bool,
    discovered: Seq<Seq<char>>,
) -> Result<(Seq<char>, Seq<char>), OutcomeView> {
    match source_path_spec(options, context, root_env_exists, discovered) {
        None => Err(
            outcome_for(
                2,
                "No source .env file found at "@ + join_spec(context.root, ".env"@)
                    + ". Create one before running init."@,
            ),
        ),
        Some(s) => Ok((s, target_path_spec(options, context))),
    }
}

pub open spec fn plan_view(r: Result<InitPlan, CommandOutcome>) -> Result<(Seq<char>, Seq<char>), OutcomeView> {
    match r {
        Ok(p) => Ok((p.source_path@, p.target_path@)),
        Err(o) => Err(o@),
    }
}

/// Decides the source and the template to write; with no source the run
/// stops with a usage error.
pub fn plan(options: &CommandOptions, context: &CommandContext, root_env_exists: bool, discovered: &Vec<String>) -> (r:
    Result<InitPlan, CommandOutcome>)
    ensures
        plan_view(r) == plan_spec(options@, context@, root_env_exists, discovered.deep_view()),
{
    match resolve_source_path(options, context, root_env_exists, discovered) {
        None => {
            let default_source = join_path(context.root.as_str(), ".env");
            Err(
                CommandOutcome::new(
                    2,
                    concat3(
                        "No source .env file found at ",
                        default_source.as_str(),
                        ". Create one before running init.",
                    ),
                ),
            )
        },
        Some(source_path) => Ok(InitPlan { source_path, target_path: resolve_target_path(options, context) }),
    }
}

/// The refusal when the template to write already exists.
pub fn refuse_existing(target_path: &str) -> (o: CommandOutcome)
    ensures
        o@ == outcome_for(1, target_path@ + " already exists; refusing to overwrite."@),
{
    CommandOutcome::new(1, concat2(target_path, " already exists; refusing to overwrite."))
}

/// The step after `plan`, once it is known whether the template to write
/// already exists: an existing file is never overwritten.
pub fn check_target(plan: &InitPlan, target_exists: bool) -> (r: Result<(), CommandOutcome>)
    ensures
        target_exists ==> (r matches Err(o) && o@ == outcome_for(
            1,
            plan.target_path@ + " already exists; refusing to overwrite."@,
        )),
        !target_exists ==> r is Ok,
{
    if target_exists {
        Err(refuse_existing(plan.target_path.as_str()))
    } else {
        Ok(())
    }
}

/// The failure to create or write `path`.
pub fn write_failed(path: &str, error: &str) -> (o: CommandOutcome)
    ensures
        o@ == outcome_for(1, path@ + ": "@ + error@),
{
    CommandOutcome::new(1, concat3(path, ": ", error))
}

/// One template line per key: its name followed by `=`.
pub open spec fn template_lines(keys: Seq<KeyView>) -> Seq<Seq<char>> {
    names_of(keys).map_values(|n: Seq<char>| n + seq!['='])
}

/// The template text: the lines, each ending in a newline.
pub open spec fn template_text_spec(keys: Seq<KeyView>) -> Seq<char> {
    if keys.len() == 0 {
        Seq::empty()
    } else {
        join(template_lines(keys), "\n"@) + "\n"@
    }
}

/// The template generated from `file`: every key with an empty value.
pub fn template_text(file: &EnvFile) -> (r: String)
    ensures
        r@ == template_text_spec(file@.keys),
{
    let ghost keys = file@.keys;
    let mut lines: Vec<String> = Vec::new();
    let mut i: usize = 0;
    while i < file.keys.len()
        invariant
            i <= file.keys.len(),
            keys == file@.keys,
            lines.deep_view() =~= template_lines(keys).take(i as int),
        decreases file.keys.len() - i,
    {
        push_line(&mut lines, concat2(file.keys[i].name.as_str(), "="));
        proof {
            reveal_strlit("=");
            assert("="@ =~= seq!['=']);
        }
        i += 1;
    }
    assert(template_lines(keys).take(file.keys.len() as int) =~= template_lines(keys));
    if lines.len() == 0 {
        String::new()
    } else {
        let mut r = join_strings(&lines, "\n");
        r.append("\n");
        r
    }
}

/// What `init` writes and reports when the source is fit to be copied.
pub struct Generated {
    pub contents: Seq<char>,
    pub message: Seq<char>,
}

/// The template contents and success message, or the outcome that stops the
/// run: an unreadable source, or a source with validation errors.
pub open spec fn generate_spec(source_path: Seq<char>, target_path: Seq<char>, read: Result<Seq<char>, Seq<char>>) -> Result<
    Generated,
    OutcomeView,
> {
    match load_spec(source_path, read) {
        Err(e) => Err(outcome_for(1, e)),
        Ok(file) => {
            let v = validate_spec(file);
            if v.errors.len() > 0 {
                Err(outcome_for(1, source_path + " has validation errors: "@ + list_text(v.errors)))
            } else {
                let base = "Generated "@ + target_path + " from "@ + source_path + " using "@ + decimal(
                    file.keys.len(),
                ) + " key(s)."@;
                Ok(
                    Generated {
                        contents: template_text_spec(file.keys),
                        message: if v.warnings.len() > 0 {
                            base + " Warnings: "@ + list_text(v.warnings)
                        } else {
                            base
                        },
                    },
                )
            }
        },
    }
}

pub open spec fn generated_view(r: Result<(String, String), CommandOutcome>) -> Result<Generated, OutcomeView> {
    match r {
        Ok((c, m)) => Ok(Generated { contents: c@, message: m@ }),
        Err(o) => Err(o@),
    }
}

/// Builds the template from what reading the source gave: the text to write
/// and the success message, or the outcome that stops the run.
pub fn generate(plan: &InitPlan, source: &Result<String, String>) -> (r: Result<(String, String), CommandOutcome>)
    ensures
        generated_view(r) == generate_spec(plan.source_path@, plan.target_path@, read_view(*source)),
{
    let source_file = match load_env_file(plan.source_path.as_str(), source) {
        Ok(file) => file,
        Err(error) => return Err(CommandOutcome::new(1, error)),
    };
    let validation = validate(&source_file);
    if validation.errors.len() > 0 {
        let list = super::format_list(&validation.errors);
        return Err(
            CommandOutcome::new(
                1,
                concat3(plan.source_path.as_str(), " has validation errors: ", list.as_str()),
            ),
        );
    }
    let contents = template_text(&source_file);
    let mut message = concat3("Generated ", plan.target_path.as_str(), " from ");
    message.append(plan.source_path.as_str());
    message.append(" using ");
    message.append(usize_text(source_file.keys.len()).as_str());
    message.append(" key(s).");
    if validation.warnings.len() > 0 {
        message.append(" Warnings: ");
        message.append(super::format_list(&validation.warnings).as_str());
    }
    Ok((contents, message))
}

/// Lines, each followed by a newline.
pub open spec fn newline_terminated(ls: Seq<Seq<char>>) -> Seq<char>
    decreases ls.len(),
{
    if ls.len() == 0 {
        Seq::empty()
    } else {
        ls[0] + seq!['\n'] + newline_terminated(ls.drop_first())
    }
}

proof fn lemma_newline_terminated_push(ls: Seq<Seq<char>>, l: Seq<char>)
    ensures
        newline_terminated(ls.push(l)) =~= newline_terminated(ls) + l + seq!['\n'],
    decreases ls.len(),
{
    if ls.len() > 0 {
        assert(ls.push(l).drop_first() =~= ls.drop_first().push(l));
        assert(ls.push(l)[0] == ls[0]);
        lemma_newline_terminated_push(ls.drop_first(), l);
    } else {
        assert(ls.push(l).drop_first() =~= Seq::<Seq<char>>::empty());
        assert(newline_terminated(Seq::<Seq<char>>::empty()) == Seq::<char>::empty());
        assert(ls.push(l)[0] == l);
    }
}

proof fn lemma_join_terminated(ls: Seq<Seq<char>>)
    requires
        ls.len() > 0,
    ensures
        join(ls, "\n"@) + "\n"@ =~= newline_terminated(ls),
    decreases ls.len(),
{
    reveal_strlit("\n");
    assert("\n"@ =~= seq!['\n']);
    if ls.len() == 1 {
        assert(ls.drop_first() =~= Seq::<Seq<char>>::empty());
        assert(newline_terminated(Seq::<Seq<char>>::empty()) == Seq::<char>::empty());
    } else {
        lemma_join_terminated(ls.drop_last());
        lemma_newline_terminated_push(ls.drop_last(), ls.last());
        assert(ls.drop_last().push(ls.last()) =~= ls);
        assert(join(ls, "\n"@) == join(ls.drop_last(), "\n"@) + "\n"@ + ls.last());
    }
}

proof fn lemma_lines_of_terminated(ls: Seq<Seq<char>>)
    requires
        forall|i: int| 0 <= i < ls.len() ==> !(#[trigger] ls[i]).contains('\n'),
        forall|i: int| 0 <= i < ls.len() ==> (#[trigger] ls[i]).len() > 0 && ls[i].last() != '\r',
    ensures
        lines_of(newline_terminated(ls)) =~= ls,
    decreases ls.len(),
{
    if ls.len() > 0 {
        let l = ls[0];
        let rest = ls.drop_first();
        let s = newline_terminated(ls);
        assert forall|i: int| 0 <= i < rest.len() implies !(#[trigger] rest[i]).contains('\n') by {
            assert(rest[i] == ls[i + 1]);
        }
        assert forall|i: int| 0 <= i < rest.len() implies (#[trigger] rest[i]).len() > 0 && rest[i].last() != '\r' by {
            assert(rest[i] == ls[i + 1]);
        }
        lemma_lines_of_terminated(rest);
        assert forall|j: int| 0 <= j < l.len() implies s[j] != '\n' by {
            assert(s[j] == l[j]);
            if s[j] == '\n' {
                assert(l.contains('\n'));
            }
        }
        assert(s[l.len() as int] == '\n');
        crate::util::lemma_find_char_at(s, '\n', l.len() as int);
        assert(s.take(l.len() as int) =~= l);
        assert(s.skip(l.len() + 1int) =~= newline_terminated(rest));
        assert(lines_of(s) =~= seq![l] + lines_of(newline_terminated(rest)));
    }
}

/// A key name that reads back as itself from a `NAME=` template line: one
/// line, not a comment and not starting with the `export ` keyword.
pub open spec fn survives_template(name: Seq<char>) -> bool {
    &&& !name.contains('\n')
    &&& name[0] != '#'
    &&& !(name.len() >= 7 && name.take(7) == export_prefix())
}

proof fn lemma_template_line(path: Seq<char>, idx: int, name: Seq<char>, keys: Seq<KeyView>, issues: Seq<IssueView>)
    requires
        is_key_name(name),
        survives_template(name),
        !names_of(keys).contains(name),
        0 <= idx,
    ensures
        names_of(parse_line(path, idx, name + seq!['='], keys, issues).0) =~= names_of(keys).push(name),
        parse_line(path, idx, name + seq!['='], keys, issues).0.drop_last() == keys,
        parse_line(path, idx, name + seq!['='], keys, issues).0.last().value == Some(Seq::<char>::empty()),
{
    let line = name + seq!['='];
    crate::util::lemma_trim_idempotent(name);
    assert(line[0] == name[0]);
    assert(!is_whitespace(line[0]));
    assert(trim_start(line) == line);
    assert(trim_end(line) == line);
    assert(trim(line) == line);
    if line.len() >= 7 {
        if name.len() >= 7 {
            assert(line.take(7) =~= name.take(7));
        } else {
            assert(line.take(7)[6] == '=');
            assert(export_prefix()[6] == ' ');
        }
    }
    assert(strip_export(line) == line);
    assert forall|j: int| 0 <= j < name.len() implies line[j] != '=' by {
        assert(line[j] == name[j]);
        if name[j] == '=' {
            assert(name.contains('='));
        }
    }
    crate::util::lemma_find_char_at(line, '=', name.len() as int);
    assert(line.take(name.len() as int) =~= name);
    let r = parse_line(path, idx, line, keys, issues);
    assert(names_of(r.0) =~= names_of(keys).push(name));
    assert(r.0.drop_last() =~= keys);
    let raw = line.skip(name.len() + 1int);
    assert(raw =~= Seq::<char>::empty());
    assert(trim(raw) =~= Seq::<char>::empty());
}

proof fn lemma_template_lines_parse(path: Seq<char>, keys: Seq<KeyView>, n: int)
    requires
        0 <= n <= keys.len(),
        well_formed_keys(keys),
        forall|j: int| 0 <= j < keys.len() ==> survives_template(#[trigger] keys[j].name),
    ensures
        names_of(parse_lines(path, template_lines(keys).take(n)).0) =~= names_of(keys).take(n),
        forall|j: int|
            0 <= j < parse_lines(path, template_lines(keys).take(n)).0.len() ==> (#[trigger] parse_lines(
                path,
                template_lines(keys).take(n),
            ).0[j]).value == Some(Seq::<char>::empty()),
    decreases n,
{
    if n > 0 {
        let ls = template_lines(keys).take(n);
        assert(ls.drop_last() =~= template_lines(keys).take(n - 1));
        lemma_template_lines_parse(path, keys, n - 1);
        let prev = parse_lines(path, ls.drop_last());
        let name = keys[n - 1].name;
        assert(!names_of(keys).take(n - 1).contains(name)) by {
            if names_of(keys).take(n - 1).contains(name) {
                let k = choose|k: int| 0 <= k < n - 1 && #[trigger] names_of(keys).take(n - 1)[k] == name;
                assert(names_of(keys)[k] == names_of(keys)[n - 1]);
            }
        }
        assert(ls.last() == name + seq!['=']);
        lemma_template_line(path, n - 1, name, prev.0, prev.1);
        assert(names_of(keys).take(n) =~= names_of(keys).take(n - 1).push(name));
        let nk = parse_lines(path, ls).0;
        assert forall|j: int| 0 <= j < nk.len() implies (#[trigger] nk[j]).value == Some(Seq::<char>::empty()) by {
            if j < nk.len() - 1 {
                assert(nk[j] == nk.drop_last()[j]);
                assert(nk.drop_last()[j] == prev.0[j]);
            }
        }
    }
}

/// Generating a template and reading it back gives the same key names in the
/// same order, every value empty, for keys as the parser produces them whose
/// names fit on a template line: not starting with `#` or `export `.
pub proof fn law_template_round_trip(path: Seq<char>, keys: Seq<KeyView>)
    requires
        well_formed_keys(keys),
        forall|j: int| 0 <= j < keys.len() ==> survives_template(#[trigger] keys[j].name),
    ensures
        names_of(parse_file_spec(path, template_text_spec(keys)).keys) == names_of(keys),
        forall|j: int|
            0 <= j < parse_file_spec(path, template_text_spec(keys)).keys.len() ==> (#[trigger] parse_file_spec(
                path,
                template_text_spec(keys),
            ).keys[j]).value == Some(Seq::<char>::empty()),
{
    let ls = template_lines(keys);
    if keys.len() == 0 {
        assert(lines_of(Seq::<char>::empty()) =~= Seq::<Seq<char>>::empty());
        assert(names_of(keys) =~= Seq::<Seq<char>>::empty());
        assert(names_of(parse_lines(path, Seq::<Seq<char>>::empty()).0) =~= Seq::<Seq<char>>::empty());
    } else {
        lemma_join_terminated(ls);
        assert forall|i: int| 0 <= i < ls.len() implies !(#[trigger] ls[i]).contains('\n') by {
            let nm = keys[i].name;
            assert(ls[i] == nm + seq!['=']);
            if ls[i].contains('\n') {
                let k = choose|k: int| 0 <= k < ls[i].len() && ls[i][k] == '\n';
                assert(k < nm.len());
                assert(nm[k] == '\n');
                assert(nm.contains('\n'));
            }
        }
        assert forall|i: int| 0 <= i < ls.len() implies (#[trigger] ls[i]).len() > 0 && ls[i].last() != '\r' by {
            assert(ls[i] == keys[i].name + seq!['=']);
        }
        lemma_lines_of_terminated(ls);
        lemma_template_lines_parse(path, keys, keys.len() as int);
        assert(ls.take(keys.len() as int) =~= ls);
        assert(names_of(keys).take(keys.len() as int) =~= names_of(keys));
    }
}

} // verus!
