//! The configuration file: a TOML document whose only table is `[defaults]`,
//! checked key by key. Unknown keys and values of the wrong type are errors.
use vstd::prelude::*;

use super::defaults::{Defaults, DefaultsView, default_settings};
use super::document::{TomlValue, kind_name, parse_document, toml_document, value_kind};
use crate::util::{concat2, concat3, join, join_strings, text, trim};

verus! {

#[derive(Debug, Clone, PartialEq, Eq)]
pub struct ConfigError {
    pub path: String,
    pub issues: Vec<String>,
}

#[derive(Debug, Clone, PartialEq, Eq)]
pub struct ConfigFile {
    pub path: String,
    pub defaults: Defaults,
}

/// What reading the configuration file gave: nothing (there is no such file),
/// an error message, or its text.
pub enum ConfigSource {
    Missing,
    Unreadable(String),
    Text(String),
}

/// Mathematical picture of a [`ConfigError`].
pub struct ConfigErrorView {
    pub path: Seq<char>,
    pub issues: Seq<Seq<char>>,
}

/// Mathematical picture of a [`ConfigFile`].
pub struct ConfigFileView {
    pub path: Seq<char>,
    pub defaults: DefaultsView,
}

impl View for ConfigError {
    type V = ConfigErrorView;

    open spec fn view(&self) -> ConfigErrorView {
        ConfigErrorView { path: self.path@, issues: self.issues.deep_view() }
    }
}

impl View for ConfigFile {
    type V = ConfigFileView;

    open spec fn view(&self) -> ConfigFileView {
        ConfigFileView { path: self.path@, defaults: self.defaults@ }
    }
}

pub open spec fn config_result_view(r: Result<ConfigFile, ConfigError>) -> Result<
    ConfigFileView,
    ConfigErrorView,
> {
    match r {
        Ok(c) => Ok(c@),
        Err(e) => Err(e@),
    }
}

/// A parse outcome with its error message taken by its view.
pub open spec fn document_view(document: Result<TomlValue, String>) -> Result<TomlValue, Seq<char>> {
    match document {
        Ok(v) => Ok(v),
        Err(e) => Err(e@),
    }
}

/// Issues for the top-level keys other than `defaults`, in entry order.
pub open spec fn top_level_issues(entries: Seq<(String, TomlValue)>) -> Seq<Seq<char>>
    decreases entries.len(),
{
    if entries.len() == 0 {
        Seq::empty()
    } else {
        let rest = top_level_issues(entries.drop_last());
        let key = entries.last().0@;
        if key != "defaults"@ {
            rest.push("Unknown top-level key `"@ + key + "`"@)
        } else {
            rest
        }
    }
}

/// The value of the first entry called `key`.
pub open spec fn entry_value(entries: Seq<(String, TomlValue)>, key: Seq<char>) -> Option<TomlValue>
    decreases entries.len(),
{
    if entries.len() == 0 {
        None
    } else if entries[0].0@ == key {
        Some(entries[0].1)
    } else {
        entry_value(entries.drop_first(), key)
    }
}

/// The non-blank strings of `items`, with an issue for each item that is
/// blank or not a string.
pub open spec fn path_items(items: Seq<TomlValue>, field: Seq<char>, issues: Seq<Seq<char>>) -> (
    Seq<Seq<char>>,
    Seq<Seq<char>>,
)
    decreases items.len(),
{
    if items.len() == 0 {
        (Seq::empty(), issues)
    } else {
        let prev = path_items(items.drop_last(), field, issues);
        match items.last() {
            TomlValue::String(s) => if trim(s@).len() > 0 {
                (prev.0.push(s@), prev.1)
            } else {
                (prev.0, prev.1.push("`"@ + field + "` cannot contain empty strings"@))
            },
            other => (prev.0, prev.1.push("`"@ + field + "` must contain only strings, got "@ + kind_name(other))),
        }
    }
}

/// A list of paths read from `value`, which must be an array of non-blank strings.
pub open spec fn path_list_spec(value: TomlValue, field: Seq<char>, issues: Seq<Seq<char>>) -> (
    Seq<Seq<char>>,
    Seq<Seq<char>>,
) {
    match value {
        TomlValue::Array(items) => path_items(items@, field, issues),
        _ => (Seq::empty(), issues.push("`"@ + field + "` must be an array of strings, got "@ + kind_name(value))),
    }
}

/// What the entry `key = value` of `[defaults]` does to the settings and issues.
pub open spec fn apply_entry(key: Seq<char>, value: TomlValue, d: DefaultsView, issues: Seq<Seq<char>>) -> (
    DefaultsView,
    Seq<Seq<char>>,
) {
    if key == "strict"@ {
        match value {
            TomlValue::Boolean(b) => (DefaultsView { strict: b, ..d }, issues),
            _ => (d, issues.push("`defaults.strict` must be a boolean, got "@ + kind_name(value))),
        }
    } else if key == "template_file"@ {
        match value {
            TomlValue::String(s) => if trim(s@).len() > 0 {
                (DefaultsView { template_file: Some(s@), ..d }, issues)
            } else {
                (d, issues.push("`defaults.template_file` cannot be empty"@))
            },
            _ => (d, issues.push("`defaults.template_file` must be a string, got "@ + kind_name(value))),
        }
    } else if key == "target_files"@ {
        let r = path_list_spec(value, "defaults.target_files"@, issues);
        (DefaultsView { target_files: r.0, ..d }, r.1)
    } else if key == "ignore_directories"@ {
        let r = path_list_spec(value, "defaults.ignore_directories"@, issues);
        (DefaultsView { ignore_directories: r.0, ..d }, r.1)
    } else {
        (d, issues.push("Unknown key `defaults."@ + key + "`"@))
    }
}

/// The entries of `[defaults]` applied in order.
pub open spec fn apply_entries(entries: Seq<(String, TomlValue)>, d: DefaultsView, issues: Seq<Seq<char>>) -> (
    DefaultsView,
    Seq<Seq<char>>,
)
    decreases entries.len(),
{
    if entries.len() == 0 {
        (d, issues)
    } else {
        let prev = apply_entries(entries.drop_last(), d, issues);
        apply_entry(entries.last().0@, entries.last().1, prev.0, prev.1)
    }
}

/// The settings a configuration document gives, or the issues found in it.
pub open spec fn settings_from_document(document: Result<TomlValue, Seq<char>>) -> Result<
    DefaultsView,
    Seq<Seq<char>>,
> {
    match document {
        Err(message) => Err(seq!["Invalid TOML: "@ + message]),
        Ok(TomlValue::Table(entries)) => {
            let issues = top_level_issues(entries@);
            match entry_value(entries@, "defaults"@) {
                None => Err(issues.push("Missing [defaults] table"@)),
                Some(TomlValue::Table(table)) => {
                    let r = apply_entries(table@, default_settings(), issues);
                    if r.1.len() == 0 {
                        Ok(r.0)
                    } else {
                        Err(r.1)
                    }
                },
                Some(_) => Err(issues.push("`defaults` must be a table"@)),
            }
        },
        Ok(_) => Err(seq!["Config root must be a TOML table"@]),
    }
}

/// The configuration at `path` read from a parsed document.
pub open spec fn config_from_document(path: Seq<char>, document: Result<TomlValue, Seq<char>>) -> Result<
    ConfigFileView,
    ConfigErrorView,
> {
    match settings_from_document(document) {
        Ok(d) => Ok(ConfigFileView { path, defaults: d }),
        Err(issues) => Err(ConfigErrorView { path, issues }),
    }
}

/// The configuration at `path` given what reading that file gave.
pub open spec fn config_from_source(path: Seq<char>, source: ConfigSource) -> Result<ConfigFileView, ConfigErrorView> {
    match source {
        ConfigSource::Missing => Ok(ConfigFileView { path, defaults: default_settings() }),
        ConfigSource::Unreadable(e) => Err(ConfigErrorView { path, issues: seq!["Failed to read config: "@ + e@] }),
        ConfigSource::Text(contents) => config_from_document(path, toml_document(contents@)),
    }
}

impl ConfigError {
    fn new(path: String, issues: Vec<String>) -> (e: Self)
        ensures
            e.path == path,
            e.issues == issues,
    {
        ConfigError { path, issues }
    }

    /// The error as shown to users: the path, then the issues separated by `; `.
    pub fn message(&self) -> (m: String)
        ensures
            m@ == self.path@ + ": "@ + join(self.issues.deep_view(), "; "@),
    {
        let issues = join_strings(&self.issues, "; ");
        concat3(self.path.as_str(), ": ", issues.as_str())
    }
}

fn single_issue(message: String) -> (v: Vec<String>)
    ensures
        v.deep_view() == seq![message@],
{
    let mut v: Vec<String> = Vec::new();
    v.push(message);
    assert(v.deep_view() =~= seq![message@]);
    v
}

fn push_issue(issues: &mut Vec<String>, message: String)
    ensures
        final(issues).deep_view() == old(issues).deep_view().push(message@),
{
    let ghost before = issues.deep_view();
    issues.push(message);
    assert(issues.deep_view() =~= before.push(message@));
}

fn is_blank(s: &String) -> (b: bool)
    ensures
        b == (trim(s@).len() == 0),
{
    let chars = crate::util::chars_of(s.as_str());
    let (a, b) = crate::util::trim_bounds(&chars, 0, chars.len());
    assert(chars@.subrange(0, chars@.len() as int) =~= s@);
    a == b
}

/// Reads a list of paths from `value` into a vector, recording an issue for
/// each thing that is not a non-blank string.
fn parse_path_list(value: &TomlValue, field_name: &str, issues: &mut Vec<String>) -> (paths: Vec<String>)
    ensures
        (paths.deep_view(), final(issues).deep_view()) == path_list_spec(
            *value,
            field_name@,
            old(issues).deep_view(),
        ),
{
    match value {
        TomlValue::Array(items) => {
            let ghost base = issues.deep_view();
            let ghost all = items@;
            let mut paths: Vec<String> = Vec::new();
            let mut i: usize = 0;
            while i < items.len()
                invariant
                    i <= items.len(),
                    all == items@,
                    (paths.deep_view(), issues.deep_view()) == path_items(all.take(i as int), field_name@, base),
                decreases items.len() - i,
            {
                assert(all.take(i + 1).drop_last() =~= all.take(i as int));
                match &items[i] {
                    TomlValue::String(s) => {
                        if !is_blank(s) {
                            let ghost before = paths.deep_view();
                            paths.push(s.clone());
                            assert(paths.deep_view() =~= before.push(s@));
                        } else {
                            push_issue(issues, concat3("`", field_name, "` cannot contain empty strings"));
                        }
                    },
                    other => {
                        let m = concat2(
                            concat3("`", field_name, "` must contain only strings, got ").as_str(),
                            value_kind(other),
                        );
                        push_issue(issues, m);
                    },
                }
                i += 1;
            }
            assert(all.take(items.len() as int) =~= all);
            paths
        },
        _ => {
            let m = concat2(
                concat3("`", field_name, "` must be an array of strings, got ").as_str(),
                value_kind(value),
            );
            push_issue(issues, m);
            let paths: Vec<String> = Vec::new();
            assert(paths.deep_view() =~= Seq::<Seq<char>>::empty());
            paths
        },
    }
}

/// Applies the entries of the `[defaults]` table to `defaults`, recording an
/// issue for each unknown key and each value of the wrong type.
fn apply_defaults_table(table: &Vec<(String, TomlValue)>, defaults: &mut Defaults, issues: &mut Vec<String>)
    ensures
        (final(defaults)@, final(issues).deep_view()) == apply_entries(
            table@,
            old(defaults)@,
            old(issues).deep_view(),
        ),
{
    let ghost d0 = defaults@;
    let ghost i0 = issues.deep_view();
    let mut i: usize = 0;
    while i < table.len()
        invariant
            i <= table.len(),
            (defaults@, issues.deep_view()) == apply_entries(table@.take(i as int), d0, i0),
        decreases table.len() - i,
    {
        assert(table@.take(i + 1).drop_last() =~= table@.take(i as int));
        let key = &table[i].0;
        let value = &table[i].1;
        let k = key.as_str();
        if *key == text("strict") {
            match value {
                TomlValue::Boolean(b) => {
                    defaults.strict = *b;
                },
                _ => {
                    push_issue(issues, concat2("`defaults.strict` must be a boolean, got ", value_kind(value)));
                },
            }
        } else if *key == text("template_file") {
            match value {
                TomlValue::String(s) => {
                    if !is_blank(s) {
                        defaults.template_file = Some(s.clone());
                    } else {
                        push_issue(issues, text("`defaults.template_file` cannot be empty"));
                    }
                },
                _ => {
                    push_issue(
                        issues,
                        concat2("`defaults.template_file` must be a string, got ", value_kind(value)),
                    );
                },
            }
        } else if *key == text("target_files") {
            defaults.target_files = parse_path_list(value, "defaults.target_files", issues);
        } else if *key == text("ignore_directories") {
            defaults.ignore_directories = parse_path_list(value, "defaults.ignore_directories", issues);
        } else {
            push_issue(issues, concat3("Unknown key `defaults.", k, "`"));
        }
        i += 1;
    }
    assert(table@.take(table.len() as int) =~= table@);
}

impl ConfigFile {
    /// Reads the configuration from its TOML text.
    pub fn from_str(path: &str, contents: &str) -> (r: Result<ConfigFile, ConfigError>)
        ensures
            config_result_view(r) == config_from_document(path@, toml_document(contents@)),
    {
        let document = parse_document(contents);
        assert(document_view(document) == toml_document(contents@));
        ConfigFile::from_document(path, document)
    }

    /// Reads the configuration from a parsed TOML document, or from the error
    /// message of a document that did not parse.
    pub fn from_document(path: &str, document: Result<TomlValue, String>) -> (r: Result<ConfigFile, ConfigError>)
        ensures
            config_result_view(r) == config_from_document(path@, document_view(document)),
    {
        let path = text(path);
        let entries = match document {
            Err(message) => {
                let issue = concat2("Invalid TOML: ", message.as_str());
                return Err(ConfigError::new(path, single_issue(issue)));
            },
            Ok(TomlValue::Table(entries)) => entries,
            Ok(_) => {
                return Err(ConfigError::new(path, single_issue(text("Config root must be a TOML table"))));
            },
        };
        let ghost all = entries@;
        let mut issues: Vec<String> = Vec::new();
        let mut i: usize = 0;
        while i < entries.len()
            invariant
                i <= entries.len(),
                all == entries@,
                issues.deep_view() == top_level_issues(all.take(i as int)),
            decreases entries.len() - i,
        {
            assert(all.take(i + 1).drop_last() =~= all.take(i as int));
            if entries[i].0 != text("defaults") {
                push_issue(&mut issues, concat3("Unknown top-level key `", entries[i].0.as_str(), "`"));
            }
            i += 1;
        }
        assert(all.take(entries.len() as int) =~= all);
        let mut j: usize = 0;
        let defaults_key = text("defaults");
        assert(all.skip(0) =~= all);
        while j < entries.len() && entries[j].0 != defaults_key
            invariant
                j <= entries.len(),
                all == entries@,
                defaults_key@ == "defaults"@,
                entry_value(all, "defaults"@) == entry_value(all.skip(j as int), "defaults"@),
            decreases entries.len() - j,
        {
            assert(all.skip(j as int).drop_first() =~= all.skip(j + 1));
            j += 1;
        }
        assert(j == entries.len() ==> all.skip(j as int) =~= Seq::<(String, TomlValue)>::empty());
        if j == entries.len() {
            push_issue(&mut issues, text("Missing [defaults] table"));
            return Err(ConfigError::new(path, issues));
        }
        match &entries[j].1 {
            TomlValue::Table(table) => {
                let mut defaults = Defaults::default();
                apply_defaults_table(table, &mut defaults, &mut issues);
                if issues.len() == 0 {
                    Ok(ConfigFile { path, defaults })
                } else {
                    Err(ConfigError::new(path, issues))
                }
            },
            _ => {
                push_issue(&mut issues, text("`defaults` must be a table"));
                Err(ConfigError::new(path, issues))
            },
        }
    }

    /// The configuration at `path` given what reading that file gave: the
    /// default settings when there is no file, an error when it could not be
    /// read, and otherwise the settings its text holds.
    pub fn from_source(path: &str, source: ConfigSource) -> (r: Result<ConfigFile, ConfigError>)
        ensures
            config_result_view(r) == config_from_source(path@, source),
    {
        match source {
            ConfigSource::Missing => Ok(ConfigFile { path: text(path), defaults: Defaults::default() }),
            ConfigSource::Unreadable(e) => {
                let issue = concat2("Failed to read config: ", e.as_str());
                Err(ConfigError::new(text(path), single_issue(issue)))
            },
            ConfigSource::Text(contents) => ConfigFile::from_str(path, contents.as_str()),
        }
    }
}

/// An array of non-blank strings: the only value a path list accepts.
pub open spec fn is_path_array(value: TomlValue) -> bool {
    match value {
        TomlValue::Array(items) => forall|j: int|
            0 <= j < items@.len() ==> match #[trigger] items@[j] {
                TomlValue::String(s) => trim(s@).len() > 0,
                _ => false,
            },
        _ => false,
    }
}

/// A `[defaults]` entry that the rules accept: a known key whose value has the right type.
pub open spec fn is_valid_entry(key: Seq<char>, value: TomlValue) -> bool {
    if key == "strict"@ {
        value is Boolean
    } else if key == "template_file"@ {
        match value {
            TomlValue::String(s) => trim(s@).len() > 0,
            _ => false,
        }
    } else if key == "target_files"@ || key == "ignore_directories"@ {
        is_path_array(value)
    } else {
        false
    }
}

proof fn lemma_top_level_issues(entries: Seq<(String, TomlValue)>)
    ensures
        top_level_issues(entries).len() == 0 ==> forall|j: int|
            0 <= j < entries.len() ==> (#[trigger] entries[j]).0@ == "defaults"@,
    decreases entries.len(),
{
    if entries.len() > 0 {
        lemma_top_level_issues(entries.drop_last());
        if top_level_issues(entries).len() == 0 {
            assert forall|j: int| 0 <= j < entries.len() implies (#[trigger] entries[j]).0@ == "defaults"@ by {
                if j < entries.len() - 1 {
                    assert(entries.drop_last()[j] == entries[j]);
                }
            }
        }
    }
}

proof fn lemma_path_items(items: Seq<TomlValue>, field: Seq<char>, issues: Seq<Seq<char>>)
    ensures
        path_items(items, field, issues).1.len() >= issues.len(),
        path_items(items, field, issues).1.len() == issues.len() ==> forall|j: int|
            0 <= j < items.len() ==> match #[trigger] items[j] {
                TomlValue::String(s) => trim(s@).len() > 0,
                _ => false,
            },
    decreases items.len(),
{
    if items.len() > 0 {
        let init = items.drop_last();
        lemma_path_items(init, field, issues);
        if path_items(items, field, issues).1.len() == issues.len() {
            assert forall|j: int| 0 <= j < items.len() implies match #[trigger] items[j] {
                TomlValue::String(s) => trim(s@).len() > 0,
                _ => false,
            } by {
                if j < items.len() - 1 {
                    assert(init[j] == items[j]);
                }
            }
        }
    }
}

proof fn lemma_apply_entries(entries: Seq<(String, TomlValue)>, d: DefaultsView, issues: Seq<Seq<char>>)
    ensures
        apply_entries(entries, d, issues).1.len() >= issues.len(),
        apply_entries(entries, d, issues).1.len() == issues.len() ==> forall|j: int|
            0 <= j < entries.len() ==> is_valid_entry((#[trigger] entries[j]).0@, entries[j].1),
    decreases entries.len(),
{
    if entries.len() > 0 {
        let init = entries.drop_last();
        lemma_apply_entries(init, d, issues);
        let prev = apply_entries(init, d, issues);
        let key = entries.last().0@;
        let value = entries.last().1;
        match value {
            TomlValue::Array(items) => {
                lemma_path_items(items@, "defaults.target_files"@, prev.1);
                lemma_path_items(items@, "defaults.ignore_directories"@, prev.1);
            },
            _ => {},
        }
        if apply_entries(entries, d, issues).1.len() == issues.len() {
            assert(is_valid_entry(key, value));
            assert forall|j: int| 0 <= j < entries.len() implies is_valid_entry(
                (#[trigger] entries[j]).0@,
                entries[j].1,
            ) by {
                if j < entries.len() - 1 {
                    assert(init[j] == entries[j]);
                }
            }
        }
    }
}

/// A configuration document that the rules accept: a table whose only key is
/// `defaults`, a table whose every entry is one of `strict` (a boolean),
/// `template_file` (a non-blank string), `target_files` or
/// `ignore_directories` (arrays of non-blank strings).
pub open spec fn is_valid_config_document(document: Result<TomlValue, Seq<char>>) -> bool {
    document matches Ok(TomlValue::Table(entries)) && (forall|j: int|
        0 <= j < entries@.len() ==> (#[trigger] entries@[j]).0@ == "defaults"@) && (entry_value(
        entries@,
        "defaults"@,
    ) matches Some(TomlValue::Table(table)) && forall|j: int|
        0 <= j < table@.len() ==> is_valid_entry((#[trigger] table@[j]).0@, table@[j].1))
}

proof fn lemma_top_level_issues_none(entries: Seq<(String, TomlValue)>)
    requires
        forall|j: int| 0 <= j < entries.len() ==> (#[trigger] entries[j]).0@ == "defaults"@,
    ensures
        top_level_issues(entries).len() == 0,
    decreases entries.len(),
{
    if entries.len() > 0 {
        let init = entries.drop_last();
        assert forall|j: int| 0 <= j < init.len() implies (#[trigger] init[j]).0@ == "defaults"@ by {
            assert(init[j] == entries[j]);
        }
        lemma_top_level_issues_none(init);
        assert(entries.last() == entries[entries.len() - 1]);
    }
}

proof fn lemma_path_items_none(items: Seq<TomlValue>, field: Seq<char>, issues: Seq<Seq<char>>)
    requires
        forall|j: int|
            0 <= j < items.len() ==> match #[trigger] items[j] {
                TomlValue::String(s) => trim(s@).len() > 0,
                _ => false,
            },
    ensures
        path_items(items, field, issues).1 == issues,
    decreases items.len(),
{
    if items.len() > 0 {
        let init = items.drop_last();
        assert forall|j: int| 0 <= j < init.len() implies match #[trigger] init[j] {
            TomlValue::String(s) => trim(s@).len() > 0,
            _ => false,
        } by {
            assert(init[j] == items[j]);
        }
        lemma_path_items_none(init, field, issues);
        assert(items.last() == items[items.len() - 1]);
    }
}

proof fn lemma_apply_entries_none(entries: Seq<(String, TomlValue)>, d: DefaultsView, issues: Seq<Seq<char>>)
    requires
        forall|j: int| 0 <= j < entries.len() ==> is_valid_entry((#[trigger] entries[j]).0@, entries[j].1),
    ensures
        apply_entries(entries, d, issues).1 == issues,
    decreases entries.len(),
{
    if entries.len() > 0 {
        let init = entries.drop_last();
        assert forall|j: int| 0 <= j < init.len() implies is_valid_entry((#[trigger] init[j]).0@, init[j].1) by {
            assert(init[j] == entries[j]);
        }
        lemma_apply_entries_none(init, d, issues);
        let prev = apply_entries(init, d, issues);
        assert(entries.last() == entries[entries.len() - 1]);
        let key = entries.last().0@;
        let value = entries.last().1;
        assert(is_valid_entry(key, value));
        match value {
            TomlValue::Array(items) => {
                lemma_path_items_none(items@, "defaults.target_files"@, prev.1);
                lemma_path_items_none(items@, "defaults.ignore_directories"@, prev.1);
            },
            _ => {},
        }
    }
}

/// Unknown keys and values of the wrong type are configuration errors: a
/// document is accepted exactly when it is a table whose only key is
/// `defaults`, and every entry of that table is one of `strict` (a boolean),
/// `template_file` (a non-blank string), `target_files` or
/// `ignore_directories` (arrays of non-blank strings).
pub proof fn law_config_accepted_exactly_when_valid(document: Result<TomlValue, Seq<char>>)
    ensures
        settings_from_document(document) is Ok <==> is_valid_config_document(document),
{
    match document {
        Ok(TomlValue::Table(entries)) => {
            let issues = top_level_issues(entries@);
            match entry_value(entries@, "defaults"@) {
                Some(TomlValue::Table(table)) => {
                    lemma_apply_entries(table@, default_settings(), issues);
                    lemma_top_level_issues(entries@);
                    if is_valid_config_document(document) {
                        lemma_top_level_issues_none(entries@);
                        lemma_apply_entries_none(table@, default_settings(), issues);
                    }
                },
                _ => {},
            }
        },
        _ => {},
    }
}

/// The value of the last entry called `key`, if there is one.
pub open spec fn last_entry(entries: Seq<(String, TomlValue)>, key: Seq<char>) -> Option<TomlValue>
    decreases entries.len(),
{
    if entries.len() == 0 {
        None
    } else if entries.last().0@ == key {
        Some(entries.last().1)
    } else {
        last_entry(entries.drop_last(), key)
    }
}

/// `items` are strings, and `texts` are their texts, item by item.
pub open spec fn strings_are(items: Seq<TomlValue>, texts: Seq<Seq<char>>) -> bool {
    &&& items.len() == texts.len()
    &&& forall|k: int|
        0 <= k < items.len() ==> match #[trigger] items[k] {
            TomlValue::String(s) => s@ == texts[k],
            _ => false,
        }
}

/// The settings `d` are `base` with each key set from the last entry that
/// names it: `strict` to its boolean, `template_file` to its string, and the
/// path lists to the strings of their arrays, in order.
pub open spec fn settings_follow_entries(entries: Seq<(String, TomlValue)>, base: DefaultsView, d: DefaultsView) -> bool {
    &&& match last_entry(entries, "strict"@) {
        None => d.strict == base.strict,
        Some(v) => v == TomlValue::Boolean(d.strict),
    }
    &&& match last_entry(entries, "template_file"@) {
        None => d.template_file == base.template_file,
        Some(TomlValue::String(s)) => d.template_file == Some(s@),
        Some(_) => false,
    }
    &&& match last_entry(entries, "target_files"@) {
        None => d.target_files == base.target_files,
        Some(TomlValue::Array(items)) => strings_are(items@, d.target_files),
        Some(_) => false,
    }
    &&& match last_entry(entries, "ignore_directories"@) {
        None => d.ignore_directories == base.ignore_directories,
        Some(TomlValue::Array(items)) => strings_are(items@, d.ignore_directories),
        Some(_) => false,
    }
}

proof fn lemma_path_items_strings(items: Seq<TomlValue>, field: Seq<char>, issues: Seq<Seq<char>>)
    requires
        forall|j: int|
            0 <= j < items.len() ==> match #[trigger] items[j] {
                TomlValue::String(s) => trim(s@).len() > 0,
                _ => false,
            },
    ensures
        strings_are(items, path_items(items, field, issues).0),
    decreases items.len(),
{
    if items.len() > 0 {
        let init = items.drop_last();
        assert forall|j: int| 0 <= j < init.len() implies match #[trigger] init[j] {
            TomlValue::String(s) => trim(s@).len() > 0,
            _ => false,
        } by {
            assert(init[j] == items[j]);
        }
        lemma_path_items_strings(init, field, issues);
        let prev = path_items(init, field, issues);
        assert(items.last() == items[items.len() - 1]);
        let r = path_items(items, field, issues).0;
        assert forall|k: int| 0 <= k < items.len() implies match #[trigger] items[k] {
            TomlValue::String(s) => s@ == r[k],
            _ => false,
        } by {
            if k < init.len() {
                assert(init[k] == items[k]);
            }
        }
    }
}

proof fn lemma_apply_entries_follow(entries: Seq<(String, TomlValue)>, d: DefaultsView, issues: Seq<Seq<char>>)
    requires
        forall|j: int| 0 <= j < entries.len() ==> is_valid_entry((#[trigger] entries[j]).0@, entries[j].1),
    ensures
        settings_follow_entries(entries, d, apply_entries(entries, d, issues).0),
    decreases entries.len(),
{
    if entries.len() > 0 {
        let init = entries.drop_last();
        assert forall|j: int| 0 <= j < init.len() implies is_valid_entry((#[trigger] init[j]).0@, init[j].1) by {
            assert(init[j] == entries[j]);
        }
        lemma_apply_entries_follow(init, d, issues);
        assert(entries.last() == entries[entries.len() - 1]);
        let prev = apply_entries(init, d, issues);
        let key = entries.last().0@;
        let value = entries.last().1;
        assert(is_valid_entry(key, value));
        reveal_strlit("strict");
        reveal_strlit("template_file");
        reveal_strlit("target_files");
        reveal_strlit("ignore_directories");
        let r = apply_entries(entries, d, issues).0;
        assert(r == apply_entry(key, value, prev.0, prev.1).0);
        assert(last_entry(entries, key) == Some(value));
        assert forall|other: Seq<char>| other != key implies last_entry(entries, other) == last_entry(
            init,
            other,
        ) by {}
        match value {
            TomlValue::Array(items) => {
                lemma_path_items_strings(items@, "defaults.target_files"@, prev.1);
                lemma_path_items_strings(items@, "defaults.ignore_directories"@, prev.1);
            },
            _ => {},
        }
        if key == "strict"@ {
            assert(last_entry(entries, "template_file"@) == last_entry(init, "template_file"@));
            assert(last_entry(entries, "target_files"@) == last_entry(init, "target_files"@));
            assert(last_entry(entries, "ignore_directories"@) == last_entry(init, "ignore_directories"@));
        } else if key == "template_file"@ {
            assert(last_entry(entries, "strict"@) == last_entry(init, "strict"@));
            assert(last_entry(entries, "target_files"@) == last_entry(init, "target_files"@));
            assert(last_entry(entries, "ignore_directories"@) == last_entry(init, "ignore_directories"@));
        } else if key == "target_files"@ {
            assert(last_entry(entries, "strict"@) == last_entry(init, "strict"@));
            assert(last_entry(entries, "template_file"@) == last_entry(init, "template_file"@));
            assert(last_entry(entries, "ignore_directories"@) == last_entry(init, "ignore_directories"@));
        } else {
            assert(key == "ignore_directories"@);
            assert(last_entry(entries, "strict"@) == last_entry(init, "strict"@));
            assert(last_entry(entries, "template_file"@) == last_entry(init, "template_file"@));
            assert(last_entry(entries, "target_files"@) == last_entry(init, "target_files"@));
        }
    }
}

/// An accepted configuration gives exactly what its `[defaults]` table says:
/// `strict` is the boolean of its `strict` entry (false without one),
/// `template_file` the string of its entry (none without one), and the path
/// lists the strings of their arrays, in order (no target files and the
/// default ignored directories without them).
pub proof fn law_accepted_settings_follow_the_table(document: Result<TomlValue, Seq<char>>)
    requires
        settings_from_document(document) is Ok,
    ensures
        document matches Ok(TomlValue::Table(entries)) && (entry_value(entries@, "defaults"@) matches Some(
            TomlValue::Table(table),
        ) && settings_follow_entries(table@, default_settings(), settings_from_document(document)->Ok_0)),
{
    law_config_accepted_exactly_when_valid(document);
    match document {
        Ok(TomlValue::Table(entries)) => {
            let issues = top_level_issues(entries@);
            match entry_value(entries@, "defaults"@) {
                Some(TomlValue::Table(table)) => {
                    lemma_apply_entries_follow(table@, default_settings(), issues);
                },
                _ => {},
            }
        },
        _ => {},
    }
}


} // verus!
