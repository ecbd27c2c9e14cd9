//! Sorting the issues of a parsed env file into errors and warnings.
use vstd::prelude::*;

use super::model::{EnvFile, EnvFileView, IssueView, KeyView, ParseIssueKind, empty_key_names, value_is_empty};
use crate::util::concat2;

verus! {

#[derive(Debug, Clone, PartialEq, Eq)]
pub struct ValidationResult {
    pub errors: Vec<String>,
    pub warnings: Vec<String>,
}

/// Mathematical picture of a [`ValidationResult`].
pub struct ValidationView {
    pub errors: Seq<Seq<char>>,
    pub warnings: Seq<Seq<char>>,
}

impl View for ValidationResult {
    type V = ValidationView;

    open spec fn view(&self) -> ValidationView {
        ValidationView { errors: self.errors.deep_view(), warnings: self.warnings.deep_view() }
    }
}

/// Malformed lines and duplicate keys are errors; the other issues are warnings.
pub open spec fn is_error_kind(kind: ParseIssueKind) -> bool {
    kind == ParseIssueKind::MalformedLine || kind == ParseIssueKind::DuplicateKey
}

/// Messages of the issues whose kind is (or is not, when `errors` is false) an error kind.
pub open spec fn issue_messages(issues: Seq<IssueView>, errors: bool) -> Seq<Seq<char>>
    decreases issues.len(),
{
    if issues.len() == 0 {
        Seq::empty()
    } else {
        let rest = issue_messages(issues.drop_last(), errors);
        if is_error_kind(issues.last().kind) == errors {
            rest.push(issues.last().message)
        } else {
            rest
        }
    }
}

pub open spec fn empty_value_message(name: Seq<char>) -> Seq<char> {
    "Empty value for key: "@ + name
}

/// `warnings` followed by an empty-value warning for each of `names` that is not there yet.
pub open spec fn add_empty_warnings(warnings: Seq<Seq<char>>, names: Seq<Seq<char>>) -> Seq<Seq<char>>
    decreases names.len(),
{
    if names.len() == 0 {
        warnings
    } else {
        let w = add_empty_warnings(warnings, names.drop_last());
        let m = empty_value_message(names.last());
        if w.contains(m) {
            w
        } else {
            w.push(m)
        }
    }
}

/// The errors and warnings of a parsed env file.
pub open spec fn validate_spec(file: EnvFileView) -> ValidationView {
    ValidationView {
        errors: issue_messages(file.issues, true),
        warnings: add_empty_warnings(issue_messages(file.issues, false), empty_key_names(file.keys)),
    }
}

/// Sorts the file's issues into errors (malformed lines, duplicate keys) and
/// warnings (missing quotes, empty values), then warns once more for each key
/// with an empty value that has no such warning yet.
pub fn validate(file: &EnvFile) -> (r: ValidationResult)
    ensures
        r@ == validate_spec(file@),
{
    let ghost issues = file@.issues;
    let mut errors: Vec<String> = Vec::new();
    let mut warnings: Vec<String> = Vec::new();
    let mut i: usize = 0;
    while i < file.issues.len()
        invariant
            i <= file.issues.len(),
            issues == file@.issues,
            errors.deep_view() == issue_messages(issues.take(i as int), true),
            warnings.deep_view() == issue_messages(issues.take(i as int), false),
        decreases file.issues.len() - i,
    {
        assert(issues.take(i + 1).drop_last() =~= issues.take(i as int));
        let issue = &file.issues[i];
        let ghost eb = errors.deep_view();
        let ghost wb = warnings.deep_view();
        match issue.kind {
            ParseIssueKind::MalformedLine | ParseIssueKind::DuplicateKey => {
                errors.push(issue.message.clone());
                assert(errors.deep_view() =~= eb.push(issues[i as int].message));
            },
            ParseIssueKind::MissingQuotes | ParseIssueKind::EmptyValue => {
                warnings.push(issue.message.clone());
                assert(warnings.deep_view() =~= wb.push(issues[i as int].message));
            },
        }
        i += 1;
    }
    assert(issues.take(file.issues.len() as int) =~= issues);
    let ghost base = warnings.deep_view();
    let empty = file.empty_keys();
    let ghost names = empty.deep_view();
    let mut j: usize = 0;
    while j < empty.len()
        invariant
            j <= empty.len(),
            names == empty.deep_view(),
            warnings.deep_view() == add_empty_warnings(base, names.take(j as int)),
        decreases empty.len() - j,
    {
        assert(names.take(j + 1).drop_last() =~= names.take(j as int));
        let message = concat2("Empty value for key: ", empty[j].as_str());
        if !contains_string(&warnings, &message) {
            let ghost wb = warnings.deep_view();
            warnings.push(message);
            assert(warnings.deep_view() =~= wb.push(empty_value_message(names[j as int])));
        }
        j += 1;
    }
    assert(names.take(empty.len() as int) =~= names);
    ValidationResult { errors, warnings }
}

/// Whether `items` holds `needle`.
pub fn contains_string(items: &Vec<String>, needle: &String) -> (b: bool)
    ensures
        b == items.deep_view().contains(needle@),
{
    let mut i: usize = 0;
    while i < items.len()
        invariant
            i <= items.len(),
            forall|j: int| 0 <= j < i ==> items@[j]@ != needle@,
        decreases items.len() - i,
    {
        if items[i] == *needle {
            assert(items.deep_view()[i as int] == needle@);
            return true;
        }
        i += 1;
    }
    assert forall|j: int| 0 <= j < items.deep_view().len() implies items.deep_view()[j] != needle@ by {}
    false
}

/// Error messages are exactly the messages of the malformed-line and
/// duplicate-key issues: a file has no errors iff it has no such issue.
pub proof fn law_errors_empty_iff_no_error_issues(file: EnvFileView)
    ensures
        validate_spec(file).errors.len() == 0 <==> (forall|j: int|
            0 <= j < file.issues.len() ==> !is_error_kind(#[trigger] file.issues[j].kind)),
{
    lemma_issue_messages_empty(file.issues, true);
}

pub proof fn lemma_issue_messages_empty(issues: Seq<IssueView>, errors: bool)
    ensures
        issue_messages(issues, errors).len() == 0 <==> (forall|j: int|
            0 <= j < issues.len() ==> is_error_kind(#[trigger] issues[j].kind) != errors),
    decreases issues.len(),
{
    if issues.len() > 0 {
        let init = issues.drop_last();
        lemma_issue_messages_empty(init, errors);
        if forall|j: int| 0 <= j < issues.len() ==> is_error_kind(#[trigger] issues[j].kind) != errors {
            assert forall|j: int| 0 <= j < init.len() implies is_error_kind(#[trigger] init[j].kind) != errors by {
                assert(init[j] == issues[j]);
            }
            assert(is_error_kind(issues[issues.len() - 1].kind) != errors);
        }
        if issue_messages(issues, errors).len() == 0 {
            assert forall|j: int| 0 <= j < issues.len() implies is_error_kind(#[trigger] issues[j].kind) != errors by {
                if j < init.len() {
                    assert(init[j] == issues[j]);
                }
            }
        }
    }
}

proof fn lemma_issue_messages_members(issues: Seq<IssueView>, errors: bool)
    ensures
        forall|j: int|
            0 <= j < issues.len() && is_error_kind(issues[j].kind) == errors ==> issue_messages(
                issues,
                errors,
            ).contains(#[trigger] issues[j].message),
        forall|m: Seq<char>|
            #[trigger] issue_messages(issues, errors).contains(m) ==> exists|j: int|
                0 <= j < issues.len() && is_error_kind(issues[j].kind) == errors && (#[trigger] issues[j].message)
                    == m,
    decreases issues.len(),
{
    if issues.len() > 0 {
        let init = issues.drop_last();
        lemma_issue_messages_members(init, errors);
        let rest = issue_messages(init, errors);
        let all = issue_messages(issues, errors);
        assert(issues.last() == issues[issues.len() - 1]);
        assert forall|j: int|
            0 <= j < issues.len() && is_error_kind(issues[j].kind) == errors implies all.contains(
            #[trigger] issues[j].message,
        ) by {
            if j < init.len() {
                assert(init[j] == issues[j]);
                assert(rest.contains(init[j].message));
                let k = choose|k: int| 0 <= k < rest.len() && rest[k] == init[j].message;
                assert(all[k] == rest[k]);
            } else {
                assert(all[all.len() - 1] == issues[j].message);
            }
        }
        assert forall|m: Seq<char>| #[trigger] all.contains(m) implies exists|j: int|
            0 <= j < issues.len() && is_error_kind(issues[j].kind) == errors && (#[trigger] issues[j].message) == m by {
            let k = choose|k: int| 0 <= k < all.len() && all[k] == m;
            if k < rest.len() {
                assert(all[k] == rest[k]);
                assert(rest.contains(m));
                let j = choose|j: int|
                    0 <= j < init.len() && is_error_kind(init[j].kind) == errors && (#[trigger] init[j].message) == m;
                assert(init[j] == issues[j]);
            } else {
                assert(issues[issues.len() - 1].message == m);
            }
        }
    }
}

proof fn lemma_empty_key_names_members(keys: Seq<KeyView>)
    ensures
        forall|n: Seq<char>|
            #[trigger] empty_key_names(keys).contains(n) <==> exists|i: int|
                0 <= i < keys.len() && value_is_empty(keys[i].value) && (#[trigger] keys[i].name) == n,
    decreases keys.len(),
{
    if keys.len() > 0 {
        let init = keys.drop_last();
        lemma_empty_key_names_members(init);
        let rest = empty_key_names(init);
        let all = empty_key_names(keys);
        assert(keys.last() == keys[keys.len() - 1]);
        assert forall|n: Seq<char>| #[trigger] all.contains(n) <==> exists|i: int|
            0 <= i < keys.len() && value_is_empty(keys[i].value) && (#[trigger] keys[i].name) == n by {
            if all.contains(n) {
                let k = choose|k: int| 0 <= k < all.len() && all[k] == n;
                if k < rest.len() {
                    assert(all[k] == rest[k]);
                    assert(rest.contains(n));
                    let i = choose|i: int| 0 <= i < init.len() && value_is_empty(init[i].value) && (#[trigger] init[i].name) == n;
                    assert(init[i] == keys[i]);
                } else {
                    assert(keys[keys.len() - 1].name == n);
                }
            }
            if exists|i: int| 0 <= i < keys.len() && value_is_empty(keys[i].value) && (#[trigger] keys[i].name) == n {
                let i = choose|i: int| 0 <= i < keys.len() && value_is_empty(keys[i].value) && (#[trigger] keys[i].name) == n;
                if i < init.len() {
                    assert(init[i] == keys[i]);
                    assert(init[i].name == n);
                    assert(rest.contains(n));
                    let k = choose|k: int| 0 <= k < rest.len() && rest[k] == n;
                    assert(all[k] == rest[k]);
                } else {
                    assert(all[all.len() - 1] == n);
                }
            }
        }
    }
}

proof fn lemma_add_empty_warnings_members(warnings: Seq<Seq<char>>, names: Seq<Seq<char>>)
    ensures
        forall|x: Seq<char>| #[trigger] warnings.contains(x) ==> add_empty_warnings(warnings, names).contains(x),
        forall|n: Seq<char>|
            #[trigger] names.contains(n) ==> add_empty_warnings(warnings, names).contains(empty_value_message(n)),
        forall|x: Seq<char>|
            #[trigger] add_empty_warnings(warnings, names).contains(x) ==> warnings.contains(x) || exists|n: Seq<char>|
                #[trigger] names.contains(n) && x == empty_value_message(n),
    decreases names.len(),
{
    if names.len() > 0 {
        let init = names.drop_last();
        lemma_add_empty_warnings_members(warnings, init);
        let w = add_empty_warnings(warnings, init);
        let m = empty_value_message(names.last());
        let all = add_empty_warnings(warnings, names);
        vstd::seq_lib::lemma_seq_contains_after_push(w, m, m);
        assert forall|x: Seq<char>| #[trigger] w.contains(x) implies all.contains(x) by {
            if !w.contains(m) {
                let k = choose|k: int| 0 <= k < w.len() && w[k] == x;
                assert(all[k] == w[k]);
            }
        }
        assert forall|n: Seq<char>| #[trigger] names.contains(n) implies all.contains(empty_value_message(n)) by {
            let k = choose|k: int| 0 <= k < names.len() && names[k] == n;
            if k < init.len() {
                assert(init[k] == n);
                assert(init.contains(n));
                assert(w.contains(empty_value_message(n)));
            } else {
                assert(names.last() == n);
                if !w.contains(m) {
                    assert(all[all.len() - 1] == m);
                }
            }
        }
        assert forall|x: Seq<char>| #[trigger] all.contains(x) implies warnings.contains(x) || exists|n: Seq<char>|
            #[trigger] names.contains(n) && x == empty_value_message(n) by {
            if w.contains(x) {
                if !warnings.contains(x) {
                    let n = choose|n: Seq<char>| #[trigger] init.contains(n) && x == empty_value_message(n);
                    let k = choose|k: int| 0 <= k < init.len() && init[k] == n;
                    assert(names[k] == n);
                    assert(names.contains(n));
                }
            } else {
                let k = choose|k: int| 0 <= k < all.len() && all[k] == x;
                assert(k == w.len());
                assert(x == m);
                assert(names[names.len() - 1] == names.last());
                assert(names.contains(names.last()));
            }
        }
    }
}

/// Validation lists every issue and nothing else: each malformed-line or
/// duplicate-key issue's message is among the errors, and each error is such
/// a message; each other issue's message, and an empty-value warning for each
/// key whose value is empty, is among the warnings, and each warning is one of
/// these.
pub proof fn law_validation_lists_every_issue(file: EnvFileView)
    ensures
        forall|j: int|
            0 <= j < file.issues.len() && is_error_kind(file.issues[j].kind) ==> validate_spec(file).errors.contains(
                #[trigger] file.issues[j].message,
            ),
        forall|m: Seq<char>|
            #[trigger] validate_spec(file).errors.contains(m) ==> exists|j: int|
                0 <= j < file.issues.len() && is_error_kind(file.issues[j].kind) && (#[trigger] file.issues[j].message)
                    == m,
        forall|j: int|
            0 <= j < file.issues.len() && !is_error_kind(file.issues[j].kind) ==> validate_spec(
                file,
            ).warnings.contains(#[trigger] file.issues[j].message),
        forall|i: int|
            0 <= i < file.keys.len() && value_is_empty(file.keys[i].value) ==> validate_spec(file).warnings.contains(
                "Empty value for key: "@ + (#[trigger] file.keys[i].name),
            ),
        forall|w: Seq<char>|
            #[trigger] validate_spec(file).warnings.contains(w) ==> (exists|j: int|
                0 <= j < file.issues.len() && !is_error_kind(file.issues[j].kind) && (
                #[trigger] file.issues[j].message) == w) || (exists|i: int|
                0 <= i < file.keys.len() && value_is_empty(file.keys[i].value) && w == "Empty value for key: "@ + (
                #[trigger] file.keys[i].name)),
{
    lemma_issue_messages_members(file.issues, true);
    lemma_issue_messages_members(file.issues, false);
    lemma_empty_key_names_members(file.keys);
    let base = issue_messages(file.issues, false);
    let names = empty_key_names(file.keys);
    lemma_add_empty_warnings_members(base, names);
    assert forall|i: int|
        0 <= i < file.keys.len() && value_is_empty(file.keys[i].value) implies validate_spec(file).warnings.contains(
        "Empty value for key: "@ + (#[trigger] file.keys[i].name),
    ) by {
        assert(names.contains(file.keys[i].name));
    }
    assert forall|w: Seq<char>| #[trigger] validate_spec(file).warnings.contains(w) implies (exists|j: int|
        0 <= j < file.issues.len() && !is_error_kind(file.issues[j].kind) && (#[trigger] file.issues[j].message)
            == w) || (exists|i: int|
        0 <= i < file.keys.len() && value_is_empty(file.keys[i].value) && w == "Empty value for key: "@ + (
        #[trigger] file.keys[i].name)) by {
        if !base.contains(w) {
            let n = choose|n: Seq<char>| #[trigger] names.contains(n) && w == empty_value_message(n);
            assert(names.contains(n));
        }
    }
}


} // verus!
