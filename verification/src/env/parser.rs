//! The env file grammar: one `NAME=value` assignment per line, with blank
//! lines, `#` comments and an optional `export ` prefix.
use vstd::prelude::*;

use super::model::{
    EnvFile, EnvFileView, EnvKey, IssueView, KeyView, ParseIssue, ParseIssueKind, has_key, issues_view,
    keys_view, names_of,
};
use crate::util::{
    chars_of, concat2, concat3, contains_char, find_char, lemma_find_char_at, lemma_find_char_bounds,
    lemma_trim_contains, lemma_trim_idempotent, string_of, text, trim, trim_bounds,
};

verus! {

/// `str::lines`: the text split at `\n`; a `\r` just before a `\n` belongs to
/// the line ending, and a final line ending starts no further line.
pub open spec fn lines_of(s: Seq<char>) -> Seq<Seq<char>>
    decreases s.len(),
{
    if s.len() == 0 {
        Seq::empty()
    } else {
        let k = find_char(s, '\n');
        if k < s.len() {
            proof {
                lemma_find_char_bounds(s, '\n');
            }
            let line = s.take(k);
            let line = if line.len() > 0 && line.last() == '\r' {
                line.drop_last()
            } else {
                line
            };
            seq![line] + lines_of(s.skip(k + 1))
        } else {
            seq![s]
        }
    }
}

/// The value text of an assignment and whether it was wrapped in matching
/// single or double quotes (which are then removed).
pub open spec fn parse_value_spec(raw: Seq<char>) -> (Seq<char>, bool) {
    let v = trim(raw);
    if v.len() >= 2 && ((v[0] == '"' && v.last() == '"') || (v[0] == '\'' && v.last() == '\'')) {
        (v.subrange(1, v.len() - 1), true)
    } else {
        (v, false)
    }
}

/// An unquoted value holding a space, a `#` or a tab ought to be quoted.
pub open spec fn needs_quotes_spec(value: Seq<char>, already_quoted: bool) -> bool {
    !already_quoted && (value.contains(' ') || value.contains('#') || value.contains('\t'))
}

pub open spec fn export_prefix() -> Seq<char> {
    seq!['e', 'x', 'p', 'o', 'r', 't', ' ']
}

/// The line without a leading `export ` keyword.
pub open spec fn strip_export(t: Seq<char>) -> Seq<char> {
    if t.len() >= 7 && t.take(7) == export_prefix() {
        t.skip(7)
    } else {
        t
    }
}

pub open spec fn issue_at(kind: ParseIssueKind, message: Seq<char>, key: Option<Seq<char>>, idx: int) -> IssueView {
    IssueView { kind, message, key, line_number: Some((idx + 1) as usize) }
}

pub open spec fn malformed_issue(line: Seq<char>, idx: int) -> IssueView {
    issue_at(ParseIssueKind::MalformedLine, "Malformed env line: "@ + line, None, idx)
}

pub open spec fn duplicate_issue(name: Seq<char>, idx: int) -> IssueView {
    issue_at(ParseIssueKind::DuplicateKey, "Duplicate key: "@ + name, Some(name), idx)
}

pub open spec fn empty_value_issue(name: Seq<char>, idx: int) -> IssueView {
    issue_at(ParseIssueKind::EmptyValue, "Empty value for key: "@ + name, Some(name), idx)
}

pub open spec fn missing_quotes_issue(name: Seq<char>, idx: int) -> IssueView {
    issue_at(
        ParseIssueKind::MissingQuotes,
        "Value for "@ + name + " should be quoted"@,
        Some(name),
        idx,
    )
}

/// What the line at index `idx` (0-based) adds to the keys and issues read so far.
pub open spec fn parse_line(
    path: Seq<char>,
    idx: int,
    line: Seq<char>,
    keys: Seq<KeyView>,
    issues: Seq<IssueView>,
) -> (Seq<KeyView>, Seq<IssueView>) {
    let t = trim(line);
    if t.len() == 0 || t[0] == '#' {
        (keys, issues)
    } else {
        let s = trim(strip_export(t));
        let e = find_char(s, '=');
        if e == s.len() {
            (keys, issues.push(malformed_issue(t, idx)))
        } else {
            let name = trim(s.take(e));
            let raw = s.skip(e + 1);
            if name.len() == 0 {
                (keys, issues.push(malformed_issue(t, idx)))
            } else if names_of(keys).contains(name) {
                (keys, issues.push(duplicate_issue(name, idx)))
            } else {
                let value = parse_value_spec(raw).0;
                let quoted = parse_value_spec(raw).1;
                let issues1 = if value.len() == 0 {
                    issues.push(empty_value_issue(name, idx))
                } else {
                    issues
                };
                let issues2 = if needs_quotes_spec(raw, quoted) {
                    issues1.push(missing_quotes_issue(name, idx))
                } else {
                    issues1
                };
                let key = KeyView {
                    name,
                    value: Some(value),
                    source: Some(path),
                    line_number: Some((idx + 1) as usize),
                };
                (keys.push(key), issues2)
            }
        }
    }
}

/// Keys and issues of the given lines, read in order.
pub open spec fn parse_lines(path: Seq<char>, lines: Seq<Seq<char>>) -> (Seq<KeyView>, Seq<IssueView>)
    decreases lines.len(),
{
    if lines.len() == 0 {
        (Seq::empty(), Seq::empty())
    } else {
        let prev = parse_lines(path, lines.drop_last());
        parse_line(path, lines.len() - 1, lines.last(), prev.0, prev.1)
    }
}

/// The parsed form of `contents` read from `path`.
pub open spec fn parse_file_spec(path: Seq<char>, contents: Seq<char>) -> EnvFileView {
    let parsed = parse_lines(path, lines_of(contents));
    EnvFileView { path, keys: parsed.0, issues: parsed.1 }
}

/// Splits an assignment's value into its text and whether it was quoted.
pub fn parse_value(raw_value: &str) -> (r: (String, bool))
    ensures
        (r.0@, r.1) == parse_value_spec(raw_value@),
        r.1 == wrapped_in_quotes(trim(raw_value@)),
        !r.1 ==> r.0@ == trim(raw_value@),
        r.1 ==> r.0@ == trim(raw_value@).subrange(1, trim(raw_value@).len() - 1),
{
    proof {
        law_value_is_the_trimmed_text(raw_value@);
    }
    let chars = chars_of(raw_value);
    let (a, b) = trim_bounds(&chars, 0, chars.len());
    proof {
        assert(chars@.subrange(0, chars@.len() as int) =~= raw_value@);
    }
    let ghost v = chars@.subrange(a as int, b as int);
    if b - a >= 2 && ((chars[a] == '"' && chars[b - 1] == '"') || (chars[a] == '\'' && chars[b - 1]
        == '\'')) {
        assert(v.subrange(1, v.len() - 1) =~= chars@.subrange(a + 1, b - 1));
        (string_of(&chars, a + 1, b - 1), true)
    } else {
        (string_of(&chars, a, b), false)
    }
}

/// Whether an unquoted value should have been quoted.
pub fn needs_quotes(value: &str, already_quoted: bool) -> (b: bool)
    ensures
        b == needs_quotes_spec(value@, already_quoted),
{
    if already_quoted {
        return false;
    }
    let chars = chars_of(value);
    proof {
        assert(chars@.subrange(0, chars@.len() as int) =~= value@);
    }
    contains_char(&chars, 0, chars.len(), ' ') || contains_char(&chars, 0, chars.len(), '#')
        || contains_char(&chars, 0, chars.len(), '\t')
}

fn push_issue(
    issues: &mut Vec<ParseIssue>,
    kind: ParseIssueKind,
    message: String,
    key: Option<String>,
    index: usize,
)
    requires
        index < usize::MAX,
    ensures
        issues_view(final(issues)@) == issues_view(old(issues)@).push(
            issue_at(kind, message@, key.deep_view(), index as int),
        ),
{
    let issue = ParseIssue { kind, message, key, line_number: Some(index + 1) };
    let ghost before = issues_view(issues@);
    issues.push(issue);
    assert(issues_view(issues@) =~= before.push(issue@));
}

/// Reads the line `chars[lo..hi]`, the one at index `index`, into `keys` and `issues`.
fn parse_line_into(
    path: &str,
    chars: &Vec<char>,
    lo: usize,
    hi: usize,
    index: usize,
    keys: &mut Vec<EnvKey>,
    issues: &mut Vec<ParseIssue>,
)
    requires
        lo <= hi <= chars.len(),
        index < usize::MAX,
    ensures
        (keys_view(final(keys)@), issues_view(final(issues)@)) == parse_line(
            path@,
            index as int,
            chars@.subrange(lo as int, hi as int),
            keys_view(old(keys)@),
            issues_view(old(issues)@),
        ),
{
    let ghost line = chars@.subrange(lo as int, hi as int);
    let (a, b) = trim_bounds(chars, lo, hi);
    let ghost t = chars@.subrange(a as int, b as int);
    if a == b || chars[a] == '#' {
        return;
    }
    let is_export = b - a >= 7 && chars[a] == 'e' && chars[a + 1] == 'x' && chars[a + 2] == 'p'
        && chars[a + 3] == 'o' && chars[a + 4] == 'r' && chars[a + 5] == 't' && chars[a + 6] == ' ';
    proof {
        if t.len() >= 7 {
            if is_export {
                assert(t.take(7) =~= export_prefix());
            } else if t.take(7) == export_prefix() {
                assert(t.take(7)[0] == 'e' && t.take(7)[1] == 'x' && t.take(7)[2] == 'p');
                assert(t.take(7)[3] == 'o' && t.take(7)[4] == 'r' && t.take(7)[5] == 't');
                assert(t.take(7)[6] == ' ');
            }
        }
    }
    let start = if is_export {
        a + 7
    } else {
        a
    };
    assert(strip_export(t) =~= chars@.subrange(start as int, b as int));
    let (sa, sb) = trim_bounds(chars, start, b);
    let ghost s = chars@.subrange(sa as int, sb as int);
    let mut e = sa;
    while e < sb && chars[e] != '='
        invariant
            sa <= e <= sb <= chars.len(),
            forall|j: int| sa <= j < e ==> chars@[j] != '=',
        decreases sb - e,
    {
        e += 1;
    }
    proof {
        lemma_find_char_at(s, '=', e - sa);
    }
    if e == sb {
        let message = concat2("Malformed env line: ", string_of(chars, a, b).as_str());
        push_issue(issues, ParseIssueKind::MalformedLine, message, None, index);
        return;
    }
    assert(s.take(e - sa) =~= chars@.subrange(sa as int, e as int));
    assert(s.skip(e - sa + 1) =~= chars@.subrange(e + 1, sb as int));
    let (na, nb) = trim_bounds(chars, sa, e);
    if na == nb {
        let message = concat2("Malformed env line: ", string_of(chars, a, b).as_str());
        push_issue(issues, ParseIssueKind::MalformedLine, message, None, index);
        return;
    }
    let name = string_of(chars, na, nb);
    if has_key(keys, &name) {
        let message = concat2("Duplicate key: ", name.as_str());
        push_issue(issues, ParseIssueKind::DuplicateKey, message, Some(name), index);
        return;
    }
    let raw = string_of(chars, e + 1, sb);
    let (value, quoted) = parse_value(raw.as_str());
    if value.as_str().unicode_len() == 0 {
        let message = concat2("Empty value for key: ", name.as_str());
        push_issue(issues, ParseIssueKind::EmptyValue, message, Some(name.clone()), index);
    }
    if needs_quotes(raw.as_str(), quoted) {
        let message = concat3("Value for ", name.as_str(), " should be quoted");
        push_issue(issues, ParseIssueKind::MissingQuotes, message, Some(name.clone()), index);
    }
    let key = EnvKey { name, value: Some(value), source: Some(text(path)), line_number: Some(index + 1) };
    let ghost before = keys_view(keys@);
    keys.push(key);
    assert(keys_view(keys@) =~= before.push(key@));
}

/// Parses env file text read from `path`. Blank lines and `#` comments are
/// skipped, an `export ` prefix is ignored, and every other line must be a
/// `NAME=value` assignment. Lines that are not become `MalformedLine` issues,
/// a repeated name a `DuplicateKey` issue (the first assignment is kept), an
/// empty value an `EmptyValue` issue and an unquoted value holding a space, `#`
/// or tab a `MissingQuotes` issue. Line numbers start at 1.
pub fn parse_file(path: &str, contents: &str) -> (file: EnvFile)
    ensures
        file@ == parse_file_spec(path@, contents@),
{
    let chars = chars_of(contents);
    let n = chars.len();
    let mut keys: Vec<EnvKey> = Vec::new();
    let mut issues: Vec<ParseIssue> = Vec::new();
    let mut pos: usize = 0;
    let mut index: usize = 0;
    let ghost mut done: Seq<Seq<char>> = Seq::empty();
    assert(chars@.skip(0) =~= chars@);
    while pos < n
        invariant
            pos <= n == chars.len(),
            chars@ == contents@,
            index <= pos,
            done.len() == index,
            lines_of(contents@) == done + lines_of(chars@.skip(pos as int)),
            (keys_view(keys@), issues_view(issues@)) == parse_lines(path@, done),
        decreases n - pos,
    {
        let ghost rest = chars@.skip(pos as int);
        let mut e = pos;
        while e < n && chars[e] != '\n'
            invariant
                pos <= e <= n == chars.len(),
                forall|j: int| pos <= j < e ==> chars@[j] != '\n',
            decreases n - e,
        {
            e += 1;
        }
        proof {
            lemma_find_char_at(rest, '\n', e - pos);
        }
        let mut le = e;
        if e < n && e > pos && chars[e - 1] == '\r' {
            le = e - 1;
        }
        let ghost line = chars@.subrange(pos as int, le as int);
        proof {
            if e < n {
                assert(rest.take(e - pos) =~= chars@.subrange(pos as int, e as int));
                if e > pos && chars@[e - 1] == '\r' {
                    assert(rest.take(e - pos).drop_last() =~= line);
                }
                assert(rest.skip(e - pos + 1) =~= chars@.skip(e + 1));
            } else {
                assert(rest =~= line);
                assert(chars@.skip(n as int) =~= Seq::<char>::empty());
            }
            assert(lines_of(rest) =~= seq![line] + lines_of(
                chars@.skip(if e < n { e + 1 } else { n as int }),
            ));
        }
        parse_line_into(path, &chars, pos, le, index, &mut keys, &mut issues);
        proof {
            let nd = done.push(line);
            assert(nd.drop_last() =~= done);
            assert(done + lines_of(rest) =~= nd + lines_of(
                chars@.skip(if e < n { e + 1 } else { n as int }),
            ));
            done = nd;
        }
        pos = if e < n {
            e + 1
        } else {
            n
        };
        index += 1;
    }
    proof {
        assert(chars@.skip(pos as int) =~= Seq::<char>::empty());
        assert(done + Seq::<Seq<char>>::empty() =~= done);
    }
    EnvFile { path: text(path), keys, issues }
}

/// Shape every parsed key name has: not empty, no surrounding whitespace, no `=`.
pub open spec fn is_key_name(name: Seq<char>) -> bool {
    &&& name.len() > 0
    &&& trim(name) == name
    &&& !name.contains('=')
}

/// Keys as `parse_file` produces them: well-shaped names, no name twice.
pub open spec fn well_formed_keys(keys: Seq<KeyView>) -> bool {
    &&& names_of(keys).no_duplicates()
    &&& forall|j: int| 0 <= j < keys.len() ==> is_key_name(#[trigger] keys[j].name)
}

proof fn lemma_parse_line_well_formed(
    path: Seq<char>,
    idx: int,
    line: Seq<char>,
    keys: Seq<KeyView>,
    issues: Seq<IssueView>,
)
    requires
        well_formed_keys(keys),
    ensures
        well_formed_keys(parse_line(path, idx, line, keys, issues).0),
{
    let t = trim(line);
    if !(t.len() == 0 || t[0] == '#') {
        let s = trim(strip_export(t));
        let e = find_char(s, '=');
        lemma_find_char_bounds(s, '=');
        if e < s.len() {
            let name = trim(s.take(e));
            if name.len() > 0 && !names_of(keys).contains(name) {
                lemma_trim_idempotent(s.take(e));
                lemma_trim_contains(s.take(e), '=');
                assert(!s.take(e).contains('='));
                let nk = parse_line(path, idx, line, keys, issues).0;
                assert(names_of(nk) =~= names_of(keys).push(name));
                assert forall|j: int| 0 <= j < nk.len() implies is_key_name(#[trigger] nk[j].name) by {
                    if j < keys.len() {
                        assert(nk[j] == keys[j]);
                    }
                }
                assert forall|i: int, j: int|
                    0 <= i < names_of(nk).len() && 0 <= j < names_of(nk).len() && i != j implies names_of(
                    nk,
                )[i] != names_of(nk)[j] by {
                    if i == keys.len() {
                        assert(names_of(keys)[j] == names_of(nk)[j]);
                    } else if j == keys.len() {
                        assert(names_of(keys)[i] == names_of(nk)[i]);
                    }
                }
            }
        }
    }
}

proof fn lemma_parse_lines_well_formed(path: Seq<char>, lines: Seq<Seq<char>>)
    ensures
        well_formed_keys(parse_lines(path, lines).0),
    decreases lines.len(),
{
    if lines.len() > 0 {
        lemma_parse_lines_well_formed(path, lines.drop_last());
        let prev = parse_lines(path, lines.drop_last());
        lemma_parse_line_well_formed(path, lines.len() - 1, lines.last(), prev.0, prev.1);
    }
}

/// Every key of a parsed file has a non-empty name without surrounding
/// whitespace or `=`, and no two keys share a name: a repeated name is
/// reported as a duplicate and the first assignment kept.
pub proof fn law_parsed_keys_are_unique(path: Seq<char>, contents: Seq<char>)
    ensures
        well_formed_keys(parse_file_spec(path, contents).keys),
{
    lemma_parse_lines_well_formed(path, lines_of(contents));
}

/// What a line is, before the keys read so far are consulted.
pub enum LineKind {
    /// Blank or a `#` comment.
    Skip,
    /// Not an assignment: no `=`, or a blank name before it.
    Malformed,
    /// `name=raw`, with `name` trimmed and not blank.
    Assignment { name: Seq<char>, raw: Seq<char> },
}

pub open spec fn line_kind(line: Seq<char>) -> LineKind {
    let t = trim(line);
    if t.len() == 0 || t[0] == '#' {
        LineKind::Skip
    } else {
        let s = trim(strip_export(t));
        let e = find_char(s, '=');
        if e == s.len() {
            LineKind::Malformed
        } else {
            let name = trim(s.take(e));
            if name.len() == 0 {
                LineKind::Malformed
            } else {
                LineKind::Assignment { name, raw: s.skip(e + 1) }
            }
        }
    }
}

/// The line number of a key or issue (0 when it has none).
pub open spec fn key_line(k: KeyView) -> int {
    match k.line_number {
        Some(n) => n as int,
        None => 0,
    }
}

pub open spec fn issue_line(i: IssueView) -> int {
    match i.line_number {
        Some(n) => n as int,
        None => 0,
    }
}

/// Issues that stand for a whole line that gave no key.
pub open spec fn is_line_issue(kind: ParseIssueKind) -> bool {
    kind == ParseIssueKind::MalformedLine || kind == ParseIssueKind::DuplicateKey
}

/// The keys of the first `m` lines: each is numbered by an assignment line
/// whose name and value it carries, read from `path`, in rising line order.
pub open spec fn keys_from_lines(path: Seq<char>, lines: Seq<Seq<char>>, m: int, keys: Seq<KeyView>) -> bool {
    &&& forall|i: int|
        #![trigger keys[i]]
        0 <= i < keys.len() ==> {
            let n = key_line(keys[i]);
            &&& keys[i].line_number is Some
            &&& 1 <= n <= m
            &&& line_kind(lines[n - 1]) matches LineKind::Assignment { name, raw }
            &&& keys[i].name == name
            &&& keys[i].value == Some(parse_value_spec(raw).0)
            &&& keys[i].source == Some(path)
        }
    &&& forall|i: int, j: int|
        #![trigger keys[i], keys[j]]
        0 <= i < j < keys.len() ==> key_line(keys[i]) < key_line(keys[j])
}

/// The issues of the first `m` lines: each is numbered by a line that is not
/// blank or a comment, in non-decreasing line order; a malformed-line issue
/// stands on a malformed line with that line as its message, a duplicate-key
/// issue on an assignment line that gave no key, an empty-value or
/// missing-quotes issue on an assignment line that gave the key it names (so
/// never on a malformed line), and no line has two malformed-line or
/// duplicate-key issues.
pub open spec fn issues_from_lines(lines: Seq<Seq<char>>, m: int, keys: Seq<KeyView>, issues: Seq<IssueView>) -> bool {
    &&& forall|i: int|
        #![trigger issues[i]]
        0 <= i < issues.len() ==> {
            let n = issue_line(issues[i]);
            &&& issues[i].line_number is Some
            &&& 1 <= n <= m
            &&& !(line_kind(lines[n - 1]) is Skip)
            &&& issues[i].kind == ParseIssueKind::MalformedLine ==> {
                &&& line_kind(lines[n - 1]) is Malformed
                &&& issues[i].message == "Malformed env line: "@ + trim(lines[n - 1])
                &&& issues[i].key is None
            }
            &&& issues[i].kind == ParseIssueKind::DuplicateKey ==> {
                &&& line_kind(lines[n - 1]) is Assignment
                &&& forall|j: int| 0 <= j < keys.len() ==> key_line(#[trigger] keys[j]) != n
            }
            &&& !is_line_issue(issues[i].kind) ==> {
                &&& line_kind(lines[n - 1]) is Assignment
                &&& exists|j: int|
                    0 <= j < keys.len() && key_line(#[trigger] keys[j]) == n && issues[i].key == Some(keys[j].name)
            }
        }
    &&& forall|i: int, j: int|
        #![trigger issues[i], issues[j]]
        0 <= i < j < issues.len() ==> issue_line(issues[i]) <= issue_line(issues[j])
    &&& forall|i: int, j: int|
        #![trigger issues[i], issues[j]]
        0 <= i < j < issues.len() && is_line_issue(issues[i].kind) && is_line_issue(issues[j].kind)
            ==> issue_line(issues[i]) < issue_line(issues[j])
}

/// Every one of the first `m` lines that is not blank or a comment gave
/// something: a malformed line its issue, an assignment a key or a
/// duplicate-key issue.
pub open spec fn lines_accounted(lines: Seq<Seq<char>>, m: int, keys: Seq<KeyView>, issues: Seq<IssueView>) -> bool {
    forall|idx: int|
        #![trigger lines[idx]]
        0 <= idx < m ==> {
            &&& line_kind(lines[idx]) is Malformed ==> exists|i: int|
                0 <= i < issues.len() && issues[i].kind == ParseIssueKind::MalformedLine && issue_line(
                    #[trigger] issues[i],
                ) == idx + 1
            &&& line_kind(lines[idx]) is Assignment ==> (exists|j: int|
                0 <= j < keys.len() && key_line(#[trigger] keys[j]) == idx + 1) || (exists|i: int|
                0 <= i < issues.len() && issues[i].kind == ParseIssueKind::DuplicateKey && issue_line(
                    #[trigger] issues[i],
                ) == idx + 1)
        }
}

/// What one line adds, by the kind of line it is.
proof fn lemma_parse_line_shape(
    path: Seq<char>,
    idx: int,
    line: Seq<char>,
    keys: Seq<KeyView>,
    issues: Seq<IssueView>,
)
    ensures
        ({
            let r = parse_line(path, idx, line, keys, issues);
            match line_kind(line) {
                LineKind::Skip => r.0 == keys && r.1 == issues,
                LineKind::Malformed => r.0 == keys && r.1 == issues.push(malformed_issue(trim(line), idx)),
                LineKind::Assignment { name, raw } => if names_of(keys).contains(name) {
                    r.0 == keys && r.1 == issues.push(duplicate_issue(name, idx))
                } else {
                    &&& r.0 == keys.push(
                        KeyView {
                            name,
                            value: Some(parse_value_spec(raw).0),
                            source: Some(path),
                            line_number: Some((idx + 1) as usize),
                        },
                    )
                    &&& r.1.len() >= issues.len()
                    &&& r.1.take(issues.len() as int) == issues
                    &&& forall|i: int|
                        issues.len() <= i < r.1.len() ==> (#[trigger] r.1[i]).line_number == Some(
                            (idx + 1) as usize,
                        ) && !is_line_issue(r.1[i].kind) && r.1[i].key == Some(name)
                }
            }
        }),
{
    let r = parse_line(path, idx, line, keys, issues);
    match line_kind(line) {
        LineKind::Assignment { name, raw } => {
            if !names_of(keys).contains(name) {
                let value = parse_value_spec(raw).0;
                let i1 = if value.len() == 0 {
                    issues.push(empty_value_issue(name, idx))
                } else {
                    issues
                };
                assert(i1.take(issues.len() as int) =~= issues);
                assert(r.1.take(issues.len() as int) =~= issues);
            }
        },
        _ => {},
    }
}

proof fn lemma_keys_step(path: Seq<char>, lines: Seq<Seq<char>>, m: int, keys: Seq<KeyView>, issues: Seq<IssueView>)
    requires
        1 <= m <= lines.len(),
        lines.len() < usize::MAX,
        keys_from_lines(path, lines, m - 1, keys),
    ensures
        keys_from_lines(path, lines, m, parse_line(path, m - 1, lines[m - 1], keys, issues).0),
{
    lemma_parse_line_shape(path, m - 1, lines[m - 1], keys, issues);
    let nk = parse_line(path, m - 1, lines[m - 1], keys, issues).0;
    assert(((m - 1 + 1) as usize) as int == m);
    if nk.len() > keys.len() {
        assert forall|i: int| 0 <= i < keys.len() implies #[trigger] nk[i] == keys[i] by {}
        assert(key_line(nk[keys.len() as int]) == m);
        assert forall|i: int, j: int| 0 <= i < j < nk.len() implies key_line(#[trigger] nk[i]) < key_line(
            #[trigger] nk[j],
        ) by {
            if j < keys.len() {
                assert(nk[i] == keys[i] && nk[j] == keys[j]);
            } else {
                assert(nk[i] == keys[i]);
                assert(key_line(keys[i]) <= m - 1);
            }
        }
    }
}

proof fn lemma_issues_step(path: Seq<char>, lines: Seq<Seq<char>>, m: int, keys: Seq<KeyView>, issues: Seq<IssueView>)
    requires
        1 <= m <= lines.len(),
        lines.len() < usize::MAX,
        keys_from_lines(path, lines, m - 1, keys),
        issues_from_lines(lines, m - 1, keys, issues),
    ensures
        issues_from_lines(
            lines,
            m,
            parse_line(path, m - 1, lines[m - 1], keys, issues).0,
            parse_line(path, m - 1, lines[m - 1], keys, issues).1,
        ),
{
    lemma_parse_line_shape(path, m - 1, lines[m - 1], keys, issues);
    let r = parse_line(path, m - 1, lines[m - 1], keys, issues);
    let nk = r.0;
    let ni = r.1;
    assert(((m - 1 + 1) as usize) as int == m);
    assert forall|i: int| 0 <= i < issues.len() implies #[trigger] ni[i] == issues[i] by {
        assert(ni.take(issues.len() as int)[i] == ni[i]);
    }
    assert forall|i: int| 0 <= i < keys.len() implies #[trigger] nk[i] == keys[i] by {}
    // a key added at line m does not sit on an earlier duplicate's line
    assert forall|i: int| 0 <= i < ni.len() implies {
        let n = issue_line(#[trigger] ni[i]);
        &&& ni[i].line_number is Some
        &&& 1 <= n <= m
        &&& !(line_kind(lines[n - 1]) is Skip)
        &&& ni[i].kind == ParseIssueKind::MalformedLine ==> {
            &&& line_kind(lines[n - 1]) is Malformed
            &&& ni[i].message == "Malformed env line: "@ + trim(lines[n - 1])
            &&& ni[i].key is None
        }
        &&& ni[i].kind == ParseIssueKind::DuplicateKey ==> {
            &&& line_kind(lines[n - 1]) is Assignment
            &&& forall|j: int| 0 <= j < nk.len() ==> key_line(#[trigger] nk[j]) != n
        }
        &&& !is_line_issue(ni[i].kind) ==> {
            &&& line_kind(lines[n - 1]) is Assignment
            &&& exists|j: int|
                0 <= j < nk.len() && key_line(#[trigger] nk[j]) == n && ni[i].key == Some(nk[j].name)
        }
    } by {
        if i < issues.len() {
            let n = issue_line(issues[i]);
            assert(n <= m - 1);
            if ni[i].kind == ParseIssueKind::DuplicateKey {
                assert forall|j: int| 0 <= j < nk.len() implies key_line(#[trigger] nk[j]) != n by {
                    if j < keys.len() {
                        assert(nk[j] == keys[j]);
                    }
                }
            }
            if !is_line_issue(ni[i].kind) {
                let j = choose|j: int|
                    0 <= j < keys.len() && key_line(#[trigger] keys[j]) == n && issues[i].key == Some(keys[j].name);
                assert(nk[j] == keys[j]);
            }
        } else {
            if !is_line_issue(ni[i].kind) {
                let j = keys.len() as int;
                assert(nk.len() > keys.len());
                assert(key_line(nk[j]) == m);
            }
            if ni[i].kind == ParseIssueKind::DuplicateKey {
                assert(nk == keys);
                assert forall|j: int| 0 <= j < nk.len() implies key_line(#[trigger] nk[j]) != m by {
                    assert(nk[j] == keys[j]);
                }
            }
        }
    }
    assert forall|i: int, j: int| 0 <= i < j < ni.len() implies issue_line(#[trigger] ni[i]) <= issue_line(
        #[trigger] ni[j],
    ) by {
        if j < issues.len() {
            assert(ni[i] == issues[i] && ni[j] == issues[j]);
        } else if i < issues.len() {
            assert(ni[i] == issues[i]);
        }
    }
    assert forall|i: int, j: int|
        0 <= i < j < ni.len() && is_line_issue(ni[i].kind) && is_line_issue(ni[j].kind) implies issue_line(
        #[trigger] ni[i],
    ) < issue_line(#[trigger] ni[j]) by {
        if j < issues.len() {
            assert(ni[i] == issues[i] && ni[j] == issues[j]);
        } else if i < issues.len() {
            assert(ni[i] == issues[i]);
        }
    }
}

proof fn lemma_accounted_step(path: Seq<char>, lines: Seq<Seq<char>>, m: int, keys: Seq<KeyView>, issues: Seq<IssueView>)
    requires
        1 <= m <= lines.len(),
        lines.len() < usize::MAX,
        lines_accounted(lines, m - 1, keys, issues),
    ensures
        lines_accounted(
            lines,
            m,
            parse_line(path, m - 1, lines[m - 1], keys, issues).0,
            parse_line(path, m - 1, lines[m - 1], keys, issues).1,
        ),
{
    lemma_parse_line_shape(path, m - 1, lines[m - 1], keys, issues);
    let r = parse_line(path, m - 1, lines[m - 1], keys, issues);
    let nk = r.0;
    let ni = r.1;
    assert(((m - 1 + 1) as usize) as int == m);
    assert forall|i: int| 0 <= i < issues.len() implies #[trigger] ni[i] == issues[i] by {
        assert(ni.take(issues.len() as int)[i] == ni[i]);
    }
    assert forall|i: int| 0 <= i < keys.len() implies #[trigger] nk[i] == keys[i] by {}
    assert forall|idx: int| 0 <= idx < m implies {
        &&& line_kind(#[trigger] lines[idx]) is Malformed ==> exists|i: int|
            0 <= i < ni.len() && ni[i].kind == ParseIssueKind::MalformedLine && issue_line(#[trigger] ni[i])
                == idx + 1
        &&& line_kind(lines[idx]) is Assignment ==> (exists|j: int|
            0 <= j < nk.len() && key_line(#[trigger] nk[j]) == idx + 1) || (exists|i: int|
            0 <= i < ni.len() && ni[i].kind == ParseIssueKind::DuplicateKey && issue_line(#[trigger] ni[i]) == idx
                + 1)
    } by {
        if idx < m - 1 {
            if line_kind(lines[idx]) is Malformed {
                let i = choose|i: int|
                    0 <= i < issues.len() && issues[i].kind == ParseIssueKind::MalformedLine && issue_line(
                        #[trigger] issues[i],
                    ) == idx + 1;
                assert(ni[i] == issues[i]);
            }
            if line_kind(lines[idx]) is Assignment {
                if exists|j: int| 0 <= j < keys.len() && key_line(#[trigger] keys[j]) == idx + 1 {
                    let j = choose|j: int| 0 <= j < keys.len() && key_line(#[trigger] keys[j]) == idx + 1;
                    assert(nk[j] == keys[j]);
                } else {
                    let i = choose|i: int|
                        0 <= i < issues.len() && issues[i].kind == ParseIssueKind::DuplicateKey && issue_line(
                            #[trigger] issues[i],
                        ) == idx + 1;
                    assert(ni[i] == issues[i]);
                }
            }
        } else {
            match line_kind(lines[idx]) {
                LineKind::Malformed => {
                    assert(ni[issues.len() as int].kind == ParseIssueKind::MalformedLine);
                    assert(issue_line(ni[issues.len() as int]) == idx + 1);
                },
                LineKind::Assignment { name, raw } => {
                    if names_of(keys).contains(name) {
                        assert(ni[issues.len() as int].kind == ParseIssueKind::DuplicateKey);
                        assert(issue_line(ni[issues.len() as int]) == idx + 1);
                    } else {
                        assert(key_line(nk[keys.len() as int]) == idx + 1);
                    }
                },
                LineKind::Skip => {},
            }
        }
    }
}

proof fn lemma_parse_invariant(path: Seq<char>, lines: Seq<Seq<char>>, m: int)
    requires
        0 <= m <= lines.len(),
        lines.len() < usize::MAX,
    ensures
        keys_from_lines(path, lines, m, parse_lines(path, lines.take(m)).0),
        issues_from_lines(lines, m, parse_lines(path, lines.take(m)).0, parse_lines(path, lines.take(m)).1),
        lines_accounted(lines, m, parse_lines(path, lines.take(m)).0, parse_lines(path, lines.take(m)).1),
    decreases m,
{
    if m == 0 {
        assert(lines.take(0) =~= Seq::<Seq<char>>::empty());
    } else {
        lemma_parse_invariant(path, lines, m - 1);
        let ls = lines.take(m);
        assert(ls.drop_last() =~= lines.take(m - 1));
        assert(ls.last() == lines[m - 1]);
        let prev = parse_lines(path, lines.take(m - 1));
        lemma_keys_step(path, lines, m, prev.0, prev.1);
        lemma_issues_step(path, lines, m, prev.0, prev.1);
        lemma_accounted_step(path, lines, m, prev.0, prev.1);
    }
}

proof fn lemma_lines_of_len(s: Seq<char>)
    ensures
        lines_of(s).len() <= s.len(),
    decreases s.len(),
{
    if s.len() > 0 {
        let k = find_char(s, '\n');
        lemma_find_char_bounds(s, '\n');
        if k < s.len() {
            lemma_lines_of_len(s.skip(k + 1));
        }
    }
}

/// Every key of a parsed file comes from an assignment line of the text: it
/// carries that line's number (between 1 and the number of lines, rising from
/// key to key), the trimmed non-blank name and the value of that line, and
/// the file's path as its source.
pub proof fn law_parsed_keys_come_from_assignments(path: Seq<char>, contents: Seq<char>)
    requires
        contents.len() < usize::MAX,
    ensures
        parse_file_spec(path, contents).path == path,
        keys_from_lines(path, lines_of(contents), lines_of(contents).len() as int, parse_file_spec(path, contents).keys),
        well_formed_keys(parse_file_spec(path, contents).keys),
{
    let lines = lines_of(contents);
    lemma_lines_of_len(contents);
    lemma_parse_invariant(path, lines, lines.len() as int);
    assert(lines.take(lines.len() as int) =~= lines);
    lemma_parse_lines_well_formed(path, lines);
}

/// Every issue of a parsed file carries the number of a line that is neither
/// blank nor a comment, issues come in line order, and a line has at most one
/// malformed-line or duplicate-key issue. A malformed-line issue is raised on
/// exactly the lines that have no `=` or a blank name before it, with the
/// trimmed line as its message and no key; an empty-value or missing-quotes
/// issue only on an assignment line that gave the key it names, so a
/// malformed line carries no other issue.
pub proof fn law_parsed_issues_come_from_lines(path: Seq<char>, contents: Seq<char>)
    requires
        contents.len() < usize::MAX,
    ensures
        issues_from_lines(
            lines_of(contents),
            lines_of(contents).len() as int,
            parse_file_spec(path, contents).keys,
            parse_file_spec(path, contents).issues,
        ),
        forall|idx: int|
            #![trigger lines_of(contents)[idx]]
            0 <= idx < lines_of(contents).len() ==> ((exists|i: int|
                0 <= i < parse_file_spec(path, contents).issues.len() && parse_file_spec(path, contents).issues[i].kind
                    == ParseIssueKind::MalformedLine && issue_line(
                    #[trigger] parse_file_spec(path, contents).issues[i],
                ) == idx + 1) <==> line_kind(lines_of(contents)[idx]) is Malformed),
{
    let lines = lines_of(contents);
    lemma_lines_of_len(contents);
    lemma_parse_invariant(path, lines, lines.len() as int);
    assert(lines.take(lines.len() as int) =~= lines);
}

/// Text that starts and ends with the same quote, single or double.
pub open spec fn wrapped_in_quotes(t: Seq<char>) -> bool {
    &&& t.len() >= 2
    &&& (t[0] == '"' || t[0] == '\'')
    &&& t.last() == t[0]
}

/// The value of an assignment keeps all of its text (every `=` in it
/// included): it is the text trimmed, or, when that is wrapped in matching
/// quotes, what lies between them.
pub proof fn law_value_is_the_trimmed_text(raw: Seq<char>)
    ensures
        parse_value_spec(raw).1 == wrapped_in_quotes(trim(raw)),
        !parse_value_spec(raw).1 ==> parse_value_spec(raw).0 == trim(raw),
        parse_value_spec(raw).1 ==> parse_value_spec(raw).0 == trim(raw).subrange(1, trim(raw).len() - 1),
        parse_value_spec(raw).1 ==> trim(raw) == seq![trim(raw)[0]] + parse_value_spec(raw).0 + seq![
            trim(raw)[0],
        ],
{
    let t = trim(raw);
    if parse_value_spec(raw).1 {
        assert(t =~= seq![t[0]] + t.subrange(1, t.len() - 1) + seq![t.last()]);
    }
}

/// The text of an assignment line that holds its name and value: the trimmed
/// line without a leading `export `, trimmed again.
pub open spec fn assignment_text(line: Seq<char>) -> Seq<char> {
    trim(strip_export(trim(line)))
}

/// Every key of a parsed file is split at the first `=` of its line: its
/// name is the trimmed text before that `=`, and its value is all of the text
/// after it, trimmed, with one pair of matching surrounding quotes removed.
pub proof fn law_key_value_is_text_after_first_equals(path: Seq<char>, contents: Seq<char>)
    requires
        contents.len() < usize::MAX,
    ensures
        forall|i: int|
            #![trigger parse_file_spec(path, contents).keys[i]]
            0 <= i < parse_file_spec(path, contents).keys.len() ==> {
                let k = parse_file_spec(path, contents).keys[i];
                let s = assignment_text(lines_of(contents)[key_line(k) - 1]);
                exists|e: int|
                    #![trigger s.take(e)]
                    {
                        &&& 0 <= e < s.len()
                        &&& s[e] == '='
                        &&& forall|j: int| 0 <= j < e ==> s[j] != '='
                        &&& k.name == trim(s.take(e))
                        &&& !wrapped_in_quotes(trim(s.skip(e + 1))) ==> k.value == Some(trim(s.skip(e + 1)))
                        &&& wrapped_in_quotes(trim(s.skip(e + 1))) ==> k.value == Some(
                            trim(s.skip(e + 1)).subrange(1, trim(s.skip(e + 1)).len() - 1),
                        )
                    }
            },
{
    law_parsed_keys_come_from_assignments(path, contents);
    let f = parse_file_spec(path, contents);
    let lines = lines_of(contents);
    assert forall|i: int| #![trigger f.keys[i]] 0 <= i < f.keys.len() implies {
        let k = f.keys[i];
        let s = assignment_text(lines[key_line(k) - 1]);
        exists|e: int|
            #![trigger s.take(e)]
            {
                &&& 0 <= e < s.len()
                &&& s[e] == '='
                &&& forall|j: int| 0 <= j < e ==> s[j] != '='
                &&& k.name == trim(s.take(e))
                &&& !wrapped_in_quotes(trim(s.skip(e + 1))) ==> k.value == Some(trim(s.skip(e + 1)))
                &&& wrapped_in_quotes(trim(s.skip(e + 1))) ==> k.value == Some(
                    trim(s.skip(e + 1)).subrange(1, trim(s.skip(e + 1)).len() - 1),
                )
            }
    } by {
        let k = f.keys[i];
        let line = lines[key_line(k) - 1];
        let s = assignment_text(line);
        let e = find_char(s, '=');
        lemma_find_char_bounds(s, '=');
        law_value_is_the_trimmed_text(s.skip(e + 1));
        assert(line_kind(line) matches LineKind::Assignment { name, raw } && name == trim(s.take(e)) && raw
            == s.skip(e + 1));
    }
}

/// The entries of line `idx` (0-based): none for a blank or comment line,
/// otherwise exactly one key or one malformed-line/duplicate-key issue.
pub open spec fn one_entry_for_line(lines: Seq<Seq<char>>, keys: Seq<KeyView>, issues: Seq<IssueView>, idx: int) -> bool {
    let n = idx + 1;
    if line_kind(lines[idx]) is Skip {
        &&& forall|j: int| 0 <= j < keys.len() ==> key_line(#[trigger] keys[j]) != n
        &&& forall|i: int| 0 <= i < issues.len() ==> issue_line(#[trigger] issues[i]) != n
    } else {
        &&& (exists|j: int| 0 <= j < keys.len() && key_line(#[trigger] keys[j]) == n) || (exists|i: int|
            0 <= i < issues.len() && is_line_issue(issues[i].kind) && issue_line(#[trigger] issues[i]) == n)
        &&& forall|j1: int, j2: int|
            0 <= j1 < keys.len() && 0 <= j2 < keys.len() && key_line(#[trigger] keys[j1]) == n && key_line(
                #[trigger] keys[j2],
            ) == n ==> j1 == j2
        &&& forall|i1: int, i2: int|
            0 <= i1 < issues.len() && 0 <= i2 < issues.len() && is_line_issue(issues[i1].kind) && is_line_issue(
                issues[i2].kind,
            ) && issue_line(#[trigger] issues[i1]) == n && issue_line(#[trigger] issues[i2]) == n ==> i1 == i2
        &&& forall|j: int, i: int|
            0 <= j < keys.len() && 0 <= i < issues.len() && is_line_issue(issues[i].kind) ==> !(key_line(
                #[trigger] keys[j],
            ) == n && issue_line(#[trigger] issues[i]) == n)
    }
}

proof fn lemma_one_entry(path: Seq<char>, lines: Seq<Seq<char>>, keys: Seq<KeyView>, issues: Seq<IssueView>, idx: int)
    requires
        0 <= idx < lines.len(),
        keys_from_lines(path, lines, lines.len() as int, keys),
        issues_from_lines(lines, lines.len() as int, keys, issues),
        lines_accounted(lines, lines.len() as int, keys, issues),
    ensures
        one_entry_for_line(lines, keys, issues, idx),
{
    let n = idx + 1;
    assert(lines[n - 1] == lines[idx]);
    if line_kind(lines[idx]) is Skip {
        assert forall|j: int| 0 <= j < keys.len() implies key_line(#[trigger] keys[j]) != n by {
            if key_line(keys[j]) == n {
                assert(line_kind(lines[n - 1]) is Assignment);
            }
        }
        assert forall|i: int| 0 <= i < issues.len() implies issue_line(#[trigger] issues[i]) != n by {
            if issue_line(issues[i]) == n {
                assert(!(line_kind(lines[n - 1]) is Skip));
            }
        }
    } else {
        if line_kind(lines[idx]) is Malformed {
            let i = choose|i: int|
                0 <= i < issues.len() && issues[i].kind == ParseIssueKind::MalformedLine && issue_line(
                    #[trigger] issues[i],
                ) == idx + 1;
            assert(is_line_issue(issues[i].kind));
        } else if !(exists|j: int| 0 <= j < keys.len() && key_line(#[trigger] keys[j]) == n) {
            let i = choose|i: int|
                0 <= i < issues.len() && issues[i].kind == ParseIssueKind::DuplicateKey && issue_line(
                    #[trigger] issues[i],
                ) == idx + 1;
            assert(is_line_issue(issues[i].kind));
        }
        assert forall|j1: int, j2: int|
            0 <= j1 < keys.len() && 0 <= j2 < keys.len() && key_line(#[trigger] keys[j1]) == n && key_line(
                #[trigger] keys[j2],
            ) == n implies j1 == j2 by {
            if j1 < j2 {
                assert(key_line(keys[j1]) < key_line(keys[j2]));
            } else if j2 < j1 {
                assert(key_line(keys[j2]) < key_line(keys[j1]));
            }
        }
        assert forall|i1: int, i2: int|
            0 <= i1 < issues.len() && 0 <= i2 < issues.len() && is_line_issue(issues[i1].kind) && is_line_issue(
                issues[i2].kind,
            ) && issue_line(#[trigger] issues[i1]) == n && issue_line(#[trigger] issues[i2]) == n implies i1 == i2 by {
            if i1 < i2 {
                assert(issue_line(issues[i1]) < issue_line(issues[i2]));
            } else if i2 < i1 {
                assert(issue_line(issues[i2]) < issue_line(issues[i1]));
            }
        }
        assert forall|j: int, i: int|
            0 <= j < keys.len() && 0 <= i < issues.len() && is_line_issue(issues[i].kind) implies !(key_line(
            #[trigger] keys[j],
        ) == n && issue_line(#[trigger] issues[i]) == n) by {
            if key_line(keys[j]) == n && issue_line(issues[i]) == n {
                assert(line_kind(lines[n - 1]) is Assignment);
            }
        }
    }
}

/// Line accounting: a blank or comment line gives nothing, and every other
/// line gives exactly one of a key, a malformed-line issue or a
/// duplicate-key issue, numbered by that line.
pub proof fn law_each_line_gives_one_entry(path: Seq<char>, contents: Seq<char>, idx: int)
    requires
        contents.len() < usize::MAX,
        0 <= idx < lines_of(contents).len(),
    ensures
        one_entry_for_line(
            lines_of(contents),
            parse_file_spec(path, contents).keys,
            parse_file_spec(path, contents).issues,
            idx,
        ),
{
    let lines = lines_of(contents);
    lemma_lines_of_len(contents);
    lemma_parse_invariant(path, lines, lines.len() as int);
    assert(lines.take(lines.len() as int) =~= lines);
    let f = parse_file_spec(path, contents);
    lemma_one_entry(path, lines, f.keys, f.issues, idx);
}

} // verus!
