//! The parsed form of an env file: its keys, in file order, and the issues
//! found while reading it.
use vstd::prelude::*;

verus! {

/// What is wrong with a line of an env file.
#[derive(Debug, Clone, Copy, PartialEq, Eq, Structural)]
pub enum ParseIssueKind {
    DuplicateKey,
    MalformedLine,
    MissingQuotes,
    EmptyValue,
}

#[derive(Debug, Clone, PartialEq, Eq)]
pub struct ParseIssue {
    pub kind: ParseIssueKind,
    pub message: String,
    pub key: Option<String>,
    pub line_number: Option<usize>,
}

#[derive(Debug, Clone, PartialEq, Eq)]
pub struct EnvKey {
    pub name: String,
    pub value: Option<String>,
    pub source: Option<String>,
    pub line_number: Option<usize>,
}

#[derive(Debug, Clone, PartialEq, Eq)]
pub struct EnvFile {
    pub path: String,
    pub keys: Vec<EnvKey>,
    pub issues: Vec<ParseIssue>,
}

/// Mathematical picture of a [`ParseIssue`].
pub struct IssueView {
    pub kind: ParseIssueKind,
    pub message: Seq<char>,
    pub key: Option<Seq<char>>,
    pub line_number: Option<usize>,
}

/// Mathematical picture of an [`EnvKey`].
pub struct KeyView {
    pub name: Seq<char>,
    pub value: Option<Seq<char>>,
    pub source: Option<Seq<char>>,
    pub line_number: Option<usize>,
}

/// Mathematical picture of an [`EnvFile`].
pub struct EnvFileView {
    pub path: Seq<char>,
    pub keys: Seq<KeyView>,
    pub issues: Seq<IssueView>,
}

impl View for ParseIssue {
    type V = IssueView;

    open spec fn view(&self) -> IssueView {
        IssueView {
            kind: self.kind,
            message: self.message@,
            key: self.key.deep_view(),
            line_number: self.line_number,
        }
    }
}

impl View for EnvKey {
    type V = KeyView;

    open spec fn view(&self) -> KeyView {
        KeyView {
            name: self.name@,
            value: self.value.deep_view(),
            source: self.source.deep_view(),
            line_number: self.line_number,
        }
    }
}

pub open spec fn keys_view(keys: Seq<EnvKey>) -> Seq<KeyView> {
    keys.map_values(|k: EnvKey| k@)
}

pub open spec fn issues_view(issues: Seq<ParseIssue>) -> Seq<IssueView> {
    issues.map_values(|i: ParseIssue| i@)
}

impl View for EnvFile {
    type V = EnvFileView;

    open spec fn view(&self) -> EnvFileView {
        EnvFileView { path: self.path@, keys: keys_view(self.keys@), issues: issues_view(self.issues@) }
    }
}

/// The names of `keys`, in order.
pub open spec fn names_of(keys: Seq<KeyView>) -> Seq<Seq<char>> {
    keys.map_values(|k: KeyView| k.name)
}

/// A value counts as empty when it is absent or the empty text.
pub open spec fn value_is_empty(value: Option<Seq<char>>) -> bool {
    match value {
        Some(v) => v.len() == 0,
        None => true,
    }
}

/// The value of the first key named `name`, if that key exists and holds one.
pub open spec fn value_for_spec(keys: Seq<KeyView>, name: Seq<char>) -> Option<Seq<char>>
    decreases keys.len(),
{
    if keys.len() == 0 {
        None
    } else if keys[0].name == name {
        keys[0].value
    } else {
        value_for_spec(keys.drop_first(), name)
    }
}

/// Names of the keys whose value is empty, in file order.
pub open spec fn empty_key_names(keys: Seq<KeyView>) -> Seq<Seq<char>>
    decreases keys.len(),
{
    if keys.len() == 0 {
        Seq::empty()
    } else {
        let rest = empty_key_names(keys.drop_last());
        if value_is_empty(keys.last().value) {
            rest.push(keys.last().name)
        } else {
            rest
        }
    }
}

/// Whether one of `keys` is called `name`.
pub fn has_key(keys: &Vec<EnvKey>, name: &String) -> (b: bool)
    ensures
        b == names_of(keys_view(keys@)).contains(name@),
{
    let mut i: usize = 0;
    while i < keys.len()
        invariant
            i <= keys.len(),
            forall|j: int| 0 <= j < i ==> keys@[j].name@ != name@,
        decreases keys.len() - i,
    {
        if keys[i].name == *name {
            assert(names_of(keys_view(keys@))[i as int] == name@);
            return true;
        }
        i += 1;
    }
    assert forall|j: int| 0 <= j < keys@.len() implies names_of(keys_view(keys@))[j] != name@ by {}
    false
}

impl EnvFile {
    /// The key names in file order.
    pub fn key_names(&self) -> (names: Vec<String>)
        ensures
            names.deep_view() == names_of(self@.keys),
    {
        let mut names: Vec<String> = Vec::new();
        let mut i: usize = 0;
        while i < self.keys.len()
            invariant
                i <= self.keys.len(),
                names.deep_view() =~= names_of(self@.keys).take(i as int),
            decreases self.keys.len() - i,
        {
            let ghost before = names.deep_view();
            names.push(self.keys[i].name.clone());
            assert(names.deep_view() =~= before.push(self@.keys[i as int].name));
            assert(names_of(self@.keys).take(i + 1) =~= names_of(self@.keys).take(i as int).push(
                self@.keys[i as int].name,
            ));
            i += 1;
        }
        names
    }

    /// The value of the first key called `name`; `None` when there is no such
    /// key or it holds no value.
    pub fn value_for(&self, name: &str) -> (r: Option<&str>)
        ensures
            r.deep_view() == value_for_spec(self@.keys, name@),
    {
        let ghost keys = self@.keys;
        let wanted = crate::util::text(name);
        let mut i: usize = 0;
        assert(keys.skip(0) =~= keys);
        while i < self.keys.len()
            invariant
                i <= self.keys.len(),
                keys == self@.keys,
                wanted@ == name@,
                value_for_spec(keys, name@) == value_for_spec(keys.skip(i as int), name@),
            decreases self.keys.len() - i,
        {
            assert(keys.skip(i as int).drop_first() =~= keys.skip(i + 1));
            if self.keys[i].name == wanted {
                return match &self.keys[i].value {
                    Some(v) => Some(v.as_str()),
                    None => None,
                };
            }
            i += 1;
        }
        None
    }

    /// Names of the keys whose value is absent or empty, in file order.
    pub fn empty_keys(&self) -> (names: Vec<String>)
        ensures
            names.deep_view() == empty_key_names(self@.keys),
    {
        let ghost keys = self@.keys;
        let mut names: Vec<String> = Vec::new();
        let mut i: usize = 0;
        while i < self.keys.len()
            invariant
                i <= self.keys.len(),
                keys == self@.keys,
                names.deep_view() == empty_key_names(keys.take(i as int)),
            decreases self.keys.len() - i,
        {
            assert(keys.take(i + 1).drop_last() =~= keys.take(i as int));
            let empty = match &self.keys[i].value {
                Some(v) => v.as_str().unicode_len() == 0,
                None => true,
            };
            let ghost before = names.deep_view();
            if empty {
                names.push(self.keys[i].name.clone());
                assert(names.deep_view() =~= before.push(keys[i as int].name));
            }
            i += 1;
        }
        assert(keys.take(self.keys.len() as int) =~= keys);
        names
    }
}

} // verus!
