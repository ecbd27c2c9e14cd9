//! Which files under a project root count as env files.
use vstd::prelude::*;

use crate::fs::ignore::{ignored_by, should_ignore};
use crate::fs::paths::{file_name, file_name_spec, join_path, join_spec, parts_spec};
use crate::util::{lemma_text_order_total, sort_texts, text_order};

verus! {

pub open spec fn dot_env() -> Seq<char> {
    seq!['.', 'e', 'n', 'v']
}

/// `.env` itself and its variants `.env.<anything>` (`.env.local`, `.env.example`, ...).
pub open spec fn is_env_file_name(name: Seq<char>) -> bool {
    name == dot_env() || (name.len() > 5 && name.take(5) == dot_env().push('.'))
}

/// A path (relative to the root) names an env file outside every ignored directory.
pub open spec fn is_candidate(rel: Seq<char>, ignore_directories: Seq<Seq<char>>) -> bool {
    &&& file_name_spec(rel) matches Some(name) && is_env_file_name(name)
    &&& !ignored_by(rel, ignore_directories)
}

/// The env files among `entries` (paths relative to `root`), joined onto `root`, in order.
pub open spec fn candidates_spec(root: Seq<char>, entries: Seq<Seq<char>>, ignore_directories: Seq<Seq<char>>) -> Seq<
    Seq<char>,
>
    decreases entries.len(),
{
    if entries.len() == 0 {
        Seq::empty()
    } else {
        let rest = candidates_spec(root, entries.drop_last(), ignore_directories);
        if is_candidate(entries.last(), ignore_directories) {
            rest.push(join_spec(root, entries.last()))
        } else {
            rest
        }
    }
}

pub fn is_env_file_name_text(name: &String) -> (b: bool)
    ensures
        b == is_env_file_name(name@),
{
    let c = crate::util::chars_of(name.as_str());
    let n = c.len();
    let is_dot_env = n >= 4 && c[0] == '.' && c[1] == 'e' && c[2] == 'n' && c[3] == 'v';
    proof {
        if n >= 4 {
            if is_dot_env {
                assert(c@.take(4) =~= dot_env());
            } else if c@.take(4) == dot_env() {
                assert(c@.take(4)[0] == '.' && c@.take(4)[1] == 'e');
                assert(c@.take(4)[2] == 'n' && c@.take(4)[3] == 'v');
            }
            if n == 4 {
                assert(c@.take(4) =~= c@);
            }
            if n > 5 {
                assert(c@.take(5).take(4) =~= c@.take(4));
                assert(c@.take(5)[4] == c@[4]);
                if is_dot_env && c@[4] == '.' {
                    assert(c@.take(5) =~= dot_env().push('.'));
                }
                if c@.take(5) == dot_env().push('.') {
                    assert(c@.take(5).take(4) =~= dot_env());
                    assert(c@.take(5)[4] == '.');
                }
            }
        }
        if n != 4 {
            assert(c@.len() != dot_env().len());
        }
    }
    (n == 4 && is_dot_env) || (n > 5 && is_dot_env && c[4] == '.')
}

/// The env files among `entries`, the paths relative to `root` of the files
/// found under it: files called `.env` or `.env.<suffix>` that lie in no
/// ignored directory, joined onto `root`, taken in the text order of their
/// relative paths (so the first one is the same whatever order the walk
/// listed them in).
pub fn select_candidates(root: &str, entries: &Vec<String>, ignore_directories: &Vec<String>) -> (r: Vec<
    String,
>)
    ensures
        r.deep_view() == candidates_spec(
            root@,
            entries.deep_view().sort_by(text_order()),
            ignore_directories.deep_view(),
        ),
{
    let sorted = sort_texts(entries);
    let ghost es = sorted.deep_view();
    let mut r: Vec<String> = Vec::new();
    let mut i: usize = 0;
    while i < sorted.len()
        invariant
            i <= sorted.len(),
            es == sorted.deep_view(),
            r.deep_view() == candidates_spec(root@, es.take(i as int), ignore_directories.deep_view()),
        decreases sorted.len() - i,
    {
        assert(es.take(i + 1).drop_last() =~= es.take(i as int));
        let rel = sorted[i].as_str();
        let keep = match file_name(rel) {
            Some(name) => is_env_file_name_text(&name) && !should_ignore(rel, ignore_directories),
            None => false,
        };
        if keep {
            let ghost before = r.deep_view();
            r.push(join_path(root, rel));
            assert(r.deep_view() =~= before.push(join_spec(root@, es[i as int])));
        }
        i += 1;
    }
    assert(es.take(sorted.len() as int) =~= es);
    r
}

/// No component of `rel` is the file name of an ignored directory.
pub open spec fn outside_ignored(rel: Seq<char>, ignore_directories: Seq<Seq<char>>) -> bool {
    forall|c: Seq<char>, d: Seq<char>|
        #![trigger parts_spec(rel).contains(c), ignore_directories.contains(d)]
        parts_spec(rel).contains(c) && ignore_directories.contains(d) ==> file_name_spec(d) != Some(c)
}

/// A file called `.env` or `.env.<suffix>` (with a non-empty suffix).
pub open spec fn names_env_file(rel: Seq<char>) -> bool {
    file_name_spec(rel) matches Some(name) && (name == ".env"@ || (name.len() > 5 && name.take(5) == ".env."@))
}

proof fn lemma_outside_ignored(rel: Seq<char>, ignore_directories: Seq<Seq<char>>)
    ensures
        outside_ignored(rel, ignore_directories) == !ignored_by(rel, ignore_directories),
{
    let parts = parts_spec(rel);
    if ignored_by(rel, ignore_directories) {
        let (i, j) = choose|i: int, j: int|
            0 <= i < parts.len() && 0 <= j < ignore_directories.len() && file_name_spec(
                #[trigger] ignore_directories[j],
            ) == Some(#[trigger] parts[i]);
        assert(parts.contains(parts[i]));
        assert(ignore_directories.contains(ignore_directories[j]));
    }
}

proof fn lemma_names_env_file(rel: Seq<char>)
    ensures
        names_env_file(rel) == (file_name_spec(rel) matches Some(name) && is_env_file_name(name)),
{
    reveal_strlit(".env");
    reveal_strlit(".env.");
    assert(".env"@ =~= dot_env());
    assert(".env."@ =~= dot_env().push('.'));
}

spec fn joined_candidate(p: Seq<char>, root: Seq<char>, es: Seq<Seq<char>>, ignore_directories: Seq<Seq<char>>) -> bool {
    exists|rel: Seq<char>| #[trigger] es.contains(rel) && is_candidate(rel, ignore_directories) && p == join_spec(root, rel)
}

proof fn lemma_candidates(root: Seq<char>, es: Seq<Seq<char>>, ignore_directories: Seq<Seq<char>>)
    ensures
        forall|k: int|
            0 <= k < candidates_spec(root, es, ignore_directories).len() ==> joined_candidate(
                #[trigger] candidates_spec(root, es, ignore_directories)[k],
                root,
                es,
                ignore_directories,
            ),
        forall|rel: Seq<char>|
            es.contains(rel) && is_candidate(rel, ignore_directories) ==> #[trigger] candidates_spec(
                root,
                es,
                ignore_directories,
            ).contains(join_spec(root, rel)),
    decreases es.len(),
{
    if es.len() > 0 {
        let init = es.drop_last();
        lemma_candidates(root, init, ignore_directories);
        let rest = candidates_spec(root, init, ignore_directories);
        let out = candidates_spec(root, es, ignore_directories);
        assert forall|k: int| 0 <= k < out.len() implies joined_candidate(#[trigger] out[k], root, es, ignore_directories) by {
            if k < rest.len() {
                assert(joined_candidate(rest[k], root, init, ignore_directories));
                let rel = choose|rel: Seq<char>|
                    #[trigger] init.contains(rel) && is_candidate(rel, ignore_directories) && rest[k] == join_spec(root, rel);
                let a = choose|a: int| 0 <= a < init.len() && init[a] == rel;
                assert(es[a] == rel);
                assert(out[k] == rest[k]);
                assert(es.contains(rel));
                assert(is_candidate(rel, ignore_directories) && out[k] == join_spec(root, rel));
            } else {
                assert(out.len() > rest.len());
                assert(is_candidate(es.last(), ignore_directories));
                assert(out =~= rest.push(join_spec(root, es.last())));
                assert(out[k] == join_spec(root, es.last()));
                assert(es[es.len() - 1] == es.last());
                assert(es.contains(es.last()));
            }
        }
        assert forall|rel: Seq<char>| es.contains(rel) && is_candidate(rel, ignore_directories) implies #[trigger] out.contains(
            join_spec(root, rel),
        ) by {
            let a = choose|a: int| 0 <= a < es.len() && es[a] == rel;
            if a < es.len() - 1 {
                assert(init[a] == rel);
                assert(rest.contains(join_spec(root, rel)));
                let b = choose|b: int| 0 <= b < rest.len() && rest[b] == join_spec(root, rel);
                assert(out[b] == rest[b]);
            } else {
                assert(out[out.len() - 1] == join_spec(root, rel));
            }
        }
    }
}

/// `p` is `root` joined with one of `entries` that names an env file outside
/// every ignored directory.
pub open spec fn joined_env_entry(
    p: Seq<char>,
    root: Seq<char>,
    entries: Seq<Seq<char>>,
    ignore_directories: Seq<Seq<char>>,
) -> bool {
    exists|rel: Seq<char>|
        #[trigger] entries.contains(rel) && names_env_file(rel) && outside_ignored(rel, ignore_directories) && p
            == join_spec(root, rel)
}

/// The files `select_candidates` keeps are exactly the env files among the
/// entries that lie outside every ignored directory: each path returned is
/// the root joined with such an entry, none of whose components is the file
/// name of an ignored directory, and every such entry is returned.
pub proof fn law_candidates_are_env_files_outside_ignored_directories(
    root: Seq<char>,
    entries: Seq<Seq<char>>,
    ignore_directories: Seq<Seq<char>>,
)
    ensures
        forall|k: int|
            0 <= k < candidates_spec(root, entries.sort_by(text_order()), ignore_directories).len()
                ==> joined_env_entry(
                #[trigger] candidates_spec(root, entries.sort_by(text_order()), ignore_directories)[k],
                root,
                entries,
                ignore_directories,
            ),
        forall|rel: Seq<char>|
            entries.contains(rel) && names_env_file(rel) && outside_ignored(rel, ignore_directories)
                ==> #[trigger] candidates_spec(root, entries.sort_by(text_order()), ignore_directories).contains(
                join_spec(root, rel),
            ),
{
    broadcast use vstd::seq_lib::group_to_multiset_ensures;

    lemma_text_order_total();
    let es = entries.sort_by(text_order());
    entries.lemma_sort_by_ensures(text_order());
    lemma_candidates(root, es, ignore_directories);
    let out = candidates_spec(root, es, ignore_directories);
    assert forall|rel: Seq<char>| #[trigger] es.contains(rel) <==> entries.contains(rel) by {
        assert(es.to_multiset().count(rel) == entries.to_multiset().count(rel));
    }
    assert forall|k: int| 0 <= k < out.len() implies joined_env_entry(#[trigger] out[k], root, entries, ignore_directories) by {
        assert(joined_candidate(out[k], root, es, ignore_directories));
        let rel = choose|rel: Seq<char>|
            #[trigger] es.contains(rel) && is_candidate(rel, ignore_directories) && out[k] == join_spec(root, rel);
        lemma_outside_ignored(rel, ignore_directories);
        lemma_names_env_file(rel);
        assert(entries.contains(rel));
    }
    assert forall|rel: Seq<char>|
        entries.contains(rel) && names_env_file(rel) && outside_ignored(rel, ignore_directories) implies #[trigger] out.contains(
        join_spec(root, rel),
    ) by {
        lemma_outside_ignored(rel, ignore_directories);
        lemma_names_env_file(rel);
        assert(es.contains(rel));
    }
}

} // verus!
