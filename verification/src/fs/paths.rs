//! Unix path text: joining, absoluteness, components and file names, with the
//! meaning `std::path` gives them.
use vstd::prelude::*;

use crate::util::{find_char, lemma_find_char_at, lemma_find_char_bounds, string_of, text};

verus! {

/// A path is absolute when it starts at the root `/`.
pub open spec fn is_absolute_spec(p: Seq<char>) -> bool {
    p.len() > 0 && p[0] == '/'
}

/// `PathBuf::push` on Unix: an absolute `p` replaces `root`; otherwise `p` is
/// appended, with a `/` in between unless `root` is empty or already ends in one.
pub open spec fn join_spec(root: Seq<char>, p: Seq<char>) -> Seq<char> {
    if is_absolute_spec(p) {
        p
    } else if root.len() == 0 || root.last() == '/' {
        root + p
    } else {
        root + seq!['/'] + p
    }
}

/// The text between the `/` separators of `p`, empty pieces included.
pub open spec fn segments(p: Seq<char>) -> Seq<Seq<char>>
    decreases p.len(),
{
    let k = find_char(p, '/');
    if k < p.len() {
        proof {
            lemma_find_char_bounds(p, '/');
        }
        seq![p.take(k)] + segments(p.skip(k + 1))
    } else {
        seq![p]
    }
}

/// The pieces that name something: neither empty nor the current directory `.`.
pub open spec fn significant(segs: Seq<Seq<char>>) -> Seq<Seq<char>>
    decreases segs.len(),
{
    if segs.len() == 0 {
        Seq::empty()
    } else {
        let rest = significant(segs.drop_first());
        if segs[0].len() == 0 || segs[0] == seq!['.'] {
            rest
        } else {
            seq![segs[0]] + rest
        }
    }
}

/// The named components of `p` (`..` included), in order.
pub open spec fn parts_spec(p: Seq<char>) -> Seq<Seq<char>> {
    significant(segments(p))
}

/// `Path::file_name`: the last component, unless there is none or it is `..`.
pub open spec fn file_name_spec(p: Seq<char>) -> Option<Seq<char>> {
    let parts = parts_spec(p);
    if parts.len() == 0 || parts.last() == seq!['.', '.'] {
        None
    } else {
        Some(parts.last())
    }
}

/// A relative path that starts with the current directory `.` (`.`, `./x`):
/// the one place where `Path::components` keeps a `.`.
pub open spec fn leading_cur_dir(p: Seq<char>) -> bool {
    &&& !is_absolute_spec(p)
    &&& p.len() >= 1
    &&& p[0] == '.'
    &&& (p.len() == 1 || p[1] == '/')
}

/// Two paths are the same path as `PathBuf`'s `==` has it: the same components,
/// so separators repeated or at the end and `.` inside the path do not count.
pub open spec fn same_path(a: Seq<char>, b: Seq<char>) -> bool {
    &&& is_absolute_spec(a) == is_absolute_spec(b)
    &&& leading_cur_dir(a) == leading_cur_dir(b)
    &&& parts_spec(a) == parts_spec(b)
}

pub fn is_absolute(p: &str) -> (b: bool)
    ensures
        b == is_absolute_spec(p@),
{
    let chars = crate::util::chars_of(p);
    chars.len() > 0 && chars[0] == '/'
}

/// `root` joined with `p` as `PathBuf::push` does it.
pub fn join_path(root: &str, p: &str) -> (r: String)
    ensures
        r@ == join_spec(root@, p@),
{
    if is_absolute(p) {
        return text(p);
    }
    let chars = crate::util::chars_of(root);
    let mut r = text(root);
    if chars.len() > 0 && chars[chars.len() - 1] != '/' {
        r.append("/");
        assert(r@ =~= root@ + seq!['/']) by {
            reveal_strlit("/");
        }
    }
    r.append(p);
    r
}

/// A path taken as it is: paths are kept in the text they were given in.
pub fn normalize(path: &str) -> (r: String)
    ensures
        r@ == path@,
{
    text(path)
}

/// The named components of `p`, in order.
pub fn path_parts(p: &str) -> (parts: Vec<String>)
    ensures
        parts.deep_view() == parts_spec(p@),
{
    let chars = crate::util::chars_of(p);
    let n = chars.len();
    let mut parts: Vec<String> = Vec::new();
    let mut pos: usize = 0;
    let mut done = false;
    assert(chars@.skip(0) =~= chars@);
    while !done
        invariant
            pos <= n == chars.len(),
            chars@ == p@,
            !done ==> parts_spec(p@) == parts.deep_view() + significant(segments(chars@.skip(pos as int))),
            done ==> parts_spec(p@) == parts.deep_view(),
        decreases n - pos + if done { 0int } else { 1int },
    {
        let ghost rest = chars@.skip(pos as int);
        let mut e = pos;
        while e < n && chars[e] != '/'
            invariant
                pos <= e <= n == chars.len(),
                forall|j: int| pos <= j < e ==> chars@[j] != '/',
            decreases n - e,
        {
            e += 1;
        }
        proof {
            lemma_find_char_at(rest, '/', e - pos);
            assert(rest.take(e - pos) =~= chars@.subrange(pos as int, e as int));
            if e < n {
                assert(rest.skip(e - pos + 1) =~= chars@.skip(e + 1));
            } else {
                assert(rest =~= chars@.subrange(pos as int, e as int));
            }
        }
        let ghost seg = chars@.subrange(pos as int, e as int);
        let keep = e > pos && !(e == pos + 1 && chars[pos] == '.');
        proof {
            if e == pos + 1 {
                if chars@[pos as int] == '.' {
                    assert(seg =~= seq!['.']);
                } else {
                    assert(seg[0] != seq!['.'][0]);
                }
            }
            if e > pos + 1 {
                assert(seg.len() != seq!['.'].len());
            }
            assert(keep == !(seg.len() == 0 || seg == seq!['.']));
        }
        let ghost before = parts.deep_view();
        if keep {
            parts.push(string_of(&chars, pos, e));
            assert(parts.deep_view() =~= before.push(seg));
        }
        proof {
            let segs = segments(rest);
            if e < n {
                assert(segs =~= seq![seg] + segments(chars@.skip(e + 1)));
                assert(segs.drop_first() =~= segments(chars@.skip(e + 1)));
            } else {
                assert(segs =~= seq![seg]);
                assert(segs.drop_first() =~= Seq::<Seq<char>>::empty());
            }
            if keep {
                assert(before + significant(segs) =~= before.push(seg) + significant(segs.drop_first()));
            }
        }
        if e < n {
            pos = e + 1;
        } else {
            pos = n;
            done = true;
            assert(parts.deep_view() + Seq::<Seq<char>>::empty() =~= parts.deep_view());
        }
    }
    parts
}

/// `Path::file_name` of `p`.
pub fn file_name(p: &str) -> (r: Option<String>)
    ensures
        r.deep_view() == file_name_spec(p@),
{
    let parts = path_parts(p);
    if parts.len() == 0 {
        return None;
    }
    let last = &parts[parts.len() - 1];
    if *last == text("..") {
        proof {
            reveal_strlit("..");
            assert(".."@ =~= seq!['.', '.']);
        }
        None
    } else {
        proof {
            reveal_strlit("..");
            assert(".."@ =~= seq!['.', '.']);
        }
        Some(last.clone())
    }
}

fn starts_with_cur_dir(p: &str) -> (b: bool)
    ensures
        b == leading_cur_dir(p@),
{
    let chars = crate::util::chars_of(p);
    chars.len() >= 1 && chars[0] == '.' && (chars.len() == 1 || chars[1] == '/')
}

/// Whether `a` and `b` are the same path, component by component.
pub fn paths_equal(a: &str, b: &str) -> (r: bool)
    ensures
        r == same_path(a@, b@),
{
    if is_absolute(a) != is_absolute(b) || starts_with_cur_dir(a) != starts_with_cur_dir(b) {
        return false;
    }
    let pa = path_parts(a);
    let pb = path_parts(b);
    if pa.len() != pb.len() {
        assert(pa.deep_view().len() != pb.deep_view().len());
        return false;
    }
    let mut i: usize = 0;
    while i < pa.len()
        invariant
            i <= pa.len() == pb.len(),
            pa.deep_view() == parts_spec(a@),
            pb.deep_view() == parts_spec(b@),
            forall|j: int| 0 <= j < i ==> pa.deep_view()[j] == pb.deep_view()[j],
        decreases pa.len() - i,
    {
        if pa[i] != pb[i] {
            assert(pa.deep_view()[i as int] != pb.deep_view()[i as int]);
            return false;
        }
        i += 1;
    }
    assert(pa.deep_view() =~= pb.deep_view());
    true
}

} // verus!
