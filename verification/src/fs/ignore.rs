//! Ignored directories: a path is skipped when any of its components is the
//! file name of an ignored directory.
use vstd::prelude::*;

use super::paths::{file_name, file_name_spec, parts_spec, path_parts};

verus! {

/// Some component of `path` is the file name of one of `ignore_directories`.
pub open spec fn ignored_by(path: Seq<char>, ignore_directories: Seq<Seq<char>>) -> bool {
    exists|i: int, j: int|
        0 <= i < parts_spec(path).len() && 0 <= j < ignore_directories.len() && file_name_spec(
            #[trigger] ignore_directories[j],
        ) == Some(#[trigger] parts_spec(path)[i])
}

/// Whether `path` lies inside (or is) one of the ignored directories.
pub fn should_ignore(path: &str, ignore_directories: &Vec<String>) -> (b: bool)
    ensures
        b == ignored_by(path@, ignore_directories.deep_view()),
{
    let parts = path_parts(path);
    let ghost ig = ignore_directories.deep_view();
    let mut j: usize = 0;
    while j < ignore_directories.len()
        invariant
            j <= ignore_directories.len(),
            ig == ignore_directories.deep_view(),
            parts.deep_view() == parts_spec(path@),
            forall|i: int, k: int|
                0 <= i < parts_spec(path@).len() && 0 <= k < j ==> file_name_spec(#[trigger] ig[k]) != Some(
                    #[trigger] parts_spec(path@)[i],
                ),
        decreases ignore_directories.len() - j,
    {
        let name = file_name(ignore_directories[j].as_str());
        match name {
            Some(name) => {
                let mut i: usize = 0;
                while i < parts.len()
                    invariant
                        j < ignore_directories.len(),
                        i <= parts.len(),
                        parts.deep_view() == parts_spec(path@),
                        ig == ignore_directories.deep_view(),
                        file_name_spec(ig[j as int]) == Some(name@),
                        forall|i2: int| 0 <= i2 < i ==> parts_spec(path@)[i2] != name@,
                    decreases parts.len() - i,
                {
                    if parts[i] == name {
                        assert(file_name_spec(ig[j as int]) == Some(parts_spec(path@)[i as int]));
                        return true;
                    }
                    i += 1;
                }
            },
            None => {},
        }
        j += 1;
    }
    false
}

} // verus!
