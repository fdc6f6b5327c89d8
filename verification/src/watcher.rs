//! Watched-folder change detection: which filesystem events can change what
//! the library shows, and which of the requested roots get watched.

use vstd::prelude::*;
use crate::library::{is_media_ext, media_kind_spec};
use crate::naming::opt_view;
use crate::paths::{extension_of, path_extension};
use crate::text::{chars_eq, string_of, trim_spec, trim_str, views};

verus! {

broadcast use vstd::string::group_string_axioms;

/// Whether an event on a file with extension `ext` can change the library: a
/// media extension does, and so does no extension at all (a directory being
/// created or removed usually brings or takes clips with it).
pub open spec fn affects_library_spec(ext: Option<Seq<char>>) -> bool {
    match ext {
        None => true,
        Some(e) => media_kind_spec(e) is Some,
    }
}

/// Decides on the extension of the path an event touched.
pub fn affects_library_ext(ext: Option<&str>) -> (r: bool)
    ensures
        r == affects_library_spec(opt_view(ext)),
{
    match ext {
        None => true,
        Some(e) => is_media_ext(e),
    }
}

/// Whether a filesystem event at `path` could change what the library shows:
/// it touches a media file, or a path without an extension
/// (`Path::extension`).
pub fn affects_library(path: &str) -> (r: bool)
    ensures
        r == affects_library_spec(extension_of(path@)),
{
    let ext = path_extension(path);
    match ext {
        None => true,
        Some(e) => {
            let es = e.as_str();
            assert(opt_view(Some(es)) == extension_of(path@));
            affects_library_ext(Some(es))
        },
    }
}

/// The roots to watch out of the requested `folders`, in order: each trimmed,
/// blanks dropped, and each distinct root kept once, where it first occurs.
pub open spec fn watch_roots_spec(folders: Seq<Seq<char>>) -> Seq<Seq<char>>
    decreases folders.len(),
{
    if folders.len() == 0 {
        Seq::empty()
    } else {
        let prev = watch_roots_spec(folders.drop_last());
        let f = trim_spec(folders.last());
        if f.len() == 0 || prev.contains(f) {
            prev
        } else {
            prev.push(f)
        }
    }
}

/// Every root is trimmed and non-empty, and none occurs twice.
pub proof fn lemma_watch_roots_distinct(folders: Seq<Seq<char>>)
    ensures
        forall|i: int|
            0 <= i < watch_roots_spec(folders).len() ==> #[trigger] watch_roots_spec(folders)[i].len()
                > 0,
        forall|i: int, j: int|
            0 <= i < j < watch_roots_spec(folders).len() ==> watch_roots_spec(folders)[i]
                != watch_roots_spec(folders)[j],
    decreases folders.len(),
{
    if folders.len() > 0 {
        let prev = watch_roots_spec(folders.drop_last());
        let f = trim_spec(folders.last());
        lemma_watch_roots_distinct(folders.drop_last());
        if !(f.len() == 0 || prev.contains(f)) {
            let r = prev.push(f);
            assert(watch_roots_spec(folders) == r);
            assert forall|i: int| 0 <= i < r.len() implies #[trigger] r[i].len() > 0 by {
                if i < prev.len() {
                    assert(r[i] == prev[i]);
                }
            }
            assert forall|i: int, j: int| 0 <= i < j < r.len() implies r[i] != r[j] by {
                if j == prev.len() {
                    assert(r[i] == prev[i]);
                    assert(prev.contains(prev[i]));
                } else {
                    assert(r[i] == prev[i] && r[j] == prev[j]);
                }
            }
        }
    }
}

fn contains_root(seen: &Vec<Vec<char>>, f: &[char]) -> (r: bool)
    ensures
        r == seen@.map_values(|v: Vec<char>| v@).contains(f@),
{
    let ghost all = seen@.map_values(|v: Vec<char>| v@);
    let mut i: usize = 0;
    while i < seen.len()
        invariant
            i <= seen@.len(),
            all == seen@.map_values(|v: Vec<char>| v@),
            forall|j: int| 0 <= j < i ==> #[trigger] all[j] != f@,
        decreases seen.len() - i,
    {
        if chars_eq(seen[i].as_slice(), f) {
            assert(all[i as int] == f@);
            return true;
        }
        i += 1;
    }
    proof {
        if all.contains(f@) {
            let k = choose|k: int| 0 <= k < all.len() && all[k] == f@;
            assert(all[k] != f@);
        }
    }
    false
}

/// Picks the roots to watch among the requested `folders` (see
/// `watch_roots_spec`). Whether each is an existing directory is for the
/// caller to check on disk.
pub fn watch_roots(folders: &Vec<String>) -> (r: Vec<String>)
    ensures
        views(r@) == watch_roots_spec(views(folders@)),
{
    let ghost fs = views(folders@);
    let mut seen: Vec<Vec<char>> = Vec::new();
    let mut i: usize = 0;
    while i < folders.len()
        invariant
            i <= folders@.len(),
            fs == views(folders@),
            seen@.map_values(|v: Vec<char>| v@) == watch_roots_spec(fs.take(i as int)),
        decreases folders.len() - i,
    {
        let f = trim_str(folders[i].as_str());
        proof {
            assert(fs.take(i + 1).drop_last() =~= fs.take(i as int));
            assert(fs.take(i + 1).last() == folders@[i as int]@);
        }
        if f.len() > 0 && !contains_root(&seen, f.as_slice()) {
            seen.push(f);
            assert(seen@.map_values(|v: Vec<char>| v@) =~= watch_roots_spec(fs.take(i as int)).push(
                trim_spec(folders@[i as int]@),
            ));
        }
        i += 1;
    }
    assert(fs.take(folders@.len() as int) =~= fs);
    let mut out: Vec<String> = Vec::new();
    let mut k: usize = 0;
    while k < seen.len()
        invariant
            k <= seen@.len(),
            views(out@) =~= seen@.map_values(|v: Vec<char>| v@).take(k as int),
        decreases seen.len() - k,
    {
        let s = string_of(seen[k].as_slice());
        out.push(s);
        assert(seen@.map_values(|v: Vec<char>| v@).take(k + 1) =~= seen@.map_values(
            |v: Vec<char>| v@,
        ).take(k as int).push(seen@[k as int]@));
        k += 1;
    }
    assert(seen@.map_values(|v: Vec<char>| v@).take(seen@.len() as int) =~= seen@.map_values(
        |v: Vec<char>| v@,
    ));
    out
}

} // verus!
