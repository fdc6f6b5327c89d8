//! Watched-folder library: classifying files into media kinds, the entry for
//! a found file, and merging / ordering the Clips found under the watched
//! folder and the output folder, newest first.

use vstd::prelude::*;
use crate::text::{
    ascii_lower, chars_of, eq_ignore_ascii_case, eq_ignore_ascii_case_spec, string_of, trim_spec,
};
use crate::naming::{nonblank, nonblank_text, opt_view};
use crate::order::{is_sorted_order, lemma_sorted_order, ranks_before, sorted_order, stable_order};
use crate::paths::{
    extension_of, file_name_of, parent_of, path_extension, path_file_name, path_parent, paths_equal,
    same_path,
};

verus! {

broadcast use vstd::string::group_string_axioms;

/// Extensions of video files (opened in the trim editor).
pub open spec fn video_exts() -> Seq<Seq<char>> {
    seq![
        seq!['m', 'p', '4'],
        seq!['m', 'o', 'v'],
        seq!['m', 'k', 'v'],
        seq!['a', 'v', 'i'],
        seq!['w', 'e', 'b', 'm'],
        seq!['m', '4', 'v'],
    ]
}

/// Extensions of animated images (Klipt's own GIF/WebP exports).
pub open spec fn anim_exts() -> Seq<Seq<char>> {
    seq![seq!['g', 'i', 'f'], seq!['w', 'e', 'b', 'p']]
}

/// Extensions of audio-only files.
pub open spec fn audio_exts() -> Seq<Seq<char>> {
    seq![
        seq!['m', '4', 'a'],
        seq!['m', 'p', '3'],
        seq!['w', 'a', 'v'],
        seq!['o', 'g', 'g'],
        seq!['f', 'l', 'a', 'c'],
        seq!['o', 'p', 'u', 's'],
    ]
}

/// Whether `ext` equals, ignoring ASCII case, one of `exts`.
pub open spec fn matches_any(ext: Seq<char>, exts: Seq<Seq<char>>) -> bool {
    exists|i: int| 0 <= i < exts.len() && eq_ignore_ascii_case_spec(ext, #[trigger] exts[i])
}

/// The media kind of a file extension: "video", "anim" (GIF/WebP) or "audio",
/// ASCII-case-insensitively; `None` for a file Klipt does not list.
pub open spec fn media_kind_spec(ext: Seq<char>) -> Option<Seq<char>> {
    if matches_any(ext, video_exts()) {
        Some("video"@)
    } else if matches_any(ext, anim_exts()) {
        Some("anim"@)
    } else if matches_any(ext, audio_exts()) {
        Some("audio"@)
    } else {
        None
    }
}

fn matches_any_exec(ext: &[char], exts: &Vec<Vec<char>>) -> (r: bool)
    ensures
        r == matches_any(ext@, exts@.map_values(|v: Vec<char>| v@)),
{
    let ghost all = exts@.map_values(|v: Vec<char>| v@);
    let mut i: usize = 0;
    while i < exts.len()
        invariant
            i <= exts@.len(),
            all == exts@.map_values(|v: Vec<char>| v@),
            forall|j: int| 0 <= j < i ==> !eq_ignore_ascii_case_spec(ext@, #[trigger] all[j]),
        decreases exts.len() - i,
    {
        if eq_ignore_ascii_case(ext, exts[i].as_slice()) {
            assert(eq_ignore_ascii_case_spec(ext@, all[i as int]));
            return true;
        }
        i += 1;
    }
    false
}

/// Classifies a file extension into the media kind the frontend keys its card
/// rendering and open behaviour on. `None` = not a media file Klipt lists.
pub fn media_kind(ext: &str) -> (r: Option<&'static str>)
    ensures
        match r {
            Some(k) => media_kind_spec(ext@) == Some(k@),
            None => media_kind_spec(ext@) is None,
        },
{
    let e = chars_of(ext);
    let video = vec![
        vec!['m', 'p', '4'],
        vec!['m', 'o', 'v'],
        vec!['m', 'k', 'v'],
        vec!['a', 'v', 'i'],
        vec!['w', 'e', 'b', 'm'],
        vec!['m', '4', 'v'],
    ];
    let anim = vec![vec!['g', 'i', 'f'], vec!['w', 'e', 'b', 'p']];
    let audio = vec![
        vec!['m', '4', 'a'],
        vec!['m', 'p', '3'],
        vec!['w', 'a', 'v'],
        vec!['o', 'g', 'g'],
        vec!['f', 'l', 'a', 'c'],
        vec!['o', 'p', 'u', 's'],
    ];
    assert(video@.map_values(|v: Vec<char>| v@) =~= video_exts());
    assert(anim@.map_values(|v: Vec<char>| v@) =~= anim_exts());
    assert(audio@.map_values(|v: Vec<char>| v@) =~= audio_exts());
    if matches_any_exec(e.as_slice(), &video) {
        Some("video")
    } else if matches_any_exec(e.as_slice(), &anim) {
        Some("anim")
    } else if matches_any_exec(e.as_slice(), &audio) {
        Some("audio")
    } else {
        None
    }
}

/// Whether `ext` names a media file Klipt lists (any media kind).
pub fn is_media_ext(ext: &str) -> (r: bool)
    ensures
        r == (media_kind_spec(ext@) is Some),
{
    media_kind(ext).is_some()
}

proof fn lemma_ascii_case_trans(a: Seq<char>, b: Seq<char>, c: Seq<char>)
    requires
        eq_ignore_ascii_case_spec(a, b),
    ensures
        eq_ignore_ascii_case_spec(a, c) == eq_ignore_ascii_case_spec(b, c),
{
    if eq_ignore_ascii_case_spec(b, c) {
        assert forall|i: int| 0 <= i < a.len() implies ascii_lower(#[trigger] a[i]) == ascii_lower(
            c[i],
        ) by {
            assert(ascii_lower(b[i]) == ascii_lower(c[i]));
        }
    }
    if eq_ignore_ascii_case_spec(a, c) {
        assert forall|i: int| 0 <= i < b.len() implies ascii_lower(#[trigger] b[i]) == ascii_lower(
            c[i],
        ) by {
            assert(ascii_lower(a[i]) == ascii_lower(b[i]));
        }
    }
}

proof fn lemma_matches_any_case(a: Seq<char>, b: Seq<char>, exts: Seq<Seq<char>>)
    requires
        eq_ignore_ascii_case_spec(a, b),
    ensures
        matches_any(a, exts) == matches_any(b, exts),
{
    assert forall|i: int| 0 <= i < exts.len() implies eq_ignore_ascii_case_spec(a, #[trigger] exts[i])
        == eq_ignore_ascii_case_spec(b, exts[i]) by {
        lemma_ascii_case_trans(a, b, exts[i]);
    }
}

/// Classification ignores ASCII case: two extensions that differ only in the
/// case of ASCII letters get the same media kind.
pub proof fn lemma_media_kind_ignores_case(a: Seq<char>, b: Seq<char>)
    requires
        eq_ignore_ascii_case_spec(a, b),
    ensures
        media_kind_spec(a) == media_kind_spec(b),
{
    lemma_matches_any_case(a, b, video_exts());
    lemma_matches_any_case(a, b, anim_exts());
    lemma_matches_any_case(a, b, audio_exts());
}

/// How deep below a root the walk reads folders: the root is depth 0, and
/// per-game subfolders a few levels down are still found.
pub const MAX_WALK_DEPTH: usize = 3;

/// What the walk does with one entry of a folder it reads.
#[derive(Debug, Clone, Copy, PartialEq, Eq, Structural)]
pub enum WalkStep {
    /// Left alone: a symbolic link (or junction), which could lead back to an
    /// ancestor or off into an unrelated tree.
    Skip,
    /// A real subfolder: read it one level deeper.
    Descend,
    /// A file: a candidate Clip, kept when its extension is a media one.
    Consider,
}

/// Whether the walk reads a folder found at `depth` below its root.
pub fn folder_in_reach(depth: usize) -> (r: bool)
    ensures
        r == (depth <= MAX_WALK_DEPTH),
{
    depth <= MAX_WALK_DEPTH
}

/// What the walk does with an entry of a folder at `depth`: nothing when the
/// folder lies beyond reach or the entry is a link, descend into a
/// subfolder, and consider a file.
pub fn walk_step(depth: usize, is_symlink: bool, is_dir: bool) -> (r: WalkStep)
    ensures
        r == (if depth > MAX_WALK_DEPTH || is_symlink {
            WalkStep::Skip
        } else if is_dir {
            WalkStep::Descend
        } else {
            WalkStep::Consider
        }),
{
    if depth > MAX_WALK_DEPTH || is_symlink {
        WalkStep::Skip
    } else if is_dir {
        WalkStep::Descend
    } else {
        WalkStep::Consider
    }
}

/// Safety ceiling on how many Clips a library scan returns.
pub const MAX_CLIPS: usize = 50000;

/// A Clip surfaced in the recent-clips list.
pub struct ClipEntry {
    pub path: String,
    pub name: String,
    /// Parent folder name: ShadowPlay stores per game, so this is the game.
    pub game: String,
    pub modified: u64,
    pub size_bytes: u64,
    /// Media kind: "video" | "anim" (GIF/WebP) | "audio".
    pub kind: &'static str,
}

impl ClipEntry {
    /// A field-for-field copy of this entry.
    pub fn duplicate(&self) -> (r: ClipEntry)
        ensures
            r == *self,
    {
        ClipEntry {
            path: self.path.clone(),
            name: self.name.clone(),
            game: self.game.clone(),
            modified: self.modified,
            size_bytes: self.size_bytes,
            kind: self.kind,
        }
    }
}

/// The output folder a library scan also walks: the trimmed setting, or `None`
/// when it is missing or blank.
pub fn output_root(output_dir: Option<&str>) -> (r: Option<String>)
    ensures
        match r {
            Some(d) => nonblank(opt_view(output_dir)) == Some(d@),
            None => nonblank(opt_view(output_dir)) is None,
        },
{
    match nonblank_text(output_dir) {
        Some(t) => Some(string_of(t.as_slice())),
        None => None,
    }
}

/// The fields of a library entry as values.
pub open spec fn entry_view(e: ClipEntry) -> (Seq<char>, Seq<char>, Seq<char>, u64, u64, Seq<char>) {
    (e.path@, e.name@, e.game@, e.modified, e.size_bytes, e.kind@)
}

/// The field values of each entry.
pub open spec fn entry_views(es: Seq<ClipEntry>) -> Seq<(Seq<char>, Seq<char>, Seq<char>, u64, u64, Seq<char>)> {
    es.map_values(|e: ClipEntry| entry_view(e))
}

/// Whether some entry of `entries` has path `p`.
pub open spec fn has_path(entries: Seq<ClipEntry>, p: Seq<char>) -> bool {
    exists|i: int| 0 <= i < entries.len() && (#[trigger] entries[i]).path@ == p
}

/// The modification times of `entries`.
pub open spec fn modified_times(entries: Seq<ClipEntry>) -> Seq<u64> {
    entries.map_values(|e: ClipEntry| e.modified)
}

/// Whether `r` is `merged` in stable newest-first order, cut at `MAX_CLIPS`.
pub open spec fn newest_first(merged: Seq<ClipEntry>, r: Seq<ClipEntry>) -> bool {
    let ord = sorted_order(modified_times(merged), true);
    &&& r.len() == if merged.len() <= MAX_CLIPS {
        merged.len()
    } else {
        MAX_CLIPS as nat
    }
    &&& forall|k: int| 0 <= k < r.len() ==> #[trigger] r[k] == merged[ord[k] as int]
}

/// Whether the file at `path` sits directly in the output folder `root`
/// (its `Path::parent` is `root`).
pub open spec fn at_output_root(path: Seq<char>, root: Seq<char>) -> bool {
    match parent_of(path) {
        Some(p) => same_path(p, root),
        None => false,
    }
}

/// An output-folder entry as listed: a file directly in the output folder is
/// grouped under "Exports" rather than the folder's own name.
pub open spec fn as_output_entry(e: ClipEntry, root: Seq<char>) -> (Seq<char>, Seq<char>, Seq<char>, u64, u64, Seq<char>) {
    if at_output_root(e.path@, root) {
        (e.path@, e.name@, "Exports"@, e.modified, e.size_bytes, e.kind@)
    } else {
        entry_view(e)
    }
}

/// The output-folder entries added to the watched folder's `found`: those
/// whose path `found` does not list, in order, as listed.
pub open spec fn output_additions(
    found: Seq<ClipEntry>,
    extra: Seq<ClipEntry>,
    root: Seq<char>,
) -> Seq<(Seq<char>, Seq<char>, Seq<char>, u64, u64, Seq<char>)>
    decreases extra.len(),
{
    if extra.len() == 0 {
        Seq::empty()
    } else {
        let prev = output_additions(found, extra.drop_last(), root);
        if has_path(found, extra.last().path@) {
            prev
        } else {
            prev.push(as_output_entry(extra.last(), root))
        }
    }
}

/// The library before sorting: `found`, then, when there is an output
/// folder `root`, its additions.
pub open spec fn merged_views(
    found: Seq<ClipEntry>,
    root: Option<Seq<char>>,
    extra: Seq<ClipEntry>,
) -> Seq<(Seq<char>, Seq<char>, Seq<char>, u64, u64, Seq<char>)> {
    entry_views(found) + match root {
        Some(r) => output_additions(found, extra, r),
        None => Seq::empty(),
    }
}

/// A blank output folder adds no second root: the scan merges exactly what
/// it merges with no output folder, whatever was handed in as found there.
pub proof fn lemma_blank_output_dir_adds_nothing(
    found: Seq<ClipEntry>,
    output_dir: Seq<char>,
    extra: Seq<ClipEntry>,
    other_extra: Seq<ClipEntry>,
)
    requires
        trim_spec(output_dir).len() == 0,
    ensures
        merged_views(found, nonblank(Some(output_dir)), extra) == merged_views(
            found,
            None,
            other_extra,
        ),
{
    assert(entry_views(found) + Seq::empty() =~= entry_views(found));
}

/// An output-folder entry is never listed twice: every addition is at a path
/// the watched folder's walk did not find.
pub proof fn lemma_output_additions_are_new(found: Seq<ClipEntry>, extra: Seq<ClipEntry>, root: Seq<char>)
    ensures
        forall|k: int|
            0 <= k < output_additions(found, extra, root).len() ==> !has_path(
                found,
                (#[trigger] output_additions(found, extra, root)[k]).0,
            ),
    decreases extra.len(),
{
    if extra.len() > 0 {
        lemma_output_additions_are_new(found, extra.drop_last(), root);
        let prev = output_additions(found, extra.drop_last(), root);
        let all = output_additions(found, extra, root);
        assert forall|k: int| 0 <= k < all.len() implies !has_path(found, (#[trigger] all[k]).0) by {
            if k < prev.len() {
                assert(all[k] == prev[k]);
            }
        }
    }
}

/// The library lists newest first and within its cap: a listed Clip is never
/// older than one listed after it, and there are at most `MAX_CLIPS`.
pub proof fn lemma_library_newest_first(merged: Seq<ClipEntry>, r: Seq<ClipEntry>)
    requires
        merged.len() <= usize::MAX,
        newest_first(merged, r),
    ensures
        r.len() <= MAX_CLIPS,
        forall|i: int, j: int| 0 <= i < j < r.len() ==> (#[trigger] r[i]).modified >= (#[trigger] r[j]).modified,
{
    let keys = modified_times(merged);
    lemma_sorted_order(keys, true);
    let ord = sorted_order(keys, true);
    assert forall|i: int, j: int| 0 <= i < j < r.len() implies (#[trigger] r[i]).modified >= (
    #[trigger] r[j]).modified by {
        assert(r[i] == merged[ord[i] as int]);
        assert(r[j] == merged[ord[j] as int]);
        assert(ranks_before(keys, true, ord[i] as int, ord[j] as int));
        assert(keys[ord[i] as int] == merged[ord[i] as int].modified);
        assert(keys[ord[j] as int] == merged[ord[j] as int].modified);
    }
}

fn listed(entries: &Vec<ClipEntry>, n: usize, p: &String) -> (r: bool)
    requires
        n <= entries@.len(),
    ensures
        r == has_path(entries@.take(n as int), p@),
{
    let mut i: usize = 0;
    while i < n
        invariant
            n <= entries@.len(),
            i <= n,
            forall|j: int| 0 <= j < i ==> (#[trigger] entries@[j]).path@ != p@,
        decreases n - i,
    {
        if entries[i].path.eq(p) {
            assert(entries@.take(n as int)[i as int] == entries@[i as int]);
            return true;
        }
        i += 1;
    }
    proof {
        if has_path(entries@.take(n as int), p@) {
            let j = choose|j: int| 0 <= j < n && (#[trigger] entries@.take(n as int)[j]).path@ == p@;
            assert(entries@.take(n as int)[j] == entries@[j]);
        }
    }
    false
}

/// The library scan given what the walks found: `found` under the watched
/// folder and, when `output_dir` is set (non-blank), `found_in_output` under
/// the output folder. Output-folder entries whose path is already listed are
/// dropped; those directly in the output folder (by `Path::parent`) are
/// labelled "Exports". The whole list is then sorted newest-first (stable) and
/// capped at `MAX_CLIPS`. Without an output folder, `found_in_output` is
/// ignored.
pub fn scan_library(
    found: Vec<ClipEntry>,
    output_dir: Option<&str>,
    found_in_output: Vec<ClipEntry>,
) -> (r: Vec<ClipEntry>)
    requires
        found@.len() + found_in_output@.len() <= usize::MAX,
    ensures
        exists|merged: Seq<ClipEntry>|
            #![trigger newest_first(merged, r@)]
            newest_first(merged, r@) && entry_views(merged) == merged_views(
                found@,
                nonblank(opt_view(output_dir)),
                found_in_output@,
            ),
{
    let ghost found_v = found@;
    let ghost root = nonblank(opt_view(output_dir));
    let extra = found_in_output;
    let n0 = found.len();
    let mut merged = found;
    match output_root(output_dir) {
        None => {
            proof {
                assert(entry_views(merged@) =~= merged_views(found_v, root, extra@));
            }
        },
        Some(out) => {
            let mut i: usize = 0;
            proof {
                assert(merged@.take(n0 as int) =~= found_v);
                assert(extra@.take(0) =~= Seq::<ClipEntry>::empty());
                assert(entry_views(merged@) =~= entry_views(found_v) + output_additions(
                    found_v,
                    extra@.take(0),
                    out@,
                ));
            }
            while i < extra.len()
                invariant
                    n0 == found_v.len(),
                    found_v.len() + extra@.len() <= usize::MAX,
                    i <= extra@.len(),
                    n0 <= merged@.len() <= n0 + i,
                    merged@.take(n0 as int) == found_v,
                    entry_views(merged@) == entry_views(found_v) + output_additions(
                        found_v,
                        extra@.take(i as int),
                        out@,
                    ),
                decreases extra.len() - i,
            {
                let ghost before = merged@;
                proof {
                    assert(extra@.take(i + 1).drop_last() =~= extra@.take(i as int));
                    assert(extra@.take(i + 1).last() == extra@[i as int]);
                }
                if !listed(&merged, n0, &extra[i].path) {
                    let mut d = extra[i].duplicate();
                    let at_root = match path_parent(d.path.as_str()) {
                        Some(p) => paths_equal(p.as_str(), out.as_str()),
                        None => false,
                    };
                    if at_root {
                        d.game = "Exports".to_owned();
                    }
                    assert(entry_view(d) == as_output_entry(extra@[i as int], out@));
                    merged.push(d);
                    proof {
                        assert(merged@.take(n0 as int) =~= before.take(n0 as int));
                        assert(entry_views(merged@) =~= entry_views(before).push(entry_view(d)));
                    }
                }
                i += 1;
            }
            proof {
                assert(extra@.take(extra@.len() as int) =~= extra@);
                assert(entry_views(merged@) =~= merged_views(found_v, root, extra@));
            }
        },
    }
    let ghost merged_v = merged@;
    let mut keys: Vec<u64> = Vec::new();
    let mut m: usize = 0;
    while m < merged.len()
        invariant
            merged@ == merged_v,
            m <= merged@.len(),
            keys@ == modified_times(merged@).take(m as int),
        decreases merged.len() - m,
    {
        keys.push(merged[m].modified);
        proof {
            assert(keys@ =~= modified_times(merged@).take(m + 1));
        }
        m += 1;
    }
    proof {
        assert(keys@ =~= modified_times(merged@));
    }
    let ord = stable_order(keys.as_slice(), true);
    let limit = if merged.len() <= MAX_CLIPS {
        merged.len()
    } else {
        MAX_CLIPS
    };
    let mut out: Vec<ClipEntry> = Vec::new();
    let mut k: usize = 0;
    while k < limit
        invariant
            merged@ == merged_v,
            is_sorted_order(modified_times(merged_v), true, ord@),
            ord@ == sorted_order(modified_times(merged_v), true),
            limit <= merged_v.len(),
            ord@.len() == merged_v.len(),
            k <= limit,
            out@.len() == k,
            forall|j: int| 0 <= j < k ==> #[trigger] out@[j] == merged_v[ord@[j] as int],
        decreases limit - k,
    {
        let e = merged[ord[k]].duplicate();
        out.push(e);
        k += 1;
    }
    proof {
        assert(newest_first(merged_v, out@));
    }
    out
}

/// The text of an optional name, empty when missing.
pub open spec fn or_empty(s: Option<Seq<char>>) -> Seq<char> {
    match s {
        Some(x) => x,
        None => Seq::empty(),
    }
}

/// The library entry for the file at `path`, last modified at `modified`
/// (seconds since the epoch) and `size_bytes` long, when its extension names
/// a media kind: named by its file name, grouped under its parent folder's
/// name (the game, for ShadowPlay's per-game folders); a missing name part is
/// empty.
pub fn clip_entry(path: &str, modified: u64, size_bytes: u64) -> (r: Option<ClipEntry>)
    ensures
        r is Some <==> (extension_of(path@) matches Some(ext) && media_kind_spec(ext) is Some),
        r matches Some(e) ==> {
            &&& e.path@ == path@
            &&& e.modified == modified
            &&& e.size_bytes == size_bytes
            &&& Some(e.kind@) == media_kind_spec(extension_of(path@)->0)
            &&& e.name@ == or_empty(file_name_of(path@))
            &&& e.game@ == match parent_of(path@) {
                Some(p) => or_empty(file_name_of(p)),
                None => Seq::empty(),
            }
        },
{
    let ext = match path_extension(path) {
        Some(e) => e,
        None => {
            return None;
        },
    };
    let kind = match media_kind(ext.as_str()) {
        Some(k) => k,
        None => {
            return None;
        },
    };
    let name = match path_file_name(path) {
        Some(n) => n,
        None => String::new(),
    };
    let game = match path_parent(path) {
        Some(p) => match path_file_name(p.as_str()) {
            Some(g) => g,
            None => String::new(),
        },
        None => String::new(),
    };
    Some(ClipEntry { path: path.to_owned(), name, game, modified, size_bytes, kind })
}

} // verus!
