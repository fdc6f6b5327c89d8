//! The decisions inside the app's commands: the Trim and poster-thumbnail
//! FFmpeg flags (single and batch), splitting a multi-input FFmpeg banner per
//! input, the waveform / filmstrip sizes, the Audio export attempts, the
//! trash retry backoff, picking and placing the Recycle Bin entry to
//! restore, and the `file://` URI a copied Clip is put on the clipboard as.

use vstd::prelude::*;
use crate::text::{
    chars_of, concat, copy_range, decimal, decimal_chars, find_chars, find_spec, lemma_find_spec,
    occurs_at, string_of,
};
use crate::text::{
    append_all, digit_char, lowercase, push_str, replace_char, replace_char_spec, to_lowercase, views,
};
use crate::paths::{
    backslash_separates, path_without_extension, paths_equal, same_path, without_extension,
};
use crate::media::{input_segment, input_segment_spec};

verus! {

broadcast use vstd::string::group_string_axioms;

// ---------------------------------------------------------------------------
// Poster thumbnails
// ---------------------------------------------------------------------------

/// The input flags of a poster grab seeking to `seek` seconds: one decode
/// thread, keyframes only, an input-side seek, then the input itself.
pub open spec fn thumb_input_spec(path: Seq<char>, seek: Seq<char>) -> Seq<Seq<char>> {
    seq!["-threads"@, "1"@, "-skip_frame"@, "nokey"@, "-ss"@, seek, "-i"@, path]
}

/// The output flags that turn one mapped input into a single 480-wide poster
/// JPG at `out`; `map` selects the input stream for the batch command.
pub open spec fn thumb_output_spec(out: Seq<char>, map: Option<Seq<char>>) -> Seq<Seq<char>> {
    let head = match map {
        Some(m) => seq!["-map"@, m],
        None => Seq::<Seq<char>>::empty(),
    };
    head + seq!["-frames:v"@, "1"@, "-vf"@, "scale=480:-2"@, "-an"@, "-q:v"@, "4"@, "-y"@, out]
}

/// The per-input flags for a poster-frame grab seeking to `seek` seconds.
/// Shared by the single and batch thumbnail paths so their frames are
/// byte-identical.
pub fn thumb_input_args(path: &str, seek: &str) -> (r: Vec<String>)
    ensures
        views(r@) == thumb_input_spec(path@, seek@),
{
    let mut a: Vec<String> = Vec::new();
    push_str(&mut a, "-threads");
    push_str(&mut a, "1");
    push_str(&mut a, "-skip_frame");
    push_str(&mut a, "nokey");
    push_str(&mut a, "-ss");
    push_str(&mut a, seek);
    push_str(&mut a, "-i");
    push_str(&mut a, path);
    proof {
        assert(views(a@) =~= thumb_input_spec(path@, seek@));
    }
    a
}

/// The output flags that turn one mapped input into a single 480-wide poster
/// JPG at `out_str`. `map` selects the input stream for the batch path
/// (`"0:v"`, `"1:v"`, ...); `None` omits `-map` for the single-input command.
pub fn thumb_output_args(out_str: &str, map: Option<&str>) -> (r: Vec<String>)
    ensures
        views(r@) == thumb_output_spec(
            out_str@,
            match map {
                Some(m) => Some(m@),
                None => None,
            },
        ),
{
    let mut a: Vec<String> = Vec::new();
    match map {
        Some(m) => {
            push_str(&mut a, "-map");
            push_str(&mut a, m);
        },
        None => {},
    }
    push_str(&mut a, "-frames:v");
    push_str(&mut a, "1");
    push_str(&mut a, "-vf");
    push_str(&mut a, "scale=480:-2");
    push_str(&mut a, "-an");
    push_str(&mut a, "-q:v");
    push_str(&mut a, "4");
    push_str(&mut a, "-y");
    push_str(&mut a, out_str);
    proof {
        assert(views(a@) =~= thumb_output_spec(
            out_str@,
            match map {
                Some(m) => Some(m@),
                None => None,
            },
        ));
    }
    a
}

/// The stream selector of batch input `i`: `{i}:v`.
pub open spec fn stream_map(i: nat) -> Seq<char> {
    decimal(i) + seq![':', 'v']
}

/// The flags of a batch poster run over `inputs`, each seeking to 1 s:
/// every input's flags first, then every output mapped to its input.
pub open spec fn thumb_batch_spec(inputs: Seq<Seq<char>>, outputs: Seq<Seq<char>>) -> Seq<
    Seq<char>,
> {
    seq!["-hide_banner"@] + thumb_inputs_spec(inputs) + thumb_outputs_spec(outputs, outputs.len() as int)
}

/// The input flags of every one of `inputs`, in order.
pub open spec fn thumb_inputs_spec(inputs: Seq<Seq<char>>) -> Seq<Seq<char>>
    decreases inputs.len(),
{
    if inputs.len() == 0 {
        seq![]
    } else {
        thumb_inputs_spec(inputs.drop_last()) + thumb_input_spec(inputs.last(), "1"@)
    }
}

/// The output flags of the first `k` of `outputs`, output `i` mapped to
/// stream `{i}:v`.
pub open spec fn thumb_outputs_spec(outputs: Seq<Seq<char>>, k: int) -> Seq<Seq<char>>
    decreases k,
{
    if k <= 0 {
        seq![]
    } else {
        thumb_outputs_spec(outputs, k - 1) + thumb_output_spec(
            outputs[k - 1],
            Some(stream_map((k - 1) as nat)),
        )
    }
}

/// The FFmpeg arguments of one batch poster run: N keyframe-only inputs
/// seeking to 1 s, then N mapped single-frame outputs (input `i` to
/// `outputs[i]` through `-map {i}:v`), each built by the same helpers as the
/// single-Clip command.
pub fn thumb_batch_args(inputs: &[String], outputs: &[String]) -> (r: Vec<String>)
    requires
        inputs@.len() == outputs@.len(),
    ensures
        views(r@) == thumb_batch_spec(views(inputs@), views(outputs@)),
{
    let mut a: Vec<String> = Vec::new();
    push_str(&mut a, "-hide_banner");
    let mut i: usize = 0;
    while i < inputs.len()
        invariant
            i <= inputs@.len(),
            views(a@) == seq!["-hide_banner"@] + thumb_inputs_spec(views(inputs@.take(i as int))),
        decreases inputs.len() - i,
    {
        let part = thumb_input_args(inputs[i].as_str(), "1");
        append_all(&mut a, part);
        proof {
            let t = views(inputs@.take(i + 1));
            assert(t.drop_last() =~= views(inputs@.take(i as int)));
            assert(t.last() == inputs@[i as int]@);
            assert(views(a@) =~= seq!["-hide_banner"@] + thumb_inputs_spec(t));
        }
        i += 1;
    }
    proof {
        assert(inputs@.take(inputs@.len() as int) =~= inputs@);
    }
    let ghost head = views(a@);
    let mut j: usize = 0;
    while j < outputs.len()
        invariant
            j <= outputs@.len(),
            views(a@) == head + thumb_outputs_spec(views(outputs@), j as int),
        decreases outputs.len() - j,
    {
        let d = decimal_chars(j as u64);
        let sel = vec![':', 'v'];
        let m = string_of(concat(d.as_slice(), sel.as_slice()).as_slice());
        let part = thumb_output_args(outputs[j].as_str(), Some(m.as_str()));
        append_all(&mut a, part);
        proof {
            assert(views(outputs@)[j as int] == outputs@[j as int]@);
            assert(views(a@) =~= head + thumb_outputs_spec(views(outputs@), j + 1));
        }
        j += 1;
    }
    a
}

// ---------------------------------------------------------------------------
// Splitting a multi-input banner
// ---------------------------------------------------------------------------

/// `Input #`, the header that opens each input's banner section.
pub open spec fn input_header() -> Seq<char> {
    seq!['I', 'n', 'p', 'u', 't', ' ', '#']
}

/// `from '`, which precedes the input's path in its header.
pub open spec fn from_quote() -> Seq<char> {
    seq!['f', 'r', 'o', 'm', ' ', '\'']
}

/// `':`, which follows the input's path in its header.
pub open spec fn quote_colon() -> Seq<char> {
    seq!['\'', ':']
}

/// The pieces of `s` between occurrences of the non-empty `pat`
/// (`str::split`).
pub open spec fn split_spec(s: Seq<char>, pat: Seq<char>) -> Seq<Seq<char>>
    decreases s.len(),
{
    if pat.len() == 0 {
        seq![s]
    } else {
        match find_spec(s, pat) {
            None => seq![s],
            Some(k) => if 0 <= k && k + pat.len() <= s.len() {
                seq![s.take(k)] + split_spec(s.skip(k + pat.len()), pat)
            } else {
                seq![s]
            },
        }
    }
}

/// The `(path, section)` a banner section contributes: the path between
/// `from '` and the next `':` of its header, keyed to the whole section.
pub open spec fn banner_entry(section: Seq<char>) -> Option<(Seq<char>, Seq<char>)> {
    match find_spec(section, from_quote()) {
        None => None,
        Some(a) => {
            let rest = section.skip(a + from_quote().len());
            match find_spec(rest, quote_colon()) {
                None => None,
                Some(e) => Some((rest.take(e), section)),
            }
        },
    }
}

/// The path-to-section map built from `sections` in order (a later section
/// for the same path replaces an earlier one).
pub open spec fn banner_map(sections: Seq<Seq<char>>) -> Map<Seq<char>, Seq<char>>
    decreases sections.len(),
{
    if sections.len() == 0 {
        Map::empty()
    } else {
        let m = banner_map(sections.drop_last());
        match banner_entry(sections.last()) {
            None => m,
            Some(kv) => m.insert(kv.0, kv.1),
        }
    }
}

/// The banner sections of a multi-input FFmpeg run, keyed by input path:
/// everything before the first `Input #` is the preamble and is skipped.
pub open spec fn input_banners(stderr: Seq<char>) -> Map<Seq<char>, Seq<char>> {
    banner_map(split_spec(stderr, input_header()).drop_first())
}

/// Whether the `(key, value)` pairs of `v` are exactly the entries of `m`,
/// each key once.
pub open spec fn pairs_are_map(v: Seq<(String, String)>, m: Map<Seq<char>, Seq<char>>) -> bool {
    &&& forall|i: int, j: int| 0 <= i < j < v.len() ==> (#[trigger] v[i]).0@ != (#[trigger] v[j]).0@
    &&& forall|i: int| 0 <= i < v.len() ==> m.contains_key((#[trigger] v[i]).0@) && m[v[i].0@]
        == v[i].1@
    &&& forall|k: Seq<char>| #[trigger] m.contains_key(k) ==> exists|i: int|
        0 <= i < v.len() && (#[trigger] v[i]).0@ == k
}

pub(crate) fn split_on(s: &[char], pat: &[char]) -> (r: Vec<Vec<char>>)
    requires
        pat@.len() > 0,
    ensures
        r@.map_values(|v: Vec<char>| v@) == split_spec(s@, pat@),
    decreases s@.len(),
{
    match find_chars(s, pat) {
        None => {
            let v = copy_range(s, 0, s.len());
            proof {
                assert(v@ =~= s@);
            }
            let r = vec![v];
            proof {
                assert(r@.map_values(|v: Vec<char>| v@) =~= seq![s@]);
            }
            r
        },
        Some(k) => {
            proof {
                lemma_find_spec(s@, pat@);
            }
            assert(occurs_at(s@, pat@, k as int));
            assert(k + pat.len() <= s.len());
            let head = copy_range(s, 0, k);
            let tail = copy_range(s, k + pat.len(), s.len());
            proof {
                assert(head@ =~= s@.take(k as int));
                assert(tail@ =~= s@.skip(k + pat@.len()));
            }
            let mut r = split_on(tail.as_slice(), pat);
            r.insert(0, head);
            proof {
                assert(r@.map_values(|v: Vec<char>| v@) =~= seq![s@.take(k as int)] + split_spec(
                    s@.skip(k + pat@.len()),
                    pat@,
                ));
            }
            r
        },
    }
}

fn banner_entry_exec(section: &[char]) -> (r: Option<(Vec<char>, Vec<char>)>)
    ensures
        match r {
            Some(kv) => banner_entry(section@) == Some((kv.0@, kv.1@)),
            None => banner_entry(section@) is None,
        },
{
    let from = vec!['f', 'r', 'o', 'm', ' ', '\''];
    let close = vec!['\'', ':'];
    assert(from@ =~= from_quote());
    assert(close@ =~= quote_colon());
    match find_chars(section, from.as_slice()) {
        None => None,
        Some(a) => {
            proof {
                lemma_find_spec(section@, from@);
            }
            assert(occurs_at(section@, from@, a as int));
            assert(a + 6 <= section.len());
            let rest = copy_range(section, a + 6, section.len());
            assert(rest@ =~= section@.skip(a + from_quote().len()));
            match find_chars(rest.as_slice(), close.as_slice()) {
                None => None,
                Some(e) => {
                    proof {
                        lemma_find_spec(rest@, close@);
                    }
                    let key = copy_range(rest.as_slice(), 0, e);
                    let whole = copy_range(section, 0, section.len());
                    assert(key@ =~= rest@.take(e as int));
                    assert(whole@ =~= section@);
                    Some((key, whole))
                },
            }
        },
    }
}

/// Splits a multi-input FFmpeg run's stderr into one banner section per input,
/// keyed by the input's file path (FFmpeg echoes it verbatim in each
/// `Input #N, ... from '<path>':` header). Each path appears once; a later
/// section for the same path replaces an earlier one.
pub fn split_input_banners(stderr: &str) -> (r: Vec<(String, String)>)
    ensures
        pairs_are_map(r@, input_banners(stderr@)),
{
    let s = chars_of(stderr);
    let header = vec!['I', 'n', 'p', 'u', 't', ' ', '#'];
    assert(header@ =~= input_header());
    let parts = split_on(s.as_slice(), header.as_slice());
    let ghost sections = parts@.map_values(|v: Vec<char>| v@);
    let ghost all = sections.drop_first();
    let mut out: Vec<(String, String)> = Vec::new();
    let mut i: usize = 1;
    proof {
        assert(all.take(0) =~= Seq::<Seq<char>>::empty());
    }
    while i < parts.len()
        invariant
            sections == parts@.map_values(|v: Vec<char>| v@),
            all == sections.drop_first(),
            1 <= i <= parts@.len() || (parts@.len() == 0 && i == 1),
            pairs_are_map(out@, banner_map(all.take(i - 1))),
        decreases parts.len() - i,
    {
        let ghost before = all.take(i - 1);
        let ghost after = all.take(i as int);
        proof {
            assert(after.drop_last() =~= before);
            assert(after.last() == parts@[i as int]@);
        }
        match banner_entry_exec(parts[i].as_slice()) {
            None => {},
            Some(kv) => {
                let key = string_of(kv.0.as_slice());
                let val = string_of(kv.1.as_slice());
                insert_pair(&mut out, key, val, Ghost(banner_map(before)));
            },
        }
        i += 1;
    }
    proof {
        if parts@.len() > 0 {
            assert(all.take(parts@.len() - 1) =~= all);
        } else {
            assert(all.take(0) =~= all);
        }
    }
    out
}

/// Inserts `(key, val)` into the key-unique pair list `v` that represents
/// `m`: replaces the pair with the same key, or appends.
fn insert_pair(
    v: &mut Vec<(String, String)>,
    key: String,
    val: String,
    Ghost(m): Ghost<Map<Seq<char>, Seq<char>>>,
)
    requires
        pairs_are_map(old(v)@, m),
    ensures
        pairs_are_map(final(v)@, m.insert(key@, val@)),
{
    let mut i: usize = 0;
    while i < v.len()
        invariant
            v@ == old(v)@,
            pairs_are_map(old(v)@, m),
            i <= v@.len(),
            forall|j: int| 0 <= j < i ==> (#[trigger] v@[j]).0@ != key@,
        decreases v.len() - i,
    {
        if string_eq(&v[i].0, &key) {
            let ghost v0 = v@;
            v.set(i, (key, val));
            proof {
                let m2 = m.insert(key@, val@);
                assert forall|a: int, b: int| 0 <= a < b < v@.len() implies (#[trigger] v@[a]).0@
                    != (#[trigger] v@[b]).0@ by {
                    assert(v0[a].0@ != v0[b].0@);
                }
                assert forall|a: int| 0 <= a < v@.len() implies m2.contains_key(
                    (#[trigger] v@[a]).0@,
                ) && m2[v@[a].0@] == v@[a].1@ by {
                    if a != i {
                        assert(v@[a] == v0[a]);
                    }
                }
                assert forall|k: Seq<char>| #[trigger] m2.contains_key(k) implies exists|a: int|
                    0 <= a < v@.len() && (#[trigger] v@[a]).0@ == k by {
                    if k == key@ {
                        assert(v@[i as int].0@ == k);
                    } else {
                        assert(m.contains_key(k));
                        let a = choose|a: int| 0 <= a < v0.len() && (#[trigger] v0[a]).0@ == k;
                        assert(v@[a] == v0[a]);
                    }
                }
            }
            return;
        }
        i += 1;
    }
    let ghost v0 = v@;
    v.push((key, val));
    proof {
        let m2 = m.insert(key@, val@);
        assert forall|a: int, b: int| 0 <= a < b < v@.len() implies (#[trigger] v@[a]).0@
            != (#[trigger] v@[b]).0@ by {
            if b < v0.len() {
                assert(v0[a].0@ != v0[b].0@);
            } else {
                assert(v@[a] == v0[a]);
            }
        }
        assert forall|a: int| 0 <= a < v@.len() implies m2.contains_key((#[trigger] v@[a]).0@)
            && m2[v@[a].0@] == v@[a].1@ by {
            if a < v0.len() {
                assert(v@[a] == v0[a]);
            }
        }
        assert forall|k: Seq<char>| #[trigger] m2.contains_key(k) implies exists|a: int|
            0 <= a < v@.len() && (#[trigger] v@[a]).0@ == k by {
            if k == key@ {
                assert(v@[v0.len() as int].0@ == k);
            } else {
                assert(m.contains_key(k));
                let a = choose|a: int| 0 <= a < v0.len() && (#[trigger] v0[a]).0@ == k;
                assert(v@[a] == v0[a]);
            }
        }
    }
}

fn string_eq(a: &String, b: &String) -> (r: bool)
    ensures
        r == (a@ == b@),
{
    (*a).eq(b)
}

/// The section recorded for `path` in a `split_input_banners` result.
pub fn banner_for(banners: &[(String, String)], path: &str) -> (r: Option<String>)
    ensures
        match r {
            Some(s) => exists|i: int|
                0 <= i < banners@.len() && banners@[i].0@ == path@ && banners@[i].1@ == s@,
            None => forall|i: int| 0 <= i < banners@.len() ==> banners@[i].0@ != path@,
        },
{
    let p = path.to_owned();
    let mut i: usize = 0;
    while i < banners.len()
        invariant
            i <= banners@.len(),
            p@ == path@,
            forall|j: int| 0 <= j < i ==> banners@[j].0@ != path@,
        decreases banners.len() - i,
    {
        if string_eq(&banners[i].0, &p) {
            return Some(banners[i].1.clone());
        }
        i += 1;
    }
    None
}

/// What a batch thumbnail request does for one Clip before any rendering.
#[derive(Debug, Clone, Copy, PartialEq, Eq, Structural)]
pub enum ThumbPlan {
    /// No cache key or cache path could be made: reported with no thumbnail.
    Failed,
    /// The thumbnail is already cached: reported at once, healthy.
    Cached,
    /// Rendered by the batch run.
    Render,
}

/// The plan for one Clip: `key_ok` says whether its cache key and path were
/// made, `cached` whether a thumbnail is already there.
pub fn thumb_plan(key_ok: bool, cached: bool) -> (r: ThumbPlan)
    ensures
        r == (if !key_ok {
            ThumbPlan::Failed
        } else if cached {
            ThumbPlan::Cached
        } else {
            ThumbPlan::Render
        }),
{
    if !key_ok {
        ThumbPlan::Failed
    } else if cached {
        ThumbPlan::Cached
    } else {
        ThumbPlan::Render
    }
}

/// How a Clip sent to the batch run is reported once it is over.
#[derive(Debug, Clone, Copy, PartialEq, Eq, Structural)]
pub enum ThumbFinish {
    /// Rendered, with its input banner: duration and health come from it.
    FromBanner,
    /// Rendered, but the batch printed no banner for it: healthy, duration
    /// unknown.
    NoBanner,
    /// Not rendered: the single-Clip thumbnail path is tried instead.
    Fallback,
}

/// The report for a Clip the batch run was asked to render.
pub fn thumb_finish(rendered: bool, has_banner: bool) -> (r: ThumbFinish)
    ensures
        r == (if !rendered {
            ThumbFinish::Fallback
        } else if has_banner {
            ThumbFinish::FromBanner
        } else {
            ThumbFinish::NoBanner
        }),
{
    if !rendered {
        ThumbFinish::Fallback
    } else if has_banner {
        ThumbFinish::FromBanner
    } else {
        ThumbFinish::NoBanner
    }
}

/// The order a batch reports its Clips in, as indices into `plans`: first
/// every Clip settled without rendering, then every Clip sent to the batch
/// run, each group in request order (the two lists split `0..plans.len()`).
pub fn thumb_report_order(plans: &[ThumbPlan]) -> (r: (Vec<usize>, Vec<usize>))
    ensures
        r.0@ == Seq::new(plans@.len(), |i: int| i as usize).filter(
            |i: usize| plans@[i as int] != ThumbPlan::Render,
        ),
        r.1@ == Seq::new(plans@.len(), |i: int| i as usize).filter(
            |i: usize| plans@[i as int] == ThumbPlan::Render,
        ),
{
    let ghost idx = Seq::new(plans@.len(), |i: int| i as usize);
    let ghost settled = |i: usize| plans@[i as int] != ThumbPlan::Render;
    let ghost pending = |i: usize| plans@[i as int] == ThumbPlan::Render;
    let mut now: Vec<usize> = Vec::new();
    let mut later: Vec<usize> = Vec::new();
    let mut i: usize = 0;
    assert(idx.take(0) =~= Seq::<usize>::empty());
    while i < plans.len()
        invariant
            i <= plans@.len(),
            idx == Seq::new(plans@.len(), |i: int| i as usize),
            settled == (|i: usize| plans@[i as int] != ThumbPlan::Render),
            pending == (|i: usize| plans@[i as int] == ThumbPlan::Render),
            now@ == idx.take(i as int).filter(settled),
            later@ == idx.take(i as int).filter(pending),
        decreases plans.len() - i,
    {
        proof {
            assert(idx.take(i + 1) =~= idx.take(i as int).push(i));
            idx.take(i as int).lemma_filter_push(i, settled);
            idx.take(i as int).lemma_filter_push(i, pending);
        }
        if plans[i] == ThumbPlan::Render {
            later.push(i);
        } else {
            now.push(i);
        }
        i += 1;
    }
    assert(idx.take(plans@.len() as int) =~= idx);
    (now, later)
}

// ---------------------------------------------------------------------------
// Restoring from the Recycle Bin
// ---------------------------------------------------------------------------

/// Whether trash entry `j` ranks no higher than entry `b` when picking the
/// newest: deleted earlier, or at the same time and listed no later.
pub open spec fn no_newer(entries: Seq<(String, i64)>, j: int, b: int) -> bool {
    entries[j].1 < entries[b].1 || (entries[j].1 == entries[b].1 && j <= b)
}

/// What `pick_restore_index` returns given the matcher's answer `hits[i]` for
/// each entry: the matching entry deleted most recently (the last of them on a
/// tie, as `Iterator::max_by_key` picks), or `None` when nothing matches.
pub open spec fn is_newest_match(
    entries: Seq<(String, i64)>,
    hits: Seq<bool>,
    r: Option<usize>,
) -> bool {
    match r {
        None => forall|j: int| 0 <= j < entries.len() ==> !#[trigger] hits[j],
        Some(b) => {
            &&& b < entries.len()
            &&& hits[b as int]
            &&& forall|j: int| 0 <= j < entries.len() && #[trigger] hits[j] ==> no_newer(entries, j, b as int)
        },
    }
}

/// From `(original_path, time_deleted)` trash entries, the index of the entry
/// matching `target` (per the given path matcher, asked once per entry) that
/// was deleted most recently: the copy the user just trashed when the same
/// path has been deleted more than once. `None` when nothing matches.
pub fn pick_restore_index<F: Fn(&str, &str) -> bool>(
    entries: &[(String, i64)],
    target: &str,
    matches: F,
) -> (r: Option<usize>)
    requires
        forall|a: &str, b: &str| matches.requires((a, b)),
    ensures
        exists|hits: Seq<bool>, args: Seq<&str>|
            #![trigger is_newest_match(entries@, hits, r), args.len()]
            {
                &&& hits.len() == entries@.len()
                &&& args.len() == entries@.len()
                &&& forall|i: int|
                    0 <= i < entries@.len() ==> (#[trigger] args[i])@ == entries@[i].0@
                        && matches.ensures((args[i], target), hits[i])
                &&& is_newest_match(entries@, hits, r)
            },
{
    let mut best: Option<usize> = None;
    let ghost mut hits: Seq<bool> = seq![];
    let ghost mut args: Seq<&str> = seq![];
    let mut i: usize = 0;
    while i < entries.len()
        invariant
            forall|a: &str, b: &str| matches.requires((a, b)),
            i <= entries@.len(),
            hits.len() == i,
            args.len() == i,
            forall|k: int|
                0 <= k < i ==> (#[trigger] args[k])@ == entries@[k].0@ && matches.ensures(
                    (args[k], target),
                    hits[k],
                ),
            match best {
                None => forall|j: int| 0 <= j < i ==> !#[trigger] hits[j],
                Some(b) => {
                    &&& b < i
                    &&& hits[b as int]
                    &&& forall|j: int| 0 <= j < i && #[trigger] hits[j] ==> no_newer(entries@, j, b as int)
                },
            },
        decreases entries.len() - i,
    {
        let e: &str = entries[i].0.as_str();
        let h = matches(e, target);
        proof {
            hits = hits.push(h);
            args = args.push(e);
        }
        if h {
            match best {
                None => {
                    best = Some(i);
                },
                Some(b) => {
                    if entries[i].1 >= entries[b].1 {
                        best = Some(i);
                    }
                },
            }
        }
        i += 1;
    }
    assert(is_newest_match(entries@, hits, best));
    best
}

/// A path as the Windows matcher compares it: `/` turned into `\`, then
/// lowercased.
pub open spec fn windows_form(p: Seq<char>) -> Seq<char> {
    lowercase(replace_char_spec(p, '/', '\\'))
}

fn windows_form_exec(p: &str) -> (r: String)
    ensures
        r@ == windows_form(p@),
{
    let swapped = replace_char(p, '/', '\\');
    to_lowercase(swapped.as_str())
}

/// The Windows comparison given the target with its extension already
/// removed: the entry matches the target with or without its extension,
/// case- and separator-insensitively.
pub fn windows_paths_match(entry: &str, target: &str, target_stripped: &str) -> (r: bool)
    ensures
        r == (windows_form(entry@) == windows_form(target@) || windows_form(entry@) == windows_form(
            target_stripped@,
        )),
{
    let e = windows_form_exec(entry);
    let t = windows_form_exec(target);
    if e.eq(&t) {
        return true;
    }
    let s = windows_form_exec(target_stripped);
    e.eq(&s)
}

/// Whether `entry` matches `target` by the Windows rules: case- and
/// separator-insensitively, the target with or without its extension.
pub open spec fn windows_match_spec(entry: Seq<char>, target: Seq<char>) -> bool {
    windows_form(entry) == windows_form(target) || windows_form(entry) == windows_form(
        without_extension(target),
    )
}

/// On a Windows host the Recycle Bin's listing of a trashed Clip, its path
/// with the extension dropped, matches the Clip, and so does its full path
/// in any letter case or with either separator.
pub proof fn lemma_windows_listing_matches(target: Seq<char>, entry: Seq<char>)
    requires
        windows_form(entry) == windows_form(target) || entry == without_extension(target),
    ensures
        windows_match_spec(entry, target),
{
}

/// Windows Recycle Bin semantics: the bin lists the original path with its
/// final extension dropped (`a.mp4` becomes `a`), so the target matches both
/// with and without its extension (`Path::with_extension("")`, see
/// `windows_paths_match`). Comparison is case- and separator-insensitive.
pub fn restore_paths_match_windows(entry: &str, target: &str) -> (r: bool)
    ensures
        r == windows_match_spec(entry@, target@),
{
    let stripped = path_without_extension(target);
    windows_paths_match(entry, target, stripped.as_str())
}

/// Linux (freedesktop) trash semantics: the trash keeps the full original
/// path, extension included, so this is an exact `Path` comparison.
pub fn restore_paths_match_unix(entry: &str, target: &str) -> (r: bool)
    ensures
        r == same_path(entry@, target@),
        entry@ == target@ ==> r,
{
    paths_equal(entry, target)
}

/// `std::path::MAIN_SEPARATOR`: `\` on Windows, `/` elsewhere. The main
/// separator is `\` exactly on the hosts where `\` separates path components
/// at all (see `backslash_separates`); on the `/` hosts `\` is an ordinary
/// file-name character.
#[verifier::external_body]
pub(crate) fn host_separator() -> (c: char)
    ensures
        c == '/' || c == '\\',
        c == '\\' <==> backslash_separates(),
{
    std::path::MAIN_SEPARATOR
}

/// Whether a trashed entry's reported original path `entry` refers to the same
/// Clip as `target`: the Windows matcher on a Windows host, the exact one
/// elsewhere. Either way an identical path matches.
pub fn restore_paths_match(entry: &str, target: &str) -> (r: bool)
    ensures
        r == windows_match_spec(entry@, target@) || r == same_path(entry@, target@),
        r == if backslash_separates() {
            windows_match_spec(entry@, target@)
        } else {
            same_path(entry@, target@)
        },
        entry@ == target@ ==> r,
{
    if host_separator() == '\\' {
        restore_paths_match_windows(entry, target)
    } else {
        restore_paths_match_unix(entry, target)
    }
}

// ---------------------------------------------------------------------------
// file:// URIs
// ---------------------------------------------------------------------------

/// Bytes kept literal in a `file://` URI: RFC 3986 unreserved characters and `/`.
pub open spec fn uri_literal(b: u8) -> bool {
    (65 <= b <= 90) || (97 <= b <= 122) || (48 <= b <= 57) || b == 45 || b == 46 || b == 95 || b
        == 126 || b == 47
}

/// The uppercase hexadecimal digit for `d` (0 to 15).
pub open spec fn hex_char(d: nat) -> char {
    if d < 10 {
        digit_char(d)
    } else if d == 10 {
        'A'
    } else if d == 11 {
        'B'
    } else if d == 12 {
        'C'
    } else if d == 13 {
        'D'
    } else if d == 14 {
        'E'
    } else {
        'F'
    }
}

/// One byte of a URI: itself when literal, else `%XX`.
pub open spec fn pct_byte(b: u8) -> Seq<char> {
    if uri_literal(b) {
        seq![b as char]
    } else {
        seq!['%', hex_char((b / 16) as nat), hex_char((b % 16) as nat)]
    }
}

/// Percent-encoding of `bs`, byte by byte.
pub open spec fn pct_encode(bs: Seq<u8>) -> Seq<char>
    decreases bs.len(),
{
    if bs.len() == 0 {
        seq![]
    } else {
        pct_byte(bs[0]) + pct_encode(bs.drop_first())
    }
}

/// `file://`
pub open spec fn file_scheme() -> Seq<char> {
    seq!['f', 'i', 'l', 'e', ':', '/', '/']
}

proof fn lemma_pct_encode_push(bs: Seq<u8>, b: u8)
    ensures
        pct_encode(bs.push(b)) == pct_encode(bs) + pct_byte(b),
    decreases bs.len(),
{
    if bs.len() == 0 {
        assert(bs.push(b).drop_first() =~= Seq::<u8>::empty());
        assert(pct_encode(bs.push(b)) =~= pct_byte(b) + pct_encode(Seq::<u8>::empty()));
    } else {
        lemma_pct_encode_push(bs.drop_first(), b);
        assert(bs.push(b).drop_first() =~= bs.drop_first().push(b));
        assert(pct_encode(bs.push(b)) =~= pct_byte(bs[0]) + (pct_encode(bs.drop_first())
            + pct_byte(b)));
    }
}

/// A character a `file://` URI keeps literal: RFC 3986 unreserved, or `/`.
pub open spec fn uri_literal_char(c: char) -> bool {
    ('A' <= c <= 'Z') || ('a' <= c <= 'z') || ('0' <= c <= '9') || c == '-' || c == '.' || c
        == '_' || c == '~' || c == '/'
}

/// An uppercase hexadecimal digit.
pub open spec fn upper_hex_digit(c: char) -> bool {
    ('0' <= c <= '9') || ('A' <= c <= 'F')
}

/// Whether `cs` is made of literal URI characters and `%XY` triples with
/// uppercase hexadecimal digits, and nothing else.
pub open spec fn well_encoded(cs: Seq<char>) -> bool
    decreases cs.len(),
{
    if cs.len() == 0 {
        true
    } else if cs[0] == '%' {
        cs.len() >= 3 && upper_hex_digit(cs[1]) && upper_hex_digit(cs[2]) && well_encoded(
            cs.skip(3),
        )
    } else {
        uri_literal_char(cs[0]) && well_encoded(cs.drop_first())
    }
}

/// Percent-encoding writes literal characters and uppercase `%XY` triples only.
pub proof fn lemma_pct_encode_well_encoded(bs: Seq<u8>)
    ensures
        well_encoded(pct_encode(bs)),
    decreases bs.len(),
{
    if bs.len() > 0 {
        let b = bs[0];
        let rest = pct_encode(bs.drop_first());
        lemma_pct_encode_well_encoded(bs.drop_first());
        let enc = pct_encode(bs);
        assert(enc == pct_byte(b) + rest);
        if uri_literal(b) {
            assert(enc.drop_first() =~= rest);
            assert(enc[0] == b as char);
        } else {
            lemma_hex_char_value((b / 16) as nat);
            lemma_hex_char_value((b % 16) as nat);
            assert(enc.skip(3) =~= rest);
            assert(enc[0] == '%');
            assert(upper_hex_digit(enc[1]));
            assert(upper_hex_digit(enc[2]));
        }
    }
}

fn hex_digit(d: u8) -> (c: char)
    requires
        d < 16,
    ensures
        c == hex_char(d as nat),
{
    if d < 10 {
        if d == 0 {
            '0'
        } else if d == 1 {
            '1'
        } else if d == 2 {
            '2'
        } else if d == 3 {
            '3'
        } else if d == 4 {
            '4'
        } else if d == 5 {
            '5'
        } else if d == 6 {
            '6'
        } else if d == 7 {
            '7'
        } else if d == 8 {
            '8'
        } else {
            '9'
        }
    } else if d == 10 {
        'A'
    } else if d == 11 {
        'B'
    } else if d == 12 {
        'C'
    } else if d == 13 {
        'D'
    } else if d == 14 {
        'E'
    } else {
        'F'
    }
}

/// Percent-encodes an absolute Unix path into a `file://` URL for
/// `text/uri-list`: RFC 3986 unreserved characters and `/` stay literal and
/// every other byte of the UTF-8 string becomes `%XX`, so spaces, `#`, `?`,
/// `%`, and non-ASCII names round-trip (see `lemma_file_uri_round_trip`).
pub fn file_uri(path: &str) -> (r: String)
    ensures
        r@ == file_scheme() + pct_encode(vstd::utf8::encode_utf8(path@)),
        r@.take(7) == file_scheme(),
        well_encoded(r@.skip(7)),
{
    let bytes = path.as_bytes();
    let mut out: Vec<char> = vec!['f', 'i', 'l', 'e', ':', '/', '/'];
    let mut i: usize = 0;
    proof {
        assert(bytes@.take(0) =~= Seq::<u8>::empty());
        assert(out@ =~= file_scheme() + pct_encode(bytes@.take(0)));
    }
    while i < bytes.len()
        invariant
            i <= bytes@.len(),
            out@ == file_scheme() + pct_encode(bytes@.take(i as int)),
        decreases bytes.len() - i,
    {
        let b = bytes[i];
        let ghost before = out@;
        let literal = (65 <= b && b <= 90) || (97 <= b && b <= 122) || (48 <= b && b <= 57) || b
            == 45 || b == 46 || b == 95 || b == 126 || b == 47;
        if literal {
            out.push(b as char);
        } else {
            out.push('%');
            out.push(hex_digit(b / 16));
            out.push(hex_digit(b % 16));
        }
        proof {
            assert(out@ =~= before + pct_byte(b));
            lemma_pct_encode_push(bytes@.take(i as int), b);
            assert(bytes@.take(i + 1) =~= bytes@.take(i as int).push(b));
        }
        i += 1;
    }
    proof {
        assert(bytes@.take(bytes@.len() as int) =~= bytes@);
        assert(out@.skip(7) =~= pct_encode(bytes@));
        assert(out@.take(7) =~= file_scheme());
        lemma_pct_encode_well_encoded(bytes@);
    }
    string_of(out.as_slice())
}

/// The value of a hexadecimal digit.
pub open spec fn hex_value(c: char) -> int {
    if '0' <= c <= '9' {
        (c as u32) - 48
    } else if 'A' <= c <= 'F' {
        (c as u32) - 55
    } else if 'a' <= c <= 'f' {
        (c as u32) - 87
    } else {
        0
    }
}

/// Percent-decoding: `%XX` gives the byte `XX`, any other character its own
/// code (for the ASCII characters a URI holds).
pub open spec fn pct_decode(cs: Seq<char>) -> Seq<u8>
    decreases cs.len(),
{
    if cs.len() == 0 {
        seq![]
    } else if cs[0] == '%' && cs.len() >= 3 {
        seq![(hex_value(cs[1]) * 16 + hex_value(cs[2])) as u8] + pct_decode(cs.skip(3))
    } else {
        seq![cs[0] as u8] + pct_decode(cs.drop_first())
    }
}

proof fn lemma_hex_char_value(d: nat)
    requires
        d < 16,
    ensures
        hex_value(hex_char(d)) == d,
        hex_char(d) != '%',
{
}

/// Decoding what `pct_encode` wrote gives back the original bytes.
pub proof fn lemma_pct_round_trip(bs: Seq<u8>)
    ensures
        pct_decode(pct_encode(bs)) == bs,
    decreases bs.len(),
{
    if bs.len() > 0 {
        let b = bs[0];
        let rest = pct_encode(bs.drop_first());
        lemma_pct_round_trip(bs.drop_first());
        let enc = pct_encode(bs);
        assert(enc == pct_byte(b) + rest);
        if uri_literal(b) {
            assert(enc.drop_first() =~= rest);
            assert(enc[0] == b as char);
            assert((b as char) as u8 == b);
            assert(b != 37);
        } else {
            lemma_hex_char_value((b / 16) as nat);
            lemma_hex_char_value((b % 16) as nat);
            assert(enc.skip(3) =~= rest);
            assert(enc[0] == '%');
            assert((b / 16) * 16 + b % 16 == b);
        }
        assert(pct_decode(enc) =~= seq![b] + bs.drop_first());
        assert(seq![b] + bs.drop_first() =~= bs);
    }
}

/// The `file://` URI of a path round-trips: percent-decoding what follows the
/// scheme gives back the path's UTF-8 bytes.
pub proof fn lemma_file_uri_round_trip(path: Seq<char>, uri: Seq<char>)
    requires
        uri == file_scheme() + pct_encode(vstd::utf8::encode_utf8(path)),
    ensures
        uri.take(7) == file_scheme(),
        pct_decode(uri.skip(7)) == vstd::utf8::encode_utf8(path),
{
    assert(uri.skip(7) =~= pct_encode(vstd::utf8::encode_utf8(path)));
    assert(uri.take(7) =~= file_scheme());
    lemma_pct_round_trip(vstd::utf8::encode_utf8(path));
}

// ---------------------------------------------------------------------------
// Trim, lazy renders and file operations
// ---------------------------------------------------------------------------

/// The arguments of a lossless Trim: every video stream (and every audio
/// stream when kept) of the Region, stream-copied, timestamps shifted to
/// start at zero, written to `output`.
pub open spec fn trim_args_spec(
    path: Seq<char>,
    start: Seq<char>,
    dur: Seq<char>,
    include_audio: bool,
    output: Seq<char>,
) -> Seq<Seq<char>> {
    input_segment_spec(path, start, dur, "0:v?"@, include_audio) + seq![
        "-c"@,
        "copy"@,
        "-avoid_negative_ts"@,
        "make_zero"@,
        "-y"@,
        output,
    ]
}

/// Builds the arguments of a lossless Trim (see `trim_args_spec`).
pub fn trim_args(path: &str, start: &str, dur: &str, include_audio: bool, output: &str) -> (r: Vec<
    String,
>)
    ensures
        views(r@) == trim_args_spec(path@, start@, dur@, include_audio, output@),
{
    let mut a = input_segment(path, start, dur, "0:v?", include_audio);
    push_str(&mut a, "-c");
    push_str(&mut a, "copy");
    push_str(&mut a, "-avoid_negative_ts");
    push_str(&mut a, "make_zero");
    push_str(&mut a, "-y");
    push_str(&mut a, output);
    proof {
        assert(views(a@) =~= trim_args_spec(path@, start@, dur@, include_audio, output@));
    }
    a
}

/// How many waveform buckets to compute: 400 by default, kept to 20..=2000.
pub fn waveform_buckets(requested: Option<usize>) -> (r: usize)
    ensures
        r == match requested {
            None => 400,
            Some(b) => if b < 20 {
                20
            } else if b > 2000 {
                2000
            } else {
                b
            },
        },
{
    let b = match requested {
        None => 400,
        Some(b) => b,
    };
    if b < 20 {
        20
    } else if b > 2000 {
        2000
    } else {
        b
    }
}

/// How many filmstrip cells to render: 16 by default, kept to 4..=64.
pub fn filmstrip_cols(requested: Option<u32>) -> (r: u32)
    ensures
        r == match requested {
            None => 16,
            Some(c) => if c < 4 {
                4
            } else if c > 64 {
                64
            } else {
                c
            },
        },
{
    let c = match requested {
        None => 16,
        Some(c) => c,
    };
    if c < 4 {
        4
    } else if c > 64 {
        64
    } else {
        c
    }
}

/// How many times a delete tries the trash: the webview releases a Clip's
/// file handle asynchronously, so the first tries may find it still locked.
pub const TRASH_ATTEMPTS: u64 = 8;

/// The pause after failed try `attempt` (counted from 0), in milliseconds:
/// a backoff from 100 ms growing by 50 ms a try.
pub fn trash_retry_delay_ms(attempt: u64) -> (r: u64)
    requires
        attempt < TRASH_ATTEMPTS,
    ensures
        r == 100 + 50 * attempt,
{
    100 + attempt * 50
}

/// After a restore from the trash put the file back at `landed_at`, whether
/// it must still be moved to `target`, the path the caller holds (the Windows
/// Recycle Bin restores to the path without its extension). Only when the two
/// differ, the restored file is there and nothing is at the target yet, so a
/// correct restore is left alone and nothing is ever overwritten.
pub fn restore_needs_move(landed_at: &str, target: &str, landed_exists: bool, target_exists: bool) -> (r:
    bool)
    ensures
        r == (landed_exists && !target_exists && !same_path(landed_at@, target@)),
        landed_at@ == target@ ==> !r,
{
    landed_exists && !target_exists && !paths_equal(landed_at, target)
}

/// The `copy` choice of each Audio export attempt, in order: an M4A at
/// normal speed first tries a lossless stream copy of the source audio and
/// then an AAC re-encode (for a source whose codec cannot go into M4A); an
/// MP3, or any speed change (the tempo filter must re-encode), has the single
/// re-encode. The first attempt that succeeds is the export.
pub fn audio_attempts(mp3: bool, unit_speed: bool) -> (r: Vec<bool>)
    ensures
        r@ == if mp3 || !unit_speed {
            seq![false]
        } else {
            seq![true, false]
        },
{
    if mp3 || !unit_speed {
        vec![false]
    } else {
        vec![true, false]
    }
}

} // verus!
