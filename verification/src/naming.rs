//! Output-path resolution: sanitizing user-supplied names into bare file stems,
//! applying the naming-scheme template, and resolving collision-free paths for
//! exports and renames.

use vstd::prelude::*;
use crate::text::{
    all_legal, chars_of, concat, contains_spec, decimal, decimal_chars, drop_illegal, is_illegal,
    contains_chars, lemma_find_spec, occurs_at, replace_chars,
    replace_spec, string_of, strip_illegal_chars, trim_chars, trim_spec, trim_str,
    lemma_drop_illegal_keeps_legal, lemma_drop_illegal_legal, lemma_trim_idempotent,
    lemma_trim_keeps_legal, lemma_trim_nonempty,
};
use crate::paths::{
    extension_of, file_name_of, file_stem_of, joined, parent_of, path_extension,
    path_file_name, path_file_stem, path_join, path_parent, paths_equal, same_path,
};

verus! {

broadcast use vstd::string::group_string_axioms;

/// `{name}`: replaced by the source Clip's stem.
pub open spec fn name_token() -> Seq<char> {
    seq!['{', 'n', 'a', 'm', 'e', '}']
}

/// `{stem}`: also replaced by the source Clip's stem.
pub open spec fn stem_token() -> Seq<char> {
    seq!['{', 's', 't', 'e', 'm', '}']
}

/// `{action}`: replaced by the output action ("trim", "small", "gif", ...).
pub open spec fn action_token() -> Seq<char> {
    seq!['{', 'a', 'c', 't', 'i', 'o', 'n', '}']
}

/// The scheme used when the user's is missing or blank: `{name}_{action}`.
pub open spec fn default_scheme() -> Seq<char> {
    name_token() + seq!['_'] + action_token()
}

/// The trimmed text of an optional string, or nothing when it is missing or
/// blank.
pub open spec fn nonblank(s: Option<Seq<char>>) -> Option<Seq<char>> {
    match s {
        Some(x) => if trim_spec(x).len() > 0 {
            Some(trim_spec(x))
        } else {
            None
        },
        None => None,
    }
}

/// View of an optional string slice.
pub open spec fn opt_view(s: Option<&str>) -> Option<Seq<char>> {
    match s {
        Some(x) => Some(x@),
        None => None,
    }
}

/// The trimmed text of `s`, or `None` when `s` is missing or blank.
pub fn nonblank_text(s: Option<&str>) -> (r: Option<Vec<char>>)
    ensures
        match r {
            Some(v) => nonblank(opt_view(s)) == Some(v@),
            None => nonblank(opt_view(s)) is None,
        },
{
    match s {
        Some(x) => {
            let t = trim_str(x);
            if t.len() > 0 {
                Some(t)
            } else {
                None
            }
        },
        None => None,
    }
}

/// Drops characters illegal in a Windows file name (path separators among
/// them, so a stem can never introduce a subdirectory).
pub fn strip_illegal(s: &str) -> (r: String)
    ensures
        r@ == drop_illegal(s@),
{
    let v = chars_of(s);
    let w = strip_illegal_chars(v.as_slice());
    string_of(w.as_slice())
}

/// Stripping is complete and stable: the result holds no illegal character,
/// so stripping it again changes nothing.
pub proof fn lemma_strip_illegal_idempotent(s: Seq<char>)
    ensures
        all_legal(drop_illegal(s)),
        drop_illegal(drop_illegal(s)) == drop_illegal(s),
{
    lemma_drop_illegal_legal(s);
    lemma_drop_illegal_keeps_legal(drop_illegal(s));
}

/// The stem that sanitizing `base` yields: illegal characters dropped and the
/// ends trimmed, or `default` when nothing is left.
pub open spec fn sanitize_stem_spec(base: Seq<char>, default: Seq<char>) -> Seq<char> {
    let cleaned = trim_spec(drop_illegal(base));
    if cleaned.len() == 0 {
        default
    } else {
        cleaned
    }
}

/// Sanitizes `base` into a file stem, falling back to `default_stem` when
/// nothing legal is left.
pub fn sanitize_stem(base: &str, default_stem: &str) -> (r: String)
    ensures
        r@ == sanitize_stem_spec(base@, default_stem@),
{
    let v = chars_of(base);
    let w = strip_illegal_chars(v.as_slice());
    let t = trim_chars(w.as_slice());
    if t.len() == 0 {
        string_of(chars_of(default_stem).as_slice())
    } else {
        string_of(t.as_slice())
    }
}

/// A sanitized stem is the default or a non-empty, trimmed run of legal
/// characters.
pub proof fn lemma_sanitized_stem_is_clean(base: Seq<char>, default: Seq<char>)
    ensures
        sanitize_stem_spec(base, default) == default || {
            let r = sanitize_stem_spec(base, default);
            &&& r.len() > 0
            &&& all_legal(r)
            &&& trim_spec(r) == r
        },
{
    let d = drop_illegal(base);
    lemma_drop_illegal_legal(base);
    lemma_trim_keeps_legal(d);
    lemma_trim_idempotent(d);
}

/// The stem `clean_stem` gives: `default` for a missing or blank name;
/// otherwise the trimmed name's final component (`Path::file_name`, the name
/// itself when it has none) without its extension (`Path::file_stem`),
/// sanitized.
pub open spec fn clean_stem_spec(requested: Option<Seq<char>>, default: Seq<char>) -> Seq<char> {
    match nonblank(requested) {
        None => default,
        Some(raw) => {
            let base = match file_name_of(raw) {
                Some(n) => n,
                None => raw,
            };
            let base = match file_stem_of(base) {
                Some(st) => st,
                None => base,
            };
            sanitize_stem_spec(base, default)
        },
    }
}

/// Sanitizes a user-supplied output name into a bare file stem (no path, no
/// extension); see `clean_stem_spec`.
pub fn clean_stem(requested: Option<&str>, default_stem: &str) -> (r: String)
    ensures
        r@ == clean_stem_spec(opt_view(requested), default_stem@),
{
    let raw = match nonblank_text(requested) {
        Some(t) => string_of(t.as_slice()),
        None => {
            return string_of(chars_of(default_stem).as_slice());
        },
    };
    let base = match path_file_name(raw.as_str()) {
        Some(n) => n,
        None => raw,
    };
    let base = match path_file_stem(base.as_str()) {
        Some(st) => st,
        None => base,
    };
    sanitize_stem(base.as_str(), default_stem)
}

/// The stem a naming scheme builds: the scheme (or `{name}_{action}` when it is
/// missing or blank) with `{stem}`, then `{name}`, then `{action}` substituted,
/// sanitized; `{src_stem}_{action}` when the sanitized result is empty.
pub open spec fn naming_scheme_spec(
    scheme: Option<Seq<char>>,
    src_stem: Seq<char>,
    action: Seq<char>,
) -> Seq<char> {
    let tmpl = match nonblank(scheme) {
        Some(t) => t,
        None => default_scheme(),
    };
    let built = replace_spec(
        replace_spec(replace_spec(tmpl, stem_token(), src_stem), name_token(), src_stem),
        action_token(),
        action,
    );
    let cleaned = trim_spec(drop_illegal(built));
    if cleaned.len() == 0 {
        src_stem + seq!['_'] + action
    } else {
        cleaned
    }
}

/// Builds the default output stem from the user's naming scheme. Tokens:
/// `{name}` and `{stem}` are the source Clip's stem, `{action}` the output
/// action. `{ext}` and `{n}` pass through here, as this function is given
/// neither the output extension nor a collision number: `prepare_output`
/// fills `{ext}` and numbers `{n}` while resolving collisions (see
/// `scheme_stem` and `candidate_for`). Falls back to `{name}_{action}` when the scheme is
/// blank, and the result is sanitized so a template can never inject illegal
/// path characters.
pub fn apply_naming_scheme(scheme: Option<&str>, src_stem: &str, action: &str) -> (r: String)
    ensures
        r@ == naming_scheme_spec(opt_view(scheme), src_stem@, action@),
{
    let tmpl: Vec<char> = match nonblank_text(scheme) {
        Some(t) => t,
        None => vec!['{', 'n', 'a', 'm', 'e', '}', '_', '{', 'a', 'c', 't', 'i', 'o', 'n', '}'],
    };
    proof {
        if nonblank(opt_view(scheme)) is None {
            assert(tmpl@ =~= default_scheme());
        }
    }
    let stem_tok = vec!['{', 's', 't', 'e', 'm', '}'];
    let name_tok = vec!['{', 'n', 'a', 'm', 'e', '}'];
    let action_tok = vec!['{', 'a', 'c', 't', 'i', 'o', 'n', '}'];
    assert(stem_tok@ =~= stem_token());
    assert(name_tok@ =~= name_token());
    assert(action_tok@ =~= action_token());
    let stem_chars = chars_of(src_stem);
    let action_chars = chars_of(action);
    let with_stem = replace_chars(tmpl.as_slice(), stem_tok.as_slice(), stem_chars.as_slice());
    let with_name = replace_chars(with_stem.as_slice(), name_tok.as_slice(), stem_chars.as_slice());
    let built = replace_chars(with_name.as_slice(), action_tok.as_slice(), action_chars.as_slice());
    let stripped = strip_illegal_chars(built.as_slice());
    let cleaned = trim_chars(stripped.as_slice());
    if cleaned.len() == 0 {
        let under = vec!['_'];
        let a = concat(stem_chars.as_slice(), under.as_slice());
        let b = concat(a.as_slice(), action_chars.as_slice());
        string_of(b.as_slice())
    } else {
        string_of(cleaned.as_slice())
    }
}

/// A naming scheme never yields an empty stem, and never one holding an
/// illegal file-name character as long as the Clip's stem and the action hold
/// none.
pub proof fn lemma_naming_scheme_is_clean(
    scheme: Option<Seq<char>>,
    src_stem: Seq<char>,
    action: Seq<char>,
)
    requires
        all_legal(src_stem),
        all_legal(action),
    ensures
        all_legal(naming_scheme_spec(scheme, src_stem, action)),
        naming_scheme_spec(scheme, src_stem, action).len() > 0,
{
    let tmpl = match nonblank(scheme) {
        Some(t) => t,
        None => default_scheme(),
    };
    let built = replace_spec(
        replace_spec(replace_spec(tmpl, stem_token(), src_stem), name_token(), src_stem),
        action_token(),
        action,
    );
    let d = drop_illegal(built);
    lemma_drop_illegal_legal(built);
    lemma_trim_keeps_legal(d);
    let r = naming_scheme_spec(scheme, src_stem, action);
    if trim_spec(d).len() == 0 {
        let f = src_stem + seq!['_'] + action;
        assert(r == f);
        assert forall|i: int| 0 <= i < f.len() implies !is_illegal(#[trigger] f[i]) by {
            if i < src_stem.len() {
                assert(f[i] == src_stem[i]);
            } else if i > src_stem.len() {
                assert(f[i] == action[i - src_stem.len() - 1]);
            }
        }
    }
}

proof fn lemma_replace_absent(s: Seq<char>, pat: Seq<char>, rep: Seq<char>)
    requires
        pat.len() > 0,
        forall|j: int| !#[trigger] occurs_at(s, pat, j),
    ensures
        replace_spec(s, pat, rep) == s,
    decreases s.len(),
{
    if s.len() > 0 {
        assert(!occurs_at(s, pat, 0));
        if pat.len() <= s.len() {
            assert(s.subrange(0, pat.len() as int) =~= s.take(pat.len() as int));
        }
        let t = s.drop_first();
        assert forall|j: int| !#[trigger] occurs_at(t, pat, j) by {
            if occurs_at(t, pat, j) {
                assert(t.subrange(j, j + pat.len()) =~= s.subrange(j + 1, j + 1 + pat.len()));
                assert(occurs_at(s, pat, j + 1));
            }
        }
        lemma_replace_absent(t, pat, rep);
        assert(seq![s[0]] + t =~= s);
    }
}

proof fn lemma_replace_after_prefix(x: Seq<char>, y: Seq<char>, pat: Seq<char>, rep: Seq<char>)
    requires
        pat.len() > 0,
        forall|j: int| 0 <= j < x.len() ==> !#[trigger] occurs_at(x + y, pat, j),
    ensures
        replace_spec(x + y, pat, rep) == x + replace_spec(y, pat, rep),
    decreases x.len(),
{
    if x.len() > 0 {
        let s = x + y;
        assert(!occurs_at(s, pat, 0));
        if pat.len() <= s.len() {
            assert(s.subrange(0, pat.len() as int) =~= s.take(pat.len() as int));
        }
        let x2 = x.drop_first();
        assert(s.drop_first() =~= x2 + y);
        assert forall|j: int| 0 <= j < x2.len() implies !#[trigger] occurs_at(x2 + y, pat, j) by {
            if occurs_at(x2 + y, pat, j) {
                assert((x2 + y).subrange(j, j + pat.len()) =~= s.subrange(j + 1, j + 1 + pat.len()));
                assert(occurs_at(s, pat, j + 1));
            }
        }
        lemma_replace_after_prefix(x2, y, pat, rep);
        assert(seq![s[0]] + (x2 + replace_spec(y, pat, rep)) =~= x + replace_spec(y, pat, rep));
    }
}

proof fn lemma_default_has_no_stem_token(x: Seq<char>)
    ensures
        replace_spec(default_scheme(), stem_token(), x) == default_scheme(),
{
    let name = name_token();
    let rest = seq!['_'] + action_token();
    let st = stem_token();
    assert(default_scheme() =~= name + rest);
    assert forall|j: int| !#[trigger] occurs_at(name + rest, st, j) by {
        if occurs_at(name + rest, st, j) {
            assert((name + rest).subrange(j, j + 6)[0] == (name + rest)[j]);
            assert((name + rest).subrange(j, j + 6)[1] == (name + rest)[j + 1]);
            assert(st[0] == '{' && st[1] == 's');
            if j < 6 {
                assert((name + rest)[j] == name[j]);
            } else {
                assert((name + rest)[j] == rest[j - 6]);
                assert((name + rest)[j + 1] == rest[j - 5]);
            }
        }
    }
    lemma_replace_absent(name + rest, st, x);
}

proof fn lemma_default_name_substituted(src_stem: Seq<char>)
    ensures
        replace_spec(default_scheme(), name_token(), src_stem) == src_stem + (seq!['_']
            + action_token()),
{
    let name = name_token();
    let rest = seq!['_'] + action_token();
    assert(default_scheme() =~= name + rest);
    assert(default_scheme().take(name.len() as int) =~= name);
    assert(default_scheme().skip(name.len() as int) =~= rest);
    assert forall|j: int| !#[trigger] occurs_at(rest, name, j) by {
        if occurs_at(rest, name, j) {
            assert(rest.subrange(j, j + 6)[0] == rest[j]);
            assert(rest.subrange(j, j + 6)[1] == rest[j + 1]);
            assert(name[0] == '{' && name[1] == 'n');
        }
    }
    lemma_replace_absent(rest, name, src_stem);
}

proof fn lemma_trailing_action_substituted(src_stem: Seq<char>, action: Seq<char>)
    requires
        !contains_spec(src_stem, action_token()),
    ensures
        replace_spec(src_stem + (seq!['_'] + action_token()), action_token(), action) == src_stem
            + seq!['_'] + action,
{
    // `{action}` occurs in `src_stem + "_{action}"` only at the end: it cannot
    // start inside the stem, nor straddle the `_`.
    let act = action_token();
    let head = src_stem + seq!['_'];
    assert(src_stem + (seq!['_'] + act) =~= head + act);
    lemma_find_spec(src_stem, act);
    assert forall|j: int| 0 <= j < head.len() implies !#[trigger] occurs_at(head + act, act, j) by {
        if occurs_at(head + act, act, j) {
            let n = src_stem.len() as int;
            if j + 8 <= n {
                assert((head + act).subrange(j, j + 8) =~= src_stem.subrange(j, j + 8));
                assert(occurs_at(src_stem, act, j));
            } else {
                assert((head + act)[n] == '_');
                assert((head + act).subrange(j, j + 8)[n - j] == '_');
                assert(act[n - j] != '_');
            }
        }
    }
    lemma_replace_after_prefix(head, act, act, action);
    assert(act.take(act.len() as int) =~= act);
    assert(act.skip(act.len() as int) =~= Seq::<char>::empty());
    assert(replace_spec(act, act, action) == action + replace_spec(Seq::<char>::empty(), act, action));
    assert(replace_spec(act, act, action) =~= action);
    assert(head + action =~= src_stem + seq!['_'] + action);
}

/// With no naming scheme (or a blank one) the default stem is
/// `<stem>_<action>`, trimmed: for any source stem and action without an
/// illegal file-name character, as long as the stem holds no `{action}` token
/// (the template substitutes that one too). A Trim of `clip` gives `clip_trim`.
pub proof fn lemma_default_scheme_stem(
    scheme: Option<Seq<char>>,
    src_stem: Seq<char>,
    action: Seq<char>,
)
    requires
        nonblank(scheme) is None,
        all_legal(src_stem),
        all_legal(action),
        !contains_spec(src_stem, action_token()),
    ensures
        naming_scheme_spec(scheme, src_stem, action) == trim_spec(src_stem + seq!['_'] + action),
{
    lemma_default_has_no_stem_token(src_stem);
    lemma_default_name_substituted(src_stem);
    lemma_trailing_action_substituted(src_stem, action);
    let built = src_stem + seq!['_'] + action;
    // Nothing to strip, and the `_` survives trimming.
    assert(all_legal(built)) by {
        assert forall|i: int| 0 <= i < built.len() implies !is_illegal(#[trigger] built[i]) by {
            if i < src_stem.len() {
                assert(built[i] == src_stem[i]);
            } else if i > src_stem.len() {
                assert(built[i] == action[i - src_stem.len() - 1]);
            }
        }
    }
    lemma_drop_illegal_keeps_legal(built);
    assert(built[src_stem.len() as int] == '_');
    lemma_trim_nonempty(built, src_stem.len() as int);
}

/// The file name of the `n`th candidate output: `{stem}.{ext}` first, then
/// `{stem}_{n}.{ext}` for n = 2, 3, ...; a file with no extension gets none
/// (no trailing dot).
pub open spec fn candidate_name(stem: Seq<char>, ext: Seq<char>, n: nat) -> Seq<char> {
    let head = if n <= 1 {
        stem
    } else {
        stem + seq!['_'] + decimal(n)
    };
    if ext.len() == 0 {
        head
    } else {
        head + seq!['.'] + ext
    }
}

/// The file name of the `n`th candidate output (see `candidate_name`).
pub fn output_file_name(stem: &str, ext: &str, n: u64) -> (r: String)
    ensures
        r@ == candidate_name(stem@, ext@, n as nat),
{
    let s = chars_of(stem);
    let e = chars_of(ext);
    let head = if n <= 1 {
        s
    } else {
        let under = vec!['_'];
        let a = concat(s.as_slice(), under.as_slice());
        let d = decimal_chars(n);
        concat(a.as_slice(), d.as_slice())
    };
    if e.len() == 0 {
        string_of(head.as_slice())
    } else {
        let dot = vec!['.'];
        let a = concat(head.as_slice(), dot.as_slice());
        let b = concat(a.as_slice(), e.as_slice());
        string_of(b.as_slice())
    }
}

/// `{ext}`: in a stem built from the naming scheme, replaced by the output
/// extension.
pub open spec fn ext_token() -> Seq<char> {
    seq!['{', 'e', 'x', 't', '}']
}

/// `{n}`: in a stem built from the naming scheme, replaced by the candidate's
/// number while resolving collisions.
pub open spec fn number_token() -> Seq<char> {
    seq!['{', 'n', '}']
}

/// The file name of the `n`th candidate. For a stem built from the naming
/// scheme (`numbered`) that holds `{n}`, each `{n}` becomes the candidate's
/// number (1 for the first) and nothing else is added; any other stem is
/// numbered as `candidate_name` does.
pub open spec fn candidate_for(stem: Seq<char>, ext: Seq<char>, numbered: bool, n: nat) -> Seq<
    char,
> {
    if numbered && contains_spec(stem, number_token()) {
        let head = replace_spec(stem, number_token(), decimal(n));
        if ext.len() == 0 {
            head
        } else {
            head + seq!['.'] + ext
        }
    } else {
        candidate_name(stem, ext, n)
    }
}

/// The file name of the `n`th candidate (see `candidate_for`).
fn candidate_file_name(stem: &str, ext: &str, numbered: bool, n: u64) -> (r: String)
    ensures
        r@ == candidate_for(stem@, ext@, numbered, n as nat),
{
    let tok = vec!['{', 'n', '}'];
    assert(tok@ =~= number_token());
    let s = chars_of(stem);
    if numbered && contains_chars(s.as_slice(), tok.as_slice()) {
        let d = decimal_chars(n);
        let head = replace_chars(s.as_slice(), tok.as_slice(), d.as_slice());
        let e = chars_of(ext);
        if e.len() == 0 {
            string_of(head.as_slice())
        } else {
            let dot = vec!['.'];
            let a = concat(head.as_slice(), dot.as_slice());
            let b = concat(a.as_slice(), e.as_slice());
            string_of(b.as_slice())
        }
    } else {
        output_file_name(stem, ext, n)
    }
}

/// Whether `probes` is a run of the existence checks made to resolve `stem`
/// and `ext` in `parent`: probe `m` (from 0) asks `occupied` about candidate
/// `m + 1` (see `candidate_for`) joined onto `parent`; every probe before the
/// last was answered "taken"; and the last was answered "free", unless it was
/// the `u64::MAX`th candidate, where probing stops.
pub open spec fn probe_run<F: Fn(&str) -> bool>(
    occupied: F,
    parent: Seq<char>,
    stem: Seq<char>,
    ext: Seq<char>,
    numbered: bool,
    probes: Seq<&str>,
) -> bool {
    &&& 1 <= probes.len() <= u64::MAX
    &&& forall|m: int|
        0 <= m < probes.len() ==> (#[trigger] probes[m])@ == joined(
            parent,
            candidate_for(stem, ext, numbered, (m + 1) as nat),
        ) && (m < probes.len() - 1 ==> occupied.ensures((probes[m],), true))
    &&& (occupied.ensures((probes.last(),), false) || probes.len() == u64::MAX)
}

/// `out` is where resolution settles for `stem` and `ext` in `parent` when
/// `occupied` tells what is taken: the last probe of such a run, so the first
/// candidate reported free, with every earlier one reported taken.
pub open spec fn resolved_by<F: Fn(&str) -> bool>(
    occupied: F,
    parent: Seq<char>,
    stem: Seq<char>,
    ext: Seq<char>,
    numbered: bool,
    out: Seq<char>,
) -> bool {
    exists|probes: Seq<&str>|
        #[trigger] probe_run(occupied, parent, stem, ext, numbered, probes) && out
            == probes.last()@
}

/// Nothing is overwritten: the path resolution settles on is candidate `n`
/// for some `n`, the probe reported it free (unless `n` is `u64::MAX`, where
/// probing stops), and it reported every earlier candidate taken.
pub proof fn lemma_resolved_path_was_free<F: Fn(&str) -> bool>(
    occupied: F,
    parent: Seq<char>,
    stem: Seq<char>,
    ext: Seq<char>,
    numbered: bool,
    out: Seq<char>,
)
    requires
        resolved_by(occupied, parent, stem, ext, numbered, out),
    ensures
        exists|n: nat, p: &str|
            #![trigger candidate_for(stem, ext, numbered, n), p@]
            {
                &&& 1 <= n <= u64::MAX
                &&& p@ == out
                &&& out == joined(parent, candidate_for(stem, ext, numbered, n))
                &&& (occupied.ensures((p,), false) || n == u64::MAX)
                &&& forall|m: nat|
                    1 <= m < n ==> exists|q: &str|
                        #![trigger q@]
                        q@ == joined(parent, #[trigger] candidate_for(stem, ext, numbered, m))
                            && occupied.ensures((q,), true)
            },
{
    let probes = choose|probes: Seq<&str>|
        #[trigger] probe_run(occupied, parent, stem, ext, numbered, probes) && out
            == probes.last()@;
    let n = probes.len();
    let p = probes.last();
    assert(p == probes[n - 1]);
    assert forall|m: nat| 1 <= m < n implies exists|q: &str|
        #![trigger q@]
        q@ == joined(parent, #[trigger] candidate_for(stem, ext, numbered, m))
            && occupied.ensures((q,), true) by {
        let q = probes[m - 1];
        assert(q@ == joined(parent, candidate_for(stem, ext, numbered, m)));
    }
    assert(out == joined(parent, candidate_for(stem, ext, numbered, n)));
}

/// Probes the candidates for `stem` and `ext` in `parent` in order and returns
/// the first one `occupied` reports free (see `probe_run`).
fn resolve_candidates<F: Fn(&str) -> bool>(
    parent: &str,
    stem: &str,
    ext: &str,
    numbered: bool,
    occupied: F,
) -> (r: String)
    requires
        forall|p: &str| occupied.requires((p,)),
    ensures
        resolved_by(occupied, parent@, stem@, ext@, numbered, r@),
{
    let first = candidate_file_name(stem, ext, numbered, 1);
    let mut out = path_join(parent, first.as_str());
    let mut n: u64 = 1;
    let ghost mut probes: Seq<&str> = seq![];
    loop
        invariant
            forall|p: &str| occupied.requires((p,)),
            1 <= n,
            probes.len() == n - 1,
            out@ == joined(parent@, candidate_for(stem@, ext@, numbered, n as nat)),
            forall|m: int|
                0 <= m < probes.len() ==> (#[trigger] probes[m])@ == joined(
                    parent@,
                    candidate_for(stem@, ext@, numbered, (m + 1) as nat),
                ) && occupied.ensures((probes[m],), true),
        decreases u64::MAX - n,
    {
        let probe: &str = out.as_str();
        let taken = occupied(probe);
        proof {
            probes = probes.push(probe);
        }
        if !taken || n == u64::MAX {
            proof {
                assert(probe_run(occupied, parent@, stem@, ext@, numbered, probes));
            }
            return out;
        }
        n += 1;
        let name = candidate_file_name(stem, ext, numbered, n);
        out = path_join(parent, name.as_str());
    }
}

/// Resolves a collision-free output path in `parent`: the first candidate (see
/// `candidate_name`), joined onto `parent` with `Path::join`, that `occupied`
/// reports free, so nothing that exists is ever overwritten. `occupied` is
/// asked about each candidate in turn (the app passes `Path::exists`); probing
/// stops at the `u64::MAX`th candidate.
pub fn resolve_output<F: Fn(&str) -> bool>(
    parent: &str,
    stem: &str,
    ext: &str,
    occupied: F,
) -> (r: String)
    requires
        forall|p: &str| occupied.requires((p,)),
    ensures
        resolved_by(occupied, parent@, stem@, ext@, false, r@),
{
    resolve_candidates(parent, stem, ext, false, occupied)
}

/// What `rename_target` returns for `path` and `new_name` when `occupied`
/// tells which paths are taken.
pub open spec fn rename_result<F: Fn(&str) -> bool>(
    path: Seq<char>,
    new_name: Seq<char>,
    occupied: F,
    r: Result<String, String>,
) -> bool {
    match parent_of(path) {
        None => r matches Err(e) && e@ == "Could not resolve the clip's folder."@,
        Some(parent) => {
            let ext = match extension_of(path) {
                Some(e) => e,
                None => Seq::empty(),
            };
            let cleaned = clean_stem_spec(Some(new_name), Seq::empty());
            if cleaned.len() == 0 {
                r matches Err(e) && e@ == "Please enter a valid name."@
            } else if same_path(joined(parent, candidate_name(cleaned, ext, 1)), path) {
                r matches Ok(p) && p@ == path
            } else {
                r matches Ok(p) && resolved_by(occupied, parent, cleaned, ext, false, p@)
            }
        },
    }
}

/// Where a Clip moves when renamed: same folder, same extension (none when it
/// has none), the user's name sanitized, and the first such path `occupied`
/// reports free. Renaming to the current name is a no-op (the source path
/// comes back unchanged). A blank name, or one that sanitizes to nothing, is
/// refused; so is a path with no parent folder.
pub fn rename_target<F: Fn(&str) -> bool>(path: &str, new_name: &str, occupied: F) -> (r: Result<
    String,
    String,
>)
    requires
        forall|p: &str| occupied.requires((p,)),
    ensures
        rename_result(path@, new_name@, occupied, r),
{
    let parent = match path_parent(path) {
        Some(p) => p,
        None => {
            return Err("Could not resolve the clip's folder.".to_owned());
        },
    };
    let ext = match path_extension(path) {
        Some(e) => e,
        None => String::new(),
    };
    let cleaned = clean_stem(Some(new_name), "");
    proof {
        reveal_strlit("");
        assert(opt_view(Some(new_name)) == Some(new_name@));
    }
    if cleaned.as_str().is_empty() {
        return Err("Please enter a valid name.".to_owned());
    }
    let name = output_file_name(cleaned.as_str(), ext.as_str(), 1);
    let desired = path_join(parent.as_str(), name.as_str());
    proof {
        assert(parent_of(path@) == Some(parent@));
        assert(ext@ == match extension_of(path@) {
            Some(e) => e,
            None => Seq::<char>::empty(),
        });
    }
    if paths_equal(desired.as_str(), path) {
        return Ok(path.to_owned());
    }
    Ok(resolve_output(parent.as_str(), cleaned.as_str(), ext.as_str(), occupied))
}

/// The stem `clean_stem` gives falls back to `default` exactly when the
/// user's name yields nothing: it is the name's own stem when that is
/// non-empty.
pub proof fn lemma_clean_stem_default(requested: Option<Seq<char>>, default: Seq<char>)
    ensures
        clean_stem_spec(requested, default) == if clean_stem_spec(
            requested,
            Seq::empty(),
        ).len() > 0 {
            clean_stem_spec(requested, Seq::empty())
        } else {
            default
        },
{
}

/// The stem the naming scheme gives an export of `src_stem`: the scheme's
/// stem with each `{ext}` replaced by the output extension.
pub open spec fn scheme_stem(
    naming_scheme: Option<Seq<char>>,
    src_stem: Seq<char>,
    action: Seq<char>,
    out_ext: Seq<char>,
) -> Seq<char> {
    replace_spec(naming_scheme_spec(naming_scheme, src_stem, action), ext_token(), out_ext)
}

/// What `prepare_output` returns: the Region check first, then the source's
/// stem and the output folder (the override when set, else the source's
/// folder). The output is then the first candidate `occupied` reports free:
/// for the user's name when it yields a stem (see `clean_stem`), else for the
/// naming scheme's stem, whose `{ext}` is the output extension and whose
/// `{n}` numbers the candidates (see `candidate_for`).
pub open spec fn prepare_result<F: Fn(&str) -> bool>(
    path: Seq<char>,
    region_ok: bool,
    output_name: Option<Seq<char>>,
    action: Seq<char>,
    out_ext: Seq<char>,
    output_dir: Option<Seq<char>>,
    naming_scheme: Option<Seq<char>>,
    occupied: F,
    r: Result<String, String>,
) -> bool {
    if !region_ok {
        r matches Err(e) && e@ == "End point must be after the start point."@
    } else {
        match file_stem_of(path) {
            None => r matches Err(e) && e@ == "Could not read the clip's name."@,
            Some(src_stem) => {
                let parent = match nonblank(output_dir) {
                    Some(d) => Some(d),
                    None => parent_of(path),
                };
                match parent {
                    None => r matches Err(e) && e@ == "Could not resolve the clip's folder."@,
                    Some(p) => {
                        let named = clean_stem_spec(output_name, Seq::empty());
                        if named.len() > 0 {
                            r matches Ok(o) && resolved_by(occupied, p, named, out_ext, false, o@)
                        } else {
                            r matches Ok(o) && resolved_by(
                                occupied,
                                p,
                                scheme_stem(naming_scheme, src_stem, action, out_ext),
                                out_ext,
                                true,
                                o@,
                            )
                        }
                    },
                }
            },
        }
    }
}

/// The output folder does not depend on the name: whether the user typed a
/// name or the naming scheme built one, an export is resolved in the
/// non-blank `output_dir` when one is set, else beside its source.
pub proof fn lemma_output_folder_ignores_name<F: Fn(&str) -> bool>(
    path: Seq<char>,
    output_name: Option<Seq<char>>,
    action: Seq<char>,
    out_ext: Seq<char>,
    output_dir: Option<Seq<char>>,
    naming_scheme: Option<Seq<char>>,
    occupied: F,
    r: Result<String, String>,
    folder: Seq<char>,
)
    requires
        file_stem_of(path) is Some,
        folder == match nonblank(output_dir) {
            Some(d) => d,
            None => parent_of(path)->0,
        },
        nonblank(output_dir) is Some || parent_of(path) is Some,
        prepare_result(
            path,
            true,
            output_name,
            action,
            out_ext,
            output_dir,
            naming_scheme,
            occupied,
            r,
        ),
    ensures
        r matches Ok(o) && exists|stem: Seq<char>, numbered: bool|
            #[trigger] resolved_by(occupied, folder, stem, out_ext, numbered, o@),
{
    let src_stem = file_stem_of(path)->0;
    let named = clean_stem_spec(output_name, Seq::empty());
    let o = r->Ok_0;
    if named.len() > 0 {
        assert(resolved_by(occupied, folder, named, out_ext, false, o@));
    } else {
        let st = scheme_stem(naming_scheme, src_stem, action, out_ext);
        assert(resolved_by(occupied, folder, st, out_ext, true, o@));
    }
}

/// Without a name, an output folder or a naming scheme, an export lands next
/// to its source as `<stem>_<action>.<ext>` (trimmed), or the first free
/// `<stem>_<action>_<n>.<ext>` when that is taken: a Trim of
/// `C:/clips/clip.mp4` writes `C:/clips/clip_trim.mp4` when that is free. This
/// holds for a stem and action free of illegal file-name characters, whose
/// default name holds none of the tokens `{action}`, `{ext}`, `{n}` that the
/// naming substitutes.
pub proof fn lemma_default_output_beside_source<F: Fn(&str) -> bool>(
    path: Seq<char>,
    src_stem: Seq<char>,
    parent: Seq<char>,
    action: Seq<char>,
    out_ext: Seq<char>,
    occupied: F,
    r: Result<String, String>,
)
    requires
        file_stem_of(path) == Some(src_stem),
        parent_of(path) == Some(parent),
        all_legal(src_stem),
        all_legal(action),
        !contains_spec(src_stem, action_token()),
        !contains_spec(trim_spec(src_stem + seq!['_'] + action), ext_token()),
        !contains_spec(trim_spec(src_stem + seq!['_'] + action), number_token()),
        prepare_result(path, true, None, action, out_ext, None, None, occupied, r),
    ensures
        r matches Ok(o) && resolved_by(
            occupied,
            parent,
            trim_spec(src_stem + seq!['_'] + action),
            out_ext,
            false,
            o@,
        ),
{
    let stem = trim_spec(src_stem + seq!['_'] + action);
    lemma_default_scheme_stem(None, src_stem, action);
    lemma_find_spec(stem, ext_token());
    lemma_replace_absent(stem, ext_token(), out_ext);
    assert(scheme_stem(None, src_stem, action, out_ext) == stem);
    assert(clean_stem_spec(None, Seq::<char>::empty()).len() == 0);
    let o = r->Ok_0;
    let probes = choose|probes: Seq<&str>|
        #[trigger] probe_run(occupied, parent, stem, out_ext, true, probes) && o@
            == probes.last()@;
    assert forall|m: nat| #[trigger] candidate_for(stem, out_ext, true, m) == candidate_for(
        stem,
        out_ext,
        false,
        m,
    ) by {}
    assert(probe_run(occupied, parent, stem, out_ext, false, probes));
}

/// Validates the Region and resolves a collision-free output path.
/// `region_ok` says whether the Region's end lies after its start (the caller
/// compares the two times). `action` names the output ("trim", "small", "gif",
/// ...) and feeds the naming scheme that builds the default stem when the user
/// gave no name; `out_ext` is the output extension, which also fills the
/// scheme's `{ext}`. The output lands in `output_dir` when set (non-blank),
/// otherwise next to the source Clip, at the first candidate `occupied`
/// reports free (numbered through the scheme's `{n}` when it has one).
pub fn prepare_output<F: Fn(&str) -> bool>(
    path: &str,
    region_ok: bool,
    output_name: Option<&str>,
    action: &str,
    out_ext: &str,
    output_dir: Option<&str>,
    naming_scheme: Option<&str>,
    occupied: F,
) -> (r: Result<String, String>)
    requires
        forall|p: &str| occupied.requires((p,)),
    ensures
        prepare_result(
            path@,
            region_ok,
            opt_view(output_name),
            action@,
            out_ext@,
            opt_view(output_dir),
            opt_view(naming_scheme),
            occupied,
            r,
        ),
{
    if !region_ok {
        return Err("End point must be after the start point.".to_owned());
    }
    let src_stem = match path_file_stem(path) {
        Some(s) => s,
        None => {
            return Err("Could not read the clip's name.".to_owned());
        },
    };
    let parent = match nonblank_text(output_dir) {
        Some(d) => string_of(d.as_slice()),
        None => match path_parent(path) {
            Some(p) => p,
            None => {
                return Err("Could not resolve the clip's folder.".to_owned());
            },
        },
    };
    let named = clean_stem(output_name, "");
    proof {
        reveal_strlit("");
    }
    if !named.as_str().is_empty() {
        return Ok(resolve_candidates(parent.as_str(), named.as_str(), out_ext, false, occupied));
    }
    let from_scheme = apply_naming_scheme(naming_scheme, src_stem.as_str(), action);
    let tok = vec!['{', 'e', 'x', 't', '}'];
    assert(tok@ =~= ext_token());
    let e = chars_of(out_ext);
    let with_ext = replace_chars(chars_of(from_scheme.as_str()).as_slice(), tok.as_slice(), e.as_slice());
    let stem = string_of(with_ext.as_slice());
    Ok(resolve_candidates(parent.as_str(), stem.as_str(), out_ext, true, occupied))
}

} // verus!
