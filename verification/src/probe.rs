//! Reading FFmpeg's `-i` stderr banner: the Clip's duration, the first video
//! stream's dimensions and its frame rate. FFmpeg prints these lines in
//! English whatever the system locale.
//!
//! The duration's fields and the frame-rate tokens are returned as text: they
//! are decimal numbers the caller reads as floating point.

use vstd::prelude::*;
use crate::commands::{split_on, split_spec};
use crate::text::{
    chars_eq, chars_of, contains_chars, contains_spec, copy_range, find_chars, find_spec,
    lemma_find_spec, occurs_at, string_of, trim_chars, trim_spec, trim_start_chars,
    trim_start_spec, trim_str, views,
};

verus! {

broadcast use vstd::string::group_string_axioms;

/// What the banner says, before any number is read as floating point.
pub struct ProbeBanner {
    /// The hours, minutes and seconds fields of the `Duration:` value, when
    /// it has exactly three `:`-separated fields (`N/A` has one).
    pub duration: Option<(String, String, String)>,
    /// The first `WxH` token of the first `Video:` line with both sides at
    /// least 16, or 0 x 0.
    pub width: u32,
    pub height: u32,
    /// The token before each `fps` token of the first `Video:` line, in
    /// order; the frame rate is the last of them that reads as a number.
    pub fps_candidates: Vec<String>,
}

/// `s` up to its first `c`, or all of `s` without one.
pub open spec fn take_until(s: Seq<char>, c: char) -> Seq<char> {
    match find_spec(s, seq![c]) {
        Some(k) => s.take(k),
        None => s,
    }
}

/// The value of the `Duration:` field: after the first `Duration:`, leading
/// whitespace skipped, up to the next `,`, trimmed.
pub open spec fn duration_token(stderr: Seq<char>) -> Option<Seq<char>> {
    match find_spec(stderr, "Duration:"@) {
        None => None,
        Some(i) => Some(trim_spec(take_until(trim_start_spec(stderr.skip(i + 9)), ','))),
    }
}

/// The three `:`-separated fields of the duration, if it has exactly three.
pub open spec fn duration_fields(stderr: Seq<char>) -> Option<(Seq<char>, Seq<char>, Seq<char>)> {
    match duration_token(stderr) {
        None => None,
        Some(t) => {
            let parts = split_spec(t, seq![':']);
            if parts.len() == 3 {
                Some((parts[0], parts[1], parts[2]))
            } else {
                None
            }
        },
    }
}

/// A line of `str::lines`: a piece between `\n`s, without the `\r` of a
/// `\r\n` ending (the last piece has no line ending).
pub open spec fn line_at(pieces: Seq<Seq<char>>, j: int) -> Seq<char> {
    let p = pieces[j];
    if j + 1 < pieces.len() && p.len() > 0 && p.last() == '\r' {
        p.drop_last()
    } else {
        p
    }
}

/// The first line from the `j`th on that mentions `Video:`.
pub open spec fn video_line_from(pieces: Seq<Seq<char>>, j: int) -> Option<Seq<char>>
    decreases pieces.len() - j,
{
    if j < 0 || j >= pieces.len() {
        None
    } else if contains_spec(line_at(pieces, j), "Video:"@) {
        Some(line_at(pieces, j))
    } else {
        video_line_from(pieces, j + 1)
    }
}

/// The first line of the banner that mentions `Video:`.
pub open spec fn video_line(stderr: Seq<char>) -> Option<Seq<char>> {
    video_line_from(split_spec(stderr, seq!['\n']), 0)
}

/// The token separators of a stream line.
pub open spec fn is_sep(c: char) -> bool {
    c == ' ' || c == ','
}

/// The tokens completed so far and the one being read, scanning `s`.
pub open spec fn token_state(s: Seq<char>) -> (Seq<Seq<char>>, Seq<char>)
    decreases s.len(),
{
    if s.len() == 0 {
        (Seq::empty(), Seq::empty())
    } else {
        let (done, cur) = token_state(s.drop_last());
        if is_sep(s.last()) {
            if cur.len() > 0 {
                (done.push(cur), Seq::empty())
            } else {
                (done, Seq::empty())
            }
        } else {
            (done, cur.push(s.last()))
        }
    }
}

/// The non-empty pieces of `s` between spaces and commas.
pub open spec fn tokens(s: Seq<char>) -> Seq<Seq<char>> {
    let (done, cur) = token_state(s);
    if cur.len() > 0 {
        done.push(cur)
    } else {
        done
    }
}

pub open spec fn is_digit(c: char) -> bool {
    '0' <= c <= '9'
}

/// The value of a run of decimal digits.
pub open spec fn digits_value(d: Seq<char>) -> nat
    decreases d.len(),
{
    if d.len() == 0 {
        0
    } else {
        (digits_value(d.drop_last()) * 10 + (d.last() as int - '0' as int)) as nat
    }
}

/// `s` without a leading `+`.
pub open spec fn sign_stripped(s: Seq<char>) -> Seq<char> {
    if s.len() > 0 && s[0] == '+' {
        s.drop_first()
    } else {
        s
    }
}

/// Whether every character of `d` is a decimal digit.
pub open spec fn all_digits(d: Seq<char>) -> bool {
    forall|i: int| 0 <= i < d.len() ==> is_digit(#[trigger] d[i])
}

/// `u32::from_str`: an optional `+`, then one or more decimal digits whose
/// value fits in a `u32`.
pub open spec fn parse_u32_spec(s: Seq<char>) -> Option<u32> {
    let d = sign_stripped(s);
    if d.len() > 0 && all_digits(d) && digits_value(d) <= u32::MAX {
        Some(digits_value(d) as u32)
    } else {
        None
    }
}

/// The dimensions a `WxH` token gives: both sides of its first `x` read as
/// `u32`, each at least 16 (which rules out hex codec tags like `0x31637661`).
pub open spec fn dims_of(tok: Seq<char>) -> Option<(u32, u32)> {
    match find_spec(tok, seq!['x']) {
        None => None,
        Some(k) => match (parse_u32_spec(tok.take(k)), parse_u32_spec(tok.skip(k + 1))) {
            (Some(w), Some(h)) => if w >= 16 && h >= 16 {
                Some((w, h))
            } else {
                None
            },
            _ => None,
        },
    }
}

/// The dimensions of the first token, from the `j`th on, that gives some.
pub open spec fn first_dims_from(toks: Seq<Seq<char>>, j: int) -> Option<(u32, u32)>
    decreases toks.len() - j,
{
    if j < 0 || j >= toks.len() {
        None
    } else {
        match dims_of(toks[j]) {
            Some(d) => Some(d),
            None => first_dims_from(toks, j + 1),
        }
    }
}

/// The tokens that precede an `fps` token, in order.
pub open spec fn fps_candidates(toks: Seq<Seq<char>>) -> Seq<Seq<char>>
    decreases toks.len(),
{
    if toks.len() == 0 {
        Seq::empty()
    } else {
        let prev = fps_candidates(toks.drop_last());
        if toks.len() >= 2 && toks.last() == "fps"@ {
            prev.push(toks[toks.len() - 2])
        } else {
            prev
        }
    }
}

/// The dimensions the banner gives, 0 x 0 without a readable `WxH`.
pub open spec fn banner_dims(stderr: Seq<char>) -> (u32, u32) {
    match video_line(stderr) {
        Some(l) => match first_dims_from(tokens(l), 0) {
            Some(d) => d,
            None => (0, 0),
        },
        None => (0, 0),
    }
}

/// The frame-rate candidates the banner gives.
pub open spec fn banner_fps_candidates(stderr: Seq<char>) -> Seq<Seq<char>> {
    match video_line(stderr) {
        Some(l) => fps_candidates(tokens(l)),
        None => Seq::empty(),
    }
}

fn take_until_chars(s: &[char], c: char) -> (r: Vec<char>)
    ensures
        r@ == take_until(s@, c),
{
    let pat = vec![c];
    proof {
        lemma_find_spec(s@, pat@);
        assert(pat@ == seq![c]);
    }
    match find_chars(s, pat.as_slice()) {
        Some(k) => {
            assert(occurs_at(s@, pat@, k as int));
            let r = copy_range(s, 0, k);
            assert(r@ =~= s@.take(k as int));
            r
        },
        None => {
            let r = copy_range(s, 0, s.len());
            assert(r@ =~= s@);
            r
        },
    }
}

fn duration_of(s: &[char]) -> (r: Option<(String, String, String)>)
    ensures
        match r {
            Some((h, m, sec)) => duration_fields(s@) == Some((h@, m@, sec@)),
            None => duration_fields(s@) is None,
        },
{
    let pat = chars_of("Duration:");
    proof {
        reveal_strlit("Duration:");
        lemma_find_spec(s@, pat@);
    }
    let n = s.len();
    match find_chars(s, pat.as_slice()) {
        None => None,
        Some(i) => {
            assert(occurs_at(s@, pat@, i as int));
            assert(pat@.len() == 9);
            let rest = copy_range(s, i + 9, n);
            assert(rest@ =~= s@.skip(i + 9));
            let t0 = trim_start_chars(rest.as_slice());
            let t1 = take_until_chars(t0.as_slice(), ',');
            let t = trim_chars(t1.as_slice());
            let colon = vec![':'];
            assert(colon@ == seq![':']);
            let parts = split_on(t.as_slice(), colon.as_slice());
            let ghost pv = parts@.map_values(|v: Vec<char>| v@);
            if parts.len() == 3 {
                assert(pv[0] == parts@[0]@ && pv[1] == parts@[1]@ && pv[2] == parts@[2]@);
                Some(
                    (
                        string_of(parts[0].as_slice()),
                        string_of(parts[1].as_slice()),
                        string_of(parts[2].as_slice()),
                    ),
                )
            } else {
                None
            }
        },
    }
}

fn line_of(pieces: &Vec<Vec<char>>, j: usize) -> (r: Vec<char>)
    requires
        j < pieces@.len(),
    ensures
        r@ == line_at(pieces@.map_values(|v: Vec<char>| v@), j as int),
{
    let p = &pieces[j];
    let n = p.len();
    let last = pieces.len() - 1;
    if j < last && n > 0 && p[n - 1] == '\r' {
        let r = copy_range(p.as_slice(), 0, n - 1);
        assert(r@ =~= p@.drop_last());
        r
    } else {
        let r = copy_range(p.as_slice(), 0, n);
        assert(r@ =~= p@);
        r
    }
}

fn video_line_of(s: &[char]) -> (r: Option<Vec<char>>)
    ensures
        match r {
            Some(l) => video_line(s@) == Some(l@),
            None => video_line(s@) is None,
        },
{
    let nl = vec!['\n'];
    assert(nl@ == seq!['\n']);
    let pieces = split_on(s, nl.as_slice());
    let ghost pv = pieces@.map_values(|v: Vec<char>| v@);
    let video = chars_of("Video:");
    let mut j: usize = 0;
    while j < pieces.len()
        invariant
            j <= pieces@.len(),
            pv == pieces@.map_values(|v: Vec<char>| v@),
            pv == split_spec(s@, seq!['\n']),
            video@ == "Video:"@,
            video_line_from(pv, 0) == video_line_from(pv, j as int),
        decreases pieces.len() - j,
    {
        let line = line_of(&pieces, j);
        if contains_chars(line.as_slice(), video.as_slice()) {
            return Some(line);
        }
        j += 1;
    }
    None
}

fn tokens_of(s: &[char]) -> (r: Vec<Vec<char>>)
    ensures
        r@.map_values(|v: Vec<char>| v@) == tokens(s@),
{
    let mut done: Vec<Vec<char>> = Vec::new();
    let mut cur: Vec<char> = Vec::new();
    let mut i: usize = 0;
    while i < s.len()
        invariant
            i <= s@.len(),
            (done@.map_values(|v: Vec<char>| v@), cur@) == token_state(s@.take(i as int)),
        decreases s.len() - i,
    {
        let c = s[i];
        proof {
            assert(s@.take(i + 1).drop_last() =~= s@.take(i as int));
            assert(s@.take(i + 1).last() == c);
        }
        if c == ' ' || c == ',' {
            if cur.len() > 0 {
                let ghost before = done@;
                done.push(cur);
                proof {
                    assert(done@.map_values(|v: Vec<char>| v@) =~= before.map_values(
                        |v: Vec<char>| v@,
                    ).push(token_state(s@.take(i as int)).1));
                }
                cur = Vec::new();
            } else {
                cur = Vec::new();
            }
        } else {
            cur.push(c);
        }
        i += 1;
    }
    assert(s@.take(s@.len() as int) =~= s@);
    if cur.len() > 0 {
        let ghost before = done@;
        done.push(cur);
        assert(done@.map_values(|v: Vec<char>| v@) =~= before.map_values(|v: Vec<char>| v@).push(
            token_state(s@).1,
        ));
    }
    done
}

/// Reads `s` as a `u32` the way `u32::from_str` does (see `parse_u32_spec`).
pub fn parse_u32(s: &[char]) -> (r: Option<u32>)
    ensures
        r == parse_u32_spec(s@),
{
    let start: usize = if s.len() > 0 && s[0] == '+' {
        1
    } else {
        0
    };
    let ghost d = sign_stripped(s@);
    assert(d =~= s@.skip(start as int));
    if start >= s.len() {
        return None;
    }
    let mut acc: u64 = 0;
    let mut over = false;
    let mut i: usize = start;
    while i < s.len()
        invariant
            start <= i <= s@.len(),
            d == s@.skip(start as int),
            d == sign_stripped(s@),
            forall|j: int| start <= j < i ==> is_digit(#[trigger] s@[j]),
            over == (digits_value(s@.subrange(start as int, i as int)) > u32::MAX),
            !over ==> acc == digits_value(s@.subrange(start as int, i as int)),
        decreases s.len() - i,
    {
        let c = s[i];
        if !('0' <= c && c <= '9') {
            proof {
                assert(d[i - start] == c);
                assert(!is_digit(d[i - start]));
                assert(!all_digits(d));
                assert(parse_u32_spec(s@) is None);
            }
            return None;
        }
        let dig = (c as u32 - '0' as u32) as u64;
        proof {
            assert(s@.subrange(start as int, i + 1).drop_last() =~= s@.subrange(start as int, i as int));
            assert(s@.subrange(start as int, i + 1).last() == c);
        }
        if !over {
            acc = acc * 10 + dig;
            if acc > 0xffff_ffff {
                over = true;
            }
        }
        i += 1;
    }
    proof {
        assert(s@.subrange(start as int, s@.len() as int) =~= d);
        assert forall|j: int| 0 <= j < d.len() implies is_digit(#[trigger] d[j]) by {
            assert(d[j] == s@[j + start]);
        }
    }
    if over {
        None
    } else {
        Some(acc as u32)
    }
}

fn dims_of_exec(tok: &[char]) -> (r: Option<(u32, u32)>)
    ensures
        r == dims_of(tok@),
{
    let x = vec!['x'];
    assert(x@ == seq!['x']);
    proof {
        lemma_find_spec(tok@, x@);
    }
    let n = tok.len();
    match find_chars(tok, x.as_slice()) {
        None => None,
        Some(k) => {
            assert(occurs_at(tok@, x@, k as int));
            let a = copy_range(tok, 0, k);
            let b = copy_range(tok, k + 1, n);
            assert(a@ =~= tok@.take(k as int));
            assert(b@ =~= tok@.skip(k + 1));
            match (parse_u32(a.as_slice()), parse_u32(b.as_slice())) {
                (Some(w), Some(h)) => if w >= 16 && h >= 16 {
                    Some((w, h))
                } else {
                    None
                },
                _ => None,
            }
        },
    }
}

/// Reads the duration fields, the first video stream's dimensions and its
/// frame-rate candidates out of an FFmpeg `-i` banner. A field that cannot
/// be found stays empty: no duration, 0 x 0, no candidates.
pub fn parse_ffmpeg_probe(stderr: &str) -> (r: ProbeBanner)
    ensures
        match r.duration {
            Some((h, m, s)) => duration_fields(stderr@) == Some((h@, m@, s@)),
            None => duration_fields(stderr@) is None,
        },
        (r.width, r.height) == banner_dims(stderr@),
        views(r.fps_candidates@) == banner_fps_candidates(stderr@),
{
    let s = chars_of(stderr);
    let duration = duration_of(s.as_slice());
    let mut width: u32 = 0;
    let mut height: u32 = 0;
    let mut fps: Vec<String> = Vec::new();
    match video_line_of(s.as_slice()) {
        None => {},
        Some(line) => {
            let toks = tokens_of(line.as_slice());
            let ghost tv = toks@.map_values(|v: Vec<char>| v@);
            let fps_tok = vec!['f', 'p', 's'];
            proof {
                reveal_strlit("fps");
                assert(fps_tok@ == "fps"@);
            }
            let mut found = false;
            let mut i: usize = 0;
            while i < toks.len()
                invariant
                    i <= toks@.len(),
                    tv == toks@.map_values(|v: Vec<char>| v@),
                    tv == tokens(line@),
                    fps_tok@ == "fps"@,
                    found ==> first_dims_from(tv, 0) == Some((width, height)),
                    !found ==> width == 0 && height == 0,
                    !found ==> first_dims_from(tv, 0) == first_dims_from(tv, i as int),
                    views(fps@) == fps_candidates(tv.take(i as int)),
                decreases toks.len() - i,
            {
                if !found {
                    match dims_of_exec(toks[i].as_slice()) {
                        Some((w, h)) => {
                            assert(tv[i as int] == toks@[i as int]@);
                            width = w;
                            height = h;
                            found = true;
                        },
                        None => {
                            assert(tv[i as int] == toks@[i as int]@);
                        },
                    }
                }
                proof {
                    assert(tv.take(i + 1).drop_last() =~= tv.take(i as int));
                    assert(tv.take(i + 1).last() == toks@[i as int]@);
                }
                if i > 0 && chars_eq(toks[i].as_slice(), fps_tok.as_slice()) {
                    let prev = string_of(toks[i - 1].as_slice());
                    let ghost before = fps@;
                    fps.push(prev);
                    proof {
                        assert(tv.take(i + 1)[i - 1] == toks@[i - 1]@);
                        assert(views(fps@) =~= views(before).push(toks@[i - 1]@));
                    }
                } else {
                    proof {
                        if i > 0 {
                            assert(toks@[i as int]@ != "fps"@);
                        }
                    }
                }
                i += 1;
            }
            proof {
                assert(tv.take(toks@.len() as int) =~= tv);
            }
            if !found {
                assert(first_dims_from(tv, toks@.len() as int) is None);
            }
        },
    }
    ProbeBanner { duration, width, height, fps_candidates: fps }
}

/// The banner's dimensions are plausible or absent: both sides at least 16,
/// or 0 x 0 when no `WxH` token qualifies.
pub proof fn lemma_banner_dims_plausible(stderr: Seq<char>)
    ensures
        banner_dims(stderr) == (0u32, 0u32) || (banner_dims(stderr).0 >= 16 && banner_dims(stderr).1
            >= 16),
{
    match video_line(stderr) {
        Some(l) => lemma_first_dims_plausible(tokens(l), 0),
        None => {},
    }
}

proof fn lemma_first_dims_plausible(toks: Seq<Seq<char>>, j: int)
    ensures
        first_dims_from(toks, j) matches Some(d) ==> d.0 >= 16 && d.1 >= 16,
    decreases toks.len() - j,
{
    if 0 <= j < toks.len() {
        lemma_first_dims_plausible(toks, j + 1);
    }
}

// ---------------------------------------------------------------------------
// -progress lines

/// An encode's position as one `-progress` line reports it, before any
/// number is read as floating point.
#[derive(Debug, PartialEq, Eq)]
pub enum ProgressValue {
    /// `out_time_us=<microseconds>`: the value.
    Micros(String),
    /// `out_time=HH:MM:SS.ffff`: the hours, minutes and seconds fields.
    Clock(String, String, String),
}

/// Whether `line` (trimmed) starts with `key`; the rest after it.
pub open spec fn after_key(line: Seq<char>, key: Seq<char>) -> Option<Seq<char>> {
    let t = trim_spec(line);
    if t.len() >= key.len() && t.take(key.len() as int) == key {
        Some(t.skip(key.len() as int))
    } else {
        None
    }
}

/// What a `-progress` line reports: the trimmed value of `out_time_us=`, or
/// the three `:`-separated fields of the trimmed value of `out_time=`; every
/// other key, and a clock value without exactly three fields (`N/A`),
/// reports nothing.
pub open spec fn progress_matches(r: Option<ProgressValue>, line: Seq<char>) -> bool {
    match after_key(line, "out_time_us="@) {
        Some(v) => r matches Some(ProgressValue::Micros(m)) && m@ == trim_spec(v),
        None => match after_key(line, "out_time="@) {
            Some(v) => {
                let parts = split_spec(trim_spec(v), seq![':']);
                if parts.len() == 3 {
                    r matches Some(ProgressValue::Clock(h, m, s)) && h@ == parts[0] && m@ == parts[1]
                        && s@ == parts[2]
                } else {
                    r is None
                }
            },
            None => r is None,
        },
    }
}

fn strip_key(t: &[char], key: &str) -> (r: Option<Vec<char>>)
    ensures
        match r {
            Some(v) => t@.len() >= key@.len() && t@.take(key@.len() as int) == key@ && v@ == t@.skip(
                key@.len() as int,
            ),
            None => !(t@.len() >= key@.len() && t@.take(key@.len() as int) == key@),
        },
{
    let k = chars_of(key);
    let n = t.len();
    if n < k.len() {
        return None;
    }
    let head = copy_range(t, 0, k.len());
    assert(head@ =~= t@.take(k@.len() as int));
    if chars_eq(head.as_slice(), k.as_slice()) {
        let rest = copy_range(t, k.len(), n);
        assert(rest@ =~= t@.skip(k@.len() as int));
        Some(rest)
    } else {
        None
    }
}

/// Reads one line of FFmpeg's `-progress` output (see `progress_matches`).
pub fn progress_value(line: &str) -> (r: Option<ProgressValue>)
    ensures
        progress_matches(r, line@),
{
    let t = trim_str(line);
    match strip_key(t.as_slice(), "out_time_us=") {
        Some(v) => {
            let m = trim_chars(v.as_slice());
            Some(ProgressValue::Micros(string_of(m.as_slice())))
        },
        None => match strip_key(t.as_slice(), "out_time=") {
            Some(v) => {
                let c = trim_chars(v.as_slice());
                let colon = vec![':'];
                assert(colon@ == seq![':']);
                let parts = split_on(c.as_slice(), colon.as_slice());
                let ghost pv = parts@.map_values(|x: Vec<char>| x@);
                if parts.len() == 3 {
                    assert(pv[0] == parts@[0]@ && pv[1] == parts@[1]@ && pv[2] == parts@[2]@);
                    Some(
                        ProgressValue::Clock(
                            string_of(parts[0].as_slice()),
                            string_of(parts[1].as_slice()),
                            string_of(parts[2].as_slice()),
                        ),
                    )
                } else {
                    None
                }
            },
            None => None,
        },
    }
}

} // verus!
