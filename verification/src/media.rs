//! Media-encoding building blocks: the FFmpeg argument vectors for GIF / WebP
//! / audio / filmstrip / waveform exports and the Trim / Compress input
//! segment, the crop / scale / retime filter composition, and recognising an
//! unusable NVENC from FFmpeg's stderr.
//!
//! Times and rates arrive already rendered as text (the caller formats its
//! floating-point values), and a speed change arrives as the filter text that
//! implements it (`setpts` for video, `atempo` for audio; `None` at 1x).

use vstd::prelude::*;
use crate::text::{
    append_all, chars_of, contains_chars, contains_spec, decimal, decimal_string, find_spec,
    lemma_find_spec, occurs_at, push_str, str_concat, views,
};

verus! {

broadcast use vstd::string::group_string_axioms;

/// Options for a GIF / animated-WebP export.
pub struct GifOpts {
    pub fps: u32,
    pub width: u32,
    /// true: animated WebP (true-colour); false: GIF (palette).
    pub webp: bool,
}

/// Options for waveform extraction.
pub struct WaveformOpts {
    /// Mono decode rate.
    pub sample_rate: u32,
}

/// Options for a filmstrip sprite.
pub struct FilmstripOpts {
    /// Number of evenly spaced frames to sample (tiled into one row).
    pub cols: u32,
    /// Width of each frame cell in px (height keeps aspect).
    pub frame_width: u32,
    /// The resample rate `cols / duration` rendered with six decimals, or
    /// `None` when the Clip's duration is unknown.
    pub rate: Option<String>,
}

/// `x` clamped to `[lo, hi]` (`Ord::clamp`).
pub open spec fn clamp_spec(x: u32, lo: u32, hi: u32) -> u32 {
    if x < lo {
        lo
    } else if x > hi {
        hi
    } else {
        x
    }
}

fn clamp_u32(x: u32, lo: u32, hi: u32) -> (r: u32)
    requires
        lo <= hi,
    ensures
        r == clamp_spec(x, lo, hi),
{
    if x < lo {
        lo
    } else if x > hi {
        hi
    } else {
        x
    }
}

/// The view of an optional string.
pub open spec fn opt_text(s: Option<&str>) -> Option<Seq<char>> {
    match s {
        Some(x) => Some(x@),
        None => None,
    }
}

/// The view of an optional owned string.
pub open spec fn opt_string(s: Option<String>) -> Option<Seq<char>> {
    match s {
        Some(x) => Some(x@),
        None => None,
    }
}

// ---------------------------------------------------------------------------
// GIF / WebP
// ---------------------------------------------------------------------------

/// The GIF / WebP video filter: the retime (if any), the frame-rate resample,
/// the aspect-keeping Lanczos scale, and for GIF the single-pass palette graph.
pub open spec fn gif_filter_spec(setpts: Option<Seq<char>>, fps: u32, width: u32, webp: bool) -> Seq<
    char,
> {
    let pre = match setpts {
        Some(s) => s + ","@,
        None => Seq::<char>::empty(),
    };
    let scale = "scale="@ + decimal(width as nat) + ":-1:flags=lanczos"@;
    let base = pre + "fps="@ + decimal(fps as nat) + ","@ + scale;
    if webp {
        base
    } else {
        base
            + ",split[s0][s1];[s0]palettegen=stats_mode=diff[p];[s1][p]paletteuse=dither=bayer:bayer_scale=5:diff_mode=rectangle"@
    }
}

/// The arguments `gif_args` builds.
pub open spec fn gif_args_spec(
    input: Seq<char>,
    start: Seq<char>,
    dur: Seq<char>,
    setpts: Option<Seq<char>>,
    fps: u32,
    width: u32,
    webp: bool,
    output: Seq<char>,
) -> Seq<Seq<char>> {
    let filter = gif_filter_spec(setpts, clamp_spec(fps, 1, 50), clamp_spec(width, 64, 1920), webp);
    let head = seq!["-ss"@, start, "-t"@, dur, "-i"@, input];
    if webp {
        head + seq![
            "-vf"@,
            filter,
            "-c:v"@,
            "libwebp"@,
            "-lossless"@,
            "0"@,
            "-q:v"@,
            "75"@,
            "-loop"@,
            "0"@,
            "-an"@,
            "-y"@,
            output,
        ]
    } else {
        head + seq!["-filter_complex"@, filter, "-loop"@, "0"@, "-an"@, "-y"@, output]
    }
}

fn gif_filter(setpts: Option<&str>, fps: u32, width: u32, webp: bool) -> (r: String)
    ensures
        r@ == gif_filter_spec(opt_text(setpts), fps, width, webp),
{
    let pre = match setpts {
        Some(s) => str_concat(s, ","),
        None => String::new(),
    };
    let w = decimal_string(width as u64);
    let f = decimal_string(fps as u64);
    let scale = str_concat(str_concat("scale=", w.as_str()).as_str(), ":-1:flags=lanczos");
    let a = str_concat(pre.as_str(), "fps=");
    let b = str_concat(a.as_str(), f.as_str());
    let c = str_concat(b.as_str(), ",");
    let base = str_concat(c.as_str(), scale.as_str());
    if webp {
        base
    } else {
        str_concat(
            base.as_str(),
            ",split[s0][s1];[s0]palettegen=stats_mode=diff[p];[s1][p]paletteuse=dither=bayer:bayer_scale=5:diff_mode=rectangle",
        )
    }
}

/// FFmpeg args to render the Region (`start`, `dur` seconds, as text) of
/// `input` to a looping GIF or animated WebP at `output`. GIF uses a
/// single-pass `split -> palettegen -> paletteuse` graph; WebP is a true-colour
/// single pass via libwebp. `fps` is clamped to 1..=50 and `width` to
/// 64..=1920; the scale keeps aspect ratio. A retime filter (`setpts`) leads
/// the graph so `fps` resamples the stretched timeline, while the input-side
/// `-t` still reads the same source region.
pub fn gif_args(
    input: &str,
    start: &str,
    dur: &str,
    setpts: Option<&str>,
    opts: &GifOpts,
    output: &str,
) -> (r: Vec<String>)
    ensures
        views(r@) == gif_args_spec(
            input@,
            start@,
            dur@,
            opt_text(setpts),
            opts.fps,
            opts.width,
            opts.webp,
            output@,
        ),
{
    let fps = clamp_u32(opts.fps, 1, 50);
    let width = clamp_u32(opts.width, 64, 1920);
    let filter = gif_filter(setpts, fps, width, opts.webp);
    let mut a: Vec<String> = Vec::new();
    push_str(&mut a, "-ss");
    push_str(&mut a, start);
    push_str(&mut a, "-t");
    push_str(&mut a, dur);
    push_str(&mut a, "-i");
    push_str(&mut a, input);
    if opts.webp {
        push_str(&mut a, "-vf");
        push_str(&mut a, filter.as_str());
        push_str(&mut a, "-c:v");
        push_str(&mut a, "libwebp");
        push_str(&mut a, "-lossless");
        push_str(&mut a, "0");
        push_str(&mut a, "-q:v");
        push_str(&mut a, "75");
    } else {
        push_str(&mut a, "-filter_complex");
        push_str(&mut a, filter.as_str());
    }
    push_str(&mut a, "-loop");
    push_str(&mut a, "0");
    push_str(&mut a, "-an");
    push_str(&mut a, "-y");
    push_str(&mut a, output);
    proof {
        assert(views(a@) =~= gif_args_spec(
            input@,
            start@,
            dur@,
            opt_text(setpts),
            opts.fps,
            opts.width,
            opts.webp,
            output@,
        ));
    }
    a
}

/// A GIF or WebP export reads exactly the Region: `-ss` is followed by its
/// start and `-t` by its duration, before the input, whatever the format; the
/// output comes last.
pub proof fn lemma_gif_args_read_the_region(
    input: Seq<char>,
    start: Seq<char>,
    dur: Seq<char>,
    setpts: Option<Seq<char>>,
    fps: u32,
    width: u32,
    webp: bool,
    output: Seq<char>,
)
    ensures
        ({
            let a = gif_args_spec(input, start, dur, setpts, fps, width, webp, output);
            &&& a.len() > 6
            &&& a[0] == "-ss"@ && a[1] == start
            &&& a[2] == "-t"@ && a[3] == dur
            &&& a[4] == "-i"@ && a[5] == input
            &&& a.last() == output
        }),
{
}

/// The palette stage's filter name.
pub open spec fn palettegen() -> Seq<char> {
    "palettegen"@
}

proof fn lemma_decimal_digits(n: nat)
    ensures
        forall|i: int| 0 <= i < decimal(n).len() ==> '0' <= #[trigger] decimal(n)[i] <= '9',
    decreases n,
{
    if n >= 10 {
        lemma_decimal_digits(n / 10);
        assert(decimal(n) == decimal(n / 10).push(crate::text::digit_char(n % 10)));
    }
}

proof fn lemma_short_has_no_palette(t: Seq<char>)
    requires
        t.len() < 10,
    ensures
        !contains_spec(t, palettegen()),
{
    reveal_strlit("palettegen");
    assert(find_spec(t, palettegen()) is None);
}

/// The frame-rate and scale stages never name the palette stage, and
/// neither does a retime filter that does not.
proof fn lemma_webp_filter_has_no_palette(setpts: Option<Seq<char>>, fps: u32, width: u32)
    requires
        setpts matches Some(t) ==> !contains_spec(t, palettegen()),
    ensures
        !contains_spec(gif_filter_spec(setpts, fps, width, true), palettegen()),
{
    reveal_strlit("palettegen");
    reveal_strlit("fps=");
    reveal_strlit(",");
    reveal_strlit("scale=");
    reveal_strlit(":-1:flags=lanczos");
    let pat = palettegen();
    let pre = match setpts {
        Some(t) => t + ","@,
        None => Seq::<char>::empty(),
    };
    let d1 = decimal(fps as nat);
    let d2 = decimal(width as nat);
    lemma_decimal_digits(fps as nat);
    lemma_decimal_digits(width as nat);
    let rest = "fps="@ + d1 + ","@ + ("scale="@ + d2 + ":-1:flags=lanczos"@);
    let base = gif_filter_spec(setpts, fps, width, true);
    assert(base =~= pre + rest);
    // The only `p` past the retime is the one of `fps`, followed by `s`.
    assert forall|i: int| 0 <= i < rest.len() && rest[i] == 'p' implies i == 1 by {
        let a = 4 + d1.len();
        if i < 4 {
        } else if i < a {
            assert(rest[i] == d1[i - 4]);
        } else if i == a {
        } else if i < a + 7 {
        } else if i < a + 7 + d2.len() {
            assert(rest[i] == d2[i - a - 7]);
        } else {
            assert(rest[i] == ":-1:flags=lanczos"@[i - a - 7 - d2.len()]);
        }
    }
    assert(rest[2] == 's');
    assert forall|j: int| !#[trigger] occurs_at(base, pat, j) by {
        if occurs_at(base, pat, j) {
            let w = base.subrange(j, j + 10);
            assert(w[0] == base[j] && w[1] == base[j + 1]);
            if j >= pre.len() {
                assert(base[j] == rest[j - pre.len()]);
                assert(base[j + 1] == rest[j - pre.len() + 1]);
            } else {
                let t = setpts->0;
                if j + 10 <= t.len() {
                    assert(w =~= t.subrange(j, j + 10));
                    assert(occurs_at(t, pat, j));
                    lemma_find_spec(t, pat);
                } else {
                    assert(base[t.len() as int] == ',');
                    assert(w[t.len() - j] == base[t.len() as int]);
                }
            }
        }
    }
    lemma_find_spec(base, pat);
}

/// The GIF filter names the palette stage.
proof fn lemma_gif_filter_has_palette(setpts: Option<Seq<char>>, fps: u32, width: u32)
    ensures
        contains_spec(gif_filter_spec(setpts, fps, width, false), palettegen()),
{
    reveal_strlit("palettegen");
    reveal_strlit(
        ",split[s0][s1];[s0]palettegen=stats_mode=diff[p];[s1][p]paletteuse=dither=bayer:bayer_scale=5:diff_mode=rectangle",
    );
    let base = gif_filter_spec(setpts, fps, width, true);
    let tail =
        ",split[s0][s1];[s0]palettegen=stats_mode=diff[p];[s1][p]paletteuse=dither=bayer:bayer_scale=5:diff_mode=rectangle"@;
    let f = gif_filter_spec(setpts, fps, width, false);
    assert(f =~= base + tail);
    let k = base.len() as int + 19;
    assert(f.subrange(k, k + 10) =~= palettegen());
    assert(occurs_at(f, palettegen(), k));
    lemma_find_spec(f, palettegen());
}

/// A GIF export builds a palette and a WebP export does not: an argument of
/// `gif_args` names `palettegen` exactly when the output is a GIF (as long as
/// none of the caller's own texts names it).
pub proof fn lemma_gif_palette_iff_not_webp(
    input: Seq<char>,
    start: Seq<char>,
    dur: Seq<char>,
    setpts: Option<Seq<char>>,
    fps: u32,
    width: u32,
    webp: bool,
    output: Seq<char>,
)
    requires
        !contains_spec(input, palettegen()),
        !contains_spec(start, palettegen()),
        !contains_spec(dur, palettegen()),
        !contains_spec(output, palettegen()),
        setpts matches Some(t) ==> !contains_spec(t, palettegen()),
    ensures
        (exists|i: int|
            0 <= i < gif_args_spec(input, start, dur, setpts, fps, width, webp, output).len()
                && contains_spec(
                #[trigger] gif_args_spec(input, start, dur, setpts, fps, width, webp, output)[i],
                palettegen(),
            )) <==> !webp,
{
    reveal_strlit("-ss");
    reveal_strlit("-t");
    reveal_strlit("-i");
    reveal_strlit("-vf");
    reveal_strlit("-c:v");
    reveal_strlit("libwebp");
    reveal_strlit("-lossless");
    reveal_strlit("0");
    reveal_strlit("-q:v");
    reveal_strlit("75");
    reveal_strlit("-loop");
    reveal_strlit("-an");
    reveal_strlit("-y");
    reveal_strlit("-filter_complex");
    reveal_strlit("palettegen");
    let args = gif_args_spec(input, start, dur, setpts, fps, width, webp, output);
    let f = clamp_spec(fps, 1, 50);
    let w = clamp_spec(width, 64, 1920);
    let filter = gif_filter_spec(setpts, f, w, webp);
    let shorts = seq!["-ss"@, "-t"@, "-i"@, "-vf"@, "-c:v"@, "libwebp"@, "-lossless"@, "0"@,
        "-q:v"@, "75"@, "-loop"@, "-an"@, "-y"@];
    assert forall|k: int| 0 <= k < shorts.len() implies !contains_spec(
        #[trigger] shorts[k],
        palettegen(),
    ) by {
        lemma_short_has_no_palette(shorts[k]);
    }
    assert(!contains_spec("-filter_complex"@, palettegen())) by {
        let fc = "-filter_complex"@;
        assert forall|j: int| !#[trigger] occurs_at(fc, palettegen(), j) by {
            if occurs_at(fc, palettegen(), j) {
                assert(fc.subrange(j, j + 10)[0] == fc[j]);
            }
        }
        lemma_find_spec(fc, palettegen());
    }
    if webp {
        lemma_webp_filter_has_no_palette(setpts, f, w);
        assert forall|i: int| 0 <= i < args.len() implies !contains_spec(
            #[trigger] args[i],
            palettegen(),
        ) by {
            if i == 0 {
                assert(args[i] == shorts[0]);
            } else if i == 2 {
                assert(args[i] == shorts[1]);
            } else if i == 4 {
                assert(args[i] == shorts[2]);
            } else if i == 6 {
                assert(args[i] == shorts[3]);
            } else if i >= 8 && i <= 14 {
                assert(args[i] == shorts[i - 4]);
            } else if i == 15 {
                assert(args[i] == shorts[7]);
            } else if i == 16 {
                assert(args[i] == shorts[11]);
            } else if i == 17 {
                assert(args[i] == shorts[12]);
            }
        }
    } else {
        lemma_gif_filter_has_palette(setpts, f, w);
        assert(args[7] == filter);
    }
}

// ---------------------------------------------------------------------------
// Trim / Compress input segment
// ---------------------------------------------------------------------------

/// The input/seek/duration/stream-map prefix `input_segment` builds.
pub open spec fn input_segment_spec(
    path: Seq<char>,
    start: Seq<char>,
    dur: Seq<char>,
    video_map: Seq<char>,
    include_audio: bool,
) -> Seq<Seq<char>> {
    let base = seq!["-ss"@, start, "-i"@, path, "-t"@, dur, "-map"@, video_map];
    if include_audio {
        base + seq!["-map"@, "0:a?"@]
    } else {
        base
    }
}

/// The shared FFmpeg input/seek/duration/stream-map prefix for the Region
/// starting at `start` and lasting `dur` (both as text) of `path`, common to
/// Trim and Compress. `-ss` before `-i` is the fast keyframe seek.
/// `video_map` selects the video stream(s); audio is mapped (`0:a?`) only when
/// `include_audio`, which is how audio is dropped losslessly.
pub fn input_segment(
    path: &str,
    start: &str,
    dur: &str,
    video_map: &str,
    include_audio: bool,
) -> (r: Vec<String>)
    ensures
        views(r@) == input_segment_spec(path@, start@, dur@, video_map@, include_audio),
{
    let mut a: Vec<String> = Vec::new();
    push_str(&mut a, "-ss");
    push_str(&mut a, start);
    push_str(&mut a, "-i");
    push_str(&mut a, path);
    push_str(&mut a, "-t");
    push_str(&mut a, dur);
    push_str(&mut a, "-map");
    push_str(&mut a, video_map);
    if include_audio {
        push_str(&mut a, "-map");
        push_str(&mut a, "0:a?");
    }
    proof {
        assert(views(a@) =~= input_segment_spec(path@, start@, dur@, video_map@, include_audio));
    }
    a
}

/// Like `input_segment` for a speed-changed re-encode: the `-t` output cap is
/// `out_dur`, the post-retime length, while `-ss` / `-i` still cover the
/// source region.
pub fn input_segment_out(
    path: &str,
    start: &str,
    out_dur: &str,
    video_map: &str,
    include_audio: bool,
) -> (r: Vec<String>)
    ensures
        views(r@) == input_segment_spec(path@, start@, out_dur@, video_map@, include_audio),
{
    input_segment(path, start, out_dur, video_map, include_audio)
}

// ---------------------------------------------------------------------------
// Audio only
// ---------------------------------------------------------------------------

/// The encoder tail of an audio export: MP3 always re-encodes via libmp3lame;
/// M4A stream-copies only when asked to and no tempo filter is present,
/// otherwise re-encodes to AAC.
pub open spec fn audio_codec_spec(mp3: bool, copy: bool, atempo: Option<Seq<char>>) -> Seq<
    Seq<char>,
> {
    if mp3 {
        seq!["-c:a"@, "libmp3lame"@, "-q:a"@, "2"@]
    } else if copy && atempo is None {
        seq!["-c:a"@, "copy"@, "-movflags"@, "+faststart"@]
    } else {
        seq!["-c:a"@, "aac"@, "-b:a"@, "192k"@, "-movflags"@, "+faststart"@]
    }
}

/// The arguments `audio_args` builds.
pub open spec fn audio_args_spec(
    input: Seq<char>,
    start: Seq<char>,
    dur: Seq<char>,
    atempo: Option<Seq<char>>,
    mp3: bool,
    copy: bool,
    output: Seq<char>,
) -> Seq<Seq<char>> {
    let head = seq!["-ss"@, start, "-t"@, dur, "-i"@, input, "-vn"@, "-map"@, "0:a:0"@];
    let filter = match atempo {
        Some(af) => seq!["-filter:a"@, af],
        None => Seq::<Seq<char>>::empty(),
    };
    head + filter + audio_codec_spec(mp3, copy, atempo) + seq!["-y"@, output]
}

/// FFmpeg args to export just the Region's audio (video dropped via `-vn`).
/// `mp3` selects MP3 (libmp3lame, always a re-encode); otherwise M4A, where
/// `copy` chooses a lossless `-c:a copy` and `copy == false` an AAC
/// re-encode. A tempo filter (`atempo`, `None` at 1x) time-stretches the audio
/// and rules out stream copy.
pub fn audio_args(
    input: &str,
    start: &str,
    dur: &str,
    atempo: Option<&str>,
    mp3: bool,
    copy: bool,
    output: &str,
) -> (r: Vec<String>)
    ensures
        views(r@) == audio_args_spec(input@, start@, dur@, opt_text(atempo), mp3, copy, output@),
{
    let mut a: Vec<String> = Vec::new();
    push_str(&mut a, "-ss");
    push_str(&mut a, start);
    push_str(&mut a, "-t");
    push_str(&mut a, dur);
    push_str(&mut a, "-i");
    push_str(&mut a, input);
    push_str(&mut a, "-vn");
    push_str(&mut a, "-map");
    push_str(&mut a, "0:a:0");
    match atempo {
        Some(af) => {
            push_str(&mut a, "-filter:a");
            push_str(&mut a, af);
        },
        None => {},
    }
    if mp3 {
        push_str(&mut a, "-c:a");
        push_str(&mut a, "libmp3lame");
        push_str(&mut a, "-q:a");
        push_str(&mut a, "2");
    } else if copy && atempo.is_none() {
        push_str(&mut a, "-c:a");
        push_str(&mut a, "copy");
        push_str(&mut a, "-movflags");
        push_str(&mut a, "+faststart");
    } else {
        push_str(&mut a, "-c:a");
        push_str(&mut a, "aac");
        push_str(&mut a, "-b:a");
        push_str(&mut a, "192k");
        push_str(&mut a, "-movflags");
        push_str(&mut a, "+faststart");
    }
    push_str(&mut a, "-y");
    push_str(&mut a, output);
    proof {
        assert(views(a@) =~= audio_args_spec(
            input@,
            start@,
            dur@,
            opt_text(atempo),
            mp3,
            copy,
            output@,
        ));
    }
    a
}

/// An audio export reads exactly the Region: `-ss` is followed by its start
/// and `-t` by its duration, before the input, in every format and mode; the
/// output comes last.
pub proof fn lemma_audio_args_read_the_region(
    input: Seq<char>,
    start: Seq<char>,
    dur: Seq<char>,
    atempo: Option<Seq<char>>,
    mp3: bool,
    copy: bool,
    output: Seq<char>,
)
    ensures
        ({
            let a = audio_args_spec(input, start, dur, atempo, mp3, copy, output);
            &&& a.len() > 6
            &&& a[0] == "-ss"@ && a[1] == start
            &&& a[2] == "-t"@ && a[3] == dur
            &&& a[4] == "-i"@ && a[5] == input
            &&& a.last() == output
        }),
{
}

/// An audio export stream-copies exactly when copying was asked for, the
/// output is M4A and no tempo filter is set: only then does an argument read
/// `copy` (as long as none of the caller's own texts is `copy`).
pub proof fn lemma_audio_copies_iff_asked(
    input: Seq<char>,
    start: Seq<char>,
    dur: Seq<char>,
    atempo: Option<Seq<char>>,
    mp3: bool,
    copy: bool,
    output: Seq<char>,
)
    requires
        input != "copy"@,
        start != "copy"@,
        dur != "copy"@,
        output != "copy"@,
        atempo != Some("copy"@),
    ensures
        audio_args_spec(input, start, dur, atempo, mp3, copy, output).contains("copy"@) <==> (!mp3
            && copy && atempo is None),
{
    reveal_strlit("copy");
    reveal_strlit("-ss");
    reveal_strlit("-t");
    reveal_strlit("-i");
    reveal_strlit("-vn");
    reveal_strlit("-map");
    reveal_strlit("0:a:0");
    reveal_strlit("-filter:a");
    reveal_strlit("-c:a");
    reveal_strlit("libmp3lame");
    reveal_strlit("-q:a");
    reveal_strlit("2");
    reveal_strlit("-movflags");
    reveal_strlit("+faststart");
    reveal_strlit("aac");
    reveal_strlit("-b:a");
    reveal_strlit("192k");
    reveal_strlit("-y");
    let args = audio_args_spec(input, start, dur, atempo, mp3, copy, output);
    let head = seq!["-ss"@, start, "-t"@, dur, "-i"@, input, "-vn"@, "-map"@, "0:a:0"@];
    let filter = match atempo {
        Some(af) => seq!["-filter:a"@, af],
        None => Seq::<Seq<char>>::empty(),
    };
    let codec = audio_codec_spec(mp3, copy, atempo);
    let tail = seq!["-y"@, output];
    assert(args == head + filter + codec + tail);
    let c = "copy"@;
    assert(c.len() == 4 && c[0] == 'c');
    assert("-ss"@ != c && "-t"@ != c && "-i"@ != c && "-vn"@ != c && "-map"@ != c && "0:a:0"@ != c);
    assert("-filter:a"@ != c && "-c:a"@[0] != c[0] && "-y"@ != c);
    assert("libmp3lame"@ != c && "-q:a"@[0] != c[0] && "2"@ != c && "-movflags"@ != c);
    assert("+faststart"@ != c && "aac"@ != c && "-b:a"@[0] != c[0] && "192k"@[0] != c[0]);
    if !mp3 && copy && atempo is None {
        assert(args[10] == c);
    } else {
        assert forall|i: int| 0 <= i < args.len() implies args[i] != c by {
            if i < head.len() {
                assert(args[i] == head[i]);
            } else if i < head.len() + filter.len() {
                assert(args[i] == filter[i - head.len()]);
            } else if i < head.len() + filter.len() + codec.len() {
                assert(args[i] == codec[i - head.len() - filter.len()]);
            } else {
                assert(args[i] == tail[i - head.len() - filter.len() - codec.len()]);
            }
        }
    }
}

// ---------------------------------------------------------------------------
// Waveform and filmstrip
// ---------------------------------------------------------------------------

/// The arguments `waveform_args` builds.
pub open spec fn waveform_args_spec(input: Seq<char>, sample_rate: u32) -> Seq<Seq<char>> {
    seq![
        "-i"@,
        input,
        "-vn"@,
        "-ac"@,
        "1"@,
        "-ar"@,
        decimal(sample_rate as nat),
        "-f"@,
        "s16le"@,
        "pipe:1"@,
    ]
}

/// FFmpeg args to decode `input`'s audio to raw mono s16le PCM on stdout
/// (`pipe:1`), video dropped.
pub fn waveform_args(input: &str, opts: &WaveformOpts) -> (r: Vec<String>)
    ensures
        views(r@) == waveform_args_spec(input@, opts.sample_rate),
{
    let rate = decimal_string(opts.sample_rate as u64);
    let mut a: Vec<String> = Vec::new();
    push_str(&mut a, "-i");
    push_str(&mut a, input);
    push_str(&mut a, "-vn");
    push_str(&mut a, "-ac");
    push_str(&mut a, "1");
    push_str(&mut a, "-ar");
    push_str(&mut a, rate.as_str());
    push_str(&mut a, "-f");
    push_str(&mut a, "s16le");
    push_str(&mut a, "pipe:1");
    proof {
        assert(views(a@) =~= waveform_args_spec(input@, opts.sample_rate));
    }
    a
}

/// The filmstrip video filter: resample to the given rate (one keyframe a
/// second when the duration is unknown), scale each cell, tile one row.
pub open spec fn filmstrip_filter_spec(rate: Option<Seq<char>>, cols: u32, width: u32) -> Seq<char> {
    let r = match rate {
        Some(x) => x,
        None => "1.000000"@,
    };
    "fps="@ + r + ",scale="@ + decimal(width as nat) + ":-2:flags=lanczos,tile="@ + decimal(
        (if cols < 1 {
            1
        } else {
            cols
        }) as nat,
    ) + "x1"@
}

/// The arguments `filmstrip_args` builds.
pub open spec fn filmstrip_args_spec(
    input: Seq<char>,
    rate: Option<Seq<char>>,
    cols: u32,
    width: u32,
    output: Seq<char>,
) -> Seq<Seq<char>> {
    seq![
        "-threads"@,
        "1"@,
        "-skip_frame"@,
        "nokey"@,
        "-i"@,
        input,
        "-frames:v"@,
        "1"@,
        "-vf"@,
        filmstrip_filter_spec(rate, cols, width),
        "-an"@,
        "-q:v"@,
        "4"@,
        "-y"@,
        output,
    ]
}

/// FFmpeg args to render a one-row filmstrip sprite of `input` at `output`:
/// a single keyframe-only decode (`-skip_frame nokey`, one thread), resampled
/// to `cols` evenly spaced frames across the Clip (`opts.rate`), scaled to
/// `frame_width` and tiled into one image (`cols` at least 1).
pub fn filmstrip_args(input: &str, opts: &FilmstripOpts, output: &str) -> (r: Vec<String>)
    ensures
        views(r@) == filmstrip_args_spec(
            input@,
            opt_string(opts.rate),
            opts.cols,
            opts.frame_width,
            output@,
        ),
{
    let cols: u32 = if opts.cols < 1 {
        1
    } else {
        opts.cols
    };
    let rate: String = match &opts.rate {
        Some(x) => x.clone(),
        None => "1.000000".to_owned(),
    };
    let w = decimal_string(opts.frame_width as u64);
    let c = decimal_string(cols as u64);
    let a1 = str_concat("fps=", rate.as_str());
    let a2 = str_concat(a1.as_str(), ",scale=");
    let a3 = str_concat(a2.as_str(), w.as_str());
    let a4 = str_concat(a3.as_str(), ":-2:flags=lanczos,tile=");
    let a5 = str_concat(a4.as_str(), c.as_str());
    let vf = str_concat(a5.as_str(), "x1");
    let mut a: Vec<String> = Vec::new();
    push_str(&mut a, "-threads");
    push_str(&mut a, "1");
    push_str(&mut a, "-skip_frame");
    push_str(&mut a, "nokey");
    push_str(&mut a, "-i");
    push_str(&mut a, input);
    push_str(&mut a, "-frames:v");
    push_str(&mut a, "1");
    push_str(&mut a, "-vf");
    push_str(&mut a, vf.as_str());
    push_str(&mut a, "-an");
    push_str(&mut a, "-q:v");
    push_str(&mut a, "4");
    push_str(&mut a, "-y");
    push_str(&mut a, output);
    proof {
        assert(views(a@) =~= filmstrip_args_spec(
            input@,
            opt_string(opts.rate),
            opts.cols,
            opts.frame_width,
            output@,
        ));
    }
    a
}

// ---------------------------------------------------------------------------
// Scale / crop / retime filters
// ---------------------------------------------------------------------------

/// The scale filter of a quality-mode resolution preset: downscale to the
/// preset height but never upscale (`min(ih,H)`), width keeping aspect and
/// even (`-2`); `None` for "source" and anything unrecognised.
pub open spec fn quality_scale_spec(token: Seq<char>) -> Option<Seq<char>> {
    if token == "480"@ {
        Some("scale=-2:'min(ih,480)'"@)
    } else if token == "720"@ {
        Some("scale=-2:'min(ih,720)'"@)
    } else if token == "1080"@ {
        Some("scale=-2:'min(ih,1080)'"@)
    } else {
        None
    }
}

fn str_eq(a: &str, b: &str) -> (r: bool)
    ensures
        r == (a@ == b@),
{
    let x = chars_of(a);
    let y = chars_of(b);
    crate::text::chars_eq(x.as_slice(), y.as_slice())
}

/// The ffmpeg scale filter for a quality-mode resolution preset (e.g. "720"),
/// or `None` to keep the source resolution.
pub fn quality_scale_filter(token: &str) -> (r: Option<String>)
    ensures
        opt_string(r) == quality_scale_spec(token@),
{
    if str_eq(token, "480") {
        Some("scale=-2:'min(ih,480)'".to_owned())
    } else if str_eq(token, "720") {
        Some("scale=-2:'min(ih,720)'".to_owned())
    } else if str_eq(token, "1080") {
        Some("scale=-2:'min(ih,1080)'".to_owned())
    } else {
        None
    }
}

/// The crop filter of a source-pixel rectangle `(x, y, w, h)`: ffmpeg's
/// argument order is size first, then top-left offset.
pub open spec fn crop_spec(x: u32, y: u32, w: u32, h: u32) -> Seq<char> {
    "crop="@ + decimal(w as nat) + ":"@ + decimal(h as nat) + ":"@ + decimal(x as nat) + ":"@
        + decimal(y as nat)
}

/// FFmpeg `crop` filter for a source-pixel rectangle `(x, y, w, h)`, or `None`
/// when there is no crop. The filter reads `crop=out_w:out_h:x:y`.
pub fn crop_filter(rect: Option<(u32, u32, u32, u32)>) -> (r: Option<String>)
    ensures
        opt_string(r) == match rect {
            Some(t) => Some(crop_spec(t.0, t.1, t.2, t.3)),
            None => None,
        },
{
    match rect {
        None => None,
        Some((x, y, w, h)) => {
            let a1 = str_concat("crop=", decimal_string(w as u64).as_str());
            let a2 = str_concat(a1.as_str(), ":");
            let a3 = str_concat(a2.as_str(), decimal_string(h as u64).as_str());
            let a4 = str_concat(a3.as_str(), ":");
            let a5 = str_concat(a4.as_str(), decimal_string(x as u64).as_str());
            let a6 = str_concat(a5.as_str(), ":");
            Some(str_concat(a6.as_str(), decimal_string(y as u64).as_str()))
        },
    }
}

/// Two optional filters joined into one filter chain (`a,b`), either alone, or
/// nothing.
pub open spec fn chain_spec(a: Option<Seq<char>>, b: Option<Seq<char>>) -> Option<Seq<char>> {
    match (a, b) {
        (Some(x), Some(y)) => Some(x + ","@ + y),
        (Some(x), None) => Some(x),
        (None, Some(y)) => Some(y),
        (None, None) => None,
    }
}

fn chain(a: Option<String>, b: Option<String>) -> (r: Option<String>)
    ensures
        opt_string(r) == chain_spec(opt_string(a), opt_string(b)),
{
    match (a, b) {
        (Some(x), Some(y)) => Some(str_concat(str_concat(x.as_str(), ",").as_str(), y.as_str())),
        (Some(x), None) => Some(x),
        (None, Some(y)) => Some(y),
        (None, None) => None,
    }
}

/// Composes the optional crop + scale filters into a single `-vf` value
/// (ffmpeg allows only one). Crop comes first so the source frame is cropped
/// and only then downscaled. `None` when neither is present.
pub fn compose_vf(crop: Option<String>, scale: Option<String>) -> (r: Option<String>)
    ensures
        opt_string(r) == chain_spec(opt_string(crop), opt_string(scale)),
{
    chain(crop, scale)
}

/// Composes crop + scale + retime (`setpts`) into the single allowed `-vf`:
/// crop and scale keep their order from `compose_vf`, `setpts` comes last.
/// `None` when all three are absent.
pub fn compose_vf_speed(crop: Option<String>, scale: Option<String>, setpts: Option<String>) -> (r:
    Option<String>)
    ensures
        opt_string(r) == chain_spec(chain_spec(opt_string(crop), opt_string(scale)), opt_string(setpts)),
{
    let pixel = compose_vf(crop, scale);
    chain(pixel, setpts)
}

/// Without a retime, `compose_vf_speed` gives exactly what `compose_vf` gives;
/// with one, the retime is appended after the pixel filters.
pub proof fn lemma_compose_vf_speed_extends(
    crop: Option<Seq<char>>,
    scale: Option<Seq<char>>,
    setpts: Option<Seq<char>>,
)
    ensures
        chain_spec(chain_spec(crop, scale), None) == chain_spec(crop, scale),
        setpts is Some ==> chain_spec(chain_spec(crop, scale), setpts) == match chain_spec(
            crop,
            scale,
        ) {
            Some(p) => Some(p + ","@ + setpts->0),
            None => setpts,
        },
{
}

// ---------------------------------------------------------------------------
// NVENC availability
// ---------------------------------------------------------------------------

/// The stderr signatures meaning "no usable NVENC on this machine".
pub open spec fn nvenc_markers() -> Seq<Seq<char>> {
    seq![
        "Cannot load nvcuda"@,
        "Cannot load libcuda"@,
        "No NVENC capable devices found"@,
        "Cannot init CUDA"@,
        "Unknown encoder 'h264_nvenc'"@,
        "Cannot open encoder"@,
    ]
}

/// True when FFmpeg's stderr contains one of the NVENC-unsupported signatures
/// (no NVIDIA GPU / driver / encoder), as opposed to a transient or
/// clip-specific encode error. Any other failure is not treated as
/// "unavailable".
pub fn nvenc_unavailable(stderr: &str) -> (r: bool)
    ensures
        r == exists|i: int| 0 <= i < 6 && contains_spec(stderr@, #[trigger] nvenc_markers()[i]),
{
    let s = chars_of(stderr);
    let markers: [&str; 6] = [
        "Cannot load nvcuda",
        "Cannot load libcuda",
        "No NVENC capable devices found",
        "Cannot init CUDA",
        "Unknown encoder 'h264_nvenc'",
        "Cannot open encoder",
    ];
    let mut i: usize = 0;
    while i < 6
        invariant
            i <= 6,
            s@ == stderr@,
            markers@.map_values(|m: &str| m@) == nvenc_markers(),
            forall|j: int| 0 <= j < i ==> !contains_spec(stderr@, #[trigger] nvenc_markers()[j]),
        decreases 6 - i,
    {
        let m = chars_of(markers[i]);
        assert(m@ == nvenc_markers()[i as int]);
        if contains_chars(s.as_slice(), m.as_slice()) {
            return true;
        }
        i += 1;
    }
    false
}

// ---------------------------------------------------------------------------
// Waveform samples
// ---------------------------------------------------------------------------

/// The signed 16-bit sample whose little-endian bytes are `lo`, `hi`
/// (`i16::from_le_bytes`).
pub open spec fn le_i16(lo: u8, hi: u8) -> int {
    let v = lo + 256 * hi;
    if v >= 32768 {
        v - 65536
    } else {
        v
    }
}

/// The samples of mono `s16le` PCM: one per whole pair of bytes, in order; a
/// trailing odd byte is dropped (`chunks_exact(2)`).
pub fn pcm_samples(bytes: &[u8]) -> (r: Vec<i16>)
    ensures
        r@.len() == bytes@.len() / 2,
        forall|i: int| 0 <= i < r@.len() ==> #[trigger] r@[i] as int == le_i16(bytes@[2 * i], bytes@[2 * i + 1]),
{
    let len = bytes.len();
    let n = len / 2;
    let mut out: Vec<i16> = Vec::new();
    let mut i: usize = 0;
    while i < n
        invariant
            i <= n,
            n == bytes@.len() / 2,
            len == bytes@.len(),
            out@.len() == i,
            forall|j: int| 0 <= j < i ==> #[trigger] out@[j] as int == le_i16(bytes@[2 * j], bytes@[2 * j + 1]),
        decreases n - i,
    {
        let lo = bytes[2 * i] as i32;
        let hi = bytes[2 * i + 1] as i32;
        let v = lo + 256 * hi;
        let s: i16 = if v >= 32768 {
            (v - 65536) as i16
        } else {
            v as i16
        };
        out.push(s);
        i += 1;
    }
    out
}

} // verus!
