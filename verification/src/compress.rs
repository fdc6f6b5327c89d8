//! Compress: the encoder arguments for each attempt, and the plan that tries
//! NVENC (GPU) first and falls back to x264 (CPU), two-pass in size mode.
//!
//! The caller computes the bitrates (they come from the size budget, in
//! floating point) and renders every time as text; it runs each attempt and
//! reports back whether it succeeded and what FFmpeg printed on stderr.

use vstd::prelude::*;
use crate::media::{input_segment, input_segment_spec, nvenc_markers, nvenc_unavailable, opt_text};
use crate::text::{
    append_all, chars_of, contains_spec, copy_range, chars_eq, decimal, decimal_string, push_str,
    str_concat, views,
};

verus! {

broadcast use vstd::string::group_string_axioms;

/// The H.264 encoder an attempt uses.
#[derive(Debug, Clone, Copy, PartialEq, Eq, Structural)]
pub enum Encoder {
    /// `h264_nvenc`, NVIDIA's hardware encoder.
    Nvenc,
    /// `libx264`, the software encoder.
    X264,
}

/// The FFmpeg name of an encoder.
pub open spec fn encoder_name(e: Encoder) -> Seq<char> {
    match e {
        Encoder::Nvenc => "h264_nvenc"@,
        Encoder::X264 => "libx264"@,
    }
}

/// The size-mode rates, each in kbit/s rendered as a whole number (no unit).
pub struct Bitrates {
    /// Average video bitrate.
    pub video: String,
    /// Peak bitrate.
    pub maxrate: String,
    /// Rate-control buffer size.
    pub bufsize: String,
}

/// The rates as text, `None` in quality mode.
pub open spec fn rates_view(r: Option<&Bitrates>) -> Option<(Seq<char>, Seq<char>, Seq<char>)> {
    match r {
        Some(b) => Some((b.video@, b.maxrate@, b.bufsize@)),
        None => None,
    }
}

/// `-b:v` / `-maxrate` / `-bufsize` with the rates in kbit/s.
pub open spec fn rate_flags_spec(v: Seq<char>, m: Seq<char>, b: Seq<char>) -> Seq<Seq<char>> {
    seq!["-b:v"@, v + "k"@, "-maxrate"@, m + "k"@, "-bufsize"@, b + "k"@]
}

/// The encoder-specific video arguments. Size mode (`rates` present) hits a
/// bitrate budget: NVENC through its internal full-resolution multipass,
/// x264 at the medium preset. Quality mode encodes at a fixed high quality:
/// NVENC at CQ 23, x264 at CRF 20.
pub open spec fn video_args_spec(
    encoder: Encoder,
    rates: Option<(Seq<char>, Seq<char>, Seq<char>)>,
) -> Seq<Seq<char>> {
    seq!["-c:v"@, encoder_name(encoder)] + match rates {
        Some((v, m, b)) => (if encoder == Encoder::Nvenc {
            seq!["-preset"@, "p5"@, "-rc"@, "vbr"@, "-multipass"@, "fullres"@]
        } else {
            seq!["-preset"@, "medium"@]
        }) + rate_flags_spec(v, m, b),
        None => if encoder == Encoder::Nvenc {
            seq!["-preset"@, "p5"@, "-rc"@, "vbr"@, "-cq"@, "23"@, "-b:v"@, "0"@]
        } else {
            seq!["-preset"@, "medium"@, "-crf"@, "20"@]
        },
    }
}

fn push_rate(a: &mut Vec<String>, flag: &str, value: &String)
    ensures
        views(final(a)@) == views(old(a)@) + seq![flag@, value@ + "k"@],
{
    push_str(a, flag);
    let v = str_concat(value.as_str(), "k");
    push_str(a, v.as_str());
    proof {
        assert(views(final(a)@) =~= views(old(a)@) + seq![flag@, value@ + "k"@]);
    }
}

/// Builds the encoder-specific video arguments (see `video_args_spec`).
pub fn video_args(encoder: Encoder, rates: Option<&Bitrates>) -> (r: Vec<String>)
    ensures
        views(r@) == video_args_spec(encoder, rates_view(rates)),
{
    let mut a: Vec<String> = Vec::new();
    push_str(&mut a, "-c:v");
    match encoder {
        Encoder::Nvenc => push_str(&mut a, "h264_nvenc"),
        Encoder::X264 => push_str(&mut a, "libx264"),
    }
    let ghost head = views(a@);
    match rates {
        Some(b) => {
            match encoder {
                Encoder::Nvenc => {
                    push_str(&mut a, "-preset");
                    push_str(&mut a, "p5");
                    push_str(&mut a, "-rc");
                    push_str(&mut a, "vbr");
                    push_str(&mut a, "-multipass");
                    push_str(&mut a, "fullres");
                },
                Encoder::X264 => {
                    push_str(&mut a, "-preset");
                    push_str(&mut a, "medium");
                },
            }
            let ghost mid = views(a@);
            push_rate(&mut a, "-b:v", &b.video);
            push_rate(&mut a, "-maxrate", &b.maxrate);
            push_rate(&mut a, "-bufsize", &b.bufsize);
            proof {
                assert(views(a@) =~= mid + rate_flags_spec(b.video@, b.maxrate@, b.bufsize@));
            }
        },
        None => {
            match encoder {
                Encoder::Nvenc => {
                    push_str(&mut a, "-preset");
                    push_str(&mut a, "p5");
                    push_str(&mut a, "-rc");
                    push_str(&mut a, "vbr");
                    push_str(&mut a, "-cq");
                    push_str(&mut a, "23");
                    push_str(&mut a, "-b:v");
                    push_str(&mut a, "0");
                },
                Encoder::X264 => {
                    push_str(&mut a, "-preset");
                    push_str(&mut a, "medium");
                    push_str(&mut a, "-crf");
                    push_str(&mut a, "20");
                },
            }
        },
    }
    proof {
        assert(views(a@) =~= video_args_spec(encoder, rates_view(rates)));
    }
    a
}

/// `-vf <filters>` when there is a video filter chain.
pub open spec fn vf_flags_spec(vf: Option<Seq<char>>) -> Seq<Seq<char>> {
    match vf {
        Some(f) => seq!["-vf"@, f],
        None => Seq::empty(),
    }
}

/// The audio arguments of an output that keeps (re-encodes) or drops audio:
/// AAC at 128 kbit/s, time-stretched by `atempo` when there is one.
pub open spec fn audio_flags_spec(include_audio: bool, atempo: Option<Seq<char>>) -> Seq<Seq<char>> {
    if include_audio {
        (match atempo {
            Some(af) => seq!["-filter:a"@, af],
            None => Seq::empty(),
        }) + seq!["-c:a"@, "aac"@, "-b:a"@, "128k"@]
    } else {
        seq!["-an"@]
    }
}

/// The single-run arguments of a Compress attempt: the Region (output capped
/// at `out_dur`, the first video stream, audio when kept), the video filter
/// chain, the encoder arguments, 4:2:0 pixels, the audio, and a fast-start MP4
/// at `output`.
pub open spec fn compress_args_spec(
    path: Seq<char>,
    start: Seq<char>,
    out_dur: Seq<char>,
    vf: Option<Seq<char>>,
    encoder: Encoder,
    rates: Option<(Seq<char>, Seq<char>, Seq<char>)>,
    include_audio: bool,
    atempo: Option<Seq<char>>,
    output: Seq<char>,
) -> Seq<Seq<char>> {
    input_segment_spec(path, start, out_dur, "0:v:0"@, include_audio) + vf_flags_spec(vf)
        + video_args_spec(encoder, rates) + seq!["-pix_fmt"@, "yuv420p"@] + audio_flags_spec(
        include_audio,
        atempo,
    ) + seq!["-movflags"@, "+faststart"@, "-y"@, output]
}

fn push_vf(a: &mut Vec<String>, vf: Option<&str>)
    ensures
        views(final(a)@) == views(old(a)@) + vf_flags_spec(opt_text(vf)),
{
    match vf {
        Some(f) => {
            push_str(a, "-vf");
            push_str(a, f);
        },
        None => {},
    }
    proof {
        assert(views(final(a)@) =~= views(old(a)@) + vf_flags_spec(opt_text(vf)));
    }
}

fn push_audio(a: &mut Vec<String>, include_audio: bool, atempo: Option<&str>)
    ensures
        views(final(a)@) == views(old(a)@) + audio_flags_spec(include_audio, opt_text(atempo)),
{
    if include_audio {
        match atempo {
            Some(af) => {
                push_str(a, "-filter:a");
                push_str(a, af);
            },
            None => {},
        }
        push_str(a, "-c:a");
        push_str(a, "aac");
        push_str(a, "-b:a");
        push_str(a, "128k");
    } else {
        push_str(a, "-an");
    }
    proof {
        assert(views(final(a)@) =~= views(old(a)@) + audio_flags_spec(
            include_audio,
            opt_text(atempo),
        ));
    }
}

fn push_output(a: &mut Vec<String>, output: &str)
    ensures
        views(final(a)@) == views(old(a)@) + seq!["-movflags"@, "+faststart"@, "-y"@, output@],
{
    push_str(a, "-movflags");
    push_str(a, "+faststart");
    push_str(a, "-y");
    push_str(a, output);
    proof {
        assert(views(final(a)@) =~= views(old(a)@) + seq![
            "-movflags"@,
            "+faststart"@,
            "-y"@,
            output@,
        ]);
    }
}

/// Builds the arguments of a single-run Compress attempt (see
/// `compress_args_spec`).
pub fn compress_args(
    path: &str,
    start: &str,
    out_dur: &str,
    vf: Option<&str>,
    encoder: Encoder,
    rates: Option<&Bitrates>,
    include_audio: bool,
    atempo: Option<&str>,
    output: &str,
) -> (r: Vec<String>)
    ensures
        views(r@) == compress_args_spec(
            path@,
            start@,
            out_dur@,
            opt_text(vf),
            encoder,
            rates_view(rates),
            include_audio,
            opt_text(atempo),
            output@,
        ),
{
    let mut a = input_segment(path, start, out_dur, "0:v:0", include_audio);
    push_vf(&mut a, vf);
    let v = video_args(encoder, rates);
    append_all(&mut a, v);
    push_str(&mut a, "-pix_fmt");
    push_str(&mut a, "yuv420p");
    push_audio(&mut a, include_audio, atempo);
    push_output(&mut a, output);
    proof {
        assert(views(a@) =~= compress_args_spec(
            path@,
            start@,
            out_dur@,
            opt_text(vf),
            encoder,
            rates_view(rates),
            include_audio,
            opt_text(atempo),
            output@,
        ));
    }
    a
}

/// The arguments of pass 1 or pass 2 of a two-pass x264 size-mode encode.
/// Both passes read the same video (no audio map) through the same filter
/// chain at the same rates and share the stats file `passlog`. Pass 1 drops
/// audio and writes to the null sink `null_sink`; pass 2 maps the audio when
/// kept and writes the real fast-start MP4 at `output`.
pub open spec fn x264_pass_args_spec(
    path: Seq<char>,
    start: Seq<char>,
    out_dur: Seq<char>,
    vf: Option<Seq<char>>,
    rates: (Seq<char>, Seq<char>, Seq<char>),
    pass: u8,
    passlog: Seq<char>,
    null_sink: Seq<char>,
    include_audio: bool,
    atempo: Option<Seq<char>>,
    output: Seq<char>,
) -> Seq<Seq<char>> {
    input_segment_spec(path, start, out_dur, "0:v:0"@, false) + vf_flags_spec(vf) + seq![
        "-c:v"@,
        "libx264"@,
        "-preset"@,
        "medium"@,
    ] + rate_flags_spec(rates.0, rates.1, rates.2) + seq![
        "-pass"@,
        decimal(pass as nat),
        "-passlogfile"@,
        passlog,
    ] + if pass == 1 {
        seq!["-an"@, "-f"@, "null"@, null_sink]
    } else {
        (if include_audio {
            seq!["-map"@, "0:a?"@]
        } else {
            Seq::empty()
        }) + seq!["-pix_fmt"@, "yuv420p"@] + audio_flags_spec(include_audio, atempo) + seq![
            "-movflags"@,
            "+faststart"@,
            "-y"@,
            output,
        ]
    }
}

/// Builds the arguments of one pass of the two-pass x264 encode (see
/// `x264_pass_args_spec`).
pub fn x264_pass_args(
    path: &str,
    start: &str,
    out_dur: &str,
    vf: Option<&str>,
    rates: &Bitrates,
    pass: u8,
    passlog: &str,
    null_sink: &str,
    include_audio: bool,
    atempo: Option<&str>,
    output: &str,
) -> (r: Vec<String>)
    ensures
        views(r@) == x264_pass_args_spec(
            path@,
            start@,
            out_dur@,
            opt_text(vf),
            (rates.video@, rates.maxrate@, rates.bufsize@),
            pass,
            passlog@,
            null_sink@,
            include_audio,
            opt_text(atempo),
            output@,
        ),
{
    let mut a = input_segment(path, start, out_dur, "0:v:0", false);
    push_vf(&mut a, vf);
    push_str(&mut a, "-c:v");
    push_str(&mut a, "libx264");
    push_str(&mut a, "-preset");
    push_str(&mut a, "medium");
    push_rate(&mut a, "-b:v", &rates.video);
    push_rate(&mut a, "-maxrate", &rates.maxrate);
    push_rate(&mut a, "-bufsize", &rates.bufsize);
    push_str(&mut a, "-pass");
    let p = decimal_string(pass as u64);
    push_str(&mut a, p.as_str());
    push_str(&mut a, "-passlogfile");
    push_str(&mut a, passlog);
    let ghost head = views(a@);
    if pass == 1 {
        push_str(&mut a, "-an");
        push_str(&mut a, "-f");
        push_str(&mut a, "null");
        push_str(&mut a, null_sink);
    } else {
        if include_audio {
            push_str(&mut a, "-map");
            push_str(&mut a, "0:a?");
        }
        push_str(&mut a, "-pix_fmt");
        push_str(&mut a, "yuv420p");
        push_audio(&mut a, include_audio, atempo);
        push_output(&mut a, output);
    }
    proof {
        assert(views(a@) =~= x264_pass_args_spec(
            path@,
            start@,
            out_dur@,
            opt_text(vf),
            (rates.video@, rates.maxrate@, rates.bufsize@),
            pass,
            passlog@,
            null_sink@,
            include_audio,
            opt_text(atempo),
            output@,
        ));
    }
    a
}

// ---------------------------------------------------------------------------
// The attempt plan

/// One encode run of a Compress.
#[derive(Debug, Clone, Copy, PartialEq, Eq, Structural)]
pub enum Attempt {
    /// The single NVENC run (size mode uses its internal multipass).
    Nvenc,
    /// The single-pass x264 run of quality mode.
    X264,
    /// Pass 1 of the two-pass x264 size-mode encode.
    Pass1,
    /// Pass 2 of the two-pass x264 size-mode encode.
    Pass2,
}

/// What follows a run.
#[derive(Debug, PartialEq, Eq)]
pub enum CompressStep {
    /// Make this run next.
    Run(Attempt),
    /// The export is written; the text labels the encoder that made it.
    Done(String),
    /// The Compress failed with this message.
    Failed(String),
}

/// The decision after a run, with the clean-up it calls for.
pub struct AfterAttempt {
    pub next: CompressStep,
    /// NVENC proved unsupported on this machine: skip it for the rest of the
    /// session.
    pub disable_nvenc: bool,
    /// Remove the two-pass stats files.
    pub clean_passlog: bool,
    /// Remove the (partial) output file.
    pub remove_output: bool,
}

/// The CPU fallback: two-pass in size mode, single-pass CRF otherwise.
pub open spec fn fallback_spec(size_mode: bool) -> Attempt {
    if size_mode {
        Attempt::Pass1
    } else {
        Attempt::X264
    }
}

/// The first run: NVENC, unless an earlier Compress this session proved it
/// unavailable.
pub open spec fn first_attempt_spec(size_mode: bool, nvenc_disabled: bool) -> Attempt {
    if nvenc_disabled {
        fallback_spec(size_mode)
    } else {
        Attempt::Nvenc
    }
}

/// Picks the first run of a Compress (see `first_attempt_spec`).
pub fn first_attempt(size_mode: bool, nvenc_disabled: bool) -> (r: Attempt)
    ensures
        r == first_attempt_spec(size_mode, nvenc_disabled),
{
    if nvenc_disabled {
        if size_mode {
            Attempt::Pass1
        } else {
            Attempt::X264
        }
    } else {
        Attempt::Nvenc
    }
}

/// Whether FFmpeg's stderr says NVENC is unsupported here.
pub open spec fn nvenc_unavailable_spec(stderr: Seq<char>) -> bool {
    exists|i: int| 0 <= i < nvenc_markers().len() && contains_spec(stderr, #[trigger] nvenc_markers()[i])
}

/// The run that follows `attempt` given whether it succeeded, if any: a
/// failed NVENC run falls back to the CPU, a successful pass 1 leads to
/// pass 2; every other outcome ends the Compress.
pub open spec fn next_attempt_spec(attempt: Attempt, size_mode: bool, success: bool) -> Option<Attempt> {
    match attempt {
        Attempt::Nvenc => if success {
            None
        } else {
            Some(fallback_spec(size_mode))
        },
        Attempt::Pass1 => if success {
            Some(Attempt::Pass2)
        } else {
            None
        },
        _ => None,
    }
}

/// How a Compress ends after `attempt` when no run follows: the encoder label
/// on success, the failure message otherwise.
pub open spec fn step_matches(
    step: CompressStep,
    attempt: Attempt,
    size_mode: bool,
    success: bool,
    stderr: Seq<char>,
) -> bool {
    match next_attempt_spec(attempt, size_mode, success) {
        Some(a) => step == CompressStep::Run(a),
        None => match step {
            CompressStep::Done(label) => success && label@ == (if attempt == Attempt::Nvenc {
                "NVENC (GPU)"@
            } else {
                "x264 (CPU)"@
            }),
            CompressStep::Failed(msg) => !success && msg@ == match attempt {
                Attempt::Pass1 => "Compression failed (pass 1): "@ + stderr,
                Attempt::Pass2 => "Compression failed (pass 2): "@ + stderr,
                _ => "Compression failed: "@ + stderr,
            },
            CompressStep::Run(_) => false,
        },
    }
}

/// A successful run ends the Compress unless it was pass 1, which always leads
/// to pass 2: in particular a successful NVENC run is the result, labelled
/// NVENC, in every mode, and no run follows it.
pub proof fn lemma_success_ends_compress(
    attempt: Attempt,
    size_mode: bool,
    stderr: Seq<char>,
    step: CompressStep,
)
    requires
        step_matches(step, attempt, size_mode, true, stderr),
    ensures
        attempt == Attempt::Pass1 <==> step is Run,
        step is Run ==> step == CompressStep::Run(Attempt::Pass2),
        attempt == Attempt::Nvenc ==> (step matches CompressStep::Done(label) && label@
            == "NVENC (GPU)"@),
        attempt == Attempt::Pass2 || attempt == Attempt::X264 ==> (
        step matches CompressStep::Done(label) && label@ == "x264 (CPU)"@),
{
}

/// A failed run is followed by another only when it was the NVENC run, and
/// then by the CPU encode that suits the mode (pass 1 of two when a size is
/// targeted, one pass otherwise).
pub proof fn lemma_failure_falls_back_only_from_nvenc(
    attempt: Attempt,
    size_mode: bool,
    stderr: Seq<char>,
    step: CompressStep,
)
    requires
        step_matches(step, attempt, size_mode, false, stderr),
    ensures
        attempt == Attempt::Nvenc <==> step is Run,
        attempt == Attempt::Nvenc ==> step == CompressStep::Run(
            if size_mode {
                Attempt::Pass1
            } else {
                Attempt::X264
            },
        ),
        !(step is Done),
{
}

/// Decides what follows a run of `attempt` that succeeded or not with
/// `stderr`. NVENC is disabled for the session only when its failure carries
/// an unsupported-here signature, never for a transient error. The stats
/// files go after pass 2 whatever its outcome, and after a failed pass 1; a
/// failure on the CPU path removes the partial output.
pub fn after_attempt(attempt: Attempt, size_mode: bool, success: bool, stderr: &str) -> (r: AfterAttempt)
    ensures
        step_matches(r.next, attempt, size_mode, success, stderr@),
        r.disable_nvenc == (attempt == Attempt::Nvenc && !success && nvenc_unavailable_spec(stderr@)),
        r.clean_passlog == (attempt == Attempt::Pass2 || (attempt == Attempt::Pass1 && !success)),
        r.remove_output == (!success && attempt != Attempt::Nvenc),
{
    let disable_nvenc = match attempt {
        Attempt::Nvenc => !success && nvenc_unavailable(stderr),
        _ => false,
    };
    let clean_passlog = match attempt {
        Attempt::Pass2 => true,
        Attempt::Pass1 => !success,
        _ => false,
    };
    let remove_output = !success && attempt != Attempt::Nvenc;
    let next = match attempt {
        Attempt::Nvenc => if success {
            CompressStep::Done("NVENC (GPU)".to_owned())
        } else if size_mode {
            CompressStep::Run(Attempt::Pass1)
        } else {
            CompressStep::Run(Attempt::X264)
        },
        Attempt::Pass1 => if success {
            CompressStep::Run(Attempt::Pass2)
        } else {
            CompressStep::Failed(str_concat("Compression failed (pass 1): ", stderr))
        },
        Attempt::Pass2 => if success {
            CompressStep::Done("x264 (CPU)".to_owned())
        } else {
            CompressStep::Failed(str_concat("Compression failed (pass 2): ", stderr))
        },
        Attempt::X264 => if success {
            CompressStep::Done("x264 (CPU)".to_owned())
        } else {
            CompressStep::Failed(str_concat("Compression failed: ", stderr))
        },
    };
    proof {
        assert(nvenc_markers().len() == 6);
    }
    AfterAttempt { next, disable_nvenc, clean_passlog, remove_output }
}

/// The runs a Compress makes from `attempt` on when the runs report
/// `outcomes` in turn (a run with no reported outcome is the last listed).
pub open spec fn runs_from(attempt: Attempt, size_mode: bool, outcomes: Seq<bool>) -> Seq<Attempt>
    decreases outcomes.len(),
{
    if outcomes.len() == 0 {
        seq![attempt]
    } else {
        match next_attempt_spec(attempt, size_mode, outcomes[0]) {
            Some(b) => seq![attempt] + runs_from(b, size_mode, outcomes.drop_first()),
            None => seq![attempt],
        }
    }
}

/// How many more runs can follow a run of `attempt`.
pub open spec fn runs_left(attempt: Attempt) -> nat {
    match attempt {
        Attempt::Nvenc => 2,
        Attempt::Pass1 => 1,
        _ => 0,
    }
}

proof fn lemma_runs_from_bounded(attempt: Attempt, size_mode: bool, outcomes: Seq<bool>)
    requires
        size_mode || attempt != Attempt::Pass1,
    ensures
        runs_from(attempt, size_mode, outcomes).len() <= runs_left(attempt) + 1,
        forall|i: int|
            0 < i < runs_from(attempt, size_mode, outcomes).len() ==> #[trigger] runs_from(
                attempt,
                size_mode,
                outcomes,
            )[i] != Attempt::Nvenc,
    decreases outcomes.len(),
{
    if outcomes.len() > 0 {
        match next_attempt_spec(attempt, size_mode, outcomes[0]) {
            Some(b) => {
                lemma_runs_from_bounded(b, size_mode, outcomes.drop_first());
                let rest = runs_from(b, size_mode, outcomes.drop_first());
                let all = runs_from(attempt, size_mode, outcomes);
                assert(all == seq![attempt] + rest);
                assert forall|i: int| 0 < i < all.len() implies #[trigger] all[i] != Attempt::Nvenc by {
                    assert(all[i] == rest[i - 1]);
                    if i - 1 == 0 {
                        assert(rest[0] == b);
                    }
                }
            },
            None => {},
        }
    }
}

/// A Compress makes at most three encode runs, whatever each run reports,
/// and only its first run can be NVENC: a failed GPU run falls back to the
/// CPU once and is never retried.
pub proof fn lemma_compress_runs_bounded(size_mode: bool, nvenc_disabled: bool, outcomes: Seq<bool>)
    ensures
        runs_from(first_attempt_spec(size_mode, nvenc_disabled), size_mode, outcomes).len() <= 3,
        forall|i: int|
            0 < i < runs_from(first_attempt_spec(size_mode, nvenc_disabled), size_mode, outcomes).len()
                ==> #[trigger] runs_from(first_attempt_spec(size_mode, nvenc_disabled), size_mode, outcomes)[i]
                != Attempt::Nvenc,
{
    lemma_runs_from_bounded(first_attempt_spec(size_mode, nvenc_disabled), size_mode, outcomes);
}

// ---------------------------------------------------------------------------
// Two-pass stats files

/// The file name of a Compress's two-pass stats: unique per process `pid`
/// and per Compress `seq`, so concurrent encodes never share or delete each
/// other's stats.
pub open spec fn passlog_name_spec(pid: u32, seq: u64) -> Seq<char> {
    "klipt-passlog-"@ + decimal(pid as nat) + "-"@ + decimal(seq as nat)
}

/// Builds the stats file name (see `passlog_name_spec`).
pub fn passlog_name(pid: u32, seq: u64) -> (r: String)
    ensures
        r@ == passlog_name_spec(pid, seq),
{
    let p = decimal_string(pid as u64);
    let q = decimal_string(seq);
    let a = str_concat("klipt-passlog-", p.as_str());
    let b = str_concat(a.as_str(), "-");
    str_concat(b.as_str(), q.as_str())
}

/// Whether a file named `name` is one of x264's stats files for the stats
/// path whose file name is `stem`: FFmpeg writes `<stem>-<stream>.log` and
/// `<stem>-<stream>.log.mbtree`, one set per stream.
pub open spec fn is_passlog_file_spec(name: Seq<char>, stem: Seq<char>) -> bool {
    let prefix = stem + "-"@;
    &&& name.len() >= prefix.len()
    &&& name.take(prefix.len() as int) == prefix
    &&& (name.len() >= 4 && name.skip(name.len() - 4) == ".log"@) || (name.len() >= 11 && name.skip(
        name.len() - 11,
    ) == ".log.mbtree"@)
}

fn has_prefix(s: &[char], p: &[char]) -> (r: bool)
    ensures
        r == (s@.len() >= p@.len() && s@.take(p@.len() as int) == p@),
{
    if s.len() < p.len() {
        return false;
    }
    let head = copy_range(s, 0, p.len());
    assert(head@ =~= s@.take(p@.len() as int));
    chars_eq(head.as_slice(), p)
}

fn has_suffix(s: &[char], p: &[char]) -> (r: bool)
    ensures
        r == (s@.len() >= p@.len() && s@.skip(s@.len() - p@.len()) == p@),
{
    if s.len() < p.len() {
        return false;
    }
    let tail = copy_range(s, s.len() - p.len(), s.len());
    assert(tail@ =~= s@.skip(s@.len() - p@.len()));
    chars_eq(tail.as_slice(), p)
}

/// Whether the file `name` is a stats file of the stats path named `stem`
/// (see `is_passlog_file_spec`); any other file in the folder is left alone.
pub fn is_passlog_file(name: &str, stem: &str) -> (r: bool)
    ensures
        r == is_passlog_file_spec(name@, stem@),
{
    let n = chars_of(name);
    let prefix = chars_of(str_concat(stem, "-").as_str());
    let log = chars_of(".log");
    let mbtree = chars_of(".log.mbtree");
    proof {
        reveal_strlit(".log");
        reveal_strlit(".log.mbtree");
    }
    has_prefix(n.as_slice(), prefix.as_slice()) && (has_suffix(n.as_slice(), log.as_slice())
        || has_suffix(n.as_slice(), mbtree.as_slice()))
}

} // verus!
