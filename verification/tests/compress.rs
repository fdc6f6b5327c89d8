use klipt::compress::{
    after_attempt, compress_args, first_attempt, video_args, x264_pass_args, Attempt, Bitrates,
    CompressStep, Encoder,
};

fn rates() -> Bitrates {
    Bitrates { video: "18304".into(), maxrate: "20134".into(), bufsize: "27456".into() }
}

#[test]
fn video_args_pick_rate_control_per_mode_and_encoder() {
    let r = rates();
    assert_eq!(
        video_args(Encoder::Nvenc, Some(&r)),
        vec!["-c:v", "h264_nvenc", "-preset", "p5", "-rc", "vbr", "-multipass", "fullres", "-b:v", "18304k", "-maxrate", "20134k", "-bufsize", "27456k"]
    );
    assert_eq!(
        video_args(Encoder::X264, Some(&r)),
        vec!["-c:v", "libx264", "-preset", "medium", "-b:v", "18304k", "-maxrate", "20134k", "-bufsize", "27456k"]
    );
    assert_eq!(
        video_args(Encoder::Nvenc, None),
        vec!["-c:v", "h264_nvenc", "-preset", "p5", "-rc", "vbr", "-cq", "23", "-b:v", "0"]
    );
    assert_eq!(
        video_args(Encoder::X264, None),
        vec!["-c:v", "libx264", "-preset", "medium", "-crf", "20"]
    );
}

#[test]
fn compress_args_chain_region_filters_encoder_and_audio() {
    let a = compress_args("in.mp4", "2", "4", Some("crop=10:10:0:0"), Encoder::X264, None, true, Some("atempo=0.500000"), "out.mp4");
    assert_eq!(
        a,
        vec![
            "-ss", "2", "-i", "in.mp4", "-t", "4", "-map", "0:v:0", "-map", "0:a?", "-vf", "crop=10:10:0:0",
            "-c:v", "libx264", "-preset", "medium", "-crf", "20", "-pix_fmt", "yuv420p", "-filter:a",
            "atempo=0.500000", "-c:a", "aac", "-b:a", "128k", "-movflags", "+faststart", "-y", "out.mp4"
        ]
    );
    let b = compress_args("in.mp4", "0", "1", None, Encoder::Nvenc, Some(&rates()), false, None, "o.mp4");
    assert!(b.contains(&"-an".to_string()));
    assert!(!b.contains(&"-vf".to_string()));
    assert!(!b.contains(&"0:a?".to_string()));
    assert_eq!(b.last().unwrap(), "o.mp4");
}

#[test]
fn x264_passes_share_filters_and_stats_but_only_pass_two_writes() {
    let r = rates();
    let p1 = x264_pass_args("in.mp4", "1", "3", Some("scale=-2:'min(ih,720)'"), &r, 1, "/c/log", "/dev/null", true, None, "o.mp4");
    assert_eq!(
        p1,
        vec![
            "-ss", "1", "-i", "in.mp4", "-t", "3", "-map", "0:v:0", "-vf", "scale=-2:'min(ih,720)'", "-c:v",
            "libx264", "-preset", "medium", "-b:v", "18304k", "-maxrate", "20134k", "-bufsize", "27456k",
            "-pass", "1", "-passlogfile", "/c/log", "-an", "-f", "null", "/dev/null"
        ]
    );
    let p2 = x264_pass_args("in.mp4", "1", "3", Some("scale=-2:'min(ih,720)'"), &r, 2, "/c/log", "/dev/null", true, Some("atempo=2.000000"), "o.mp4");
    assert_eq!(&p2[..21], &p1[..21]);
    assert_eq!(
        &p2[21..],
        &["2", "-passlogfile", "/c/log", "-map", "0:a?", "-pix_fmt", "yuv420p", "-filter:a", "atempo=2.000000", "-c:a", "aac", "-b:a", "128k", "-movflags", "+faststart", "-y", "o.mp4"]
    );
    let silent = x264_pass_args("in.mp4", "1", "3", None, &r, 2, "l", "NUL", false, None, "o.mp4");
    assert!(!silent.contains(&"0:a?".to_string()));
    assert!(silent.contains(&"-an".to_string()));
}

#[test]
fn compress_tries_nvenc_first_unless_disabled() {
    assert_eq!(first_attempt(true, false), Attempt::Nvenc);
    assert_eq!(first_attempt(false, false), Attempt::Nvenc);
    assert_eq!(first_attempt(true, true), Attempt::Pass1);
    assert_eq!(first_attempt(false, true), Attempt::X264);
}

#[test]
fn failed_nvenc_falls_back_and_only_disables_on_unsupported() {
    let a = after_attempt(Attempt::Nvenc, true, false, "No NVENC capable devices found");
    assert_eq!(a.next, CompressStep::Run(Attempt::Pass1));
    assert!(a.disable_nvenc && !a.remove_output && !a.clean_passlog);
    let b = after_attempt(Attempt::Nvenc, false, false, "Conversion failed!");
    assert_eq!(b.next, CompressStep::Run(Attempt::X264));
    assert!(!b.disable_nvenc);
    let ok = after_attempt(Attempt::Nvenc, false, true, "Cannot load nvcuda");
    assert_eq!(ok.next, CompressStep::Done("NVENC (GPU)".into()));
    assert!(!ok.disable_nvenc);
}

#[test]
fn cpu_runs_finish_or_fail_with_their_messages() {
    let p1 = after_attempt(Attempt::Pass1, true, true, "");
    assert_eq!(p1.next, CompressStep::Run(Attempt::Pass2));
    assert!(!p1.clean_passlog && !p1.remove_output);
    let p1f = after_attempt(Attempt::Pass1, true, false, "boom");
    assert_eq!(p1f.next, CompressStep::Failed("Compression failed (pass 1): boom".into()));
    assert!(p1f.clean_passlog && p1f.remove_output);
    let p2 = after_attempt(Attempt::Pass2, true, true, "");
    assert_eq!(p2.next, CompressStep::Done("x264 (CPU)".into()));
    assert!(p2.clean_passlog && !p2.remove_output);
    let p2f = after_attempt(Attempt::Pass2, true, false, "bad");
    assert_eq!(p2f.next, CompressStep::Failed("Compression failed (pass 2): bad".into()));
    assert!(p2f.clean_passlog && p2f.remove_output);
    let x = after_attempt(Attempt::X264, false, false, "e");
    assert_eq!(x.next, CompressStep::Failed("Compression failed: e".into()));
    assert!(x.remove_output && !x.clean_passlog);
    assert_eq!(after_attempt(Attempt::X264, false, true, "").next, CompressStep::Done("x264 (CPU)".into()));
}

#[test]
fn compress_makes_at_most_three_runs() {
    // Walk every outcome sequence: NVENC fails, pass 1 succeeds, pass 2 ends.
    for disabled in [false, true] {
        for size in [false, true] {
            for outcomes in 0u32..8 {
                let mut attempt = first_attempt(size, disabled);
                let mut runs = 1;
                let mut k = 0;
                loop {
                    let success = outcomes & (1 << k) != 0;
                    k += 1;
                    match after_attempt(attempt, size, success, "").next {
                        CompressStep::Run(a) => {
                            assert_ne!(a, Attempt::Nvenc);
                            attempt = a;
                            runs += 1;
                        }
                        _ => break,
                    }
                }
                assert!(runs <= 3);
            }
        }
    }
}
