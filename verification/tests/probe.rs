use klipt::commands::{banner_for, split_input_banners};
use klipt::probe::{parse_ffmpeg_probe, parse_u32, progress_value, ProbeBanner, ProgressValue};

// The numbers a caller reads out of the banner's text fields.
fn values(b: &ProbeBanner) -> (f64, u32, u32, f64) {
    let duration = match &b.duration {
        Some((h, m, s)) => match (h.parse::<f64>(), m.parse::<f64>(), s.parse::<f64>()) {
            (Ok(h), Ok(m), Ok(s)) => h * 3600.0 + m * 60.0 + s,
            _ => 0.0,
        },
        None => 0.0,
    };
    let mut fps = 0.0;
    for c in &b.fps_candidates {
        if let Ok(v) = c.parse::<f64>() {
            fps = v;
        }
    }
    (duration, b.width, b.height, fps)
}

#[test]
fn parse_ffmpeg_probe_reads_duration_and_dimensions() {
    let stderr = "\
Input #0, mov,mp4,m4a,3gp,3g2,mj2, from 'clip.mp4':
  Metadata:
    major_brand     : isom
  Duration: 00:02:34.56, start: 0.000000, bitrate: 8234 kb/s
  Stream #0:0[0x1](und): Video: h264 (High) (avc1 / 0x31637661), yuv420p(tv), 1920x1080 [SAR 1:1 DAR 16:9], 8000 kb/s, 60 fps
  Stream #0:1[0x2](und): Audio: aac (LC) (mp4a / 0x6134706D), 48000 Hz, stereo, fltp, 234 kb/s
";
    let b = parse_ffmpeg_probe(stderr);
    assert_eq!(
        b.duration,
        Some(("00".to_string(), "02".to_string(), "34.56".to_string()))
    );
    let (d, w, h, fps) = values(&b);
    assert!((d - 154.56).abs() < 0.01, "duration was {d}");
    assert_eq!((w, h), (1920, 1080));
    assert!((fps - 60.0).abs() < 0.01, "fps was {fps}");
}

#[test]
fn parse_ffmpeg_probe_handles_missing_or_na_fields() {
    // No Duration / no Video line -> all zeros, no panic.
    let g = parse_ffmpeg_probe("garbage with no fields");
    assert_eq!(values(&g), (0.0, 0, 0, 0.0));
    assert!(g.duration.is_none() && g.fps_candidates.is_empty());
    // Duration N/A parses to 0 but dimensions + fps still read.
    let s = "  Duration: N/A, bitrate: N/A\n  Stream #0:0: Video: h264, 1280x720, 30 fps\n";
    let b = parse_ffmpeg_probe(s);
    assert!(b.duration.is_none());
    let (d, w, h, fps) = values(&b);
    assert_eq!(d, 0.0);
    assert_eq!((w, h), (1280, 720));
    assert_eq!(fps, 30.0);
}

#[test]
fn parse_ffmpeg_probe_skips_small_and_malformed_dimensions() {
    let s = "Stream: Video: h264 (0x31637661), 8x8, +640x+360, 1920x1080, 29.97 fps, 30 tbr\r\nnext";
    let b = parse_ffmpeg_probe(s);
    assert_eq!((b.width, b.height), (640, 360));
    assert_eq!(b.fps_candidates, vec!["29.97".to_string()]);
    // A token with a value past u32 is not a dimension.
    let o = parse_ffmpeg_probe("Video: 4294967296x20, 20x4294967295");
    assert_eq!((o.width, o.height), (20, 4294967295));
}

#[test]
fn parse_ffmpeg_probe_keeps_every_fps_candidate_in_order() {
    let b = parse_ffmpeg_probe("Video: x, fps 25 fps, N/A fps");
    assert_eq!(b.fps_candidates, vec!["x".to_string(), "25".to_string(), "N/A".to_string()]);
    assert_eq!(values(&b).3, 25.0);
}

#[test]
fn parse_ffmpeg_probe_uses_the_first_duration_and_its_first_field() {
    let b = parse_ffmpeg_probe("Duration:   01:00:00.5 ,x\nDuration: 00:00:01.00,");
    assert_eq!(b.duration, Some(("01".to_string(), "00".to_string(), "00.5".to_string())));
    assert_eq!(values(&b).0, 3600.5);
    assert!(parse_ffmpeg_probe("Duration: 1:2").duration.is_none());
}

#[test]
fn parse_u32_follows_from_str() {
    let p = |s: &str| parse_u32(&s.chars().collect::<Vec<char>>());
    assert_eq!(p("1920"), Some(1920));
    assert_eq!(p("+7"), Some(7));
    assert_eq!(p("007"), Some(7));
    assert_eq!(p("4294967295"), Some(u32::MAX));
    assert_eq!(p("4294967296"), None);
    assert_eq!(p(""), None);
    assert_eq!(p("+"), None);
    assert_eq!(p("-1"), None);
    assert_eq!(p("12a"), None);
    for s in ["0", "42", "+3", "99999999999", " 1", "1 "] {
        assert_eq!(p(s), s.parse::<u32>().ok(), "{s}");
    }
}

#[test]
fn split_input_banners_keys_each_section_by_its_path() {
    // A two-input batch run's stderr: each `Input #N ... from '<path>':`
    // header delimits one Clip's banner.
    let stderr = "\
ffmpeg version ...
Input #0, mov,mp4, from 'C:/clips/a.mp4':
  Duration: 00:00:15.10, start: 0.000000, bitrate: 8000 kb/s
  Stream #0:0: Video: h264, 1920x1080, 30 fps
Input #1, mov,mp4, from 'C:/clips/b.mp4':
  Duration: 00:05:00.11, start: 0.000000, bitrate: 28000 kb/s
  Stream #1:0: Video: h264, 2560x1440, 59.90 fps
  Stream #0:0: Video: mjpeg, 480x270, 60 fps
";
    let banners = split_input_banners(stderr);
    assert_eq!(banners.len(), 2);
    let a = banner_for(&banners, "C:/clips/a.mp4").unwrap();
    let (d_a, w_a, h_a, _) = values(&parse_ffmpeg_probe(&a));
    assert!((d_a - 15.10).abs() < 0.01, "a duration {d_a}");
    assert_eq!((w_a, h_a), (1920, 1080));
    // b's section takes its own (first) Video line, not the trailing output.
    let b = banner_for(&banners, "C:/clips/b.mp4").unwrap();
    let (d_b, w_b, h_b, fps_b) = values(&parse_ffmpeg_probe(&b));
    assert!((d_b - 300.11).abs() < 0.01, "b duration {d_b}");
    assert_eq!((w_b, h_b), (2560, 1440));
    assert!((fps_b - 59.90).abs() < 0.01, "b fps {fps_b}");
}


// The completion fraction a caller derives from a progress line.
fn parse_progress(line: &str, total_secs: f64) -> Option<f64> {
    if !(total_secs > 0.0) {
        return None;
    }
    let secs = match progress_value(line)? {
        ProgressValue::Micros(us) => us.parse::<f64>().ok().map(|us| us / 1_000_000.0),
        ProgressValue::Clock(h, m, s) => match (h.parse::<f64>(), m.parse::<f64>(), s.parse::<f64>()) {
            (Ok(h), Ok(m), Ok(s)) => Some(h * 3600.0 + m * 60.0 + s),
            _ => None,
        },
    }?;
    Some((secs / total_secs).clamp(0.0, 1.0))
}

#[test]
fn parse_progress_reads_out_time_us_and_clamps() {
    let p = parse_progress("out_time_us=5000000", 10.0).unwrap();
    assert!((p - 0.5).abs() < 1e-9, "p was {p}");
    assert_eq!(parse_progress("out_time_us=20000000", 10.0), Some(1.0));
    assert_eq!(parse_progress("out_time_us=-9223372036854775807", 10.0), Some(0.0));
}

#[test]
fn parse_progress_reads_human_out_time() {
    let p = parse_progress("out_time=00:00:05.000000", 10.0).unwrap();
    assert!((p - 0.5).abs() < 1e-9, "p was {p}");
    let p2 = parse_progress("out_time=00:01:00.000000", 120.0).unwrap();
    assert!((p2 - 0.5).abs() < 1e-9, "p2 was {p2}");
}

#[test]
fn parse_progress_ignores_other_keys_and_zero_total() {
    assert_eq!(parse_progress("frame=42", 10.0), None);
    assert_eq!(parse_progress("progress=continue", 10.0), None);
    assert_eq!(parse_progress("out_time=N/A", 10.0), None);
    assert_eq!(parse_progress("out_time_us=5000000", 0.0), None);
}

#[test]
fn parse_progress_rejects_nan_and_negative_total() {
    assert_eq!(parse_progress("out_time_us=5000000", f64::NAN), None);
    assert_eq!(parse_progress("out_time_us=5000000", -10.0), None);
}

#[test]
fn progress_value_reads_the_keyed_text() {
    assert_eq!(progress_value("  out_time_us= 42 \n"), Some(ProgressValue::Micros("42".into())));
    assert_eq!(
        progress_value("out_time=01:02:03.5"),
        Some(ProgressValue::Clock("01".into(), "02".into(), "03.5".into()))
    );
    assert_eq!(progress_value("out_time=N/A"), None);
    assert_eq!(progress_value("speed=1x"), None);
}
