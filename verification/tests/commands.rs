use klipt::commands::{
    banner_for, file_uri, pick_restore_index, restore_paths_match, restore_paths_match_unix,
    restore_paths_match_windows, split_input_banners, thumb_batch_args, thumb_finish,
    thumb_input_args, thumb_output_args, thumb_plan, thumb_report_order, ThumbFinish, ThumbPlan,
};

fn entries(v: &[(&str, i64)]) -> Vec<(String, i64)> {
    v.iter().map(|(p, t)| (p.to_string(), *t)).collect()
}

#[test]
fn split_input_banners_handles_empty_and_preamble_only() {
    assert!(split_input_banners("").is_empty());
    assert!(split_input_banners("ffmpeg version 7 ... no inputs opened").is_empty());
}

#[test]
fn split_input_banners_skips_sections_without_a_source_path() {
    let stderr = "pre\nInput #0, mov, from 'x.mp4':\n  a\nInput #1 broken\nInput #2, from 'y.mp4':\n  b\n";
    let banners = split_input_banners(stderr);
    assert_eq!(banners.len(), 2);
    assert_eq!(
        banner_for(&banners, "x.mp4"),
        Some("0, mov, from 'x.mp4':\n  a\n".to_string())
    );
    assert_eq!(
        banner_for(&banners, "y.mp4"),
        Some("2, from 'y.mp4':\n  b\n".to_string())
    );
    assert_eq!(banner_for(&banners, "z.mp4"), None);
}

#[test]
fn pick_restore_index_returns_newest_when_path_trashed_twice() {
    // Same original path trashed at two different times; the later deletion
    // (the copy the user just trashed) must win.
    let e = entries(&[("C:/clips/a.mp4", 100), ("C:/clips/b.mp4", 150), ("C:/clips/a.mp4", 200)]);
    let idx = pick_restore_index(&e, "C:/clips/a.mp4", restore_paths_match).unwrap();
    assert_eq!(idx, 2, "should pick the most recently deleted matching entry");
}

#[test]
fn pick_restore_index_matches_only_the_target_path() {
    let e = entries(&[("C:/clips/a.mp4", 100), ("C:/clips/b.mp4", 200)]);
    let idx = pick_restore_index(&e, "C:/clips/a.mp4", restore_paths_match).unwrap();
    assert_eq!(idx, 0);
}

#[test]
fn pick_restore_index_none_when_no_match() {
    let e = entries(&[("C:/clips/a.mp4", 100)]);
    assert!(pick_restore_index(&e, "C:/clips/missing.mp4", restore_paths_match).is_none());
    assert!(pick_restore_index(&[], "C:/clips/a.mp4", restore_paths_match).is_none());
}

#[test]
fn pick_restore_index_takes_the_later_entry_on_equal_times() {
    let e = entries(&[("a", 7), ("a", 7), ("b", 9)]);
    assert_eq!(pick_restore_index(&e, "a", restore_paths_match_unix), Some(1));
}

#[test]
fn restore_paths_match_windows_tolerates_dropped_extension_and_case() {
    // The Recycle Bin lists the original path with its final extension
    // stripped, so the entry never equals the path we pass.
    let target = "C:/clips/Clip 2026.06.17.DVR.mp4";
    assert!(restore_paths_match_windows("C:/clips/Clip 2026.06.17.DVR", target));
    // Exact path still matches.
    assert!(restore_paths_match_windows("C:/clips/Clip 2026.06.17.DVR.mp4", target));
    // Case- and separator-insensitive (Windows paths are case-folded).
    assert!(restore_paths_match_windows(r"c:\CLIPS\clip 2026.06.17.dvr", target));
    // A genuinely different clip must not match.
    assert!(!restore_paths_match_windows("C:/clips/Other Clip", target));
}

#[test]
fn restore_paths_match_unix_is_exact_and_case_sensitive() {
    let target = "/home/y/Videos/Clip 2026.06.17.DVR.mp4";
    assert!(restore_paths_match_unix("/home/y/Videos/Clip 2026.06.17.DVR.mp4", target));
    // An extension-stripped entry must NOT match.
    assert!(!restore_paths_match_unix("/home/y/Videos/Clip 2026.06.17.DVR", target));
    // Unix paths are case-sensitive: a case-differing path is another file.
    assert!(!restore_paths_match_unix("/home/y/videos/clip 2026.06.17.dvr.mp4", target));
}

#[test]
fn pick_restore_index_matches_extension_stripped_entries() {
    let e = entries(&[(r"C:\clips\a", 100), (r"C:\clips\b", 150), (r"C:\clips\a", 200)]);
    let idx = pick_restore_index(&e, r"C:\clips\a.mp4", restore_paths_match_windows).unwrap();
    assert_eq!(idx, 2);
}

#[test]
fn file_uri_percent_encodes_reserved_and_non_ascii_bytes() {
    // Plain absolute path: only the scheme is added.
    assert_eq!(file_uri("/home/y/Videos/clip.mp4"), "file:///home/y/Videos/clip.mp4");
    // Spaces and URL-special characters are percent-encoded.
    assert_eq!(
        file_uri("/home/y/My Clip #1? 50%.mp4"),
        "file:///home/y/My%20Clip%20%231%3F%2050%25.mp4"
    );
    // Non-ASCII names encode per UTF-8 byte.
    assert_eq!(file_uri("/home/y/é.mp4"), "file:///home/y/%C3%A9.mp4");
}

#[test]
fn file_uri_keeps_unreserved_marks() {
    assert_eq!(file_uri("/a-b_c.d~e"), "file:///a-b_c.d~e");
    assert_eq!(file_uri(""), "file://");
}

#[test]
fn thumb_args_seek_keyframes_and_write_one_poster() {
    assert_eq!(
        thumb_input_args("in.mp4", "1"),
        vec!["-threads", "1", "-skip_frame", "nokey", "-ss", "1", "-i", "in.mp4"]
    );
    assert_eq!(
        thumb_output_args("o.jpg", None),
        vec!["-frames:v", "1", "-vf", "scale=480:-2", "-an", "-q:v", "4", "-y", "o.jpg"]
    );
    assert_eq!(
        thumb_output_args("o.jpg", Some("1:v")),
        vec!["-map", "1:v", "-frames:v", "1", "-vf", "scale=480:-2", "-an", "-q:v", "4", "-y", "o.jpg"]
    );
}

#[test]
fn thumb_batch_args_maps_each_input_to_its_own_output() {
    let ins = vec!["a.mp4".to_string(), "b.mp4".to_string()];
    let outs = vec!["a.jpg".to_string(), "b.jpg".to_string()];
    let a = thumb_batch_args(&ins, &outs);
    let mut want: Vec<String> = vec!["-hide_banner".into()];
    want.extend(thumb_input_args("a.mp4", "1"));
    want.extend(thumb_input_args("b.mp4", "1"));
    want.extend(thumb_output_args("a.jpg", Some("0:v")));
    want.extend(thumb_output_args("b.jpg", Some("1:v")));
    assert_eq!(a, want);
}

#[test]
fn file_uri_writes_only_unreserved_characters_and_uppercase_escapes() {
    let uri = file_uri("/tmp/a b/ü[1]{x}@$&+,;=.mp4");
    let body: Vec<char> = uri["file://".len()..].chars().collect();
    let mut i = 0;
    while i < body.len() {
        let c = body[i];
        if c == '%' {
            assert!(i + 2 < body.len(), "truncated escape in {uri}");
            for d in [body[i + 1], body[i + 2]] {
                assert!(d.is_ascii_digit() || ('A'..='F').contains(&d), "bad escape in {uri}");
            }
            i += 3;
        } else {
            assert!(c.is_ascii_alphanumeric() || "-._~/".contains(c), "literal {c} in {uri}");
            i += 1;
        }
    }
}

#[test]
fn thumb_batch_plans_each_clip() {
    assert_eq!(thumb_plan(false, true), ThumbPlan::Failed);
    assert_eq!(thumb_plan(false, false), ThumbPlan::Failed);
    assert_eq!(thumb_plan(true, true), ThumbPlan::Cached);
    assert_eq!(thumb_plan(true, false), ThumbPlan::Render);
    assert_eq!(thumb_finish(true, true), ThumbFinish::FromBanner);
    assert_eq!(thumb_finish(true, false), ThumbFinish::NoBanner);
    assert_eq!(thumb_finish(false, true), ThumbFinish::Fallback);
}

#[test]
fn thumb_batch_reports_settled_clips_before_rendered_ones() {
    let plans = [
        ThumbPlan::Render,
        ThumbPlan::Cached,
        ThumbPlan::Failed,
        ThumbPlan::Render,
        ThumbPlan::Cached,
    ];
    let (settled, pending) = thumb_report_order(&plans);
    assert_eq!(settled, vec![1, 2, 4]);
    assert_eq!(pending, vec![0, 3]);
    let (a, b) = thumb_report_order(&[]);
    assert!(a.is_empty() && b.is_empty());
}
