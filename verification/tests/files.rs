use std::hash::{Hash, Hasher};
use klipt::cache::cache_key_text;
use klipt::commands::audio_attempts;
use klipt::commands::{
    filmstrip_cols, restore_needs_move, trash_retry_delay_ms, trim_args, waveform_buckets,
    TRASH_ATTEMPTS,
};
use klipt::compress::{is_passlog_file, passlog_name};
use klipt::library::clip_entry;
use klipt::media::pcm_samples;
use klipt::settings::Settings;

#[test]
fn trim_args_stream_copy_the_region() {
    assert_eq!(
        trim_args("in.mp4", "2.5", "4", true, "out.mp4"),
        vec!["-ss", "2.5", "-i", "in.mp4", "-t", "4", "-map", "0:v?", "-map", "0:a?", "-c", "copy", "-avoid_negative_ts", "make_zero", "-y", "out.mp4"]
    );
    assert!(!trim_args("in.mp4", "0", "1", false, "o.mp4").contains(&"0:a?".to_string()));
}

#[test]
fn lazy_render_sizes_default_and_clamp() {
    assert_eq!(waveform_buckets(None), 400);
    assert_eq!(waveform_buckets(Some(5)), 20);
    assert_eq!(waveform_buckets(Some(5000)), 2000);
    assert_eq!(waveform_buckets(Some(800)), 800);
    assert_eq!(filmstrip_cols(None), 16);
    assert_eq!(filmstrip_cols(Some(0)), 4);
    assert_eq!(filmstrip_cols(Some(100)), 64);
    assert_eq!(filmstrip_cols(Some(24)), 24);
}

#[test]
fn trash_retries_back_off() {
    assert_eq!(TRASH_ATTEMPTS, 8);
    let delays: Vec<u64> = (0..TRASH_ATTEMPTS).map(trash_retry_delay_ms).collect();
    assert_eq!(delays, vec![100, 150, 200, 250, 300, 350, 400, 450]);
}

#[test]
fn restore_moves_only_a_misplaced_file() {
    assert!(restore_needs_move("/c/a", "/c/a.mp4", true, false));
    assert!(!restore_needs_move("/c/a.mp4", "/c/a.mp4", true, false));
    assert!(!restore_needs_move("/c/a", "/c/a.mp4", false, false));
    assert!(!restore_needs_move("/c/a", "/c/a.mp4", true, true));
}

#[test]
fn cleanup_passlog_matches_every_stream_log_and_keeps_others() {
    let stem = passlog_name(1234, 7);
    assert_eq!(stem, "klipt-passlog-1234-7");
    for f in ["-0.log", "-0.log.mbtree", "-1.log", "-1.log.mbtree"] {
        assert!(is_passlog_file(&format!("{stem}{f}"), &stem), "{f}");
    }
    assert!(!is_passlog_file("other-0.log", &stem));
    assert!(!is_passlog_file(&format!("{stem}.mp4"), &stem));
    assert!(!is_passlog_file(&format!("{stem}-0.txt"), &stem));
}

#[test]
fn pcm_samples_read_little_endian_pairs() {
    let bytes = [0x01, 0x00, 0xff, 0x7f, 0x00, 0x80, 0xff, 0xff, 0x42];
    assert_eq!(pcm_samples(&bytes), vec![1, 32767, -32768, -1]);
    assert!(pcm_samples(&[]).is_empty());
    assert!(pcm_samples(&[7]).is_empty());
}

#[test]
fn clip_entry_takes_kind_name_and_game_from_the_path() {
    let e = clip_entry("/w/Apex Legends/clip1.mp4", 5, 9).unwrap();
    assert_eq!((e.name.as_str(), e.game.as_str(), e.kind, e.modified, e.size_bytes), ("clip1.mp4", "Apex Legends", "video", 5, 9));
    assert_eq!(clip_entry("/w/clip2.MKV", 0, 0).unwrap().kind, "video");
    assert_eq!(clip_entry("/w/a.gif", 0, 0).unwrap().kind, "anim");
    assert_eq!(clip_entry("/w/a.m4a", 0, 0).unwrap().kind, "audio");
    assert!(clip_entry("/w/notes.txt", 0, 0).is_none());
    assert!(clip_entry("/w/README", 0, 0).is_none());
}

#[test]
fn settings_default_is_empty_and_output_folder_trims() {
    let mut s = Settings::default();
    assert!(s.watched_folder.is_none() && s.output_dir.is_none() && s.target_mb.is_none());
    assert_eq!(s.output_folder(), None);
    s.output_dir = Some("   ".into());
    assert_eq!(s.output_folder(), None);
    s.output_dir = Some(" D:/exports ".into());
    assert_eq!(s.output_folder(), Some("D:/exports".to_string()));
}

#[test]
fn audio_export_tries_copy_only_for_m4a_at_normal_speed() {
    assert_eq!(audio_attempts(false, true), vec![true, false]);
    assert_eq!(audio_attempts(true, true), vec![false]);
    assert_eq!(audio_attempts(false, false), vec![false]);
}

#[test]
fn cache_key_text_is_sixteen_lowercase_hex_digits() {
    for h in [0u64, 1, 0xdead_beef, u64::MAX, 0x0123_4567_89ab_cdef] {
        assert_eq!(cache_key_text(h), format!("{:016x}", h));
    }
}

#[test]
fn strip_illegal_is_stable() {
    for s in ["a<b>c", "../x/y", "plain", "", "<>:\"/\\|?*"] {
        let once = klipt::naming::strip_illegal(s);
        assert_eq!(klipt::naming::strip_illegal(&once), once);
        assert!(!once.contains(['<', '>', ':', '"', '/', '\\', '|', '?', '*']));
    }
}

#[test]
fn file_uri_decodes_back_to_the_path() {
    for p in ["/home/y/My Clip #1? 50%.mp4", "/home/y/é.mp4", "/a/b"] {
        let uri = klipt::commands::file_uri(p);
        let rest = uri.strip_prefix("file://").unwrap();
        let mut bytes = Vec::new();
        let b = rest.as_bytes();
        let mut i = 0;
        while i < b.len() {
            if b[i] == b'%' {
                bytes.push(u8::from_str_radix(&rest[i + 1..i + 3], 16).unwrap());
                i += 3;
            } else {
                bytes.push(b[i]);
                i += 1;
            }
        }
        assert_eq!(String::from_utf8(bytes).unwrap(), p);
    }
}

#[test]
fn cache_key_hashes_path_mtime_and_discriminator() {
    let mut h = std::collections::hash_map::DefaultHasher::new();
    "C:/clips/a.mp4".hash(&mut h);
    1700000000u64.hash(&mut h);
    "thumb".hash(&mut h);
    let want = format!("{:016x}", h.finish());
    assert_eq!(klipt::cache::cache_key("C:/clips/a.mp4", 1700000000, "thumb"), want);
    assert_ne!(
        klipt::cache::cache_key("C:/clips/a.mp4", 1700000001, "thumb"),
        want,
        "a changed mtime gets a fresh key"
    );
}
