use klipt::library::{
    folder_in_reach, is_media_ext, media_kind, output_root, scan_library, walk_step, ClipEntry, WalkStep,
    MAX_CLIPS, MAX_WALK_DEPTH,
};

#[test]
fn media_kind_classifies_all_supported_extensions() {
    assert_eq!(media_kind("mp4"), Some("video"));
    assert_eq!(media_kind("MKV"), Some("video")); // case-insensitive
    assert_eq!(media_kind("gif"), Some("anim"));
    assert_eq!(media_kind("WebP"), Some("anim"));
    assert_eq!(media_kind("m4a"), Some("audio"));
    assert_eq!(media_kind("MP3"), Some("audio"));
    assert_eq!(media_kind("txt"), None);
    assert_eq!(media_kind(""), None);
}

#[test]
fn media_kind_covers_every_listed_extension() {
    for e in ["mp4", "mov", "mkv", "avi", "webm", "m4v"] {
        assert_eq!(media_kind(e), Some("video"), "{e}");
    }
    for e in ["m4a", "mp3", "wav", "ogg", "flac", "opus"] {
        assert_eq!(media_kind(e), Some("audio"), "{e}");
    }
    assert!(is_media_ext("FLAC"));
    assert!(!is_media_ext("jpg"));
    assert!(!is_media_ext("mp4 "));
}

fn entry(path: &str, name: &str, game: &str, modified: u64) -> ClipEntry {
    ClipEntry {
        path: path.to_string(),
        name: name.to_string(),
        game: game.to_string(),
        modified,
        size_bytes: 1,
        kind: "video",
    }
}

#[test]
fn output_root_trims_and_ignores_blank() {
    assert_eq!(output_root(None), None);
    assert_eq!(output_root(Some("   ")), None);
    assert_eq!(output_root(Some("  /out ")), Some("/out".to_string()));
}

#[test]
fn scan_library_merges_output_entries_newest_first_and_labels_exports() {
    let found = vec![
        entry("/w/Apex Legends/clip.mp4", "clip.mp4", "Apex Legends", 10),
        entry("/w/Apex Legends/older.mp4", "older.mp4", "Apex Legends", 1),
    ];
    let extra = vec![
        entry("/out/clip_trim.mp4", "clip_trim.mp4", "out", 20),
        entry("/out/Apex Legends/old_trim.mp4", "old_trim.mp4", "Apex Legends", 5),
    ];
    let r = scan_library(found, Some("/out"), extra);
    let names: Vec<&str> = r.iter().map(|e| e.name.as_str()).collect();
    assert_eq!(names, vec!["clip_trim.mp4", "clip.mp4", "old_trim.mp4", "older.mp4"]);
    assert_eq!(r[0].game, "Exports");
    assert_eq!(r[2].game, "Apex Legends");
}

#[test]
fn scan_library_dedupes_paths_already_listed() {
    let found = vec![entry("/w/exports/clip_trim.mp4", "clip_trim.mp4", "exports", 3)];
    let extra = vec![entry("/w/exports/clip_trim.mp4", "clip_trim.mp4", "exports", 3)];
    let r = scan_library(found, Some("/w/exports"), extra);
    assert_eq!(r.len(), 1, "nested output dir must not duplicate");
    assert_eq!(r[0].game, "exports");
}

#[test]
fn scan_library_without_output_dir_ignores_extra() {
    let found = vec![entry("/w/a.mp4", "a.mp4", "w", 1), entry("/w/b.mp4", "b.mp4", "w", 2)];
    let extra = vec![entry("/x/c.mp4", "c.mp4", "x", 9)];
    let r = scan_library(found, Some("  "), extra);
    let names: Vec<&str> = r.iter().map(|e| e.name.as_str()).collect();
    assert_eq!(names, vec!["b.mp4", "a.mp4"]);
    assert!(MAX_CLIPS >= r.len());
}

#[test]
fn clip_entry_duplicate_copies_every_field() {
    let e = entry("/w/a.mp4", "a.mp4", "w", 4);
    let d = e.duplicate();
    assert_eq!((d.path, d.name, d.game, d.modified, d.size_bytes, d.kind), ("/w/a.mp4".to_string(), "a.mp4".to_string(), "w".to_string(), 4, 1, "video"));
}

#[test]
fn walk_reads_folders_down_to_the_depth_limit() {
    assert!(folder_in_reach(0));
    assert!(folder_in_reach(MAX_WALK_DEPTH));
    assert!(!folder_in_reach(MAX_WALK_DEPTH + 1));
    assert_eq!(MAX_WALK_DEPTH, 3);
}

#[test]
fn walk_skips_links_descends_folders_and_considers_files() {
    assert_eq!(walk_step(0, true, true), WalkStep::Skip);
    assert_eq!(walk_step(0, true, false), WalkStep::Skip);
    assert_eq!(walk_step(1, false, true), WalkStep::Descend);
    assert_eq!(walk_step(3, false, false), WalkStep::Consider);
    assert_eq!(walk_step(4, false, true), WalkStep::Skip);
    assert_eq!(walk_step(4, false, false), WalkStep::Skip);
}
