use klipt::watcher::{affects_library, affects_library_ext, watch_roots};

#[test]
fn affects_library_matches_media_and_directories() {
    assert!(affects_library("C:/clips/game/new.mp4"));
    assert!(affects_library("C:/clips/out.gif"));
    assert!(affects_library("C:/clips/out.m4a"));
    // Directory-shaped path (no extension): rescan.
    assert!(affects_library("C:/clips/NewGame"));
    // Non-media files never trigger a refresh.
    assert!(!affects_library("C:/clips/notes.txt"));
    assert!(!affects_library("C:/clips/thumb.jpg.tmp"));
}

#[test]
fn affects_library_ext_decides_on_the_extension() {
    assert!(affects_library_ext(None));
    assert!(affects_library_ext(Some("MOV")));
    assert!(!affects_library_ext(Some("tmp")));
}

#[test]
fn watch_roots_trims_drops_blanks_and_duplicates() {
    let req: Vec<String> = vec![" /a ", "", "/b", "/a", "   ", "/b "]
        .into_iter()
        .map(String::from)
        .collect();
    assert_eq!(watch_roots(&req), vec!["/a".to_string(), "/b".to_string()]);
    assert!(watch_roots(&Vec::new()).is_empty());
}
