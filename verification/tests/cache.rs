use klipt::cache::{pick_evictions, CAP_BYTES, TARGET_BYTES};

#[test]
fn pick_evictions_noop_under_cap() {
    let files = vec![(100, 50), (200, 50)];
    assert!(pick_evictions(&files, 100, 512, 384).is_empty());
    // Exactly at the cap is still fine.
    assert!(pick_evictions(&files, 512, 512, 384).is_empty());
}

#[test]
fn pick_evictions_drops_oldest_first_until_target() {
    // Four files, 100 bytes each, total 400, cap 300, target 200:
    // must evict the two oldest (mtimes 10 and 20), keep 30 and 40.
    let files = vec![(30, 100), (10, 100), (40, 100), (20, 100)];
    let evict = pick_evictions(&files, 400, 300, 200);
    assert_eq!(evict, vec![1, 3], "oldest two by mtime");
}

#[test]
fn pick_evictions_handles_everything_evicted() {
    let files = vec![(1, 500), (2, 500)];
    // total 1000, target 0: both go, no panic, no infinite loop.
    assert_eq!(pick_evictions(&files, 1000, 100, 0).len(), 2);
    // Empty input with an (inconsistent) huge total: no indices to return.
    assert!(pick_evictions(&[], 1000, 100, 0).is_empty());
}

#[test]
fn pick_evictions_keeps_mtime_ties_in_input_order() {
    // Equal mtimes are evicted in the order the files were listed.
    let files = vec![(5, 100), (5, 100), (1, 100)];
    assert_eq!(pick_evictions(&files, 300, 250, 100), vec![2, 0]);
}

#[test]
fn pick_evictions_stops_as_soon_as_target_is_reached() {
    // One large old file is enough to get back under the target.
    let files = vec![(1, 900), (2, 50), (3, 50)];
    assert_eq!(pick_evictions(&files, 1000, 800, 600), vec![0]);
}

#[test]
fn pick_evictions_uses_default_cap_and_target() {
    assert_eq!(CAP_BYTES, 512 * 1024 * 1024);
    assert_eq!(TARGET_BYTES, 384 * 1024 * 1024);
    let files = vec![(2, CAP_BYTES), (1, 1)];
    assert_eq!(pick_evictions(&files, CAP_BYTES + 1, CAP_BYTES, TARGET_BYTES), vec![1, 0]);
}
