use klipt::window::{frame_compensation, monitor_placement, Placement, Rect};

#[test]
fn monitor_placement_covers_the_monitor_rect() {
    let m = Rect { left: -1920, top: 0, right: 0, bottom: 1080 };
    assert_eq!(monitor_placement(m), Placement { x: -1920, y: 0, width: 1920, height: 1080 });
}

#[test]
fn frame_compensation_grows_the_window_by_its_frame() {
    let m = Rect { left: 0, top: 0, right: 2560, bottom: 1440 };
    // A 7px frame on the left, right and bottom, 1px on top.
    let window = Rect { left: 0, top: 0, right: 2560, bottom: 1440 };
    let client = Rect { left: 7, top: 1, right: 2553, bottom: 1433 };
    let p = frame_compensation(m, window, client).unwrap();
    assert_eq!(p, Placement { x: -7, y: -1, width: 2574, height: 1448 });
    // The client area of the grown window lands on the monitor exactly.
    assert_eq!((p.x + 7, p.y + 1, p.x + p.width - 7, p.y + p.height - 7), (0, 0, 2560, 1440));
}

#[test]
fn frame_compensation_leaves_a_frameless_window_alone() {
    let m = Rect { left: 0, top: 0, right: 1920, bottom: 1080 };
    assert_eq!(frame_compensation(m, m, m), None);
}
