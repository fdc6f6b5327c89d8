//! Borderless fullscreen geometry: where to put the window so that its client
//! area, the part the webview paints, covers the monitor exactly.

use vstd::prelude::*;

verus! {

/// A screen rectangle in device pixels, as Win32's `RECT` gives it.
#[derive(Debug, Clone, Copy, PartialEq, Eq, Structural)]
pub struct Rect {
    pub left: i32,
    pub top: i32,
    pub right: i32,
    pub bottom: i32,
}

/// A window position and size, as `SetWindowPos` takes it.
#[derive(Debug, Clone, Copy, PartialEq, Eq, Structural)]
pub struct Placement {
    pub x: i32,
    pub y: i32,
    pub width: i32,
    pub height: i32,
}

/// Whether `x` fits in an `i32`.
pub open spec fn fits_i32(x: int) -> bool {
    i32::MIN <= x <= i32::MAX
}

/// The placement that makes a window's outer rectangle the monitor's.
pub fn monitor_placement(monitor: Rect) -> (r: Placement)
    requires
        fits_i32(monitor.right - monitor.left),
        fits_i32(monitor.bottom - monitor.top),
    ensures
        r == (Placement {
            x: monitor.left,
            y: monitor.top,
            width: (monitor.right - monitor.left) as i32,
            height: (monitor.bottom - monitor.top) as i32,
        }),
{
    Placement {
        x: monitor.left,
        y: monitor.top,
        width: monitor.right - monitor.left,
        height: monitor.bottom - monitor.top,
    }
}

/// The client rectangle of a window placed at `p` whose frame is `left`,
/// `top`, `right` and `bottom` pixels thick on each side.
pub open spec fn client_of(p: Placement, left: int, top: int, right: int, bottom: int) -> (int, int, int, int) {
    (p.x + left, p.y + top, p.x + p.width - right, p.y + p.height - bottom)
}

/// After the window was placed on the monitor, `window` and `client` are its
/// outer and client rectangles. An undecorated window can still report a few
/// pixels of frame that paints nothing; when it does, the window grows by
/// exactly that frame on each side so that the client rectangle lands on the
/// monitor and the frame hangs off-screen. `None` when there is no frame.
pub fn frame_compensation(monitor: Rect, window: Rect, client: Rect) -> (r: Option<Placement>)
    requires
        fits_i32(client.left - window.left),
        fits_i32(client.top - window.top),
        fits_i32(window.right - client.right),
        fits_i32(window.bottom - client.bottom),
        fits_i32(monitor.left - (client.left - window.left)),
        fits_i32(monitor.top - (client.top - window.top)),
        fits_i32(monitor.right - monitor.left),
        fits_i32(monitor.right - monitor.left + (client.left - window.left)),
        fits_i32(monitor.right - monitor.left + (client.left - window.left) + (window.right - client.right)),
        fits_i32(monitor.bottom - monitor.top),
        fits_i32(monitor.bottom - monitor.top + (client.top - window.top)),
        fits_i32(monitor.bottom - monitor.top + (client.top - window.top) + (window.bottom - client.bottom)),
    ensures
        r is None <==> (client.left == window.left && client.top == window.top && window.right
            == client.right && window.bottom == client.bottom),
        r matches Some(p) ==> client_of(
            p,
            client.left - window.left,
            client.top - window.top,
            window.right - client.right,
            window.bottom - client.bottom,
        ) == (monitor.left as int, monitor.top as int, monitor.right as int, monitor.bottom as int),
{
    let bl = client.left - window.left;
    let bt = client.top - window.top;
    let br = window.right - client.right;
    let bb = window.bottom - client.bottom;
    if bl != 0 || bt != 0 || br != 0 || bb != 0 {
        Some(
            Placement {
                x: monitor.left - bl,
                y: monitor.top - bt,
                width: (monitor.right - monitor.left) + bl + br,
                height: (monitor.bottom - monitor.top) + bt + bb,
            },
        )
    } else {
        None
    }
}

} // verus!
