//! Screen geometry: the window handle the backend draws into and the
//! point-in-rectangle test that picks the monitor under the mouse.

use vstd::prelude::*;

verus! {

/// A window of the windowing backend, carried by its numeric handle.
pub struct Window {
    pub window: u64,
}

impl Window {
    /// Wraps a backend window handle.
    pub fn new(window: u64) -> (w: Window)
        ensures
            w.window == window,
    {
        Window { window }
    }
}

/// Whether a point lies in a rectangle, borders included; the rectangle
/// comes as origin and size, as the screen query reports monitors.
pub fn in_rect(point: (i32, i32), rect: (i16, i16), rect_size: (i16, i16)) -> (r: bool)
    ensures
        r == (rect.0 <= point.0 <= rect.0 + rect_size.0 && rect.1 <= point.1 <= rect.1
            + rect_size.1),
{
    point.0 >= rect.0 as i32 && point.0 <= rect.0 as i32 + rect_size.0 as i32 && point.1
        >= rect.1 as i32 && point.1 <= rect.1 as i32 + rect_size.1 as i32
}

} // verus!
