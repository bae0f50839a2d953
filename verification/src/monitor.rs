//! The displays that a capture can choose from, as the platform lists them.

use vstd::prelude::*;

verus! {

/// A display's position on the virtual desktop and its size, in pixels.
#[derive(Clone, Copy)]
pub struct Monitor {
    pub left: i32,
    pub top: i32,
    pub height: i32,
    pub width: i32,
}

impl Monitor {
    /// The display covering the rectangle from (`left`, `top`) to (`right`, `bottom`).
    pub fn from_rect(left: i32, top: i32, right: i32, bottom: i32) -> (m: Monitor)
        requires
            i32::MIN <= bottom - top <= i32::MAX,
            i32::MIN <= right - left <= i32::MAX,
        ensures
            m.left == left,
            m.top == top,
            m.height == bottom - top,
            m.width == right - left,
    {
        Monitor { left, top, height: bottom - top, width: right - left }
    }
}

/// The display numbered `screen` in the order the platform listed them.
pub fn select_monitor(monitors: Vec<Monitor>, screen: usize) -> (result: Result<Monitor, &'static str>)
    ensures
        match result {
            Ok(m) => screen < monitors@.len() && m == monitors@[screen as int],
            Err(e) => screen >= monitors@.len() && e@ == "failed to get specified screen"@,
        },
{
    if screen < monitors.len() {
        Ok(monitors[screen])
    } else {
        Err("failed to get specified screen")
    }
}

} // verus!
