//! Capture a bitmap image of a display. The resulting screenshot is stored in
//! the `Screenshot` type; the platform's own capture hands its raw bitmap to
//! one of `Screenshot`'s constructors, which bring it into a common layout.

pub mod bitmap;
pub mod monitor;
pub mod screenshot;

pub use screenshot::{Pixel, ScreenResult, Screenshot};
