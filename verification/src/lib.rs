//! Monochrome bitmap graphics for small paged OLED panels.
//!
//! The crate has two halves. [`gfx`] renders pixels, rectangles and text into
//! a bit-packed [`gfx::Frame`]. [`ssd1306`] turns finished frames into the
//! bus traffic of a paged display controller, sending only the regions that
//! changed since the previous frame.
use vstd::prelude::*;

pub mod driver;
pub mod gfx;
pub mod sdl_driver;
pub mod ssd1306;

pub use self::driver::DisplayDriver;

verus! {

/// A failure reported by the library, carrying a human-readable message.
#[derive(Debug)]
pub struct Error {
    pub msg: String,
}

impl Error {
    /// Builds an error from a message slice.
    pub fn new(msg: &str) -> (e: Error)
        ensures
            e.msg@ == msg@,
    {
        Error { msg: msg.to_owned() }
    }

    /// Builds an error that takes ownership of `msg`.
    pub fn from_string(msg: String) -> (e: Error)
        ensures
            e.msg == msg,
    {
        Error { msg }
    }
}

} // verus!
