//! Drawing into bit-packed monochrome frames.
//!
//! A frame stores eight vertically stacked pixels per byte. Everything that
//! draws is specified pixel by pixel, through [`Frame::pixel`]; the packed
//! bytes follow from the pixels by [`frame::lemma_pixels_determine_bytes`].
pub mod bits;
pub mod canvas;
pub mod font;
pub mod frame;
pub mod geometry;
pub mod laws;
pub mod text;

pub use self::canvas::{Canvas, Color};
pub use self::font::{Font, Glyph, GlyphBitmap};
pub use self::frame::Frame;
pub use self::geometry::{Rect, Size, Vector};
