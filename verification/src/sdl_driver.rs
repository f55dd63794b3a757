//! The picture that a windowed simulator presents for a frame.
//!
//! The simulator itself, with its window and its renderer, lives outside
//! this library. What it shows is computed here: one four-byte pixel per
//! frame pixel, row by row.
use vstd::prelude::*;
use crate::gfx::bits::bit;
use crate::gfx::frame::{lemma_byte_index_bound, Frame};

verus! {

/// How many window pixels one frame pixel takes, each way.
pub const SCALE: u32 = 4;

/// The four bytes of a light pixel.
pub const LIGHT_PIXEL: [u8; 4] = [0xff, 0xff, 0xff, 0xff];

/// The four bytes of a dark pixel.
pub const DARK_PIXEL: [u8; 4] = [0xff, 0x00, 0x00, 0xff];

/// The byte at offset `k` of the picture's pixel for a frame pixel that
/// is light or not.
pub open spec fn pixel_byte(light: bool, k: int) -> u8 {
    if light || k == 0 || k == 3 {
        0xff
    } else {
        0x00
    }
}

/// Whether `bitmap` is the picture of `frame`: four bytes for each pixel,
/// in rows from top to bottom.
pub open spec fn is_picture(frame: Frame, bitmap: Seq<u8>) -> bool {
    &&& bitmap.len() == 4 * (frame.spec_size().width * frame.spec_size().height)
    &&& forall|x: int, y: int, k: int|
        frame.in_bounds(x, y) && 0 <= k < 4 ==> #[trigger] bitmap[4 * (y * frame.spec_size().width
            + x) + k] == pixel_byte(frame.pixel(x, y), k)
}

/// The picture of `frame`, for a texture of four bytes per pixel.
pub fn frame_bitmap(frame: &Frame) -> (bitmap: Vec<u8>)
    requires
        frame.wf(),
        4 * (frame.spec_size().width * frame.spec_size().height) <= usize::MAX,
    ensures
        is_picture(*frame, bitmap@),
{
    let width: usize = frame.size().width;
    let height: usize = frame.size().height;
    let mut bitmap: Vec<u8> = Vec::new();
    let mut y: usize = 0;
    while y < height
        invariant
            frame.wf(),
            width == frame.spec_size().width,
            height == frame.spec_size().height,
            y <= height,
            bitmap@.len() == 4 * (y * width),
            forall|px: int, py: int, k: int|
                0 <= px < width && 0 <= py < y && 0 <= k < 4 ==> #[trigger] bitmap@[4 * (py * width
                    + px) + k] == pixel_byte(frame.pixel(px, py), k),
        decreases height - y,
    {
        let mut x: usize = 0;
        while x < width
            invariant
                frame.wf(),
                width == frame.spec_size().width,
                height == frame.spec_size().height,
                y < height,
                x <= width,
                bitmap@.len() == 4 * (y * width + x),
                forall|px: int, py: int, k: int|
                    0 <= px < width && 0 <= k < 4 && (0 <= py < y || (py == y && px < x))
                        ==> #[trigger] bitmap@[4 * (py * width + px) + k] == pixel_byte(
                        frame.pixel(px, py),
                        k,
                    ),
            decreases width - x,
        {
            proof {
                lemma_byte_index_bound(width as int, height as int / 8, y as int / 8, x as int);
            }
            let byte: u8 = frame.data()[(y / 8) * width + x];
            let light: bool = ((byte >> (y % 8) as u8) & 1) > 0;
            assert(light == bit(byte, (y % 8) as u8)) by (bit_vector)
                requires
                    light == (((byte >> (y % 8) as u8) & 1) > 0),
            ;
            let ghost before = bitmap@;
            let pixel: [u8; 4] = if light { LIGHT_PIXEL } else { DARK_PIXEL };
            bitmap.push(pixel[0]);
            bitmap.push(pixel[1]);
            bitmap.push(pixel[2]);
            bitmap.push(pixel[3]);
            proof {
                assert forall|px: int, py: int, k: int|
                    0 <= px < width && 0 <= k < 4 && (0 <= py < y || (py == y && px < x + 1))
                    implies #[trigger] bitmap@[4 * (py * width + px) + k] == pixel_byte(
                    frame.pixel(px, py),
                    k,
                ) by {
                    if py == y && px == x {
                    } else {
                        lemma_row_major_order(width as int, px, py, x as int, y as int);
                        assert(bitmap@[4 * (py * width + px) + k] == before[4 * (py * width + px)
                            + k]);
                    }
                }
            }
            x += 1;
        }
        proof {
            assert((y + 1) * width == y * width + width) by (nonlinear_arith);
        }
        y += 1;
    }
    proof {
        assert(height * width == width * height) by (nonlinear_arith);
    }
    bitmap
}

/// A pixel before `(x, y)` in reading order has a smaller index.
proof fn lemma_row_major_order(width: int, px: int, py: int, x: int, y: int)
    requires
        0 <= px < width,
        0 <= x < width,
        0 <= py,
        py < y || (py == y && px < x),
    ensures
        0 <= py * width + px < y * width + x,
{
    assert(0 <= py * width && (py < y ==> py * width + width <= y * width)) by (nonlinear_arith)
        requires
            0 <= py,
            0 <= width,
    ;
}

} // verus!
