//! Drawing operations over a frame.
use vstd::prelude::*;
use crate::gfx::bits::{
    band_mask, bit, lemma_and_not_bit, lemma_band_mask_bit, lemma_moved_rows_bit, lemma_or_bit,
    moved_rows,
};
use crate::gfx::font::{Font, Glyph};
use crate::gfx::frame::{lemma_band_bound, lemma_byte_index_bound, lemma_byte_index_unique, Frame};
use crate::gfx::geometry::{lemma_intersect_contains, Rect, Size, Vector};
use crate::gfx::text::{char_inks, codepoint, lemma_hull_grows, pen_at, text_hull, text_ink, Hull};

verus! {

/// The two states of a pixel.
#[derive(Clone, Copy, Debug, PartialEq, Eq, Structural)]
pub enum Color {
    Light,
    Dark,
}

/// What painting leaves behind: `new` is `old` with every pixel that `ink`
/// selects set to `color`, and every other pixel as it was.
pub open spec fn painted(
    old: Frame,
    new: Frame,
    ink: spec_fn(int, int) -> bool,
    color: Color,
) -> bool {
    &&& new.wf()
    &&& new.spec_size() == old.spec_size()
    &&& forall|x: int, y: int|
        old.in_bounds(x, y) ==> #[trigger] new.pixel(x, y) == (if ink(x, y) {
            color == Color::Light
        } else {
            old.pixel(x, y)
        })
}

/// The pixels that a glyph inks when its bitmap corner lies at `(left, top)`.
pub open spec fn glyph_ink(glyph: Glyph, left: int, top: int) -> spec_fn(int, int) -> bool {
    |x: int, y: int| glyph.inks(x - left, y - top)
}

/// The part of a glyph's ink that a blit has carried over so far: all rows
/// above `y`, and of the `n` rows from `y` on, the columns left of `x`.
pub open spec fn blit_ink(glyph: Glyph, left: int, top: int, y: int, n: int, x: int) -> spec_fn(
    int,
    int,
) -> bool {
    |px: int, py: int|
        glyph.inks(px - left, py - top) && (py - top < y || (py - top < y + n && px - left < x))
}

/// The byte that one step of a blit writes.
pub open spec fn blit_byte(prev: u8, moved: u8, color: Color) -> u8 {
    if color == Color::Light {
        prev | moved
    } else {
        prev & !moved
    }
}

/// One step of a blit: writing the byte for column `x` of the rows
/// `y .. y + n` carries the blit's progress one column on.
proof fn lemma_blit_step(
    old: Frame,
    prev: Frame,
    next: Frame,
    glyph: Glyph,
    left: int,
    top: int,
    color: Color,
    y: int,
    n: int,
    x: int,
)
    requires
        old.wf(),
        glyph.wf(),
        0 <= y < glyph.spec_height(),
        1 <= n,
        y % 8 + n <= 8,
        (top + y) % 8 + n <= 8,
        y + n <= glyph.spec_height(),
        0 <= top + y < old.spec_size().height,
        0 <= x < glyph.spec_width(),
        0 <= x + left < old.spec_size().width,
        painted(old, prev, blit_ink(glyph, left, top, y, n, x), color),
        next.spec_size() == prev.spec_size(),
        next@ == prev@.update(
            ((top + y) / 8) * old.spec_size().width + (x + left),
            blit_byte(
                prev@[((top + y) / 8) * old.spec_size().width + (x + left)],
                moved_rows(
                    glyph@[(y / 8) * glyph.spec_width() + x],
                    (y % 8) as u8,
                    ((top + y) % 8) as u8,
                    n as u8,
                ),
                color,
            ),
        ),
    ensures
        painted(old, next, blit_ink(glyph, left, top, y, n, x + 1), color),
{
    let width = old.spec_size().width as int;
    let bands = old.spec_size().height as int / 8;
    let out_y = top + y;
    let band = out_y / 8;
    let col = x + left;
    let idx = band * width + col;
    let in_shift = (y % 8) as u8;
    let out_shift = (out_y % 8) as u8;
    let src = glyph@[(y / 8) * glyph.spec_width() + x];
    let moved = moved_rows(src, in_shift, out_shift, n as u8);
    lemma_byte_index_bound(width, bands, band, col);
    assert forall|px: int, py: int| old.in_bounds(px, py) implies #[trigger] next.pixel(px, py) == (
    if blit_ink(glyph, left, top, y, n, x + 1)(px, py) {
        color == Color::Light
    } else {
        old.pixel(px, py)
    }) by {
        let gx = px - left;
        let gy = py - top;
        lemma_byte_index_bound(width, bands, py / 8, px);
        assert(prev.pixel(px, py) == (if blit_ink(glyph, left, top, y, n, x)(px, py) {
            color == Color::Light
        } else {
            old.pixel(px, py)
        }));
        if prev.byte_index(px, py) == idx {
            lemma_byte_index_unique(width, py / 8, px, band, col);
            let k = (py % 8) as u8;
            assert(gx == x);
            assert(gy == (k as int) - (out_shift as int) + y);
            lemma_moved_rows_bit(src, in_shift, out_shift, n as u8, k);
            lemma_or_bit(prev@[idx], moved, k);
            lemma_and_not_bit(prev@[idx], moved, k);
            if y <= gy < y + n {
                assert(gy / 8 == y / 8);
                assert(gy % 8 == (k as int) - (out_shift as int) + (in_shift as int));
                assert(glyph.pixel(gx, gy) == bit(src, (k - out_shift + in_shift) as u8));
            }
        } else {
            assert(next.pixel(px, py) == prev.pixel(px, py));
            if y <= gy < y + n && gx == x {
                assert(py / 8 == band);
                assert(false);
            }
        }
    }
}

/// The part of a rectangle that a fill has covered so far: all bands above
/// `band`, and of that band, the columns left of `x`.
pub open spec fn fill_ink(rect: Rect, band: int, x: int) -> spec_fn(int, int) -> bool {
    |px: int, py: int| rect.contains(px, py) && (py / 8 < band || (py / 8 == band && px < x))
}

/// One step of a fill: masking the byte of column `x` in `band` carries
/// the fill's progress one column on.
proof fn lemma_fill_step(
    old: Frame,
    prev: Frame,
    next: Frame,
    rect: Rect,
    color: Color,
    band: int,
    x: int,
    lo: u8,
    hi: u8,
)
    requires
        old.wf(),
        0 <= rect.spec_left() <= x < rect.spec_right() <= old.spec_size().width,
        0 <= rect.spec_top() < rect.spec_bottom() <= old.spec_size().height,
        rect.spec_top() / 8 <= band <= (rect.spec_bottom() - 1) / 8,
        lo == (if band == rect.spec_top() / 8 { rect.spec_top() % 8 } else { 0 }),
        hi == (if band == (rect.spec_bottom() - 1) / 8 { (rect.spec_bottom() - 1) % 8 } else { 7 }),
        painted(old, prev, fill_ink(rect, band, x), color),
        next.spec_size() == prev.spec_size(),
        next@ == prev@.update(
            band * old.spec_size().width + x,
            blit_byte(prev@[band * old.spec_size().width + x], band_mask(lo, hi), color),
        ),
    ensures
        lo <= hi < 8,
        painted(old, next, fill_ink(rect, band, x + 1), color),
{
    let width = old.spec_size().width as int;
    let bands = old.spec_size().height as int / 8;
    let idx = band * width + x;
    let mask = band_mask(lo, hi);
    lemma_byte_index_bound(width, bands, band, x);
    assert forall|px: int, py: int| old.in_bounds(px, py) implies #[trigger] next.pixel(px, py) == (
    if fill_ink(rect, band, x + 1)(px, py) {
        color == Color::Light
    } else {
        old.pixel(px, py)
    }) by {
        lemma_byte_index_bound(width, bands, py / 8, px);
        assert(prev.pixel(px, py) == (if fill_ink(rect, band, x)(px, py) {
            color == Color::Light
        } else {
            old.pixel(px, py)
        }));
        if prev.byte_index(px, py) == idx {
            lemma_byte_index_unique(width, py / 8, px, band, x);
            let k = (py % 8) as u8;
            lemma_band_mask_bit(lo, hi, k);
            lemma_or_bit(prev@[idx], mask, k);
            lemma_and_not_bit(prev@[idx], mask, k);
            assert((lo <= k <= hi) == (rect.spec_top() <= py < rect.spec_bottom()));
        } else {
            assert(next.pixel(px, py) == prev.pixel(px, py));
        }
    }
}

/// A frame together with the operations that draw on it.
pub struct Canvas {
    frame: Frame,
}

impl View for Canvas {
    type V = Frame;

    /// The frame being drawn on.
    closed spec fn view(&self) -> Frame {
        self.frame
    }
}

/// How far right of the frame the pen is followed. A glyph's corner lies at
/// most this far left of the pen, so from here on nothing reaches the frame.
const PEN_MARGIN: i128 = 0x8000;

impl Canvas {
    /// A canvas that draws on `frame`.
    pub fn new(frame: Frame) -> (c: Canvas)
        ensures
            c@ == frame,
    {
        Canvas { frame }
    }

    /// Gives the frame back, with what was drawn on it.
    pub fn take_frame(self) -> (f: Frame)
        ensures
            f == self@,
    {
        self.frame
    }

    /// Sets the one pixel at `point`, where the frame has it.
    pub fn set_pixel(&mut self, point: Vector, color: Color)
        requires
            old(self)@.wf(),
        ensures
            painted(
                old(self)@,
                final(self)@,
                |x: int, y: int| x == point.x && y == point.y,
                color,
            ),
    {
        let ghost before = self@;
        let dot = Rect::ps(point, Size::wh(1, 1));
        self.draw_rect(dot, color);
        proof {
            assert forall|x: int, y: int| before.in_bounds(x, y) implies #[trigger] self@.pixel(
                x,
                y,
            ) == (if x == point.x && y == point.y {
                color == Color::Light
            } else {
                before.pixel(x, y)
            }) by {
                assert(dot.contains(x, y) == (x == point.x && y == point.y));
            }
        }
    }

    /// Fills the part of `rect` that lies on the frame with `color`. The
    /// rectangle may start and end at any pixel row: within a band only the
    /// bits of its rows change.
    pub fn draw_rect(&mut self, rect: Rect, color: Color)
        requires
            old(self)@.wf(),
        ensures
            painted(old(self)@, final(self)@, |x: int, y: int| rect.contains(x, y), color),
    {
        let bounds = Rect::ps(Vector::zero(), self.frame.size());
        let clipped = rect.intersect(bounds);
        proof {
            assert forall|x: int, y: int| old(self)@.in_bounds(x, y) implies (rect.contains(x, y)
                == clipped.contains(x, y)) by {
                lemma_intersect_contains(rect, bounds, x, y);
            }
        }
        if clipped.size.width == 0 || clipped.size.height == 0 {
            return ;
        }
        let width: usize = self.frame.size().width;
        let left: usize = clipped.pos.x as usize;
        let right: usize = left + clipped.size.width;
        let top: usize = clipped.pos.y as usize;
        let bottom: usize = top + clipped.size.height - 1;
        let last_band: usize = bottom / 8;
        let mut row: usize = top / 8;
        assert(painted(old(self)@, self@, fill_ink(clipped, row as int, left as int), color));
        while row <= last_band
            invariant
                old(self)@.wf(),
                width == old(self)@.spec_size().width,
                clipped.pos.x >= 0,
                clipped.pos.y >= 0,
                left == clipped.spec_left(),
                right == clipped.spec_right(),
                top == clipped.spec_top(),
                bottom == clipped.spec_bottom() - 1,
                left < right <= width,
                top <= bottom < old(self)@.spec_size().height,
                last_band == bottom / 8,
                top / 8 <= row <= last_band + 1,
                painted(old(self)@, self@, fill_ink(clipped, row as int, left as int), color),
            decreases last_band + 1 - row,
        {
            let lo: u8 = if row == top / 8 { (top % 8) as u8 } else { 0 };
            let hi: u8 = if row == last_band { (bottom % 8) as u8 } else { 7 };
            assert(lo <= hi);
            let mut mask: u8 = 0xff;
            mask = mask >> lo;
            mask = mask << lo;
            mask = mask << (7 - hi);
            mask = mask >> (7 - hi);
            proof {
                lemma_band_bound(width as int, old(self)@.spec_size().height as int / 8, row as int);
            }
            let base: usize = row * width;
            let mut x: usize = left;
            while x < right
                invariant
                    old(self)@.wf(),
                    width == old(self)@.spec_size().width,
                    clipped.pos.x >= 0,
                    clipped.pos.y >= 0,
                    left == clipped.spec_left(),
                    right == clipped.spec_right(),
                    top == clipped.spec_top(),
                    bottom == clipped.spec_bottom() - 1,
                    left <= x <= right <= width,
                    top <= bottom < old(self)@.spec_size().height,
                    last_band == bottom / 8,
                    top / 8 <= row <= last_band,
                    lo == (if row == top / 8 { top % 8 } else { 0 }),
                    hi == (if row == last_band { bottom % 8 } else { 7 }),
                    mask == band_mask(lo, hi),
                    base == row * width,
                    painted(old(self)@, self@, fill_ink(clipped, row as int, x as int), color),
                decreases right - x,
            {
                proof {
                    lemma_byte_index_bound(
                        width as int,
                        old(self)@.spec_size().height as int / 8,
                        row as int,
                        x as int,
                    );
                }
                let ghost prev = self@;
                let pos: usize = base + x;
                let out = self.frame.mut_data();
                if color == Color::Light {
                    out[pos] = out[pos] | mask;
                } else {
                    out[pos] = out[pos] & !mask;
                }
                proof {
                    lemma_fill_step(old(self)@, prev, self@, clipped, color, row as int, x as int, lo, hi);
                }
                x += 1;
            }
            proof {
                lemma_band_filled(old(self)@, self@, clipped, color, row as int);
            }
            row += 1;
        }
        proof {
            assert forall|x: int, y: int| old(self)@.in_bounds(x, y) implies #[trigger] self@.pixel(
                x,
                y,
            ) == (if rect.contains(x, y) {
                color == Color::Light
            } else {
                old(self)@.pixel(x, y)
            }) by {
                assert(fill_ink(clipped, row as int, left as int)(x, y) == clipped.contains(x, y));
            }
        }
    }

    /// Copies a glyph's set bits into the frame, with the pen at
    /// `(pen_x, pen_y)`.
    fn blit(&mut self, pen_x: i128, pen_y: i16, glyph: &Glyph, color: Color)
        requires
            old(self)@.wf(),
            glyph.wf(),
            -PEN_MARGIN <= pen_x <= old(self)@.spec_size().width + PEN_MARGIN,
        ensures
            painted(
                old(self)@,
                final(self)@,
                glyph_ink(
                    *glyph,
                    pen_x + glyph.spec_rect().spec_left(),
                    pen_y + glyph.spec_rect().spec_top(),
                ),
                color,
            ),
    {
        let rect = glyph.rect();
        let left: i128 = pen_x + rect.pos.x as i128;
        let top: i128 = pen_y as i128 + rect.pos.y as i128;
        let frame_width: usize = self.frame.size().width;
        let frame_height: usize = self.frame.size().height;
        let width: usize = rect.size.width;
        let height: usize = rect.size.height;
        let x_start: i128 = if left < 0 { -left } else { 0 };
        let x_end: i128 = if width as i128 <= frame_width as i128 - left {
            width as i128
        } else {
            frame_width as i128 - left
        };

        let mut y: usize = 0;
        while y < height && top + (y as i128) < frame_height as i128
            invariant
                old(self)@.wf(),
                glyph.wf(),
                rect == glyph.spec_rect(),
                width == rect.size.width,
                height == rect.size.height,
                frame_width == old(self)@.spec_size().width,
                frame_height == old(self)@.spec_size().height,
                left == pen_x + rect.pos.x,
                top == pen_y + rect.pos.y,
                -2 * PEN_MARGIN <= left <= frame_width + 2 * PEN_MARGIN,
                x_start == if left < 0 { -left } else { 0 },
                x_end == if width <= frame_width - left { width as int } else { frame_width - left },
                y <= height,
                painted(old(self)@, self@, blit_ink(*glyph, left as int, top as int, y as int, 0, 0), color),
            decreases height - y,
        {
            let out_y: i128 = top + y as i128;
            if out_y < 0 {
                proof {
                    lemma_skip_row(old(self)@, self@, *glyph, left as int, top as int, color, y as int);
                }
                y += 1;
            } else {
                let out_row: usize = out_y as usize;
                let in_shift: u8 = (y % 8) as u8;
                let out_shift: u8 = (out_row % 8) as u8;
                let mut rows_to_copy: u8 = if 8 - in_shift <= 8 - out_shift {
                    8 - in_shift
                } else {
                    8 - out_shift
                };
                if height - y < rows_to_copy as usize {
                    rows_to_copy = (height - y) as u8;
                }
                proof {
                    lemma_band_bound(frame_width as int, frame_height as int / 8, out_row as int / 8);
                    assert(y as int / 8 < (height as int + 7) / 8);
                    lemma_band_bound(width as int, glyph.bands(), y as int / 8);
                }
                let in_base: usize = (y / 8) * width;
                let out_base: usize = (out_row / 8) * frame_width;
                let mut x: i128 = x_start;
                while x < x_end
                    invariant
                        old(self)@.wf(),
                        glyph.wf(),
                        rect == glyph.spec_rect(),
                        width == rect.size.width,
                        height == rect.size.height,
                        frame_width == old(self)@.spec_size().width,
                        frame_height == old(self)@.spec_size().height,
                        -2 * PEN_MARGIN <= left <= frame_width + 2 * PEN_MARGIN,
                        x_start == if left < 0 { -left } else { 0 },
                        x_end == if width <= frame_width - left {
                            width as int
                        } else {
                            frame_width - left
                        },
                        x_start <= x,
                        y < height,
                        out_y == top + y,
                        0 <= out_y < frame_height,
                        out_row == out_y,
                        in_shift == y % 8,
                        out_shift == out_row % 8,
                        1 <= rows_to_copy,
                        in_shift + rows_to_copy <= 8,
                        out_shift + rows_to_copy <= 8,
                        y + rows_to_copy <= height,
                        in_base == (y / 8) * width,
                        out_base == (out_row / 8) * frame_width,
                        painted(
                            old(self)@,
                            self@,
                            blit_ink(
                                *glyph,
                                left as int,
                                top as int,
                                y as int,
                                rows_to_copy as int,
                                x as int,
                            ),
                            color,
                        ),
                    decreases x_end - x,
                {
                    proof {
                        lemma_byte_index_bound(
                            frame_width as int,
                            frame_height as int / 8,
                            out_row as int / 8,
                            (x + left) as int,
                        );
                        assert(y as int / 8 < (height as int + 7) / 8);
                        lemma_byte_index_bound(
                            width as int,
                            glyph.bands(),
                            y as int / 8,
                            x as int,
                        );
                    }
                    let ghost prev = self@;
                    let out_index: usize = out_base + (x + left) as usize;
                    let source: u8 = glyph.data()[in_base + x as usize];
                    let mask: u8 = (0xffu8 << (8 - rows_to_copy)) >> (8 - rows_to_copy);
                    let inp: u8 = ((source >> in_shift) & mask) << out_shift;
                    let out = self.frame.mut_data();
                    if color == Color::Light {
                        out[out_index] = out[out_index] | inp;
                    } else {
                        out[out_index] = out[out_index] & !inp;
                    }
                    proof {
                        assert(inp == moved_rows(source, in_shift, out_shift, rows_to_copy));
                        lemma_blit_step(
                            old(self)@,
                            prev,
                            self@,
                            *glyph,
                            left as int,
                            top as int,
                            color,
                            y as int,
                            rows_to_copy as int,
                            x as int,
                        );
                    }
                    x += 1;
                }
                proof {
                    lemma_rows_done(
                        old(self)@,
                        self@,
                        *glyph,
                        left as int,
                        top as int,
                        color,
                        y as int,
                        rows_to_copy as int,
                        x as int,
                    );
                }
                y += rows_to_copy as usize;
            }
        }
        proof {
            lemma_blit_done(old(self)@, self@, *glyph, left as int, top as int, color, y as int);
        }
    }

    /// Draws `text` from `pos` on. Every pixel that a glyph of the text
    /// inks takes `color`; a character that the font lacks draws nothing
    /// and takes no room.
    pub fn draw_text(&mut self, pos: Vector, font: &Font, text: &str, color: Color)
        requires
            old(self)@.wf(),
            font.wf(),
        ensures
            painted(old(self)@, final(self)@, text_ink(*font, pos, text@, text@.len() as int), color),
    {
        let limit: i128 = self.frame.size().width as i128 + PEN_MARGIN;
        let mut pen: i128 = pos.x as i128;
        proof {
            assert forall|x: int, y: int| old(self)@.in_bounds(x, y) implies !text_ink(
                *font,
                pos,
                text@,
                0,
            )(x, y) by {}
        }
        for c in it: text.chars()
            invariant
                old(self)@.wf(),
                font.wf(),
                it.seq() == text@,
                limit == old(self)@.spec_size().width + PEN_MARGIN,
                pen == (if pen_at(*font, pos.x as int, text@, it.index() as int) <= limit {
                    pen_at(*font, pos.x as int, text@, it.index() as int)
                } else {
                    limit as int
                }),
                pen >= -PEN_MARGIN,
                painted(old(self)@, self@, text_ink(*font, pos, text@, it.index() as int), color),
        {
            let ghost k = it.index() as int;
            let ghost prev = self@;
            match font.get_glyph(c as u32) {
                Some(glyph) => {
                    self.blit(pen, pos.y, glyph, color);
                    proof {
                        lemma_text_step(old(self)@, prev, self@, *font, pos, text@, k, pen as int, color);
                    }
                    let advance: i128 = glyph.rect().size.width as i128 + 1;
                    pen = if pen + advance > limit { limit } else { pen + advance };
                },
                None => {
                    proof {
                        lemma_text_skip(old(self)@, self@, *font, pos, text@, k, color);
                    }
                },
            }
        }
    }

    /// The box around `pos` and the rectangles of the glyphs of `text`,
    /// each where `draw_text` would place it. Nothing is drawn. The box
    /// must be one that a `Rect` can hold; `try_get_text_rect` finds out.
    pub fn get_text_rect(&self, pos: Vector, font: &Font, text: &str) -> (r: Rect)
        requires
            font.wf(),
            text_hull(*font, pos, text@, text@.len() as int).fits(),
        ensures
            text_hull(*font, pos, text@, text@.len() as int).is_rect(r),
    {
        self.try_get_text_rect(pos, font, text).unwrap()
    }

    /// The box that `get_text_rect` gives, or `None` where the box leaves
    /// the coordinate grid or is larger than a `Rect` can say.
    pub fn try_get_text_rect(&self, pos: Vector, font: &Font, text: &str) -> (r: Option<Rect>)
        requires
            font.wf(),
        ensures
            r is Some <==> text_hull(*font, pos, text@, text@.len() as int).fits(),
            r matches Some(rect) ==> text_hull(*font, pos, text@, text@.len() as int).is_rect(rect),
    {
        let mut pen: i128 = pos.x as i128;
        let mut left: i128 = pos.x as i128;
        let mut top: i128 = pos.y as i128;
        let mut right: i128 = pos.x as i128;
        let mut bottom: i128 = pos.y as i128;
        for c in it: text.chars()
            invariant
                font.wf(),
                it.seq() == text@,
                pen == pen_at(*font, pos.x as int, text@, it.index() as int),
                pos.x <= pen <= right + 0x8001,
                text_hull(*font, pos, text@, it.index() as int).fits(),
                text_hull(*font, pos, text@, it.index() as int) == (Hull {
                    left: left as int,
                    top: top as int,
                    right: right as int,
                    bottom: bottom as int,
                }),
        {
            let ghost k = it.index() as int;
            proof {
                lemma_hull_grows(*font, pos, text@, 0, k);
            }
            match font.get_glyph(c as u32) {
                Some(glyph) => {
                    let rect = glyph.rect();
                    let glyph_left: i128 = pen + rect.pos.x as i128;
                    let glyph_top: i128 = pos.y as i128 + rect.pos.y as i128;
                    let glyph_right: i128 = glyph_left + rect.size.width as i128;
                    let glyph_bottom: i128 = glyph_top + rect.size.height as i128;
                    if glyph_left < left {
                        left = glyph_left;
                    }
                    if glyph_right > right {
                        right = glyph_right;
                    }
                    if glyph_top < top {
                        top = glyph_top;
                    }
                    if glyph_bottom > bottom {
                        bottom = glyph_bottom;
                    }
                    if left < i16::MIN as i128 || top < i16::MIN as i128 || right - left
                        > usize::MAX as i128 || bottom - top > usize::MAX as i128 {
                        proof {
                            lemma_hull_grows(*font, pos, text@, k + 1, text@.len() as int);
                        }
                        return None;
                    }
                    pen = pen + rect.size.width as i128 + 1;
                },
                None => {},
            }
        }
        proof {
            lemma_hull_grows(*font, pos, text@, 0, text@.len() as int);
        }
        Some(
            Rect::ps(
                Vector::xy(left as i16, top as i16),
                Size::wh((right - left) as usize, (bottom - top) as usize),
            ),
        )
    }

    /// Draws one glyph with the pen at `pos`: every pixel of the frame that
    /// a set bit of the glyph falls on takes `color`, all others stay.
    pub fn draw_glyph(&mut self, pos: Vector, glyph: &Glyph, color: Color)
        requires
            old(self)@.wf(),
            glyph.wf(),
        ensures
            painted(
                old(self)@,
                final(self)@,
                |x: int, y: int| glyph.inks_from(pos.x as int, pos.y as int, x, y),
                color,
            ),
    {
        let ghost before = self@;
        let pen_x: i128 = if pos.x as i128 > self.frame.size().width as i128 + PEN_MARGIN {
            self.frame.size().width as i128 + PEN_MARGIN
        } else {
            pos.x as i128
        };
        self.blit(pen_x, pos.y, glyph, color);
        proof {
            let left = pen_x + glyph.spec_rect().spec_left();
            let top = pos.y + glyph.spec_rect().spec_top();
            assert forall|x: int, y: int| before.in_bounds(x, y) implies #[trigger] self@.pixel(
                x,
                y,
            ) == (if glyph.inks_from(pos.x as int, pos.y as int, x, y) {
                color == Color::Light
            } else {
                before.pixel(x, y)
            }) by {
                assert(glyph_ink(*glyph, left, top)(x, y) == glyph.inks(x - left, y - top));
            }
        }
    }
}

/// Drawing the glyph of character `k` carries the text's ink one
/// character on. The pen may have been held back at the frame's far
/// margin, from where no glyph reaches the frame.
proof fn lemma_text_step(
    old: Frame,
    prev: Frame,
    cur: Frame,
    font: Font,
    pos: Vector,
    text: Seq<char>,
    k: int,
    pen: int,
    color: Color,
)
    requires
        0 <= k < text.len(),
        font@.contains_key(codepoint(text, k)),
        pen == pen_at(font, pos.x as int, text, k) || (pen == old.spec_size().width + PEN_MARGIN
            && pen <= pen_at(font, pos.x as int, text, k)),
        painted(old, prev, text_ink(font, pos, text, k), color),
        painted(
            prev,
            cur,
            glyph_ink(
                font@[codepoint(text, k)],
                pen + font@[codepoint(text, k)].spec_rect().spec_left(),
                pos.y + font@[codepoint(text, k)].spec_rect().spec_top(),
            ),
            color,
        ),
    ensures
        painted(old, cur, text_ink(font, pos, text, k + 1), color),
{
    let glyph = font@[codepoint(text, k)];
    let left = pen + glyph.spec_rect().spec_left();
    let top = pos.y + glyph.spec_rect().spec_top();
    assert forall|x: int, y: int| old.in_bounds(x, y) implies #[trigger] cur.pixel(x, y) == (
    if text_ink(font, pos, text, k + 1)(x, y) {
        color == Color::Light
    } else {
        old.pixel(x, y)
    }) by {
        assert(prev.in_bounds(x, y));
        assert(prev.pixel(x, y) == (if text_ink(font, pos, text, k)(x, y) {
            color == Color::Light
        } else {
            old.pixel(x, y)
        }));
        assert(glyph_ink(glyph, left, top)(x, y) == char_inks(font, pos, text, k, x, y));
        if text_ink(font, pos, text, k)(x, y) {
            let j = choose|j: int| 0 <= j < k && char_inks(font, pos, text, j, x, y);
            assert(0 <= j < k + 1 && char_inks(font, pos, text, j, x, y));
        }
        if text_ink(font, pos, text, k + 1)(x, y) {
            let j = choose|j: int| 0 <= j < k + 1 && char_inks(font, pos, text, j, x, y);
            if j < k {
                assert(0 <= j < k && char_inks(font, pos, text, j, x, y));
            }
        }
    }
}

/// A character without a glyph adds no ink.
proof fn lemma_text_skip(
    old: Frame,
    cur: Frame,
    font: Font,
    pos: Vector,
    text: Seq<char>,
    k: int,
    color: Color,
)
    requires
        0 <= k < text.len(),
        !font@.contains_key(codepoint(text, k)),
        painted(old, cur, text_ink(font, pos, text, k), color),
    ensures
        painted(old, cur, text_ink(font, pos, text, k + 1), color),
{
    assert forall|x: int, y: int| old.in_bounds(x, y) implies #[trigger] cur.pixel(x, y) == (
    if text_ink(font, pos, text, k + 1)(x, y) {
        color == Color::Light
    } else {
        old.pixel(x, y)
    }) by {
        if text_ink(font, pos, text, k)(x, y) {
            let j = choose|j: int| 0 <= j < k && char_inks(font, pos, text, j, x, y);
            assert(0 <= j < k + 1 && char_inks(font, pos, text, j, x, y));
        }
        if text_ink(font, pos, text, k + 1)(x, y) {
            let j = choose|j: int| 0 <= j < k + 1 && char_inks(font, pos, text, j, x, y);
            assert(0 <= j < k && char_inks(font, pos, text, j, x, y));
        }
    }
}

/// A band whose columns are all masked is done.
proof fn lemma_band_filled(old: Frame, cur: Frame, rect: Rect, color: Color, band: int)
    requires
        painted(old, cur, fill_ink(rect, band, rect.spec_right()), color),
    ensures
        painted(old, cur, fill_ink(rect, band + 1, rect.spec_left()), color),
{
    assert forall|px: int, py: int| old.in_bounds(px, py) implies #[trigger] cur.pixel(px, py) == (
    if fill_ink(rect, band + 1, rect.spec_left())(px, py) {
        color == Color::Light
    } else {
        old.pixel(px, py)
    }) by {
        assert(fill_ink(rect, band, rect.spec_right())(px, py) == fill_ink(
            rect,
            band + 1,
            rect.spec_left(),
        )(px, py));
    }
}

/// A row of the glyph that falls above the frame needs no copying.
proof fn lemma_skip_row(
    old: Frame,
    cur: Frame,
    glyph: Glyph,
    left: int,
    top: int,
    color: Color,
    y: int,
)
    requires
        top + y < 0,
        painted(old, cur, blit_ink(glyph, left, top, y, 0, 0), color),
    ensures
        painted(old, cur, blit_ink(glyph, left, top, y + 1, 0, 0), color),
{
    assert forall|px: int, py: int| old.in_bounds(px, py) implies #[trigger] cur.pixel(px, py) == (
    if blit_ink(glyph, left, top, y + 1, 0, 0)(px, py) {
        color == Color::Light
    } else {
        old.pixel(px, py)
    }) by {
        assert(blit_ink(glyph, left, top, y, 0, 0)(px, py) == blit_ink(glyph, left, top, y + 1, 0, 0)(
            px,
            py,
        ));
    }
}

/// Once the columns that reach the frame are written, the rows are done.
proof fn lemma_rows_done(
    old: Frame,
    cur: Frame,
    glyph: Glyph,
    left: int,
    top: int,
    color: Color,
    y: int,
    n: int,
    x: int,
)
    requires
        0 <= n,
        x >= (if glyph.spec_width() <= old.spec_size().width - left {
            glyph.spec_width()
        } else {
            old.spec_size().width - left
        }),
        painted(old, cur, blit_ink(glyph, left, top, y, n, x), color),
    ensures
        painted(old, cur, blit_ink(glyph, left, top, y + n, 0, 0), color),
{
    assert forall|px: int, py: int| old.in_bounds(px, py) implies #[trigger] cur.pixel(px, py) == (
    if blit_ink(glyph, left, top, y + n, 0, 0)(px, py) {
        color == Color::Light
    } else {
        old.pixel(px, py)
    }) by {
        assert(blit_ink(glyph, left, top, y, n, x)(px, py) == blit_ink(glyph, left, top, y + n, 0, 0)(
            px,
            py,
        ));
    }
}

/// Once the row cursor has passed the glyph or the frame, the blit is done.
proof fn lemma_blit_done(
    old: Frame,
    cur: Frame,
    glyph: Glyph,
    left: int,
    top: int,
    color: Color,
    y: int,
)
    requires
        y >= glyph.spec_height() || top + y >= old.spec_size().height,
        painted(old, cur, blit_ink(glyph, left, top, y, 0, 0), color),
    ensures
        painted(old, cur, glyph_ink(glyph, left, top), color),
{
    assert forall|px: int, py: int| old.in_bounds(px, py) implies #[trigger] cur.pixel(px, py) == (
    if glyph_ink(glyph, left, top)(px, py) {
        color == Color::Light
    } else {
        old.pixel(px, py)
    }) by {
        assert(blit_ink(glyph, left, top, y, 0, 0)(px, py) == glyph_ink(glyph, left, top)(px, py));
    }
}

} // verus!
