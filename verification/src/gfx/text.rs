//! Where the glyphs of a text go.
//!
//! Drawing a text and measuring it follow one rule: the pen starts at the
//! given position and moves right over the characters; a character without
//! a glyph is passed over and does not move the pen; a glyph is placed at
//! the pen, which then moves on by the glyph's width and one pixel.
use vstd::prelude::*;
use crate::gfx::font::Font;
use crate::gfx::geometry::{Rect, Vector};

verus! {

/// The codepoint of the character at index `k`.
pub open spec fn codepoint(text: Seq<char>, k: int) -> u32 {
    text[k] as u32
}

/// The x position of the pen when it reaches the character at index `k`.
pub open spec fn pen_at(font: Font, start: int, text: Seq<char>, k: int) -> int
    decreases k,
{
    if k <= 0 {
        start
    } else {
        let before = pen_at(font, start, text, k - 1);
        if font@.contains_key(codepoint(text, k - 1)) {
            before + font@[codepoint(text, k - 1)].spec_width() + 1
        } else {
            before
        }
    }
}

/// Whether the character at index `k` has a glyph that inks `(x, y)`.
pub open spec fn char_inks(font: Font, pos: Vector, text: Seq<char>, k: int, x: int, y: int) -> bool {
    &&& font@.contains_key(codepoint(text, k))
    &&& font@[codepoint(text, k)].inks_from(pen_at(font, pos.x as int, text, k), pos.y as int, x, y)
}

/// The pixels that the first `upto` characters of a text ink.
pub open spec fn text_ink(font: Font, pos: Vector, text: Seq<char>, upto: int) -> spec_fn(
    int,
    int,
) -> bool {
    |x: int, y: int| exists|k: int| 0 <= k < upto && char_inks(font, pos, text, k, x, y)
}

/// The four edges of a box: left, top, right, bottom.
pub struct Hull {
    pub left: int,
    pub top: int,
    pub right: int,
    pub bottom: int,
}

impl Hull {
    /// The smallest box that holds this one and the edges of `rect` moved
    /// by `(dx, dy)`.
    pub open spec fn stretch(self, rect: Rect, dx: int, dy: int) -> Hull {
        Hull {
            left: if dx + rect.spec_left() < self.left { dx + rect.spec_left() } else { self.left },
            top: if dy + rect.spec_top() < self.top { dy + rect.spec_top() } else { self.top },
            right: if dx + rect.spec_right() > self.right {
                dx + rect.spec_right()
            } else {
                self.right
            },
            bottom: if dy + rect.spec_bottom() > self.bottom {
                dy + rect.spec_bottom()
            } else {
                self.bottom
            },
        }
    }

    /// Whether a `Rect` can hold this box.
    pub open spec fn fits(self) -> bool {
        &&& i16::MIN <= self.left <= i16::MAX
        &&& i16::MIN <= self.top <= i16::MAX
        &&& 0 <= self.right - self.left <= usize::MAX
        &&& 0 <= self.bottom - self.top <= usize::MAX
    }

    /// Whether `rect` has the edges of this box.
    pub open spec fn is_rect(self, rect: Rect) -> bool {
        &&& rect.spec_left() == self.left
        &&& rect.spec_top() == self.top
        &&& rect.spec_right() == self.right
        &&& rect.spec_bottom() == self.bottom
    }
}

/// The box around the pen's start and the rectangles of the glyphs of the
/// first `upto` characters, each where the pen places it.
pub open spec fn text_hull(font: Font, pos: Vector, text: Seq<char>, upto: int) -> Hull
    decreases upto,
{
    if upto <= 0 {
        Hull { left: pos.x as int, top: pos.y as int, right: pos.x as int, bottom: pos.y as int }
    } else {
        let before = text_hull(font, pos, text, upto - 1);
        if font@.contains_key(codepoint(text, upto - 1)) {
            before.stretch(
                font@[codepoint(text, upto - 1)].spec_rect(),
                pen_at(font, pos.x as int, text, upto - 1),
                pos.y as int,
            )
        } else {
            before
        }
    }
}

/// The box only grows as characters are added, and it always holds the
/// pen's start.
pub proof fn lemma_hull_grows(font: Font, pos: Vector, text: Seq<char>, j: int, k: int)
    requires
        j <= k,
    ensures
        text_hull(font, pos, text, k).left <= text_hull(font, pos, text, j).left <= pos.x,
        text_hull(font, pos, text, k).top <= text_hull(font, pos, text, j).top <= pos.y,
        text_hull(font, pos, text, k).right >= text_hull(font, pos, text, j).right >= pos.x,
        text_hull(font, pos, text, k).bottom >= text_hull(font, pos, text, j).bottom >= pos.y,
    decreases k,
{
    if k > 0 {
        if j < k {
            lemma_hull_grows(font, pos, text, j, k - 1);
        } else {
            lemma_hull_grows(font, pos, text, j - 1, k - 1);
        }
    }
}

} // verus!
