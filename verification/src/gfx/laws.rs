//! What follows from the contracts of the drawing operations.
use vstd::prelude::*;
use crate::gfx::canvas::{painted, Color};
use crate::gfx::font::Font;
use crate::gfx::frame::{lemma_pixels_determine_bytes, Frame};
use crate::gfx::geometry::{lemma_intersect_contains, lemma_intersect_empty, Rect, Size, Vector};
use crate::gfx::text::{char_inks, codepoint, lemma_hull_grows, pen_at, text_hull, text_ink};

verus! {

/// The rectangle of all pixels of a frame of size `size`.
pub open spec fn bounds(size: Size) -> Rect {
    Rect { pos: Vector { x: 0, y: 0 }, size }
}

/// Painting is determined: what is painted where, and in which color,
/// fixes every byte of the result.
pub proof fn law_painting_is_determined(
    old: Frame,
    one: Frame,
    other: Frame,
    ink: spec_fn(int, int) -> bool,
    color: Color,
)
    requires
        painted(old, one, ink, color),
        painted(old, other, ink, color),
    ensures
        one@ == other@,
{
    assert forall|x: int, y: int| one.in_bounds(x, y) implies one.pixel(x, y) == other.pixel(
        x,
        y,
    ) by {
        assert(old.in_bounds(x, y));
    }
    lemma_pixels_determine_bytes(one, other);
}

/// Painting depends on the ink only where the frame has pixels.
pub proof fn law_ink_counts_on_frame_only(
    old: Frame,
    new: Frame,
    ink: spec_fn(int, int) -> bool,
    other_ink: spec_fn(int, int) -> bool,
    color: Color,
)
    requires
        painted(old, new, ink, color),
        forall|x: int, y: int| old.in_bounds(x, y) ==> ink(x, y) == other_ink(x, y),
    ensures
        painted(old, new, other_ink, color),
{
    assert forall|x: int, y: int| old.in_bounds(x, y) implies #[trigger] new.pixel(x, y) == (
    if other_ink(x, y) {
        color == Color::Light
    } else {
        old.pixel(x, y)
    }) by {
        assert(ink(x, y) == other_ink(x, y));
    }
}

/// Painting with ink that misses the frame changes no byte.
pub proof fn law_no_ink_no_change(
    old: Frame,
    new: Frame,
    ink: spec_fn(int, int) -> bool,
    color: Color,
)
    requires
        old.wf(),
        painted(old, new, ink, color),
        forall|x: int, y: int| old.in_bounds(x, y) ==> !ink(x, y),
    ensures
        new@ == old@,
{
    assert forall|x: int, y: int| new.in_bounds(x, y) implies new.pixel(x, y) == old.pixel(x, y) by {
        assert(old.in_bounds(x, y));
    }
    lemma_pixels_determine_bytes(new, old);
}

/// A rectangle that lies wholly outside the frame changes no byte.
pub proof fn law_rect_outside_changes_nothing(old: Frame, new: Frame, rect: Rect, color: Color)
    requires
        old.wf(),
        painted(old, new, |x: int, y: int| rect.contains(x, y), color),
        rect.spec_intersect(bounds(old.spec_size())) == Rect::spec_zero(),
    ensures
        new@ == old@,
{
    lemma_intersect_empty(rect, bounds(old.spec_size()));
    assert forall|x: int, y: int| old.in_bounds(x, y) implies !rect.contains(x, y) by {
        assert(bounds(old.spec_size()).contains(x, y));
    }
    law_no_ink_no_change(old, new, |x: int, y: int| rect.contains(x, y), color);
}

/// A rectangle is clipped to exactly its visible part: drawing it is
/// drawing its intersection with the frame.
pub proof fn law_rect_is_clipped(old: Frame, new: Frame, rect: Rect, color: Color)
    ensures
        painted(old, new, |x: int, y: int| rect.contains(x, y), color) <==> painted(
            old,
            new,
            |x: int, y: int| rect.spec_intersect(bounds(old.spec_size())).contains(x, y),
            color,
        ),
{
    let whole = |x: int, y: int| rect.contains(x, y);
    let clipped = |x: int, y: int| rect.spec_intersect(bounds(old.spec_size())).contains(x, y);
    assert forall|x: int, y: int| old.in_bounds(x, y) implies whole(x, y) == clipped(x, y) by {
        lemma_intersect_contains(rect, bounds(old.spec_size()), x, y);
        assert(bounds(old.spec_size()).contains(x, y));
    }
    if painted(old, new, whole, color) {
        law_ink_counts_on_frame_only(old, new, whole, clipped, color);
    }
    if painted(old, new, clipped, color) {
        law_ink_counts_on_frame_only(old, new, clipped, whole, color);
    }
}

/// Measuring and drawing agree: no glyph of a text inks a pixel outside
/// the box that `get_text_rect` gives for the text.
pub proof fn law_text_ink_lies_in_text_rect(
    font: Font,
    pos: Vector,
    text: Seq<char>,
    x: int,
    y: int,
)
    requires
        text_ink(font, pos, text, text.len() as int)(x, y),
    ensures
        text_hull(font, pos, text, text.len() as int).left <= x < text_hull(
            font,
            pos,
            text,
            text.len() as int,
        ).right,
        text_hull(font, pos, text, text.len() as int).top <= y < text_hull(
            font,
            pos,
            text,
            text.len() as int,
        ).bottom,
{
    let k = choose|k: int| 0 <= k < text.len() && char_inks(font, pos, text, k, x, y);
    let glyph = font@[codepoint(text, k)];
    let pen = pen_at(font, pos.x as int, text, k);
    let after = text_hull(font, pos, text, k + 1);
    assert(after == text_hull(font, pos, text, k).stretch(glyph.spec_rect(), pen, pos.y as int));
    lemma_hull_grows(font, pos, text, k + 1, text.len() as int);
}

} // verus!
