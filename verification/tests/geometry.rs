use mono_display::gfx::{Rect, Size, Vector};

#[test]
fn size_constructors() {
    let s = Size::wh(128, 32);
    assert_eq!(s.width, 128);
    assert_eq!(s.height, 32);
    assert_eq!(Size::zero(), Size::wh(0, 0));
}

#[test]
fn vector_constructors_and_moves() {
    let v = Vector::xy(-3, 7);
    assert_eq!(v.x, -3);
    assert_eq!(v.y, 7);
    assert_eq!(Vector::zero(), Vector::xy(0, 0));
    assert_eq!(v.add_xy(5, -10), Vector::xy(2, -3));
    assert_eq!(v + Vector::xy(1, 1), Vector::xy(-2, 8));
    assert_eq!(Vector::xy(32000, -32000).add_xy(767, -768), Vector::xy(32767, -32768));
}

#[test]
fn rect_constructors_agree() {
    let r = Rect::xywh(2, 3, 10, 20);
    assert_eq!(r, Rect::ps(Vector::xy(2, 3), Size::wh(10, 20)));
    assert_eq!(r, Rect::ltrb(2, 3, 12, 23));
    assert_eq!(Rect::zero(), Rect::xywh(0, 0, 0, 0));
}

#[test]
fn ltrb_spans_the_whole_grid() {
    let r = Rect::ltrb(-32768, -32768, 32767, 32767);
    assert_eq!(r.pos, Vector::xy(-32768, -32768));
    assert_eq!(r.size, Size::wh(65535, 65535));
}

#[test]
fn rect_edges() {
    let r = Rect::xywh(-4, 6, 10, 3);
    assert_eq!(r.left(), -4);
    assert_eq!(r.right(), 6);
    assert_eq!(r.top(), 6);
    assert_eq!(r.bottom(), 9);
}

#[test]
fn rect_translate_keeps_size() {
    let r = Rect::xywh(1, 2, 3, 4).translate(Vector::xy(-10, 10));
    assert_eq!(r, Rect::xywh(-9, 12, 3, 4));
}

#[test]
fn intersect_of_overlapping_rects() {
    let a = Rect::xywh(0, 0, 10, 10);
    let b = Rect::xywh(5, -3, 10, 8);
    assert_eq!(a.intersect(b), Rect::xywh(5, 0, 5, 5));
    assert_eq!(b.intersect(a), Rect::xywh(5, 0, 5, 5));
}

#[test]
fn intersect_of_nested_rects_is_the_inner_one() {
    let outer = Rect::xywh(-10, -10, 100, 100);
    let inner = Rect::xywh(3, 4, 5, 6);
    assert_eq!(outer.intersect(inner), inner);
    assert_eq!(inner.intersect(outer), inner);
}

#[test]
fn intersect_of_disjoint_rects_is_canonical_empty() {
    let a = Rect::xywh(3, 4, 10, 10);
    let b = Rect::xywh(20, 4, 2, 2);
    assert_eq!(a.intersect(b), Rect::ps(Vector::zero(), Size::zero()));
    assert_eq!(a.intersect(b), Rect::zero());
}

#[test]
fn intersect_of_touching_rects_is_canonical_empty() {
    let a = Rect::xywh(3, 4, 10, 10);
    let right_of_a = Rect::xywh(13, 4, 2, 2);
    let below_a = Rect::xywh(3, 14, 2, 2);
    assert_eq!(a.intersect(right_of_a), Rect::zero());
    assert_eq!(a.intersect(below_a), Rect::zero());
}

#[test]
fn intersect_with_an_empty_rect_is_canonical_empty() {
    let a = Rect::xywh(0, 0, 10, 10);
    let no_width = Rect::xywh(5, 5, 0, 3);
    assert_eq!(a.intersect(no_width), Rect::zero());
}

#[test]
fn intersect_takes_extents_beyond_the_grid() {
    let huge = Rect::xywh(-5, -5, usize::MAX, usize::MAX);
    let frame = Rect::xywh(0, 0, 128, 64);
    assert_eq!(huge.intersect(frame), frame);
    let wide = Rect::xywh(0, 0, 100_000, 8);
    assert_eq!(wide.intersect(wide), wide);
}
