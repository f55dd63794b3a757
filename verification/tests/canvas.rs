use mono_display::gfx::{Canvas, Color, Frame, Glyph, Rect, Size, Vector};

fn dark(width: usize, height: usize) -> Canvas {
    Canvas::new(Frame::new(Size::wh(width, height)))
}

fn light(width: usize, height: usize) -> Canvas {
    let mut frame = Frame::new(Size::wh(width, height));
    for b in frame.mut_data().iter_mut() {
        *b = 0xFF;
    }
    Canvas::new(frame)
}

fn bytes(canvas: Canvas) -> Vec<u8> {
    canvas.take_frame().data().to_vec()
}

fn glyph(left: i16, top: i16, width: usize, height: usize, data: &[u8]) -> Glyph {
    Glyph::new(Rect::xywh(left, top, width, height), data.to_vec()).unwrap()
}

#[test]
fn take_frame_returns_the_frame() {
    let mut frame = Frame::new(Size::wh(2, 8));
    frame.mut_data()[1] = 7;
    let back = Canvas::new(frame).take_frame();
    assert_eq!(back.size(), Size::wh(2, 8));
    assert_eq!(back.data(), &[0, 7][..]);
}

#[test]
fn rect_of_height_3_at_y_1_touches_bits_1_to_3() {
    let mut c = dark(8, 8);
    c.draw_rect(Rect::xywh(2, 1, 3, 3), Color::Light);
    assert_eq!(bytes(c), vec![0, 0, 0x0E, 0x0E, 0x0E, 0, 0, 0]);
}

#[test]
fn dark_rect_clears_only_its_bits() {
    let mut c = light(8, 8);
    c.draw_rect(Rect::xywh(2, 1, 3, 3), Color::Dark);
    assert_eq!(bytes(c), vec![0xFF, 0xFF, 0xF1, 0xF1, 0xF1, 0xFF, 0xFF, 0xFF]);
}

#[test]
fn light_rect_keeps_bits_that_are_set() {
    let mut frame = Frame::new(Size::wh(2, 8));
    frame.mut_data()[0] = 0x81;
    frame.mut_data()[1] = 0x81;
    let mut c = Canvas::new(frame);
    c.draw_rect(Rect::xywh(0, 2, 1, 2), Color::Light);
    assert_eq!(bytes(c), vec![0x8D, 0x81]);
}

#[test]
fn rect_across_two_bands() {
    let mut c = dark(4, 16);
    c.draw_rect(Rect::xywh(1, 6, 2, 5), Color::Light);
    assert_eq!(bytes(c), vec![0, 0xC0, 0xC0, 0, 0, 0x07, 0x07, 0]);
}

#[test]
fn rect_across_three_bands_fills_the_middle_one() {
    let mut c = dark(2, 24);
    c.draw_rect(Rect::xywh(0, 4, 1, 16), Color::Light);
    assert_eq!(bytes(c), vec![0xF0, 0, 0xFF, 0, 0x0F, 0]);
}

#[test]
fn rect_that_ends_on_a_band_boundary() {
    let mut c = dark(1, 16);
    c.draw_rect(Rect::xywh(0, 0, 1, 8), Color::Light);
    assert_eq!(bytes(c), vec![0xFF, 0]);
}

#[test]
fn rect_outside_the_frame_changes_nothing() {
    let mut c = light(8, 8);
    c.draw_rect(Rect::xywh(100, 100, 5, 5), Color::Dark);
    c.draw_rect(Rect::xywh(-10, -10, 5, 5), Color::Dark);
    c.draw_rect(Rect::xywh(8, 0, 5, 5), Color::Dark);
    c.draw_rect(Rect::xywh(0, 8, 5, 5), Color::Dark);
    c.draw_rect(Rect::xywh(-5, 0, 5, 8), Color::Dark);
    assert_eq!(bytes(c), vec![0xFF; 8]);
}

#[test]
fn empty_rect_changes_nothing() {
    let mut c = dark(8, 8);
    c.draw_rect(Rect::xywh(2, 2, 0, 5), Color::Light);
    c.draw_rect(Rect::xywh(2, 2, 5, 0), Color::Light);
    c.draw_rect(Rect::zero(), Color::Light);
    assert_eq!(bytes(c), vec![0; 8]);
}

#[test]
fn rect_partly_outside_is_clipped_to_what_shows() {
    let mut c = dark(8, 8);
    c.draw_rect(Rect::xywh(-2, -2, 4, 4), Color::Light);
    assert_eq!(bytes(c), vec![0x03, 0x03, 0, 0, 0, 0, 0, 0]);
    let mut c = dark(8, 8);
    c.draw_rect(Rect::xywh(6, 5, 10, 10), Color::Light);
    assert_eq!(bytes(c), vec![0, 0, 0, 0, 0, 0, 0xE0, 0xE0]);
}

#[test]
fn rect_larger_than_the_grid_fills_the_frame() {
    let mut c = dark(3, 16);
    c.draw_rect(Rect::xywh(-5, -5, usize::MAX, usize::MAX), Color::Light);
    assert_eq!(bytes(c), vec![0xFF; 6]);
}

#[test]
fn clipped_rect_draws_what_its_intersection_draws() {
    let rect = Rect::xywh(-3, 5, 9, 30);
    let mut whole = dark(8, 16);
    whole.draw_rect(rect, Color::Light);
    let mut clipped = dark(8, 16);
    clipped.draw_rect(rect.intersect(Rect::xywh(0, 0, 8, 16)), Color::Light);
    assert_eq!(bytes(whole), bytes(clipped));
}

#[test]
fn set_pixel_sets_one_bit() {
    let mut c = dark(8, 16);
    c.set_pixel(Vector::xy(3, 10), Color::Light);
    let mut expected = vec![0u8; 16];
    expected[11] = 0x04;
    assert_eq!(bytes(c), expected);
}

#[test]
fn set_pixel_dark_clears_one_bit() {
    let mut c = light(2, 8);
    c.set_pixel(Vector::xy(1, 7), Color::Dark);
    assert_eq!(bytes(c), vec![0xFF, 0x7F]);
}

#[test]
fn set_pixel_outside_the_frame_changes_nothing() {
    let mut c = dark(2, 8);
    c.set_pixel(Vector::xy(2, 0), Color::Light);
    c.set_pixel(Vector::xy(0, 8), Color::Light);
    c.set_pixel(Vector::xy(-1, -1), Color::Light);
    assert_eq!(bytes(c), vec![0, 0]);
}

#[test]
fn glyph_on_a_band_boundary_is_copied_byte_for_byte() {
    let g = glyph(0, 0, 2, 8, &[0xFF, 0x81]);
    let mut c = dark(4, 16);
    c.draw_glyph(Vector::xy(1, 8), &g, Color::Light);
    assert_eq!(bytes(c), vec![0, 0, 0, 0, 0, 0xFF, 0x81, 0]);
}

#[test]
fn glyph_off_the_band_boundary_is_split_over_two_bands() {
    let g = glyph(0, 0, 2, 8, &[0xFF, 0x81]);
    let mut c = dark(4, 16);
    c.draw_glyph(Vector::xy(1, 3), &g, Color::Light);
    assert_eq!(bytes(c), vec![0, 0xF8, 0x08, 0, 0, 0x07, 0x04, 0]);
}

#[test]
fn glyph_offsets_move_the_bitmap() {
    let g = glyph(1, -8, 2, 8, &[0xFF, 0x81]);
    let mut c = dark(4, 8);
    c.draw_glyph(Vector::xy(0, 8), &g, Color::Light);
    assert_eq!(bytes(c), vec![0, 0xFF, 0x81, 0]);
}

#[test]
fn tall_glyph_with_a_partial_last_band() {
    let g = glyph(0, 0, 1, 11, &[0xAA, 0x05]);
    let mut c = dark(1, 24);
    c.draw_glyph(Vector::xy(0, 6), &g, Color::Light);
    assert_eq!(bytes(c), vec![0x80, 0x6A, 0x01]);
}

#[test]
fn bits_below_a_glyphs_last_row_are_not_drawn() {
    let g = glyph(0, 0, 1, 3, &[0xFF]);
    let mut c = dark(1, 8);
    c.draw_glyph(Vector::xy(0, 2), &g, Color::Light);
    assert_eq!(bytes(c), vec![0x1C]);
}

#[test]
fn glyph_rows_above_the_frame_are_skipped() {
    let g = glyph(0, 0, 2, 8, &[0xFF, 0x81]);
    let mut c = dark(2, 8);
    c.draw_glyph(Vector::xy(0, -3), &g, Color::Light);
    assert_eq!(bytes(c), vec![0x1F, 0x10]);
}

#[test]
fn glyph_rows_below_the_frame_are_dropped() {
    let g = glyph(0, 0, 2, 8, &[0xFF, 0x81]);
    let mut c = dark(2, 8);
    c.draw_glyph(Vector::xy(0, 5), &g, Color::Light);
    assert_eq!(bytes(c), vec![0xE0, 0x20]);
}

#[test]
fn glyph_columns_outside_the_frame_are_dropped() {
    let g = glyph(0, 0, 2, 8, &[0xFF, 0x81]);
    let mut c = dark(3, 8);
    c.draw_glyph(Vector::xy(-1, 0), &g, Color::Light);
    assert_eq!(bytes(c), vec![0x81, 0, 0]);
    let mut c = dark(3, 8);
    c.draw_glyph(Vector::xy(2, 0), &g, Color::Light);
    assert_eq!(bytes(c), vec![0, 0, 0xFF]);
}

#[test]
fn glyph_wholly_outside_the_frame_draws_nothing() {
    let g = glyph(0, 0, 2, 8, &[0xFF, 0x81]);
    let mut c = dark(3, 8);
    c.draw_glyph(Vector::xy(3, 0), &g, Color::Light);
    c.draw_glyph(Vector::xy(-2, 0), &g, Color::Light);
    c.draw_glyph(Vector::xy(0, 8), &g, Color::Light);
    c.draw_glyph(Vector::xy(0, -8), &g, Color::Light);
    c.draw_glyph(Vector::xy(32767, 32767), &g, Color::Light);
    c.draw_glyph(Vector::xy(-32768, -32768), &g, Color::Light);
    assert_eq!(bytes(c), vec![0, 0, 0]);
}

#[test]
fn dark_glyph_clears_only_where_its_bits_are_set() {
    let g = glyph(0, 0, 2, 8, &[0xFF, 0x81]);
    let mut c = light(4, 16);
    c.draw_glyph(Vector::xy(1, 3), &g, Color::Dark);
    assert_eq!(bytes(c), vec![0xFF, 0x07, 0xF7, 0xFF, 0xFF, 0xF8, 0xFB, 0xFF]);
}

#[test]
fn light_glyph_keeps_what_is_drawn() {
    let g = glyph(0, 0, 1, 8, &[0x0F]);
    let mut frame = Frame::new(Size::wh(1, 8));
    frame.mut_data()[0] = 0xA0;
    let mut c = Canvas::new(frame);
    c.draw_glyph(Vector::xy(0, 0), &g, Color::Light);
    assert_eq!(bytes(c), vec![0xAF]);
}

#[test]
fn empty_glyph_draws_nothing() {
    let g = glyph(0, 0, 0, 0, &[]);
    let mut c = dark(2, 8);
    c.draw_glyph(Vector::xy(0, 0), &g, Color::Light);
    assert_eq!(bytes(c), vec![0, 0]);
}
