use mono_display::gfx::{Frame, Size};

#[test]
fn new_frame_is_dark_and_sized() {
    let f = Frame::new(Size::wh(16, 24));
    assert_eq!(f.size(), Size::wh(16, 24));
    assert_eq!(f.num_rows(), 3);
    assert_eq!(f.data().len(), 48);
    assert!(f.data().iter().all(|b| *b == 0));
}

#[test]
fn panel_sized_frames_have_the_panel_buffer_length() {
    assert_eq!(Frame::new(Size::wh(128, 32)).data().len(), 512);
    assert_eq!(Frame::new(Size::wh(128, 64)).data().len(), 1024);
}

#[test]
fn empty_frames_have_no_bytes() {
    assert_eq!(Frame::new(Size::wh(0, 8)).data().len(), 0);
    assert_eq!(Frame::new(Size::wh(8, 0)).data().len(), 0);
    assert_eq!(Frame::new(Size::wh(8, 0)).num_rows(), 0);
}

#[test]
fn mut_data_writes_show_in_data() {
    let mut f = Frame::new(Size::wh(4, 16));
    f.mut_data()[5] = 0xA5;
    assert_eq!(f.data(), &[0, 0, 0, 0, 0, 0xA5, 0, 0][..]);
}

#[test]
fn clear_zeroes_every_byte_and_keeps_the_size() {
    let mut f = Frame::new(Size::wh(4, 16));
    for b in f.mut_data().iter_mut() {
        *b = 0xFF;
    }
    f.clear();
    assert_eq!(f.size(), Size::wh(4, 16));
    assert_eq!(f.data(), &[0u8; 8][..]);
}
