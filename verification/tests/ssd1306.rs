use mono_display::gfx::{Canvas, Color, Frame, Rect, Size, Vector};
use mono_display::ssd1306::span::{find_span_end, SPAN_GAP};
use mono_display::ssd1306::{AddressMode, Ssd1306, Ssd1306Type, POWER_ON_MODE};
use mono_display::DisplayDriver;

/// A frame of the small panel with the given bytes set.
fn frame_with(bytes: &[(usize, u8)]) -> Frame {
    let mut f = Frame::new(Size::wh(128, 32));
    for (i, b) in bytes {
        f.mut_data()[*i] = *b;
    }
    f
}

/// A driver whose initialization has been sent.
fn ready(kind: Ssd1306Type) -> Ssd1306 {
    let mut d = Ssd1306::new(kind, false);
    let _ = d.take_outbox();
    d
}

/// A driver that has shown `frame` twice, so that the panel is in page mode.
fn showing(frame: &Frame) -> Ssd1306 {
    let mut d = ready(Ssd1306Type::S128x32);
    d.show_frame(frame.clone());
    d.show_frame(frame.clone());
    let _ = d.take_outbox();
    d
}

/// The controller as far as addressing goes: enough to replay traffic.
struct Panel {
    width: usize,
    pages: usize,
    ram: Vec<u8>,
    mode: u8,
    col: usize,
    page: usize,
    col_start: usize,
    col_end: usize,
    page_start: usize,
    page_end: usize,
}

impl Panel {
    fn new(width: usize, pages: usize, fill: u8) -> Panel {
        Panel {
            width,
            pages,
            ram: vec![fill; width * pages],
            mode: 0b10,
            col: 0,
            page: 0,
            col_start: 0,
            col_end: width - 1,
            page_start: 0,
            page_end: pages - 1,
        }
    }

    fn write(&mut self, b: u8) {
        self.ram[self.page * self.width + self.col] = b;
        match self.mode {
            0b10 => {
                self.col = if self.col + 1 < self.width { self.col + 1 } else { 0 };
            }
            0b00 => {
                if self.col < self.col_end {
                    self.col += 1;
                } else {
                    self.col = self.col_start;
                    self.page = if self.page < self.page_end { self.page + 1 } else { self.page_start };
                }
            }
            _ => {
                if self.page < self.page_end {
                    self.page += 1;
                } else {
                    self.page = self.page_start;
                    self.col = if self.col < self.col_end { self.col + 1 } else { self.col_start };
                }
            }
        }
    }

    fn command(&mut self, cmd: &[u8]) {
        match cmd[0] {
            0x20 => self.mode = cmd[1],
            0x21 => {
                self.col_start = cmd[1] as usize;
                self.col_end = cmd[2] as usize;
                self.col = self.col_start;
            }
            0x22 => {
                self.page_start = cmd[1] as usize;
                self.page_end = cmd[2] as usize;
                self.page = self.page_start;
            }
            0xB0..=0xB7 if self.mode == 0b10 => {
                if ((cmd[0] & 7) as usize) < self.pages {
                    self.page = (cmd[0] & 7) as usize;
                }
            }
            0x00..=0x0F if self.mode == 0b10 => self.col = (self.col & 0xF0) | cmd[0] as usize,
            0x10..=0x1F if self.mode == 0b10 => {
                self.col = (self.col & 0x0F) | (((cmd[0] & 0x0F) as usize) << 4)
            }
            _ => {}
        }
    }

    fn receive(&mut self, packets: &[Vec<u8>]) {
        for p in packets {
            match p[0] {
                0x00 => self.command(&p[1..]),
                0x40 => {
                    for b in &p[1..] {
                        self.write(*b);
                    }
                }
                _ => panic!("unknown control byte"),
            }
        }
    }
}

/// A frame with a picture that depends on `seed`.
fn picture(size: Size, seed: u32) -> Frame {
    let mut f = Frame::new(size);
    let mut state = seed;
    for b in f.mut_data().iter_mut() {
        state = state.wrapping_mul(1664525).wrapping_add(1013904223);
        // mostly unchanged bytes, so that spans and gaps both occur
        *b = if (state >> 24) % 5 == 0 { (state >> 16) as u8 } else { 0 };
    }
    f
}

#[test]
fn power_on_mode_is_page() {
    assert_eq!(POWER_ON_MODE, AddressMode::Page);
}

#[test]
fn span_gap_is_four() {
    assert_eq!(SPAN_GAP, 4);
}

#[test]
fn new_queues_the_initialization_of_the_small_panel() {
    let mut d = Ssd1306::new(Ssd1306Type::S128x32, false);
    let expected: Vec<Vec<u8>> = vec![
        vec![0x00, 0xAE],
        vec![0x00, 0xA8, 0x1F],
        vec![0x00, 0x8D, 0x14],
        vec![0x00, 0xB3, 0x80],
        vec![0x00, 0xD3, 0x00],
        vec![0x00, 0x40],
        vec![0x00, 0xA0],
        vec![0x00, 0xC0],
        vec![0x00, 0xDA, 0x02],
        vec![0x00, 0xD9, 0xF1],
        vec![0x00, 0xDB, 0x40],
        vec![0x00, 0xA4],
        vec![0x00, 0xA6],
        vec![0x00, 0x81, 0x8F],
        vec![0x00, 0xAF],
    ];
    assert_eq!(d.take_outbox(), expected);
}

#[test]
fn new_queues_the_initialization_of_the_large_panel_flipped() {
    let mut d = Ssd1306::new(Ssd1306Type::S128x64, true);
    let packets = d.take_outbox();
    assert_eq!(packets.len(), 15);
    assert_eq!(packets[1], vec![0x00, 0xA8, 0x3F]);
    assert_eq!(packets[6], vec![0x00, 0xA1]);
    assert_eq!(packets[7], vec![0x00, 0xC8]);
    assert_eq!(packets[8], vec![0x00, 0xDA, 0x12]);
}

#[test]
fn initialize_queues_the_sequence_again() {
    let mut d = ready(Ssd1306Type::S128x32);
    d.initialize(true);
    let packets = d.take_outbox();
    assert_eq!(packets.len(), 15);
    assert_eq!(packets[0], vec![0x00, 0xAE]);
    assert_eq!(packets[6], vec![0x00, 0xA1]);
    assert_eq!(packets[14], vec![0x00, 0xAF]);
}

#[test]
fn take_outbox_empties_the_outbox() {
    let mut d = Ssd1306::new(Ssd1306Type::S128x32, false);
    assert_eq!(d.take_outbox().len(), 15);
    assert!(d.take_outbox().is_empty());
}

#[test]
fn packets_are_framed_with_their_control_byte() {
    let mut d = ready(Ssd1306Type::S128x32);
    d.send_command(&[0x81, 0x8F]);
    d.send_data(&[1, 2, 3]);
    d.i2c_send(0x80, &[]);
    assert_eq!(d.take_outbox(), vec![vec![0x00, 0x81, 0x8F], vec![0x40, 1, 2, 3], vec![0x80]]);
}

#[test]
fn panel_sizes() {
    assert_eq!(ready(Ssd1306Type::S128x32).size(), Size::wh(128, 32));
    assert_eq!(ready(Ssd1306Type::S128x64).size(), Size::wh(128, 64));
}

#[test]
fn address_mode_is_sent_only_when_it_changes() {
    let mut d = ready(Ssd1306Type::S128x32);
    d.set_address_mode(AddressMode::Page);
    assert!(d.take_outbox().is_empty());
    d.set_address_mode(AddressMode::Horizontal);
    assert_eq!(d.take_outbox(), vec![vec![0x00, 0x20, 0x00]]);
    d.set_address_mode(AddressMode::Horizontal);
    assert!(d.take_outbox().is_empty());
    d.set_address_mode(AddressMode::Vertical);
    assert_eq!(d.take_outbox(), vec![vec![0x00, 0x20, 0x01]]);
    d.set_address_mode(AddressMode::Page);
    assert_eq!(d.take_outbox(), vec![vec![0x00, 0x20, 0x02]]);
}

#[test]
fn first_frame_goes_out_whole() {
    let mut d = ready(Ssd1306Type::S128x32);
    let f = frame_with(&[(0, 0x11), (511, 0x99)]);
    d.show_frame(f.clone());
    let packets = d.take_outbox();
    assert_eq!(packets.len(), 4);
    assert_eq!(packets[0], vec![0x00, 0x20, 0x00]);
    assert_eq!(packets[1], vec![0x00, 0x21, 0, 127]);
    assert_eq!(packets[2], vec![0x00, 0x22, 0, 3]);
    assert_eq!(packets[3].len(), 513);
    assert_eq!(packets[3][0], 0x40);
    assert_eq!(&packets[3][1..], f.data());
}

#[test]
fn first_frame_of_the_large_panel_names_eight_pages() {
    let mut d = ready(Ssd1306Type::S128x64);
    d.show_frame(Frame::new(Size::wh(128, 64)));
    let packets = d.take_outbox();
    assert_eq!(packets[2], vec![0x00, 0x22, 0, 7]);
    assert_eq!(packets[3].len(), 1025);
}

#[test]
fn show_frame_whole_after_a_mode_switch_sends_no_mode_command() {
    let mut d = ready(Ssd1306Type::S128x32);
    d.set_address_mode(AddressMode::Horizontal);
    let _ = d.take_outbox();
    d.show_frame_whole(&Frame::new(Size::wh(128, 32)));
    let packets = d.take_outbox();
    assert_eq!(packets.len(), 3);
    assert_eq!(packets[0], vec![0x00, 0x21, 0, 127]);
}

#[test]
fn showing_a_frame_twice_sends_no_span() {
    let mut d = ready(Ssd1306Type::S128x32);
    let f = picture(Size::wh(128, 32), 7);
    d.show_frame(f.clone());
    let _ = d.take_outbox();
    d.show_frame(f.clone());
    // only the switch from horizontal to page mode
    assert_eq!(d.take_outbox(), vec![vec![0x00, 0x20, 0x02]]);
    d.show_frame(f.clone());
    assert!(d.take_outbox().is_empty());
}

#[test]
fn differing_bytes_at_0_3_and_10_make_two_spans() {
    let a = Frame::new(Size::wh(128, 32));
    let b = frame_with(&[(0, 0xA0), (3, 0xA3), (10, 0xAA)]);
    let mut d = showing(&a);
    d.show_frame(b);
    assert_eq!(
        d.take_outbox(),
        vec![
            vec![0x00, 0xB0],
            vec![0x00, 0x00],
            vec![0x00, 0x10],
            vec![0x40, 0xA0, 0, 0, 0xA3],
            vec![0x00, 0x0A],
            vec![0x00, 0x10],
            vec![0x40, 0xAA],
        ]
    );
}

#[test]
fn find_span_end_of_bytes_at_0_3_and_10() {
    let old = [0u8; 16];
    let mut new = [0u8; 16];
    new[0] = 1;
    new[3] = 1;
    new[10] = 1;
    assert_eq!(find_span_end(&old, &new), 4);
    assert_eq!(find_span_end(&old[10..], &new[10..]), 1);
}

#[test]
fn find_span_end_bridges_four_unchanged_bytes_and_not_five() {
    let old = [0u8; 16];
    let mut new = [0u8; 16];
    new[0] = 1;
    new[5] = 1;
    assert_eq!(find_span_end(&old, &new), 6);
    let mut new = [0u8; 16];
    new[0] = 1;
    new[6] = 1;
    assert_eq!(find_span_end(&old, &new), 1);
}

#[test]
fn find_span_end_chains_differing_bytes() {
    let old = [0u8; 32];
    let mut new = [0u8; 32];
    for i in [0usize, 5, 10, 15, 20] {
        new[i] = 1;
    }
    new[26] = 1;
    assert_eq!(find_span_end(&old, &new), 21);
}

#[test]
fn find_span_end_stops_at_the_end_of_the_row() {
    let old = [0u8; 4];
    let new = [1u8, 0, 0, 1];
    assert_eq!(find_span_end(&old, &new), 4);
    let new = [1u8, 0, 0, 0];
    assert_eq!(find_span_end(&old, &new), 1);
    assert_eq!(find_span_end(&old[..1], &new[..1]), 1);
}

#[test]
fn find_span_end_of_all_differing_bytes_is_the_length() {
    let old = [0u8; 9];
    let new = [1u8; 9];
    assert_eq!(find_span_end(&old, &new), 9);
}

#[test]
fn find_span_end_does_not_look_at_the_first_byte() {
    let old = [0u8; 8];
    let mut new = [0u8; 8];
    new[2] = 1;
    assert_eq!(find_span_end(&old, &new), 3);
    assert_eq!(find_span_end(&old, &old), 1);
}

#[test]
fn span_addresses_name_page_and_column() {
    let a = Frame::new(Size::wh(128, 32));
    let b = frame_with(&[(2 * 128 + 0x25, 0x5A), (3 * 128 + 127, 0x01)]);
    let mut d = showing(&a);
    d.show_frame(b);
    assert_eq!(
        d.take_outbox(),
        vec![
            vec![0x00, 0xB2],
            vec![0x00, 0x05],
            vec![0x00, 0x12],
            vec![0x40, 0x5A],
            vec![0x00, 0xB3],
            vec![0x00, 0x0F],
            vec![0x00, 0x17],
            vec![0x40, 0x01],
        ]
    );
}

#[test]
fn page_is_selected_once_for_all_spans_of_a_row() {
    let a = Frame::new(Size::wh(128, 32));
    let b = frame_with(&[(128 + 1, 1), (128 + 40, 2), (128 + 100, 3)]);
    let mut d = showing(&a);
    d.show_frame(b);
    let packets = d.take_outbox();
    assert_eq!(packets.len(), 10);
    assert_eq!(packets[0], vec![0x00, 0xB1]);
    assert_eq!(packets.iter().filter(|p| p[1] & 0xF0 == 0xB0 && p[0] == 0).count(), 1);
}

#[test]
fn spans_do_not_run_into_the_next_row() {
    let a = Frame::new(Size::wh(128, 32));
    let b = frame_with(&[(126, 1), (129, 2)]);
    let mut d = showing(&a);
    d.show_frame(b);
    assert_eq!(
        d.take_outbox(),
        vec![
            vec![0x00, 0xB0],
            vec![0x00, 0x0E],
            vec![0x00, 0x17],
            vec![0x40, 1],
            vec![0x00, 0xB1],
            vec![0x00, 0x01],
            vec![0x00, 0x10],
            vec![0x40, 2],
        ]
    );
}

#[test]
fn show_frame_diff_switches_to_page_mode_first() {
    let mut d = ready(Ssd1306Type::S128x32);
    d.set_address_mode(AddressMode::Vertical);
    let _ = d.take_outbox();
    let a = Frame::new(Size::wh(128, 32));
    let b = frame_with(&[(5, 9)]);
    d.show_frame_diff(&b, &a);
    assert_eq!(
        d.take_outbox(),
        vec![
            vec![0x00, 0x20, 0x02],
            vec![0x00, 0xB0],
            vec![0x00, 0x05],
            vec![0x00, 0x10],
            vec![0x40, 9],
        ]
    );
}

#[test]
fn differential_path_leaves_the_panel_as_the_whole_path_does() {
    for (kind, size) in
        [(Ssd1306Type::S128x32, Size::wh(128, 32)), (Ssd1306Type::S128x64, Size::wh(128, 64))]
    {
        for seed in 0..20u32 {
            let a = picture(size, seed);
            let b = picture(size, seed + 100);

            let mut by_diff = Panel::new(128, size.height / 8, 0xEE);
            let mut d = Ssd1306::new(kind, false);
            d.show_frame(a.clone());
            by_diff.receive(&d.take_outbox());
            assert_eq!(by_diff.ram, a.data());
            d.show_frame(b.clone());
            let traffic = d.take_outbox();
            by_diff.receive(&traffic);

            let mut by_whole = Panel::new(128, size.height / 8, 0x77);
            let mut w = Ssd1306::new(kind, false);
            w.show_frame(b.clone());
            by_whole.receive(&w.take_outbox());

            assert_eq!(by_diff.ram, b.data());
            assert_eq!(by_diff.ram, by_whole.ram);
            // the difference is cheaper than the frame
            let sent: usize = traffic.iter().map(|p| p.len()).sum();
            assert!(sent < b.data().len() + 13);
        }
    }
}

#[test]
fn a_run_of_frames_keeps_the_panel_in_step() {
    let size = Size::wh(128, 32);
    let mut panel = Panel::new(128, 4, 0xEE);
    let mut d = Ssd1306::new(Ssd1306Type::S128x32, false);
    panel.receive(&d.take_outbox());
    for i in 0..30i16 {
        let mut canvas = Canvas::new(d.get_frame());
        canvas.draw_rect(Rect::xywh(i * 3, i, 20, 9), Color::Light);
        canvas.set_pixel(Vector::xy(127 - i, 31), Color::Light);
        let frame = canvas.take_frame();
        assert_eq!(frame.size(), size);
        d.show_frame(frame.clone());
        panel.receive(&d.take_outbox());
        assert_eq!(panel.ram, frame.data());
    }
}

#[test]
fn get_frame_recycles_into_an_all_dark_frame() {
    let mut d = ready(Ssd1306Type::S128x32);
    let f1 = frame_with(&[(3, 0xFF), (300, 0x0F)]);
    d.show_frame(f1);
    // no frame has been displaced yet: a new one is made
    let mut next = d.get_frame();
    assert_eq!(next.size(), Size::wh(128, 32));
    assert!(next.data().iter().all(|b| *b == 0));
    next.mut_data()[7] = 0x55;
    d.show_frame(next);
    // the first frame has been displaced and comes back cleared
    let recycled = d.get_frame();
    assert_eq!(recycled.size(), Size::wh(128, 32));
    assert_eq!(recycled.data().len(), 512);
    assert!(recycled.data().iter().all(|b| *b == 0));
}

#[test]
fn get_frame_without_a_spare_makes_a_frame_of_the_panels_size() {
    let mut d = ready(Ssd1306Type::S128x64);
    let f = d.get_frame();
    assert_eq!(f.size(), Size::wh(128, 64));
    assert_eq!(f.data(), &[0u8; 1024][..]);
    let g = d.get_frame();
    assert_eq!(g.data(), &[0u8; 1024][..]);
}

#[test]
fn get_frame_queues_nothing() {
    let mut d = ready(Ssd1306Type::S128x32);
    let _ = d.get_frame();
    assert!(d.take_outbox().is_empty());
}

#[test]
fn frame_of_another_size_is_rejected() {
    let mut d = ready(Ssd1306Type::S128x32);
    assert!(d.show_frame_internal(Frame::new(Size::wh(128, 64))).is_err());
    assert!(d.show_frame_internal(Frame::new(Size::wh(64, 32))).is_err());
    assert!(d.show_frame_internal(Frame::new(Size::wh(0, 0))).is_err());
    // nothing was sent and nothing was committed: the next frame goes out whole
    assert!(d.take_outbox().is_empty());
    assert!(d.show_frame_internal(Frame::new(Size::wh(128, 32))).is_ok());
    assert_eq!(d.take_outbox().len(), 4);
}

#[test]
fn frame_of_another_size_does_not_displace_the_committed_one() {
    let a = frame_with(&[(9, 9)]);
    let mut d = showing(&a);
    assert!(d.show_frame_internal(Frame::new(Size::wh(128, 64))).is_err());
    assert!(d.take_outbox().is_empty());
    d.show_frame(a.clone());
    assert!(d.take_outbox().is_empty());
}

#[test]
fn after_a_failed_transfer_the_next_frame_goes_out_whole() {
    let a = frame_with(&[(9, 9)]);
    let mut d = showing(&a);
    d.transfer_failed();
    d.show_frame(a.clone());
    let packets = d.take_outbox();
    assert_eq!(packets.len(), 4);
    assert_eq!(packets[0], vec![0x00, 0x20, 0x00]);
    assert_eq!(&packets[3][1..], a.data());
}

#[test]
fn short_writes_are_failures() {
    assert!(Ssd1306::check_write(5, 5).is_ok());
    assert!(Ssd1306::check_write(5, 4).is_err());
    assert!(Ssd1306::check_write(5, 0).is_err());
    assert!(Ssd1306::check_write(0, 0).is_ok());
    assert!(Ssd1306::check_write(513, 513).is_ok());
}
