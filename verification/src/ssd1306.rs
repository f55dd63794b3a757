//! The differential driver for SSD1306 paged OLED controllers.
//!
//! The driver does no I/O. It keeps the frame that the panel shows, works
//! out the bus traffic that turns it into the next one, and queues that
//! traffic in its outbox, packet by packet, for a transport to write out.
use vstd::prelude::*;
use vstd::slice::slice_subrange;
use crate::driver::DisplayDriver;
use crate::gfx::frame::{lemma_band_bound, Frame};
use crate::gfx::geometry::Size;
use crate::ssd1306::protocol::{
    column_high, column_low, command, data, diff_packets, init_sequence, mode_code, mode_switch,
    packet, page_row, page_select, row_packets, whole_packets, COMMAND_DISPLAY_OFF,
    COMMAND_DISPLAY_ON, CONTROL_COMMAND, CONTROL_DATA,
};
use crate::ssd1306::span::find_span_end;
use crate::Error;

pub mod laws;
pub mod panel;
pub mod protocol;
pub mod span;

verus! {

/// The panels that the driver knows, by resolution.
#[derive(Clone, Copy, Debug, PartialEq, Eq, Structural)]
pub enum Ssd1306Type {
    S128x32,
    S128x64,
}

/// How the controller moves its address pointer after each data byte.
#[derive(Clone, Copy, Debug, PartialEq, Eq, Structural)]
pub enum AddressMode {
    Page,
    Horizontal,
    Vertical,
}

/// The mode that the controller is in after power-on. The driver starts
/// out tracking this mode, so the first frame, which goes out in
/// horizontal mode, always sends a mode command.
pub const POWER_ON_MODE: AddressMode = AddressMode::Page;

/// The resolution of a panel of kind `kind`.
pub open spec fn panel_size(kind: Ssd1306Type) -> Size {
    match kind {
        Ssd1306Type::S128x32 => Size { width: 128, height: 32 },
        Ssd1306Type::S128x64 => Size { width: 128, height: 64 },
    }
}

/// The packets of a queue, each as its bytes.
pub open spec fn packets_view(queue: Seq<Vec<u8>>) -> Seq<Seq<u8>> {
    queue.map_values(|p: Vec<u8>| p@)
}

/// What a driver holds.
pub struct DriverState {
    pub kind: Ssd1306Type,
    /// The address mode that the panel was last told to use.
    pub mode: AddressMode,
    /// The last frame shown.
    pub committed: Option<Frame>,
    /// The frame that the last one displaced, kept to be drawn on again.
    pub spare: Option<Frame>,
    /// The packets not yet taken by the transport, oldest first.
    pub outbox: Seq<Seq<u8>>,
}

impl DriverState {
    /// Whether `frame` is a frame for this driver's panel.
    pub open spec fn takes(self, frame: Frame) -> bool {
        frame.wf() && frame.spec_size() == panel_size(self.kind)
    }

    /// Both kept frames are frames for the panel.
    pub open spec fn wf(self) -> bool {
        &&& self.committed matches Some(f) ==> self.takes(f)
        &&& self.spare matches Some(f) ==> self.takes(f)
    }

    /// The traffic that shows `frame`: the whole frame where none is
    /// committed, else the difference to the committed one.
    pub open spec fn traffic(self, frame: Frame) -> Seq<Seq<u8>> {
        let size = panel_size(self.kind);
        match self.committed {
            None => mode_switch(self.mode, AddressMode::Horizontal) + whole_packets(
                size.width as int,
                size.height as int / 8,
                frame@,
            ),
            Some(old) => mode_switch(self.mode, AddressMode::Page) + diff_packets(
                old@,
                frame@,
                size.width as int,
                size.height as int / 8,
            ),
        }
    }

    /// The driver after it has handed out a frame to draw on: the spare
    /// slot is empty, whether the frame came from there or was made new.
    pub open spec fn without_spare(self) -> DriverState {
        DriverState { spare: None, ..self }
    }

    /// The driver after showing `frame`: the traffic is queued, `frame` is
    /// committed, and the frame it displaced, if any, is the spare.
    pub open spec fn show(self, frame: Frame) -> DriverState {
        DriverState {
            kind: self.kind,
            mode: if self.committed is Some { AddressMode::Page } else { AddressMode::Horizontal },
            committed: Some(frame),
            spare: if self.committed is Some { self.committed } else { self.spare },
            outbox: self.outbox + self.traffic(frame),
        }
    }
}

/// The driver for one panel.
pub struct Ssd1306 {
    type_: Ssd1306Type,
    address_mode: AddressMode,
    cur_frame: Option<Frame>,
    old_frame: Option<Frame>,
    outbox: Vec<Vec<u8>>,
}

impl View for Ssd1306 {
    type V = DriverState;

    closed spec fn view(&self) -> DriverState {
        DriverState {
            kind: self.type_,
            mode: self.address_mode,
            committed: self.cur_frame,
            spare: self.old_frame,
            outbox: packets_view(self.outbox@),
        }
    }
}

impl Ssd1306 {
    /// A driver for a panel fresh from power-on, with the commands that
    /// make the panel ready queued in its outbox.
    pub fn new(type_: Ssd1306Type, flip: bool) -> (d: Ssd1306)
        ensures
            d@ == (DriverState {
                kind: type_,
                mode: POWER_ON_MODE,
                committed: None,
                spare: None,
                outbox: init_sequence(type_, flip),
            }),
    {
        let mut result = Ssd1306 {
            type_,
            address_mode: POWER_ON_MODE,
            cur_frame: None,
            old_frame: None,
            outbox: Vec::new(),
        };
        assert(result@.outbox =~= Seq::<Seq<u8>>::empty());
        result.initialize(flip);
        assert(result@.outbox =~= init_sequence(type_, flip));
        result
    }

    /// Queues the commands that make the panel ready.
    pub fn initialize(&mut self, flip: bool)
        ensures
            final(self)@ == (DriverState {
                outbox: old(self)@.outbox + init_sequence(old(self)@.kind, flip),
                ..old(self)@
            }),
    {
        self.send_command(&[COMMAND_DISPLAY_OFF]);
        let mux_ratio: u8 = if self.type_ == Ssd1306Type::S128x32 { 0x1F } else { 0x3F };
        self.send_command(&[0xA8, mux_ratio]);
        self.send_command(&[0x8D, 0x14]);
        self.send_command(&[0xB3, 0x80]);
        self.send_command(&[0xD3, 0x00]);
        self.send_command(&[0x40]);
        self.send_command(&[if flip { 0xA1 } else { 0xA0 }]);
        self.send_command(&[if flip { 0xC8 } else { 0xC0 }]);
        let pin_config: u8 = if self.type_ == Ssd1306Type::S128x32 { 0x02 } else { 0x12 };
        self.send_command(&[0xDA, pin_config]);
        self.send_command(&[0xD9, 0xF1]);
        self.send_command(&[0xDB, 0x40]);
        self.send_command(&[0xA4]);
        self.send_command(&[0xA6]);
        self.send_command(&[0x81, 0x8F]);
        self.send_command(&[COMMAND_DISPLAY_ON]);
        assert(self@.outbox =~~= old(self)@.outbox + init_sequence(old(self)@.kind, flip));
    }

    /// Queues one packet: the control byte `mode`, then `content`.
    pub fn i2c_send(&mut self, mode: u8, content: &[u8])
        ensures
            final(self)@ == (DriverState {
                outbox: old(self)@.outbox.push(packet(mode, content@)),
                ..old(self)@
            }),
    {
        let mut data: Vec<u8> = Vec::new();
        data.push(mode);
        data.extend_from_slice(content);
        assert(data@ =~= packet(mode, content@));
        self.outbox.push(data);
        assert(self@.outbox =~= old(self)@.outbox.push(packet(mode, content@)));
    }

    /// Queues a command.
    pub fn send_command(&mut self, cmd: &[u8])
        ensures
            final(self)@ == (DriverState {
                outbox: old(self)@.outbox.push(command(cmd@)),
                ..old(self)@
            }),
    {
        self.i2c_send(CONTROL_COMMAND, cmd)
    }

    /// Queues display data.
    pub fn send_data(&mut self, data: &[u8])
        ensures
            final(self)@ == (DriverState {
                outbox: old(self)@.outbox.push(crate::ssd1306::protocol::data(data@)),
                ..old(self)@
            }),
    {
        self.i2c_send(CONTROL_DATA, data)
    }

    /// Tells the panel to use address mode `mode`, unless it was last told
    /// to use that mode already.
    pub fn set_address_mode(&mut self, mode: AddressMode)
        ensures
            final(self)@ == (DriverState {
                mode: mode,
                outbox: old(self)@.outbox + mode_switch(old(self)@.mode, mode),
                ..old(self)@
            }),
    {
        if self.address_mode != mode {
            self.address_mode = mode;
            let mode_code: u8 = match mode {
                AddressMode::Page => 0b10,
                AddressMode::Horizontal => 0b00,
                AddressMode::Vertical => 0b01,
            };
            self.send_command(&[0x20, mode_code]);
            assert(self@.outbox =~~= old(self)@.outbox + mode_switch(old(self)@.mode, mode));
        } else {
            assert(self@.outbox =~= old(self)@.outbox + mode_switch(old(self)@.mode, mode));
        }
    }

    /// Queues the traffic that sends all of `frame`.
    pub fn show_frame_whole(&mut self, frame: &Frame)
        requires
            old(self)@.takes(*frame),
        ensures
            final(self)@ == (DriverState {
                mode: AddressMode::Horizontal,
                outbox: old(self)@.outbox + mode_switch(old(self)@.mode, AddressMode::Horizontal)
                    + whole_packets(
                    frame.spec_size().width as int,
                    frame.spec_size().height as int / 8,
                    frame@,
                ),
                ..old(self)@
            }),
    {
        self.set_address_mode(AddressMode::Horizontal);
        let max_col: u8 = (frame.size().width - 1) as u8;
        self.send_command(&[0x21, 0, max_col]);
        let max_page: u8 = (frame.size().height / 8 - 1) as u8;
        self.send_command(&[0x22, 0, max_page]);
        self.send_data(frame.data());
        assert(self@.outbox =~~= old(self)@.outbox + mode_switch(
            old(self)@.mode,
            AddressMode::Horizontal,
        ) + whole_packets(
            frame.spec_size().width as int,
            frame.spec_size().height as int / 8,
            frame@,
        ));
    }

    /// Queues the traffic that turns `old_frame` on the panel into
    /// `frame`: for each page row, the spans that changed.
    pub fn show_frame_diff(&mut self, frame: &Frame, old_frame: &Frame)
        requires
            old(self)@.takes(*frame),
            old(self)@.takes(*old_frame),
        ensures
            final(self)@ == (DriverState {
                mode: AddressMode::Page,
                outbox: old(self)@.outbox + mode_switch(old(self)@.mode, AddressMode::Page)
                    + diff_packets(
                    old_frame@,
                    frame@,
                    frame.spec_size().width as int,
                    frame.spec_size().height as int / 8,
                ),
                ..old(self)@
            }),
    {
        self.set_address_mode(AddressMode::Page);
        let width: usize = frame.size().width;
        let rows: usize = frame.num_rows();
        let ghost base = self@.outbox;
        let mut page: u8 = 0;
        assert(self@.outbox =~= base + diff_packets(old_frame@, frame@, width as int, 0));
        while (page as usize) < rows
            invariant
                frame.wf(),
                old_frame.wf(),
                frame.spec_size() == old_frame.spec_size(),
                width == frame.spec_size().width,
                width == 128,
                rows == frame.spec_size().height / 8,
                rows <= 8,
                page <= rows,
                self@ == (DriverState {
                    mode: AddressMode::Page,
                    outbox: base + diff_packets(old_frame@, frame@, width as int, page as int),
                    ..old(self)@
                }),
            decreases rows - page,
        {
            proof {
                lemma_band_bound(width as int, rows as int, page as int);
            }
            let data_pos: usize = page as usize * width;
            let old_row = slice_subrange(old_frame.data(), data_pos, data_pos + width);
            let new_row = slice_subrange(frame.data(), data_pos, data_pos + width);
            assert(old_row@ == page_row(old_frame@, width as int, page as int));
            assert(new_row@ == page_row(frame@, width as int, page as int));
            let ghost target = base + diff_packets(old_frame@, frame@, width as int, page + 1);
            let mut page_set: bool = false;
            let mut pos: usize = 0;
            assert(self@.outbox + row_packets(old_row@, new_row@, page, 0, false) =~= target);
            while pos < width
                invariant
                    width == 128,
                    page < 8,
                    old_row@.len() == width,
                    new_row@.len() == width,
                    pos <= width,
                    self@ == (DriverState {
                        mode: AddressMode::Page,
                        outbox: self@.outbox,
                        ..old(self)@
                    }),
                    self@.outbox + row_packets(old_row@, new_row@, page, pos as int, page_set) == target,
                decreases width - pos,
            {
                if old_row[pos] == new_row[pos] {
                    pos += 1;
                } else {
                    let ghost before = self@.outbox;
                    let ghost started = page_set;
                    let len: usize = find_span_end(
                        slice_subrange(old_row, pos, width),
                        slice_subrange(new_row, pos, width),
                    );
                    let end: usize = pos + len;
                    if !page_set {
                        self.send_command(&[0xB0 | page]);
                        page_set = true;
                    }
                    self.send_command(&[0x00 | (pos as u8 & 0x0f)]);
                    self.send_command(&[0x10 | ((pos as u8 & 0xf0) >> 4)]);
                    self.send_data(slice_subrange(new_row, pos, end));
                    proof {
                        let head = (if started {
                            Seq::<Seq<u8>>::empty()
                        } else {
                            seq![page_select(page)]
                        }) + seq![
                            column_low(pos as u8),
                            column_high(pos as u8),
                            data(new_row@.subrange(pos as int, end as int)),
                        ];
                        assert(self@.outbox =~~= before + head);
                        assert(row_packets(old_row@, new_row@, page, pos as int, started) == head
                            + row_packets(old_row@, new_row@, page, end as int, true));
                        assert(self@.outbox + row_packets(old_row@, new_row@, page, end as int, true)
                            =~= before + row_packets(old_row@, new_row@, page, pos as int, started));
                    }
                    pos = end;
                }
            }
            assert(self@.outbox =~= target);
            page += 1;
        }
    }

    /// Shows `frame`, or rejects it where it has not the panel's size. A
    /// frame that is taken is committed, and the frame it displaces
    /// becomes the spare.
    pub fn show_frame_internal(&mut self, frame: Frame) -> (r: Result<(), Error>)
        requires
            old(self)@.wf(),
            frame.wf(),
        ensures
            r is Ok <==> frame.spec_size() == panel_size(old(self)@.kind),
            r is Ok ==> final(self)@ == old(self)@.show(frame),
            r is Err ==> final(self)@ == old(self)@,
            final(self)@.wf(),
    {
        if frame.size() != self.size() {
            return Err(Error::new("frame size differs from the panel's"));
        }
        match self.cur_frame.take() {
            None => {
                self.show_frame_whole(&frame);
            },
            Some(old) => {
                self.show_frame_diff(&frame, &old);
                self.old_frame = Some(old);
            },
        }
        self.cur_frame = Some(frame);
        assert(self@.outbox =~= old(self)@.outbox + old(self)@.traffic(frame));
        Ok(())
    }

    /// Forgets the committed frame, after a transport failed to deliver an
    /// update: what the panel shows is then unknown, and the next frame
    /// goes out whole.
    pub fn transfer_failed(&mut self)
        ensures
            final(self)@ == (DriverState { committed: None, ..old(self)@ }),
    {
        self.cur_frame = None;
    }

    /// Hands the queued packets to the transport, oldest first, and leaves
    /// the outbox empty.
    pub fn take_outbox(&mut self) -> (packets: Vec<Vec<u8>>)
        ensures
            packets_view(packets@) == old(self)@.outbox,
            final(self)@ == (DriverState { outbox: Seq::empty(), ..old(self)@ }),
    {
        let mut packets: Vec<Vec<u8>> = Vec::new();
        std::mem::swap(&mut packets, &mut self.outbox);
        assert(self@.outbox =~= Seq::<Seq<u8>>::empty());
        packets
    }

    /// Judges a write of `requested` bytes of which the transport reports
    /// `accepted`: a write that took fewer bytes than it was given failed.
    pub fn check_write(requested: usize, accepted: usize) -> (r: Result<(), Error>)
        ensures
            r is Ok <==> accepted >= requested,
    {
        if accepted < requested {
            Err(Error::new("short write"))
        } else {
            Ok(())
        }
    }
}

impl DisplayDriver for Ssd1306 {
    open spec fn spec_size(&self) -> Size {
        panel_size(self@.kind)
    }

    open spec fn ready(&self) -> bool {
        self@.wf()
    }

    fn size(&self) -> (s: Size) {
        match self.type_ {
            Ssd1306Type::S128x32 => Size { width: 128, height: 32 },
            Ssd1306Type::S128x64 => Size { width: 128, height: 64 },
        }
    }

    /// Queues the traffic that shows `frame` and commits the frame.
    fn show_frame(&mut self, frame: Frame)
        ensures
            final(self)@ == old(self)@.show(frame),
    {
        let _ = self.show_frame_internal(frame);
    }

    /// The spare frame, cleared, where there is one; else a new frame.
    fn get_frame(&mut self) -> (f: Frame)
        ensures
            final(self)@ == old(self)@.without_spare(),
    {
        match self.old_frame.take() {
            Some(mut f) => {
                f.clear();
                f
            },
            None => Frame::new(self.size()),
        }
    }
}

} // verus!
