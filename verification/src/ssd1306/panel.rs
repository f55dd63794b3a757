//! A model of the controller, to say what the traffic does to the panel.
//!
//! The model holds the controller's display memory and the registers that
//! decide where a data byte lands: the address mode, the address pointer
//! and the window of the horizontal and vertical modes. It reads the
//! packets that the driver sends. Commands that set neither the mode nor
//! an address leave the model as it is.
use vstd::prelude::*;
use crate::ssd1306::protocol::{CONTROL_COMMAND, CONTROL_DATA};
use crate::ssd1306::AddressMode;

verus! {

/// The controller's memory and addressing registers.
pub struct Panel {
    /// The number of columns.
    pub width: int,
    /// The number of page rows.
    pub pages: int,
    /// The display memory, page row by page row: the byte of page `p` and
    /// column `c` is at `p * width + c`.
    pub ram: Seq<u8>,
    pub mode: AddressMode,
    /// The column that the next data byte goes to.
    pub col: int,
    /// The page that the next data byte goes to.
    pub page: int,
    pub col_start: int,
    pub col_end: int,
    pub page_start: int,
    pub page_end: int,
}

impl Panel {
    /// The memory has a byte for each page and column, the columns come in
    /// whole groups of sixteen, and the pointer and the window lie within.
    pub open spec fn wf(self) -> bool {
        &&& 0 < self.width <= 256
        &&& self.width % 16 == 0
        &&& 0 < self.pages <= 8
        &&& self.ram.len() == self.pages * self.width
        &&& 0 <= self.col < self.width
        &&& 0 <= self.page < self.pages
        &&& 0 <= self.col_start <= self.col_end < self.width
        &&& 0 <= self.page_start <= self.page_end < self.pages
    }

    /// The panel after one data byte: the byte is stored under the
    /// pointer, and the pointer moves on as the mode says.
    pub open spec fn write(self, b: u8) -> Panel {
        let stored = Panel { ram: self.ram.update(self.page * self.width + self.col, b), ..self };
        match self.mode {
            AddressMode::Page => Panel {
                col: if self.col + 1 < self.width { self.col + 1 } else { 0 },
                ..stored
            },
            AddressMode::Horizontal => if self.col < self.col_end {
                Panel { col: self.col + 1, ..stored }
            } else {
                Panel {
                    col: self.col_start,
                    page: if self.page < self.page_end { self.page + 1 } else { self.page_start },
                    ..stored
                }
            },
            AddressMode::Vertical => if self.page < self.page_end {
                Panel { page: self.page + 1, ..stored }
            } else {
                Panel {
                    page: self.page_start,
                    col: if self.col < self.col_end { self.col + 1 } else { self.col_start },
                    ..stored
                }
            },
        }
    }

    /// The panel after a run of data bytes.
    pub open spec fn write_all(self, bytes: Seq<u8>) -> Panel
        decreases bytes.len(),
    {
        if bytes.len() == 0 {
            self
        } else {
            self.write(bytes[0]).write_all(bytes.skip(1))
        }
    }

    /// The panel after one command. A command that names a mode or an
    /// address that the panel has not is ignored.
    pub open spec fn apply(self, cmd: Seq<u8>) -> Panel {
        if cmd.len() == 0 {
            self
        } else if cmd[0] == 0x20 && cmd.len() >= 2 {
            if cmd[1] == 0b00 {
                Panel { mode: AddressMode::Horizontal, ..self }
            } else if cmd[1] == 0b01 {
                Panel { mode: AddressMode::Vertical, ..self }
            } else if cmd[1] == 0b10 {
                Panel { mode: AddressMode::Page, ..self }
            } else {
                self
            }
        } else if cmd[0] == 0x21 && cmd.len() >= 3 {
            if cmd[1] <= cmd[2] < self.width {
                Panel {
                    col_start: cmd[1] as int,
                    col_end: cmd[2] as int,
                    col: cmd[1] as int,
                    ..self
                }
            } else {
                self
            }
        } else if cmd[0] == 0x22 && cmd.len() >= 3 {
            if cmd[1] <= cmd[2] < self.pages {
                Panel {
                    page_start: cmd[1] as int,
                    page_end: cmd[2] as int,
                    page: cmd[1] as int,
                    ..self
                }
            } else {
                self
            }
        } else if self.mode == AddressMode::Page && 0xB0 <= cmd[0] <= 0xB7 {
            if cmd[0] - 0xB0 < self.pages {
                Panel { page: cmd[0] - 0xB0, ..self }
            } else {
                self
            }
        } else if self.mode == AddressMode::Page && cmd[0] <= 0x0F {
            let col = (self.col / 16) * 16 + cmd[0];
            if col < self.width {
                Panel { col, ..self }
            } else {
                self
            }
        } else if self.mode == AddressMode::Page && 0x10 <= cmd[0] <= 0x1F {
            let col = (cmd[0] - 0x10) * 16 + self.col % 16;
            if col < self.width {
                Panel { col, ..self }
            } else {
                self
            }
        } else {
            self
        }
    }

    /// The panel after one packet.
    pub open spec fn receive(self, packet: Seq<u8>) -> Panel {
        if packet.len() == 0 {
            self
        } else if packet[0] == CONTROL_COMMAND {
            self.apply(packet.skip(1))
        } else if packet[0] == CONTROL_DATA {
            self.write_all(packet.skip(1))
        } else {
            self
        }
    }

    /// The panel after a sequence of packets.
    pub open spec fn run(self, packets: Seq<Seq<u8>>) -> Panel
        decreases packets.len(),
    {
        if packets.len() == 0 {
            self
        } else {
            self.receive(packets[0]).run(packets.skip(1))
        }
    }

    /// Whether two panels differ in nothing but the address pointer and
    /// the memory.
    pub open spec fn same_setup(self, other: Panel) -> bool {
        &&& self.width == other.width
        &&& self.pages == other.pages
        &&& self.mode == other.mode
        &&& self.col_start == other.col_start
        &&& self.col_end == other.col_end
        &&& self.page_start == other.page_start
        &&& self.page_end == other.page_end
    }
}

/// Running two sequences of packets in a row is running their
/// concatenation.
pub proof fn lemma_run_concat(p: Panel, a: Seq<Seq<u8>>, b: Seq<Seq<u8>>)
    ensures
        p.run(a + b) == p.run(a).run(b),
    decreases a.len(),
{
    if a.len() == 0 {
        assert(a + b =~= b);
    } else {
        assert((a + b).skip(1) =~= a.skip(1) + b);
        lemma_run_concat(p.receive(a[0]), a.skip(1), b);
    }
}

/// Running one packet is receiving it.
pub proof fn lemma_run_one(p: Panel, packet: Seq<u8>)
    ensures
        p.run(seq![packet]) == p.receive(packet),
{
    let after = p.receive(packet);
    assert(seq![packet].skip(1) =~= Seq::<Seq<u8>>::empty());
    assert(after.run(Seq::<Seq<u8>>::empty()) == after);
}

} // verus!
