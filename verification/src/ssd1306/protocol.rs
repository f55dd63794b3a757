//! The bus traffic of the driver, as sequences of packets.
//!
//! A packet is one write on the bus: a control byte, then the bytes of a
//! command or of display data.
use vstd::prelude::*;
use crate::ssd1306::span::{lemma_span_end, span_end};
use crate::ssd1306::{AddressMode, Ssd1306Type};

verus! {

/// The control byte that opens a command.
pub const CONTROL_COMMAND: u8 = 0x00;

/// The control byte that opens display data.
pub const CONTROL_DATA: u8 = 0x40;

pub const COMMAND_DISPLAY_OFF: u8 = 0xAE;

pub const COMMAND_DISPLAY_ON: u8 = 0xAF;

/// A packet: the control byte, then the content.
pub open spec fn packet(control: u8, content: Seq<u8>) -> Seq<u8> {
    seq![control] + content
}

/// The packet that carries the command `content`.
pub open spec fn command(content: Seq<u8>) -> Seq<u8> {
    packet(CONTROL_COMMAND, content)
}

/// The packet that carries the display data `content`.
pub open spec fn data(content: Seq<u8>) -> Seq<u8> {
    packet(CONTROL_DATA, content)
}

/// The number by which the controller knows an address mode.
pub open spec fn mode_code(mode: AddressMode) -> u8 {
    match mode {
        AddressMode::Page => 0b10,
        AddressMode::Horizontal => 0b00,
        AddressMode::Vertical => 0b01,
    }
}

/// The traffic that takes the controller from mode `from` to mode `to`:
/// one command, or nothing where it is in that mode already.
pub open spec fn mode_switch(from: AddressMode, to: AddressMode) -> Seq<Seq<u8>> {
    if from == to {
        Seq::empty()
    } else {
        seq![command(seq![0x20u8, mode_code(to)])]
    }
}

/// The commands that make a panel of kind `kind` ready, shown upside down
/// where `flip` is set.
pub open spec fn init_sequence(kind: Ssd1306Type, flip: bool) -> Seq<Seq<u8>> {
    seq![
        command(seq![COMMAND_DISPLAY_OFF]),
        command(seq![0xA8u8, if kind == Ssd1306Type::S128x32 { 0x1Fu8 } else { 0x3Fu8 }]),
        command(seq![0x8Du8, 0x14u8]),
        command(seq![0xB3u8, 0x80u8]),
        command(seq![0xD3u8, 0x00u8]),
        command(seq![0x40u8]),
        command(seq![if flip { 0xA1u8 } else { 0xA0u8 }]),
        command(seq![if flip { 0xC8u8 } else { 0xC0u8 }]),
        command(seq![0xDAu8, if kind == Ssd1306Type::S128x32 { 0x02u8 } else { 0x12u8 }]),
        command(seq![0xD9u8, 0xF1u8]),
        command(seq![0xDBu8, 0x40u8]),
        command(seq![0xA4u8]),
        command(seq![0xA6u8]),
        command(seq![0x81u8, 0x8Fu8]),
        command(seq![COMMAND_DISPLAY_ON]),
    ]
}

/// The traffic that sends a whole frame in horizontal mode: the column
/// range, the page range, then all bytes in one write.
pub open spec fn whole_packets(width: int, pages: int, bytes: Seq<u8>) -> Seq<Seq<u8>> {
    seq![
        command(seq![0x21u8, 0u8, (width - 1) as u8]),
        command(seq![0x22u8, 0u8, (pages - 1) as u8]),
        data(bytes),
    ]
}

/// The command that selects page `page` in page mode.
pub open spec fn page_select(page: u8) -> Seq<u8> {
    command(seq![0xB0u8 | page])
}

/// The command that sets the low four bits of the column address.
pub open spec fn column_low(column: u8) -> Seq<u8> {
    command(seq![0x00u8 | (column & 0x0fu8)])
}

/// The command that sets the high four bits of the column address.
pub open spec fn column_high(column: u8) -> Seq<u8> {
    command(seq![0x10u8 | ((column & 0xf0u8) >> 4u8)])
}

/// The traffic for one page row from column `pos` on: for each span, the
/// page select if the row has had none, the column address, and the
/// span's bytes of the new row.
pub open spec fn row_packets(
    old_row: Seq<u8>,
    new_row: Seq<u8>,
    page: u8,
    pos: int,
    page_set: bool,
) -> Seq<Seq<u8>>
    decreases old_row.len() - pos,
{
    if pos < 0 || pos >= old_row.len() {
        Seq::empty()
    } else if old_row[pos] == new_row[pos] {
        row_packets(old_row, new_row, page, pos + 1, page_set)
    } else {
        let len = span_end(
            old_row.subrange(pos, old_row.len() as int),
            new_row.subrange(pos, old_row.len() as int),
        );
        proof {
            lemma_span_end(
                old_row.subrange(pos, old_row.len() as int),
                new_row.subrange(pos, old_row.len() as int),
            );
        }
        (if page_set {
            Seq::<Seq<u8>>::empty()
        } else {
            seq![page_select(page)]
        }) + seq![
            column_low(pos as u8),
            column_high(pos as u8),
            data(new_row.subrange(pos, pos + len)),
        ] + row_packets(old_row, new_row, page, pos + len, true)
    }
}

/// Row `page` of a packed buffer of rows `width` wide.
pub open spec fn page_row(bytes: Seq<u8>, width: int, page: int) -> Seq<u8> {
    bytes.subrange(page * width, page * width + width)
}

/// The traffic that updates the first `pages` page rows from `old` to
/// `new`, page by page.
pub open spec fn diff_packets(old: Seq<u8>, new: Seq<u8>, width: int, pages: int) -> Seq<Seq<u8>>
    decreases pages,
{
    if pages <= 0 {
        Seq::empty()
    } else {
        diff_packets(old, new, width, pages - 1) + row_packets(
            page_row(old, width, pages - 1),
            page_row(new, width, pages - 1),
            (pages - 1) as u8,
            0,
            false,
        )
    }
}

} // verus!
