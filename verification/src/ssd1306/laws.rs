//! What the driver's traffic does to the panel.
//!
//! The laws here are stated over the model of the controller in
//! [`crate::ssd1306::panel`]. The main one: as long as the transport
//! delivers the driver's traffic, the panel's memory holds the committed
//! frame, whether the frame went out whole or as a difference.
use vstd::prelude::*;
use crate::gfx::frame::{lemma_band_bound, Frame};
use crate::ssd1306::panel::{lemma_run_concat, lemma_run_one, Panel};
use crate::ssd1306::protocol::{
    column_high, column_low, command, data, diff_packets, init_sequence, mode_code, mode_switch,
    page_row, page_select, row_packets, whole_packets,
};
use crate::ssd1306::span::{lemma_span_end, span_end};
use crate::ssd1306::{panel_size, AddressMode, DriverState, Ssd1306Type};

verus! {

/// In page mode, data that fits the rest of the row lands in the row,
/// from the pointer on, and touches nothing else.
pub proof fn lemma_page_write(p: Panel, bytes: Seq<u8>)
    requires
        p.wf(),
        p.mode == AddressMode::Page,
        p.col + bytes.len() <= p.width,
    ensures
        p.write_all(bytes).wf(),
        p.write_all(bytes).same_setup(p),
        p.write_all(bytes).page == p.page,
        forall|i: int|
            0 <= i < p.ram.len() ==> #[trigger] p.write_all(bytes).ram[i] == (if p.page * p.width
                + p.col <= i < p.page * p.width + p.col + bytes.len() {
                bytes[i - (p.page * p.width + p.col)]
            } else {
                p.ram[i]
            }),
    decreases bytes.len(),
{
    lemma_band_bound(p.width, p.pages, p.page);
    if bytes.len() > 0 {
        let q = p.write(bytes[0]);
        let rest = bytes.skip(1);
        if rest.len() == 0 {
            assert(q.write_all(rest) == q);
        } else {
            lemma_page_write(q, rest);
        }
    }
}

/// In horizontal mode with the window open to the whole memory, data
/// lands in memory order from the pointer on.
pub proof fn lemma_horizontal_write(p: Panel, bytes: Seq<u8>)
    requires
        p.wf(),
        p.mode == AddressMode::Horizontal,
        p.col_start == 0,
        p.col_end == p.width - 1,
        p.page_start == 0,
        p.page_end == p.pages - 1,
        p.page * p.width + p.col + bytes.len() <= p.ram.len(),
    ensures
        p.write_all(bytes).wf(),
        p.write_all(bytes).same_setup(p),
        forall|i: int|
            0 <= i < p.ram.len() ==> #[trigger] p.write_all(bytes).ram[i] == (if p.page * p.width
                + p.col <= i < p.page * p.width + p.col + bytes.len() {
                bytes[i - (p.page * p.width + p.col)]
            } else {
                p.ram[i]
            }),
    decreases bytes.len(),
{
    lemma_band_bound(p.width, p.pages, p.page);
    if bytes.len() > 0 {
        let q = p.write(bytes[0]);
        let rest = bytes.skip(1);
        if rest.len() == 0 {
            assert(q.write_all(rest) == q);
        } else {
            if p.col == p.width - 1 {
                assert((p.page + 1) * p.width == p.page * p.width + p.width) by (nonlinear_arith);
                assert(p.page + 1 < p.pages) by (nonlinear_arith)
                    requires
                        (p.page + 1) * p.width < p.pages * p.width,
                        p.width > 0,
                ;
            }
            lemma_horizontal_write(q, rest);
        }
    }
}

/// The column commands of a span point the panel at the span's column.
proof fn lemma_column_address(p: Panel, pos: u8)
    requires
        p.wf(),
        p.mode == AddressMode::Page,
        pos < p.width,
    ensures
        p.receive(column_low(pos)).receive(column_high(pos)) == (Panel { col: pos as int, ..p }),
{
    let lo = 0x00u8 | (pos & 0x0fu8);
    let hi = 0x10u8 | ((pos & 0xf0u8) >> 4u8);
    assert(lo == pos % 16 && hi == 0x10 + pos / 16) by (bit_vector)
        requires
            lo == 0x00u8 | (pos & 0x0fu8),
            hi == 0x10u8 | ((pos & 0xf0u8) >> 4u8),
    ;
    assert(column_low(pos).skip(1) =~= seq![lo]);
    assert(column_high(pos).skip(1) =~= seq![hi]);
    let mid = p.receive(column_low(pos));
    assert(mid == (Panel { col: (p.col / 16) * 16 + lo, ..p }));
}

/// The page command points the panel at the page.
proof fn lemma_page_address(p: Panel, page: u8)
    requires
        p.wf(),
        p.mode == AddressMode::Page,
        page < p.pages,
    ensures
        p.receive(page_select(page)) == (Panel { page: page as int, ..p }),
{
    let b = 0xB0u8 | page;
    assert(b == 0xB0 + page) by (bit_vector)
        requires
            b == 0xB0u8 | page,
            page < 8,
    ;
    assert(page_select(page).skip(1) =~= seq![b]);
}

/// The traffic for a page row, from column `pos` on, brings the rest of
/// the row from the old bytes to the new ones and leaves all other rows.
pub proof fn lemma_row_packets(
    p: Panel,
    old_row: Seq<u8>,
    new_row: Seq<u8>,
    page: u8,
    pos: int,
    page_set: bool,
)
    requires
        p.wf(),
        p.mode == AddressMode::Page,
        old_row.len() == p.width,
        new_row.len() == p.width,
        page < p.pages,
        0 <= pos <= p.width,
        page_set ==> p.page == page,
        forall|c: int| 0 <= c < pos ==> p.ram[page * p.width + c] == new_row[c],
        forall|c: int| pos <= c < p.width ==> p.ram[page * p.width + c] == old_row[c],
    ensures
        p.run(row_packets(old_row, new_row, page, pos, page_set)).wf(),
        p.run(row_packets(old_row, new_row, page, pos, page_set)).same_setup(p),
        forall|c: int|
            0 <= c < p.width ==> p.run(row_packets(old_row, new_row, page, pos, page_set)).ram[page
                * p.width + c] == new_row[c],
        forall|i: int|
            0 <= i < p.ram.len() && !(page * p.width <= i < page * p.width + p.width) ==> p.run(
                row_packets(old_row, new_row, page, pos, page_set),
            ).ram[i] == p.ram[i],
    decreases p.width - pos,
{
    let packets = row_packets(old_row, new_row, page, pos, page_set);
    lemma_band_bound(p.width, p.pages, page as int);
    if pos >= old_row.len() {
        assert(p.run(packets) == p);
    } else if old_row[pos] == new_row[pos] {
        lemma_row_packets(p, old_row, new_row, page, pos + 1, page_set);
    } else {
        let a = old_row.subrange(pos, old_row.len() as int);
        let b = new_row.subrange(pos, old_row.len() as int);
        let len = span_end(a, b);
        lemma_span_end(a, b);
        let end = pos + len;
        let span = new_row.subrange(pos, end);
        let select = if page_set { Seq::<Seq<u8>>::empty() } else { seq![page_select(page)] };
        let address = seq![column_low(pos as u8), column_high(pos as u8), data(span)];
        let rest = row_packets(old_row, new_row, page, end, true);
        assert(packets == select + address + rest);
        lemma_run_concat(p, select + address, rest);
        lemma_run_concat(p, select, address);
        let p1 = p.run(select);
        assert(p1 == (Panel { page: page as int, ..p })) by {
            if page_set {
                assert(p.run(select) == p);
            } else {
                lemma_run_one(p, page_select(page));
                lemma_page_address(p, page);
            }
        }
        let p2 = p1.receive(column_low(pos as u8));
        let p3 = p2.receive(column_high(pos as u8));
        lemma_column_address(p1, pos as u8);
        let p4 = p3.receive(data(span));
        assert(p1.run(address) == p4) by {
            assert(address.skip(1) =~= seq![column_high(pos as u8), data(span)]);
            assert(address.skip(1).skip(1) =~= seq![data(span)]);
            lemma_run_one(p3, data(span));
            assert(p1.run(address) == p2.run(address.skip(1)));
            assert(p2.run(address.skip(1)) == p3.run(address.skip(1).skip(1)));
        }
        assert(data(span).skip(1) =~= span);
        lemma_page_write(p3, span);
        assert forall|c: int| 0 <= c < end implies p4.ram[page * p.width + c] == new_row[c] by {
            if c >= pos {
                assert(span[c - pos] == new_row[c]);
            }
        }
        assert forall|c: int| end <= c < p.width implies p4.ram[page * p.width + c]
            == old_row[c] by {}
        assert forall|i: int|
            0 <= i < p.ram.len() && !(page * p.width <= i < page * p.width + p.width) implies p4.ram[i]
            == p.ram[i] by {
            assert(p4.ram[i] == p3.write_all(span).ram[i]);
        }
        lemma_row_packets(p4, old_row, new_row, page, end, true);
        assert(p.run(packets) == p4.run(rest));
        assert forall|i: int|
            0 <= i < p.ram.len() && !(page * p.width <= i < page * p.width + p.width) implies p.run(
            packets,
        ).ram[i] == p.ram[i] by {
            assert(p4.run(rest).ram[i] == p4.ram[i]);
        }
    }
}

/// The traffic for the first `pages` page rows brings those rows from the
/// old bytes to the new ones and leaves the rows below.
pub proof fn lemma_diff_packets(p: Panel, old: Seq<u8>, new: Seq<u8>, pages: int)
    requires
        p.wf(),
        p.mode == AddressMode::Page,
        p.ram == old,
        new.len() == old.len(),
        0 <= pages <= p.pages,
    ensures
        p.run(diff_packets(old, new, p.width, pages)).wf(),
        p.run(diff_packets(old, new, p.width, pages)).same_setup(p),
        forall|i: int|
            0 <= i < pages * p.width ==> p.run(diff_packets(old, new, p.width, pages)).ram[i]
                == new[i],
        forall|i: int|
            pages * p.width <= i < old.len() ==> p.run(diff_packets(old, new, p.width, pages)).ram[i]
                == old[i],
    decreases pages,
{
    if pages > 0 {
        let page = pages - 1;
        let before = diff_packets(old, new, p.width, page);
        let old_row = page_row(old, p.width, page);
        let new_row = page_row(new, p.width, page);
        let row = row_packets(old_row, new_row, page as u8, 0, false);
        lemma_band_bound(p.width, p.pages, page);
        assert(pages * p.width == page * p.width + p.width) by (nonlinear_arith)
            requires
                pages == page + 1,
        ;
        lemma_diff_packets(p, old, new, page);
        lemma_run_concat(p, before, row);
        let q = p.run(before);
        lemma_row_packets(q, old_row, new_row, page as u8, 0, false);
        let r = q.run(row);
        assert forall|i: int| 0 <= i < pages * p.width implies r.ram[i] == new[i] by {
            if i >= page * p.width {
                assert(r.ram[page * p.width + (i - page * p.width)] == new_row[i - page * p.width]);
            }
        }
    }
}

/// The traffic for a whole frame fills the panel's memory with the frame.
pub proof fn lemma_whole_packets(p: Panel, bytes: Seq<u8>)
    requires
        p.wf(),
        p.mode == AddressMode::Horizontal,
        bytes.len() == p.ram.len(),
    ensures
        p.run(whole_packets(p.width, p.pages, bytes)).wf(),
        p.run(whole_packets(p.width, p.pages, bytes)).mode == AddressMode::Horizontal,
        p.run(whole_packets(p.width, p.pages, bytes)).width == p.width,
        p.run(whole_packets(p.width, p.pages, bytes)).pages == p.pages,
        p.run(whole_packets(p.width, p.pages, bytes)).ram == bytes,
{
    let columns = command(seq![0x21u8, 0u8, (p.width - 1) as u8]);
    let pages = command(seq![0x22u8, 0u8, (p.pages - 1) as u8]);
    let packets = whole_packets(p.width, p.pages, bytes);
    let p1 = p.receive(columns);
    let p2 = p1.receive(pages);
    let p3 = p2.receive(data(bytes));
    assert(columns.skip(1) =~= seq![0x21u8, 0u8, (p.width - 1) as u8]);
    assert(pages.skip(1) =~= seq![0x22u8, 0u8, (p.pages - 1) as u8]);
    assert(data(bytes).skip(1) =~= bytes);
    assert(p.run(packets) == p3) by {
        assert(packets.skip(1) =~= seq![pages, data(bytes)]);
        assert(packets.skip(1).skip(1) =~= seq![data(bytes)]);
        lemma_run_one(p2, data(bytes));
        assert(p.run(packets) == p1.run(packets.skip(1)));
        assert(p1.run(packets.skip(1)) == p2.run(packets.skip(1).skip(1)));
    }
    assert(0 * p.width == 0) by (nonlinear_arith);
    lemma_horizontal_write(p2, bytes);
    assert(p3.ram =~= bytes);
}

/// The mode traffic leaves the panel in the mode asked for.
pub proof fn lemma_mode_switch(p: Panel, to: AddressMode)
    ensures
        p.run(mode_switch(p.mode, to)) == (Panel { mode: to, ..p }),
{
    if p.mode == to {
        assert(p.run(mode_switch(p.mode, to)) == p);
    } else {
        let packet = command(seq![0x20u8, mode_code(to)]);
        lemma_run_one(p, packet);
        assert(packet.skip(1) =~= seq![0x20u8, mode_code(to)]);
    }
}

/// A row that has not changed needs no traffic.
pub proof fn lemma_same_row_is_silent(row: Seq<u8>, page: u8, pos: int, page_set: bool)
    ensures
        row_packets(row, row, page, pos, page_set) == Seq::<Seq<u8>>::empty(),
    decreases row.len() - pos,
{
    if 0 <= pos < row.len() {
        lemma_same_row_is_silent(row, page, pos + 1, page_set);
    }
}

/// Showing again the bytes that are on the panel sends no span: the
/// difference of a frame to itself is empty.
pub proof fn lemma_same_frame_is_silent(bytes: Seq<u8>, width: int, pages: int)
    ensures
        diff_packets(bytes, bytes, width, pages) == Seq::<Seq<u8>>::empty(),
    decreases pages,
{
    if pages > 0 {
        lemma_same_frame_is_silent(bytes, width, pages - 1);
        lemma_same_row_is_silent(page_row(bytes, width, pages - 1), (pages - 1) as u8, 0, false);
    }
}

/// Whether the panel is as the driver takes it to be: of the driver's
/// resolution, in the mode that the driver tracks, and showing the
/// committed frame, where there is one.
pub open spec fn in_sync(state: DriverState, panel: Panel) -> bool {
    &&& panel.wf()
    &&& panel.width == panel_size(state.kind).width
    &&& panel.pages == panel_size(state.kind).height / 8
    &&& panel.mode == state.mode
    &&& state.committed matches Some(f) ==> panel.ram == f@
}

/// Showing a frame keeps driver and panel in step: once the traffic for
/// the frame has reached the panel, the panel's memory holds the frame,
/// whether the traffic was the whole frame or a difference.
pub proof fn law_panel_shows_frame(state: DriverState, panel: Panel, frame: Frame)
    requires
        state.wf(),
        state.takes(frame),
        in_sync(state, panel),
    ensures
        in_sync(state.show(frame), panel.run(state.traffic(frame))),
        panel.run(state.traffic(frame)).ram == frame@,
{
    let size = panel_size(state.kind);
    let width = size.width as int;
    let pages = size.height as int / 8;
    assert(pages * width == width * pages) by (nonlinear_arith);
    match state.committed {
        None => {
            let switch = mode_switch(state.mode, AddressMode::Horizontal);
            let whole = whole_packets(width, pages, frame@);
            lemma_run_concat(panel, switch, whole);
            lemma_mode_switch(panel, AddressMode::Horizontal);
            lemma_whole_packets(panel.run(switch), frame@);
        },
        Some(old) => {
            let switch = mode_switch(state.mode, AddressMode::Page);
            let diff = diff_packets(old@, frame@, width, pages);
            lemma_run_concat(panel, switch, diff);
            lemma_mode_switch(panel, AddressMode::Page);
            lemma_diff_packets(panel.run(switch), old@, frame@, pages);
            assert(panel.run(switch).run(diff).ram =~= frame@);
        },
    }
}

/// The differential path and the whole-frame path end in the same panel
/// memory: a panel that showed `a` and received the difference to `b`
/// holds what a panel holds that received `b` whole.
pub proof fn law_diff_equals_whole(
    after_a: DriverState,
    fresh: DriverState,
    panel_a: Panel,
    panel_fresh: Panel,
    a: Frame,
    b: Frame,
)
    requires
        after_a.wf(),
        fresh.wf(),
        after_a.kind == fresh.kind,
        after_a.committed == Some(a),
        fresh.committed is None,
        after_a.takes(b),
        in_sync(after_a, panel_a),
        in_sync(fresh, panel_fresh),
    ensures
        panel_a.run(after_a.traffic(b)).ram == panel_fresh.run(fresh.traffic(b)).ram,
{
    law_panel_shows_frame(after_a, panel_a, b);
    law_panel_shows_frame(fresh, panel_fresh, b);
}

/// Showing the committed frame again sends no span: at most the command
/// that switches to page mode goes out.
pub proof fn law_repeat_sends_no_span(state: DriverState, frame: Frame)
    requires
        state.committed matches Some(f) && f@ == frame@,
    ensures
        state.traffic(frame) == mode_switch(state.mode, AddressMode::Page),
{
    let size = panel_size(state.kind);
    lemma_same_frame_is_silent(frame@, size.width as int, size.height as int / 8);
    assert(state.traffic(frame) =~= mode_switch(state.mode, AddressMode::Page));
}

/// The initialization leaves the address mode alone: a panel fresh from
/// power-on is, after it, still in the mode that a new driver tracks.
pub proof fn law_init_keeps_mode(panel: Panel, kind: Ssd1306Type, flip: bool)
    requires
        panel.wf(),
    ensures
        panel.run(init_sequence(kind, flip)).wf(),
        panel.run(init_sequence(kind, flip)).mode == panel.mode,
        panel.run(init_sequence(kind, flip)).width == panel.width,
        panel.run(init_sequence(kind, flip)).pages == panel.pages,
        panel.run(init_sequence(kind, flip)).ram == panel.ram,
{
    let packets = init_sequence(kind, flip);
    lemma_commands_keep_memory(panel, packets);
}

/// Whether every packet of `packets` is a command other than the one that
/// sets the address mode.
pub open spec fn plain_commands(packets: Seq<Seq<u8>>) -> bool {
    forall|i: int|
        0 <= i < packets.len() ==> (#[trigger] packets[i]).len() >= 2 && packets[i][0] == 0x00
            && packets[i][1] != 0x20
}

/// Commands that do not set the address mode change neither the mode nor
/// the memory.
pub proof fn lemma_commands_keep_memory(panel: Panel, packets: Seq<Seq<u8>>)
    requires
        panel.wf(),
        plain_commands(packets),
    ensures
        panel.run(packets).wf(),
        panel.run(packets).mode == panel.mode,
        panel.run(packets).width == panel.width,
        panel.run(packets).pages == panel.pages,
        panel.run(packets).ram == panel.ram,
    decreases packets.len(),
{
    if packets.len() > 0 {
        assert(packets[0].len() >= 2 && packets[0][0] == 0x00 && packets[0][1] != 0x20);
        let next = panel.receive(packets[0]);
        assert(packets[0].skip(1)[0] == packets[0][1]);
        assert forall|i: int| 0 <= i < packets.skip(1).len() implies (#[trigger] packets.skip(
            1,
        )[i]).len() >= 2 && packets.skip(1)[i][0] == 0x00 && packets.skip(1)[i][1] != 0x20 by {
            assert(packets.skip(1)[i] == packets[i + 1]);
        }
        lemma_commands_keep_memory(next, packets.skip(1));
    }
}

/// Frames rotate through the two slots: of two frames shown one after the
/// other, the first is the spare once the second is committed, and is so
/// too where a frame to draw on was handed out in between. The next frame
/// handed out is then made of it.
pub proof fn law_displaced_frame_is_spare(state: DriverState, first: Frame, second: Frame)
    ensures
        state.show(first).show(second).committed == Some(second),
        state.show(first).show(second).spare == Some(first),
        state.show(first).without_spare().show(second).spare == Some(first),
{
}

} // verus!
