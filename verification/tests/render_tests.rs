use hex_editor::hex_view::HexView;
use hex_editor::render::{ascii_glyph_of, render_hex_editor, status_bar};
use hex_editor::screen_state::{ScreenCommand, ScreenState};
use hex_editor::terminal_buffer::{Color, TerminalBuffer};

fn row_text(buf: &TerminalBuffer, y: usize, from: usize, len: usize) -> String {
    (from..from + len).map(|x| buf.cells[y * buf.w + x].ch).collect()
}

#[test]
fn renders_address_hex_and_ascii_columns() {
    let data = [0x41u8, 0x42, 0x43];
    let hv = HexView::new(&data);
    let mut buf = TerminalBuffer::new(80, 4);
    render_hex_editor(&mut buf, &hv, 0, 0);
    assert_eq!(row_text(&buf, 0, 0, 9), "00000000:");
    assert_eq!(row_text(&buf, 0, 11, 8), "41 42 43");
    assert_eq!(row_text(&buf, 0, 60, 3), "ABC");
    // the gap between hex pairs and the untouched remainder stay default
    assert_eq!(buf.cells[9].ch, ' ');
    assert_eq!(buf.cells[10].ch, ' ');
    assert_eq!(buf.cells[19].ch, ' ');
    assert_eq!(buf.cells[63].ch, ' ');
}

#[test]
fn renders_every_line_at_its_row() {
    let data: Vec<u8> = (0u8..20).collect();
    let hv = HexView::new(&data);
    let mut buf = TerminalBuffer::new(80, 5);
    render_hex_editor(&mut buf, &hv, 0, 1);
    assert_eq!(row_text(&buf, 1, 0, 9), "00000000:");
    assert_eq!(row_text(&buf, 2, 0, 9), "00000010:");
    assert_eq!(row_text(&buf, 2, 11, 11), "10 11 12 13");
    // row 0 is untouched
    assert_eq!(row_text(&buf, 0, 0, 9), "         ");
}

#[test]
fn invisible_cursor_draws_no_highlight() {
    let data = [0x41u8];
    let hv = HexView::new(&data);
    let mut buf = TerminalBuffer::new(80, 2);
    render_hex_editor(&mut buf, &hv, 0, 0);
    for x in 0..80 {
        assert_eq!(buf.cells[x].fg, Color::White);
        assert_eq!(buf.cells[x].bg, Color::Black);
    }
}

#[test]
fn woken_cursor_inverts_exactly_one_nibble() {
    let data = [0x41u8, 0x42];
    let mut hv = HexView::new(&data);
    let mut buf = TerminalBuffer::new(80, 2);
    hv.move_cursor_right();
    render_hex_editor(&mut buf, &hv, 0, 0);
    let hi = buf.cells[11];
    let lo = buf.cells[12];
    assert_eq!(hi.ch, '4');
    assert_eq!(hi.fg, Color::Black);
    assert_eq!(hi.bg, Color::White);
    assert_eq!(lo.ch, '1');
    assert_eq!(lo.fg, Color::White);
    assert_eq!(lo.bg, Color::Black);
}

#[test]
fn highlight_follows_the_nibble_side() {
    let data = [0x41u8, 0x42];
    let mut hv = HexView::new(&data);
    let mut buf = TerminalBuffer::new(80, 2);
    hv.move_cursor_right();
    hv.move_cursor_right();
    render_hex_editor(&mut buf, &hv, 0, 0);
    assert_eq!(buf.cells[11].bg, Color::Black);
    assert_eq!(buf.cells[12].bg, Color::White);
}

#[test]
fn edit_then_save_matches_the_screen() {
    let data = [0x41u8, 0x42, 0x43];
    let mut hv = HexView::new(&data);
    hv.move_cursor_right();
    hv.move_cursor_right();
    hv.move_cursor_right();
    hv.move_cursor_right();
    hv.write_nibble(0x5);
    let mut buf = TerminalBuffer::new(80, 2);
    render_hex_editor(&mut buf, &hv, 0, 0);
    assert_eq!(row_text(&buf, 0, 11, 8), "41 45 43");
    assert_eq!(row_text(&buf, 0, 60, 3), "AEC");
    assert_eq!(hv.get_data_as_bytes(), vec![0x41, 0x45, 0x43]);
}

#[test]
fn unprintable_bytes_render_as_dots() {
    let data = [0x00u8, 0x20, 0x21, 0x7e, 0x7f, 0xff];
    let hv = HexView::new(&data);
    let mut buf = TerminalBuffer::new(80, 2);
    render_hex_editor(&mut buf, &hv, 0, 0);
    assert_eq!(row_text(&buf, 0, 60, 6), "..!~..");
}

#[test]
fn ascii_glyphs_cover_the_printable_range_boundaries() {
    assert_eq!(ascii_glyph_of(0x20), '.');
    assert_eq!(ascii_glyph_of(0x21), '!');
    assert_eq!(ascii_glyph_of(0x41), 'A');
    assert_eq!(ascii_glyph_of(0x7e), '~');
    assert_eq!(ascii_glyph_of(0x7f), '.');
}

#[test]
fn narrow_terminal_clips_without_panicking() {
    let data: Vec<u8> = (0u8..16).collect();
    let hv = HexView::new(&data);
    let mut buf = TerminalBuffer::new(10, 2);
    render_hex_editor(&mut buf, &hv, 0, 0);
    assert_eq!(row_text(&buf, 0, 0, 9), "00000000:");
    // columns 10 and beyond fall off the edge; row 1 is untouched
    assert_eq!(row_text(&buf, 1, 0, 10), "          ");
}

#[test]
fn render_at_offset_origin_shifts_everything() {
    let data = [0xABu8];
    let hv = HexView::new(&data);
    let mut buf = TerminalBuffer::new(100, 5);
    render_hex_editor(&mut buf, &hv, 5, 2);
    assert_eq!(row_text(&buf, 2, 5, 9), "00000000:");
    assert_eq!(row_text(&buf, 2, 16, 2), "AB");
    assert_eq!(buf.cells[2 * 100 + 65].ch, '.');
}

#[test]
fn status_bar_fills_the_row_with_its_colors() {
    let mut buf = TerminalBuffer::new(12, 3);
    status_bar(&mut buf, "HexEditor", 0, 0, 12, Color::Black, Color::White);
    assert_eq!(row_text(&buf, 0, 0, 9), "HexEditor");
    for x in 0..12 {
        assert_eq!(buf.cells[x].fg, Color::Black);
        assert_eq!(buf.cells[x].bg, Color::White);
    }
    assert_eq!(buf.cells[9].ch, ' ');
    assert_eq!(buf.cells[11].ch, ' ');
    // other rows untouched
    assert_eq!(buf.cells[12].bg, Color::Black);
}

#[test]
fn status_bar_with_empty_label_still_fills() {
    let mut buf = TerminalBuffer::new(4, 2);
    status_bar(&mut buf, "", 0, 1, 4, Color::Black, Color::White);
    for x in 0..4 {
        assert_eq!(buf.cells[4 + x], hex_editor::terminal_buffer::Cell {
            ch: ' ',
            fg: Color::Black,
            bg: Color::White
        });
    }
}

#[test]
fn screen_state_protocol_orders_enter_and_leave() {
    assert_eq!(
        ScreenState::enter_commands(),
        vec![
            ScreenCommand::EnterAlternateScreen,
            ScreenCommand::EnableRawMode,
            ScreenCommand::HideCursor,
        ]
    );
    assert_eq!(
        ScreenState::leave_commands(),
        vec![
            ScreenCommand::ShowCursor,
            ScreenCommand::DisableRawMode,
            ScreenCommand::LeaveAlternateScreen,
        ]
    );
}
