use hex_editor::terminal_buffer::{
    apply_patches, patch_commands, Cell, Color, Command, Patch, TerminalBuffer,
};

fn cell(ch: char, fg: Color, bg: Color) -> Cell {
    Cell { ch, fg, bg }
}

fn default_cell() -> Cell {
    cell(' ', Color::White, Color::Black)
}

#[test]
fn new_buffer_is_all_default_cells() {
    let buf = TerminalBuffer::new(3, 2);
    assert_eq!(buf.w, 3);
    assert_eq!(buf.h, 2);
    assert_eq!(buf.cells.len(), 6);
    for c in &buf.cells {
        assert_eq!(*c, default_cell());
    }
}

#[test]
fn put_cell_writes_row_major() {
    let mut buf = TerminalBuffer::new(4, 3);
    buf.put_cell(1, 2, 'x', Color::Black, Color::White);
    assert_eq!(buf.cells[2 * 4 + 1], cell('x', Color::Black, Color::White));
    assert_eq!(buf.cells[0], default_cell());
}

#[test]
fn put_cell_out_of_bounds_is_a_no_op() {
    let mut buf = TerminalBuffer::new(4, 3);
    buf.put_cell(4, 0, 'x', Color::White, Color::Black);
    buf.put_cell(0, 3, 'x', Color::White, Color::Black);
    buf.put_cell(100, 100, 'x', Color::White, Color::Black);
    for c in &buf.cells {
        assert_eq!(*c, default_cell());
    }
}

#[test]
fn put_cells_does_not_wrap_to_the_next_row() {
    let mut buf = TerminalBuffer::new(4, 2);
    buf.put_cells(2, 0, "abcd", Color::White, Color::Black);
    assert_eq!(buf.cells[2].ch, 'a');
    assert_eq!(buf.cells[3].ch, 'b');
    // the rest of the run falls off the right edge, not onto row 1
    assert_eq!(buf.cells[4], default_cell());
    assert_eq!(buf.cells[5], default_cell());
}

#[test]
fn clear_resets_every_cell_in_place() {
    let mut buf = TerminalBuffer::new(3, 3);
    buf.put_cells(0, 1, "zzz", Color::Black, Color::White);
    buf.clear();
    assert_eq!(buf.cells.len(), 9);
    for c in &buf.cells {
        assert_eq!(*c, default_cell());
    }
}

#[test]
fn diff_of_identical_frames_is_empty() {
    let mut a = TerminalBuffer::new(5, 4);
    let mut b = TerminalBuffer::new(5, 4);
    a.put_cells(1, 1, "hi", Color::White, Color::Black);
    b.put_cells(1, 1, "hi", Color::White, Color::Black);
    assert_eq!(a.diff(&b).len(), 0);
    assert_eq!(a.diff(&a).len(), 0);
}

#[test]
fn diff_lists_only_changed_cells_in_row_major_order() {
    let mut a = TerminalBuffer::new(4, 2);
    let b = TerminalBuffer::new(4, 2);
    a.put_cell(2, 0, 'x', Color::White, Color::Black);
    a.put_cell(1, 1, 'y', Color::Black, Color::White);
    let patches = a.diff(&b);
    assert_eq!(patches.len(), 2);
    assert_eq!((patches[0].x, patches[0].y), (2, 0));
    assert_eq!(patches[0].cell, cell('x', Color::White, Color::Black));
    assert_eq!((patches[1].x, patches[1].y), (1, 1));
    assert_eq!(patches[1].cell, cell('y', Color::Black, Color::White));
}

#[test]
fn diff_detects_color_only_changes() {
    let mut a = TerminalBuffer::new(2, 1);
    let b = TerminalBuffer::new(2, 1);
    a.put_cell(0, 0, ' ', Color::Black, Color::White);
    let patches = a.diff(&b);
    assert_eq!(patches.len(), 1);
    assert_eq!((patches[0].x, patches[0].y), (0, 0));
}

#[test]
fn applying_a_diff_reproduces_the_frame() {
    let mut a = TerminalBuffer::new(6, 3);
    let mut b = TerminalBuffer::new(6, 3);
    a.put_cells(0, 0, "header", Color::Black, Color::White);
    a.put_cells(1, 2, "data", Color::White, Color::Black);
    b.put_cells(0, 0, "h_ader", Color::Black, Color::White);
    let patches = a.diff(&b);
    apply_patches(&mut b, &patches);
    assert_eq!(a.cells, b.cells);
}

#[test]
fn out_of_bounds_patch_is_a_no_op() {
    let mut b = TerminalBuffer::new(2, 2);
    let patches = vec![Patch { cell: cell('q', Color::White, Color::Black), x: 5, y: 0 }];
    apply_patches(&mut b, &patches);
    for c in &b.cells {
        assert_eq!(*c, default_cell());
    }
}

#[test]
fn render_commands_batch_color_changes() {
    let mut buf = TerminalBuffer::new(3, 1);
    buf.put_cell(0, 0, 'a', Color::White, Color::Black);
    buf.put_cell(1, 0, 'b', Color::White, Color::Black);
    buf.put_cell(2, 0, 'c', Color::Black, Color::White);
    let cmds = buf.render_commands();
    assert_eq!(
        cmds,
        vec![
            Command::ClearAll,
            Command::SetFg(Color::White),
            Command::SetBg(Color::Black),
            Command::MoveTo(0, 0),
            Command::Print('a'),
            Command::Print('b'),
            Command::SetFg(Color::Black),
            Command::SetBg(Color::White),
            Command::Print('c'),
        ]
    );
}

#[test]
fn patch_commands_emit_move_colors_print_per_patch() {
    let patches = vec![
        Patch { cell: cell('x', Color::White, Color::Black), x: 3, y: 1 },
        Patch { cell: cell('y', Color::Black, Color::White), x: 0, y: 2 },
    ];
    let cmds = patch_commands(&patches);
    assert_eq!(
        cmds,
        vec![
            Command::MoveTo(3, 1),
            Command::SetFg(Color::White),
            Command::SetBg(Color::Black),
            Command::Print('x'),
            Command::MoveTo(0, 2),
            Command::SetFg(Color::Black),
            Command::SetBg(Color::White),
            Command::Print('y'),
        ]
    );
}

#[test]
fn zero_sized_buffer_is_harmless() {
    let mut a = TerminalBuffer::new(0, 5);
    let b = TerminalBuffer::new(0, 5);
    a.put_cell(0, 0, 'x', Color::White, Color::Black);
    assert_eq!(a.diff(&b).len(), 0);
    assert_eq!(a.cells.len(), 0);
}
