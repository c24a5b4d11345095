//! The renderer: a pure projection of the hex document and its cursor into
//! cell writes — address column, hex digit pairs with the cursor nibble
//! inverted, ASCII column — plus the status/header bar.

use vstd::prelude::*;

verus! {

use crate::hex::{
    hex_char_of, high_nibble, low_nibble, spec_hex_char, spec_high_nibble, spec_low_nibble,
};
use crate::hex_view::{Cursor, HexView, HexViewLine, BYTES_PER_LINE};
use crate::terminal_buffer::{
    cell_index, lemma_cell_index_bounds, lemma_cell_index_injective, Cell, Color, TerminalBuffer,
};

/// Column of the first hex digit, relative to the render origin.
pub const HEX_COLUMN: usize = 11;

/// Column of the first ASCII glyph, relative to the render origin.
pub const ASCII_COLUMN: usize = 11 + 3 * BYTES_PER_LINE + 1;

/// The ASCII-column glyph of a byte: the byte's character if it is
/// printable (`'!'` through `'~'`), else a dot.
pub open spec fn spec_ascii_glyph(b: u8) -> char {
    if 0x21 <= b <= 0x7e {
        b as char
    } else {
        '.'
    }
}

/// The ASCII-column glyph of a byte.
pub fn ascii_glyph_of(b: u8) -> (c: char)
    ensures
        c == spec_ascii_glyph(b),
{
    if 0x21 <= b && b <= 0x7e {
        b as char
    } else {
        '.'
    }
}

/// What the address region of a line writes at column `cx`: one of the
/// address characters, or the colon just after them.
pub open spec fn spec_addr_cell(line: HexViewLine, x0: int, cx: int) -> Option<Cell> {
    let col = cx - x0;
    if 0 <= col < line.offset@.len() {
        Some(Cell { ch: line.offset@[col], fg: Color::White, bg: Color::Black })
    } else if col == line.offset@.len() {
        Some(Cell { ch: ':', fg: Color::White, bg: Color::Black })
    } else {
        None
    }
}

/// What the hex region of a line writes at column `cx`, counting only the
/// first `upto` bytes: byte `k` puts its high nibble at column
/// `HEX_COLUMN + 3k`, its low nibble one to the right, and leaves a gap
/// after; the nibble under a visible cursor swaps the normal colors.
pub open spec fn spec_hex_cell(
    line: HexViewLine,
    cursor: Cursor,
    y: int,
    x0: int,
    cx: int,
    upto: int,
) -> Option<Cell> {
    let col = cx - x0 - HEX_COLUMN;
    if 0 <= col < 3 * upto && col % 3 != 2 {
        let bi = col / 3;
        let high = col % 3 == 0;
        let b = line.bytes@[bi];
        let d = if high {
            spec_high_nibble(b)
        } else {
            spec_low_nibble(b)
        };
        let selected = cursor.is_visible && cursor.y == y && cursor.x == bi && (
        cursor.is_left_nibble <==> high);
        Some(
            Cell {
                ch: spec_hex_char(d),
                fg: if selected {
                    Color::Black
                } else {
                    Color::White
                },
                bg: if selected {
                    Color::White
                } else {
                    Color::Black
                },
            },
        )
    } else {
        None
    }
}

/// What the ASCII region of a line writes at column `cx`, counting only the
/// first `upto` bytes: byte `k` puts its glyph at `ASCII_COLUMN + k`.
pub open spec fn spec_ascii_cell(line: HexViewLine, x0: int, cx: int, upto: int) -> Option<Cell> {
    let col = cx - x0 - ASCII_COLUMN;
    if 0 <= col < upto {
        Some(Cell { ch: spec_ascii_glyph(line.bytes@[col]), fg: Color::White, bg: Color::Black })
    } else {
        None
    }
}

/// What rendering line `y` writes at column `cx` of its row, or `None` for
/// a column the line leaves untouched.
pub open spec fn spec_line_cell(line: HexViewLine, cursor: Cursor, y: int, x0: int, cx: int) -> Option<
    Cell,
> {
    let blen = line.bytes@.len() as int;
    match spec_ascii_cell(line, x0, cx, blen) {
        Some(c) => Some(c),
        None => match spec_hex_cell(line, cursor, y, x0, cx, blen) {
            Some(c) => Some(c),
            None => spec_addr_cell(line, x0, cx),
        },
    }
}

/// What rendering the whole document at origin `(x0, y0)` writes at grid
/// position `(cx, cy)`, or `None` where the frame is left untouched.
pub open spec fn spec_rendered_cell(hv: HexView, x0: int, y0: int, cx: int, cy: int) -> Option<
    Cell,
> {
    if y0 <= cy < y0 + hv.lines@.len() {
        spec_line_cell(hv.lines@[cy - y0], hv.cursor, cy - y0, x0, cx)
    } else {
        None
    }
}

/// Writes one cell at column `x0 + dx`, as a silent no-op when that column
/// or the row falls outside the grid, even when `x0 + dx` exceeds the
/// machine word.
fn put_cell_at(buffer: &mut TerminalBuffer, x0: usize, dx: usize, row: usize, ch: char, fg: Color, bg: Color)
    requires
        old(buffer).wf(),
    ensures
        final(buffer).wf(),
        final(buffer).w == old(buffer).w,
        final(buffer).h == old(buffer).h,
        forall|cx: int, cy: int|
            0 <= cx < old(buffer).w && 0 <= cy < old(buffer).h ==> final(buffer).cell_at(cx, cy)
                == (if cy == row && cx == x0 + dx {
                Cell { ch, fg, bg }
            } else {
                old(buffer).cell_at(cx, cy)
            }),
{
    let ghost w = old(buffer).w as int;
    let ghost h = old(buffer).h as int;
    if x0 < buffer.w && dx < buffer.w - x0 {
        let tx = x0 + dx;
        buffer.put_cell(tx, row, ch, fg, bg);
        proof {
            if row < h {
                lemma_cell_index_bounds(w, h, tx as int, row as int);
                assert forall|cx: int, cy: int| 0 <= cx < w && 0 <= cy < h implies buffer.cell_at(
                    cx,
                    cy,
                ) == (if cy == row && cx == x0 + dx {
                    Cell { ch, fg, bg }
                } else {
                    old(buffer).cell_at(cx, cy)
                }) by {
                    lemma_cell_index_bounds(w, h, cx, cy);
                    if cell_index(w, cx, cy) == cell_index(w, tx as int, row as int) {
                        lemma_cell_index_injective(w, h, cx, cy, tx as int, row as int);
                    }
                }
            }
        }
    }
}

/// Renders one line of the document into its row: address and colon, hex
/// digit pairs with the cursor nibble inverted, then the ASCII column.
fn render_line(
    buffer: &mut TerminalBuffer,
    line: &HexViewLine,
    cursor: Cursor,
    y: usize,
    x_start: usize,
    row: usize,
)
    requires
        old(buffer).wf(),
        line.bytes@.len() <= BYTES_PER_LINE,
        line.offset@.len() == 8,
    ensures
        final(buffer).wf(),
        final(buffer).w == old(buffer).w,
        final(buffer).h == old(buffer).h,
        forall|cx: int, cy: int|
            0 <= cx < old(buffer).w && 0 <= cy < old(buffer).h ==> final(buffer).cell_at(cx, cy)
                == (if cy == row {
                match spec_line_cell(*line, cursor, y as int, x_start as int, cx) {
                    Some(c) => c,
                    None => old(buffer).cell_at(cx, cy),
                }
            } else {
                old(buffer).cell_at(cx, cy)
            }),
{
    let ghost orig = *buffer;
    let ghost x0 = x_start as int;

    // address characters
    let mut i: usize = 0;
    while i < 8
        invariant
            i <= 8,
            buffer.wf(),
            buffer.w == orig.w,
            buffer.h == orig.h,
            orig.wf(),
            line.offset@.len() == 8,
            forall|cx: int, cy: int|
                0 <= cx < orig.w && 0 <= cy < orig.h ==> buffer.cell_at(cx, cy) == (if cy == row
                    && x_start <= cx < x_start + i {
                    Cell { ch: line.offset@[cx - x_start], fg: Color::White, bg: Color::Black }
                } else {
                    orig.cell_at(cx, cy)
                }),
        decreases 8 - i,
    {
        let ghost prev = *buffer;
        let ch = line.offset.get_char(i);
        put_cell_at(buffer, x_start, i, row, ch, Color::White, Color::Black);
        proof {
            assert forall|cx: int, cy: int| 0 <= cx < orig.w && 0 <= cy < orig.h implies buffer
                .cell_at(cx, cy) == (if cy == row && x_start <= cx < x_start + i + 1 {
                Cell { ch: line.offset@[cx - x_start], fg: Color::White, bg: Color::Black }
            } else {
                orig.cell_at(cx, cy)
            }) by {
                assert(prev.cell_at(cx, cy) == (if cy == row && x_start <= cx < x_start + i {
                    Cell { ch: line.offset@[cx - x_start], fg: Color::White, bg: Color::Black }
                } else {
                    orig.cell_at(cx, cy)
                }));
            }
        }
        i = i + 1;
    }
    let ghost prev_a = *buffer;
    put_cell_at(buffer, x_start, 8, row, ':', Color::White, Color::Black);
    proof {
        assert forall|cx: int, cy: int| 0 <= cx < orig.w && 0 <= cy < orig.h implies buffer.cell_at(
            cx,
            cy,
        ) == (if cy == row {
            match spec_addr_cell(*line, x0, cx) {
                Some(c) => c,
                None => orig.cell_at(cx, cy),
            }
        } else {
            orig.cell_at(cx, cy)
        }) by {
            assert(prev_a.cell_at(cx, cy) == (if cy == row && x_start <= cx < x_start + 8 {
                Cell { ch: line.offset@[cx - x_start], fg: Color::White, bg: Color::Black }
            } else {
                orig.cell_at(cx, cy)
            }));
        }
    }

    // hex digit pairs
    let nbytes = line.bytes.len();
    let mut bx: usize = 0;
    while bx < nbytes
        invariant
            bx <= nbytes,
            nbytes == line.bytes@.len(),
            nbytes <= BYTES_PER_LINE,
            x0 == x_start as int,
            buffer.wf(),
            buffer.w == orig.w,
            buffer.h == orig.h,
            orig.wf(),
            line.offset@.len() == 8,
            forall|cx: int, cy: int|
                0 <= cx < orig.w && 0 <= cy < orig.h ==> buffer.cell_at(cx, cy) == (if cy == row {
                    match spec_hex_cell(*line, cursor, y as int, x0, cx, bx as int) {
                        Some(c) => c,
                        None => match spec_addr_cell(*line, x0, cx) {
                            Some(c) => c,
                            None => orig.cell_at(cx, cy),
                        },
                    }
                } else {
                    orig.cell_at(cx, cy)
                }),
        decreases nbytes - bx,
    {
        let b = line.bytes[bx];
        let mut hi_fg = Color::White;
        let mut hi_bg = Color::Black;
        let mut lo_fg = Color::White;
        let mut lo_bg = Color::Black;
        if cursor.is_visible && cursor.y == y && cursor.x == bx {
            if cursor.is_left_nibble {
                hi_fg = Color::Black;
                hi_bg = Color::White;
            } else {
                lo_fg = Color::Black;
                lo_bg = Color::White;
            }
        }
        let ghost prev1 = *buffer;
        put_cell_at(buffer, x_start, HEX_COLUMN + 3 * bx, row, hex_char_of(high_nibble(b)), hi_fg, hi_bg);
        let ghost prev2 = *buffer;
        put_cell_at(buffer, x_start, HEX_COLUMN + 3 * bx + 1, row, hex_char_of(low_nibble(b)), lo_fg, lo_bg);
        proof {
            assert((3 * bx) % 3 == 0) by (nonlinear_arith);
            assert((3 * bx + 1) % 3 == 1) by (nonlinear_arith);
            assert((3 * bx + 2) % 3 == 2) by (nonlinear_arith);
            assert((3 * bx) / 3 == bx) by (nonlinear_arith);
            assert((3 * bx + 1) / 3 == bx) by (nonlinear_arith);
            assert forall|cx: int, cy: int| 0 <= cx < orig.w && 0 <= cy < orig.h implies buffer
                .cell_at(cx, cy) == (if cy == row {
                match spec_hex_cell(*line, cursor, y as int, x0, cx, bx + 1) {
                    Some(c) => c,
                    None => match spec_addr_cell(*line, x0, cx) {
                        Some(c) => c,
                        None => orig.cell_at(cx, cy),
                    },
                }
            } else {
                orig.cell_at(cx, cy)
            }) by {
                let colh = x0 + HEX_COLUMN + 3 * (bx as int);
                let col = cx - x0 - HEX_COLUMN;
                assert(prev2.cell_at(cx, cy) == (if cy == row && cx == colh {
                    Cell {
                        ch: spec_hex_char(spec_high_nibble(line.bytes@[bx as int])),
                        fg: hi_fg,
                        bg: hi_bg,
                    }
                } else {
                    prev1.cell_at(cx, cy)
                }));
                assert(buffer.cell_at(cx, cy) == (if cy == row && cx == colh + 1 {
                    Cell {
                        ch: spec_hex_char(spec_low_nibble(line.bytes@[bx as int])),
                        fg: lo_fg,
                        bg: lo_bg,
                    }
                } else {
                    prev2.cell_at(cx, cy)
                }));
                assert(prev1.cell_at(cx, cy) == (if cy == row {
                    match spec_hex_cell(*line, cursor, y as int, x0, cx, bx as int) {
                        Some(c) => c,
                        None => match spec_addr_cell(*line, x0, cx) {
                            Some(c) => c,
                            None => orig.cell_at(cx, cy),
                        },
                    }
                } else {
                    orig.cell_at(cx, cy)
                }));
                if cy == row && cx == colh {
                    assert(col == 3 * bx && col % 3 == 0 && col / 3 == bx);
                    assert(spec_hex_cell(*line, cursor, y as int, x0, cx, bx + 1) == Some(
                        Cell {
                            ch: spec_hex_char(spec_high_nibble(line.bytes@[bx as int])),
                            fg: hi_fg,
                            bg: hi_bg,
                        },
                    ));
                } else if cy == row && cx == colh + 1 {
                    assert(col == 3 * bx + 1 && col % 3 == 1 && col / 3 == bx);
                    assert(spec_hex_cell(*line, cursor, y as int, x0, cx, bx + 1) == Some(
                        Cell {
                            ch: spec_hex_char(spec_low_nibble(line.bytes@[bx as int])),
                            fg: lo_fg,
                            bg: lo_bg,
                        },
                    ));
                } else {
                    assert(buffer.cell_at(cx, cy) == prev1.cell_at(cx, cy));
                    if cx != colh && cx != colh + 1 {
                        if 0 <= col < 3 * (bx + 1) && col % 3 != 2 && !(0 <= col < 3 * bx) {
                            assert(col == 3 * bx || col == 3 * bx + 1 || col == 3 * bx + 2);
                            assert(false);
                        }
                        assert(spec_hex_cell(*line, cursor, y as int, x0, cx, bx + 1)
                            == spec_hex_cell(*line, cursor, y as int, x0, cx, bx as int));
                    }
                }
            }
        }
        bx = bx + 1;
    }

    // ASCII column
    let mut ax: usize = 0;
    while ax < nbytes
        invariant
            ax <= nbytes,
            nbytes == line.bytes@.len(),
            nbytes <= BYTES_PER_LINE,
            x0 == x_start as int,
            buffer.wf(),
            buffer.w == orig.w,
            buffer.h == orig.h,
            orig.wf(),
            forall|cx: int, cy: int|
                0 <= cx < orig.w && 0 <= cy < orig.h ==> buffer.cell_at(cx, cy) == (if cy == row {
                    match spec_ascii_cell(*line, x0, cx, ax as int) {
                        Some(c) => c,
                        None => match spec_hex_cell(*line, cursor, y as int, x0, cx, nbytes as int) {
                            Some(c) => c,
                            None => match spec_addr_cell(*line, x0, cx) {
                                Some(c) => c,
                                None => orig.cell_at(cx, cy),
                            },
                        },
                    }
                } else {
                    orig.cell_at(cx, cy)
                }),
        decreases nbytes - ax,
    {
        let b = line.bytes[ax];
        let ghost prev3 = *buffer;
        put_cell_at(buffer, x_start, ASCII_COLUMN + ax, row, ascii_glyph_of(b), Color::White, Color::Black);
        proof {
            assert forall|cx: int, cy: int| 0 <= cx < orig.w && 0 <= cy < orig.h implies buffer
                .cell_at(cx, cy) == (if cy == row {
                match spec_ascii_cell(*line, x0, cx, ax + 1) {
                    Some(c) => c,
                    None => match spec_hex_cell(*line, cursor, y as int, x0, cx, nbytes as int) {
                        Some(c) => c,
                        None => match spec_addr_cell(*line, x0, cx) {
                            Some(c) => c,
                            None => orig.cell_at(cx, cy),
                        },
                    },
                }
            } else {
                orig.cell_at(cx, cy)
            }) by {
                let cola = x0 + ASCII_COLUMN + (ax as int);
                assert(buffer.cell_at(cx, cy) == (if cy == row && cx == cola {
                    Cell {
                        ch: spec_ascii_glyph(line.bytes@[ax as int]),
                        fg: Color::White,
                        bg: Color::Black,
                    }
                } else {
                    prev3.cell_at(cx, cy)
                }));
                assert(prev3.cell_at(cx, cy) == (if cy == row {
                    match spec_ascii_cell(*line, x0, cx, ax as int) {
                        Some(c) => c,
                        None => match spec_hex_cell(*line, cursor, y as int, x0, cx, nbytes as int) {
                            Some(c) => c,
                            None => match spec_addr_cell(*line, x0, cx) {
                                Some(c) => c,
                                None => orig.cell_at(cx, cy),
                            },
                        },
                    }
                } else {
                    orig.cell_at(cx, cy)
                }));
                if cy == row && cx == cola {
                    assert(spec_ascii_cell(*line, x0, cx, ax + 1) == Some(
                        Cell {
                            ch: spec_ascii_glyph(line.bytes@[ax as int]),
                            fg: Color::White,
                            bg: Color::Black,
                        },
                    ));
                } else {
                    assert(buffer.cell_at(cx, cy) == prev3.cell_at(cx, cy));
                    if cx != cola {
                        assert(spec_ascii_cell(*line, x0, cx, ax + 1) == spec_ascii_cell(
                            *line,
                            x0,
                            cx,
                            ax as int,
                        ));
                    }
                }
            }
        }
        ax = ax + 1;
    }
}

/// Projects the document and its cursor into the frame at origin
/// `(x_start, y_start)`: for each line its address, hex digit pairs (the
/// nibble under a visible cursor in inverted colors) and ASCII column;
/// every other cell of the frame is left untouched.
pub fn render_hex_editor(
    buffer: &mut TerminalBuffer,
    hex_editor: &HexView,
    x_start: usize,
    y_start: usize,
)
    requires
        old(buffer).wf(),
        hex_editor.wf(),
    ensures
        final(buffer).wf(),
        final(buffer).w == old(buffer).w,
        final(buffer).h == old(buffer).h,
        forall|cx: int, cy: int|
            0 <= cx < old(buffer).w && 0 <= cy < old(buffer).h ==> final(buffer).cell_at(cx, cy)
                == (match spec_rendered_cell(
                *hex_editor,
                x_start as int,
                y_start as int,
                cx,
                cy,
            ) {
                Some(c) => c,
                None => old(buffer).cell_at(cx, cy),
            }),
{
    let ghost orig = *buffer;
    let ghost x0 = x_start as int;
    let ghost y0 = y_start as int;
    let n = hex_editor.lines.len();
    let mut li: usize = 0;
    while li < n
        invariant
            li <= n,
            n == hex_editor.lines@.len(),
            x0 == x_start as int,
            y0 == y_start as int,
            hex_editor.wf(),
            buffer.wf(),
            buffer.w == orig.w,
            buffer.h == orig.h,
            orig.wf(),
            forall|cx: int, cy: int|
                0 <= cx < orig.w && 0 <= cy < orig.h ==> buffer.cell_at(cx, cy) == (if y0 <= cy
                    < y0 + li {
                    match spec_line_cell(
                        hex_editor.lines@[cy - y0],
                        hex_editor.cursor,
                        cy - y0,
                        x0,
                        cx,
                    ) {
                        Some(c) => c,
                        None => orig.cell_at(cx, cy),
                    }
                } else {
                    orig.cell_at(cx, cy)
                }),
        decreases n - li,
    {
        let ghost prev = *buffer;
        let writable = y_start < buffer.h && li < buffer.h - y_start;
        proof {
            assert(writable == ((y_start as int) + (li as int) < orig.h as int));
        }
        if writable {
            let row = y_start + li;
            let line = &hex_editor.lines[li];
            render_line(buffer, line, hex_editor.cursor, li, x_start, row);
            proof {
                assert(*line == hex_editor.lines@[li as int]);
                assert forall|cx: int, cy: int| 0 <= cx < orig.w && 0 <= cy < orig.h implies buffer
                    .cell_at(cx, cy) == (if cy == y0 + li {
                    match spec_line_cell(
                        hex_editor.lines@[li as int],
                        hex_editor.cursor,
                        li as int,
                        x0,
                        cx,
                    ) {
                        Some(c) => c,
                        None => prev.cell_at(cx, cy),
                    }
                } else {
                    prev.cell_at(cx, cy)
                }) by {
                    let vp = prev.cell_at(cx, cy);
                    assert(buffer.cell_at(cx, cy) == (if cy == row {
                        match spec_line_cell(*line, hex_editor.cursor, li as int, x0, cx) {
                            Some(c) => c,
                            None => prev.cell_at(cx, cy),
                        }
                    } else {
                        prev.cell_at(cx, cy)
                    }));
                }
            }
        }
        proof {
            assert forall|cx: int, cy: int| 0 <= cx < orig.w && 0 <= cy < orig.h implies buffer
                .cell_at(cx, cy) == (if y0 <= cy < y0 + li + 1 {
                match spec_line_cell(
                    hex_editor.lines@[cy - y0],
                    hex_editor.cursor,
                    cy - y0,
                    x0,
                    cx,
                ) {
                    Some(c) => c,
                    None => orig.cell_at(cx, cy),
                }
            } else {
                orig.cell_at(cx, cy)
            }) by {
                let vb = buffer.cell_at(cx, cy);
                assert(prev.cell_at(cx, cy) == (if y0 <= cy < y0 + li {
                    match spec_line_cell(
                        hex_editor.lines@[cy - y0],
                        hex_editor.cursor,
                        cy - y0,
                        x0,
                        cx,
                    ) {
                        Some(c) => c,
                        None => orig.cell_at(cx, cy),
                    }
                } else {
                    orig.cell_at(cx, cy)
                }));
                if !writable {
                    assert(buffer.cell_at(cx, cy) == prev.cell_at(cx, cy));
                    assert(y0 + li >= orig.h);
                }
            }
        }
        li = li + 1;
    }
}

/// Draws the status/header bar: the label left-justified at `(x, y)` and
/// the remainder of the row up to column `w` filled with spaces in the
/// bar's colors.
pub fn status_bar(
    buffer: &mut TerminalBuffer,
    label: &str,
    x: usize,
    y: usize,
    w: usize,
    fg: Color,
    bg: Color,
)
    requires
        old(buffer).wf(),
    ensures
        final(buffer).wf(),
        final(buffer).w == old(buffer).w,
        final(buffer).h == old(buffer).h,
        forall|cx: int, cy: int|
            0 <= cx < old(buffer).w && 0 <= cy < old(buffer).h ==> final(buffer).cell_at(cx, cy)
                == (if cy == y && x <= cx < x + label@.len() {
                Cell { ch: label@[cx - x], fg, bg }
            } else if cy == y && x + label@.len() <= cx < w {
                Cell { ch: ' ', fg, bg }
            } else {
                old(buffer).cell_at(cx, cy)
            }),
{
    let ghost orig = *buffer;
    let n = label.unicode_len();
    buffer.put_cells(x, y, label, fg, bg);
    let start = if x >= w || n >= w - x {
        w
    } else {
        x + n
    };
    let mut col = start;
    while col < w
        invariant
            start <= col <= w,
            n == label@.len(),
            (start == w && (x + n >= w || x >= w)) || start == x + n,
            buffer.wf(),
            buffer.w == orig.w,
            buffer.h == orig.h,
            orig.wf(),
            forall|cx: int, cy: int|
                0 <= cx < orig.w && 0 <= cy < orig.h ==> buffer.cell_at(cx, cy) == (if cy == y && x
                    <= cx < x + n {
                    Cell { ch: label@[cx - x], fg, bg }
                } else if cy == y && start <= cx < col {
                    Cell { ch: ' ', fg, bg }
                } else {
                    orig.cell_at(cx, cy)
                }),
        decreases w - col,
    {
        let ghost prev = *buffer;
        buffer.put_cell(col, y, ' ', fg, bg);
        proof {
            let bw = orig.w as int;
            let bh = orig.h as int;
            if col < orig.w && y < orig.h {
                lemma_cell_index_bounds(bw, bh, col as int, y as int);
            }
            assert forall|cx: int, cy: int| 0 <= cx < bw && 0 <= cy < bh implies buffer.cell_at(
                cx,
                cy,
            ) == (if cy == y && x <= cx < x + n {
                Cell { ch: label@[cx - x], fg, bg }
            } else if cy == y && start <= cx < col + 1 {
                Cell { ch: ' ', fg, bg }
            } else {
                orig.cell_at(cx, cy)
            }) by {
                assert(prev.cell_at(cx, cy) == (if cy == y && x <= cx < x + n {
                    Cell { ch: label@[cx - x], fg, bg }
                } else if cy == y && start <= cx < col {
                    Cell { ch: ' ', fg, bg }
                } else {
                    orig.cell_at(cx, cy)
                }));
                lemma_cell_index_bounds(bw, bh, cx, cy);
                if col < orig.w && y < orig.h && cell_index(bw, cx, cy) == cell_index(
                    bw,
                    col as int,
                    y as int,
                ) {
                    lemma_cell_index_injective(bw, bh, cx, cy, col as int, y as int);
                }
            }
        }
        col = col + 1;
    }
}

} // verus!
