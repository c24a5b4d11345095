//! The hex document model: raw bytes laid out into fixed-width addressed
//! lines, a two-dimensional cursor with a nibble side and a wake-on-first-key
//! state, nibble-level edits, and reconstruction of the byte stream for
//! saving.

use vstd::prelude::*;

verus! {

use crate::hex::{address_string, spec_address_chars};

/// Bytes rendered per line.
pub const BYTES_PER_LINE: usize = 16;

/// One addressed line of the document: its rendered address and the bytes
/// it covers.
pub struct HexViewLine {
    pub offset: String,
    pub bytes: Vec<u8>,
}

impl HexViewLine {
    /// A line from its rendered address and its bytes.
    pub fn new(offset: String, bytes: &[u8]) -> (line: HexViewLine)
        ensures
            line.offset == offset,
            line.bytes@ == bytes@,
    {
        HexViewLine { offset, bytes: vstd::slice::slice_to_vec(bytes) }
    }
}

/// The cursor: a byte column and a line row, the nibble side under edit,
/// and whether the cursor has been woken by a first key press.
#[derive(Clone, Copy, PartialEq, Eq, Structural, Debug)]
pub struct Cursor {
    pub x: usize,
    pub y: usize,
    pub is_visible: bool,
    pub is_left_nibble: bool,
}

/// The initial cursor: invisible, high nibble of the first byte.
pub open spec fn spec_initial_cursor() -> Cursor {
    Cursor { x: 0, y: 0, is_visible: false, is_left_nibble: true }
}

impl Default for Cursor {
    /// The initial cursor: invisible, high nibble of the first byte.
    fn default() -> (c: Cursor)
        ensures
            c == spec_initial_cursor(),
    {
        Cursor { x: 0, y: 0, is_visible: false, is_left_nibble: true }
    }
}

/// How many lines a document of `n` bytes occupies at `l` bytes per line:
/// `n / l` rounded up.
pub open spec fn spec_line_count(n: nat, l: nat) -> int {
    (n + l - 1) / (l as int)
}

/// Where line `i` ends: `(i+1) * l`, capped at the document length.
pub open spec fn spec_line_end(n: int, l: int, i: int) -> int {
    if (i + 1) * l <= n {
        (i + 1) * l
    } else {
        n
    }
}

/// The bytes of line `i`: the run from offset `i * l` up to the line end.
pub open spec fn spec_line_bytes(bytes: Seq<u8>, l: nat, i: int) -> Seq<u8> {
    bytes.subrange(i * l, spec_line_end(bytes.len() as int, l as int, i))
}

/// The partition of a document into lines of width `l` (the last line may
/// be shorter); an empty document has no lines.
pub open spec fn spec_layout(bytes: Seq<u8>, l: nat) -> Seq<Seq<u8>> {
    Seq::new(spec_line_count(bytes.len(), l) as nat, |i: int| spec_line_bytes(bytes, l, i))
}

/// The start of an in-range line lies strictly inside the document.
pub proof fn lemma_line_start_bound(n: int, l: int, i: int)
    requires
        0 < l,
        0 <= n,
        0 <= i < spec_line_count(n as nat, l as nat),
    ensures
        0 <= i * l < n,
{
    let q = (n + l - 1) / l;
    vstd::arithmetic::div_mod::lemma_fundamental_div_mod(n + l - 1, l);
    vstd::arithmetic::div_mod::lemma_mod_bound(n + l - 1, l);
    let r = (n + l - 1) % l;
    assert(n + l - 1 == l * q + r);
    assert(i * l <= (q - 1) * l) by (nonlinear_arith)
        requires
            i <= q - 1,
            l > 0,
    ;
    assert((q - 1) * l == l * q - l) by (nonlinear_arith);
    assert(0 <= i * l) by (nonlinear_arith)
        requires
            0 <= i,
            0 < l,
    ;
}

/// Every line of a layout is non-empty and at most `l` bytes, and all lines
/// but the last are exactly `l` bytes.
pub proof fn lemma_line_lengths(bytes: Seq<u8>, l: nat, i: int)
    requires
        0 < l,
        0 <= i < spec_line_count(bytes.len(), l),
    ensures
        0 < spec_line_bytes(bytes, l, i).len() <= l,
        i < spec_line_count(bytes.len(), l) - 1 ==> spec_line_bytes(bytes, l, i).len() == l,
{
    let n = bytes.len() as int;
    let li = l as int;
    lemma_line_start_bound(n, li, i);
    assert((i + 1) * li == i * li + li) by (nonlinear_arith);
    if i < spec_line_count(bytes.len(), l) - 1 {
        lemma_line_start_bound(n, li, i + 1);
        assert((i + 1) * li < n);
    }
}

/// Dropping the first line of a non-empty layout gives the layout of the
/// document without its first line's bytes.
proof fn lemma_layout_step(bytes: Seq<u8>, l: nat)
    requires
        0 < l,
        bytes.len() > 0,
    ensures
        spec_layout(bytes, l).len() >= 1,
        spec_layout(bytes, l).first() == bytes.take(spec_line_end(bytes.len() as int, l as int, 0)),
        spec_layout(bytes, l).drop_first() =~= spec_layout(
            bytes.skip(spec_line_end(bytes.len() as int, l as int, 0)),
            l,
        ),
{
    let n = bytes.len() as int;
    let li = l as int;
    let k = spec_line_end(n, li, 0);
    let rest = bytes.skip(k);
    assert(1 * li == li) by (nonlinear_arith);
    assert(0 * li == 0) by (nonlinear_arith);
    // line counts: one more line than the remainder has
    vstd::arithmetic::div_mod::lemma_div_plus_one(n - 1, li);
    if k == li {
        // full first line: the remainder has n - l bytes
        vstd::arithmetic::div_mod::lemma_div_plus_one(n - li - 1 + li, li);
        assert(spec_line_count(bytes.len(), l) == 1 + spec_line_count(rest.len(), l));
    } else {
        // short single line: the remainder is empty
        assert(n < li);
        vstd::arithmetic::div_mod::lemma_basic_div(n - 1, li);
        vstd::arithmetic::div_mod::lemma_basic_div(li - 1, li);
        assert(spec_line_count(bytes.len(), l) == 1);
        assert(spec_line_count(rest.len(), l) == 0);
    }
    assert(spec_layout(bytes, l).first() =~= bytes.take(k));
    assert forall|i: int| 0 <= i < spec_line_count(rest.len(), l) implies spec_layout(
        bytes,
        l,
    )[i + 1] == spec_layout(rest, l)[i] by {
        assert(k == li);
        assert((i + 1) * li == i * li + li) by (nonlinear_arith);
        assert((i + 2) * li == (i + 1) * li + li) by (nonlinear_arith);
        lemma_line_start_bound(rest.len() as int, li, i);
        assert(spec_line_bytes(bytes, l, i + 1) =~= spec_line_bytes(rest, l, i));
    }
}

/// The layout of a document of width `l` has one line per `l` bytes,
/// rounded up; line `i` spans offsets `i * l` up to `min(n, (i+1) * l)`;
/// and concatenating all lines reproduces the document exactly.
pub proof fn lemma_layout_partition(bytes: Seq<u8>, l: nat)
    requires
        0 < l,
    ensures
        spec_layout(bytes, l).len() == spec_line_count(bytes.len(), l),
        forall|i: int|
            0 <= i < spec_layout(bytes, l).len() ==> #[trigger] spec_layout(bytes, l)[i]
                == bytes.subrange(i * l, spec_line_end(bytes.len() as int, l as int, i)),
        spec_layout(bytes, l).flatten() == bytes,
    decreases bytes.len(),
{
    let n = bytes.len() as int;
    let li = l as int;
    if bytes.len() == 0 {
        vstd::arithmetic::div_mod::lemma_basic_div(li - 1, li);
        assert(spec_layout(bytes, l).len() == 0);
        assert(spec_layout(bytes, l).flatten() =~= bytes);
    } else {
        let k = spec_line_end(n, li, 0);
        let rest = bytes.skip(k);
        assert(0 * li == 0) by (nonlinear_arith);
        assert(1 * li == li) by (nonlinear_arith);
        assert(0 < k <= n);
        lemma_layout_step(bytes, l);
        lemma_layout_partition(rest, l);
        let lo = spec_layout(bytes, l);
        assert(lo.flatten() == lo.first() + lo.drop_first().flatten());
        assert(lo.drop_first().flatten() == spec_layout(rest, l).flatten()) by {
            assert(lo.drop_first() =~= spec_layout(rest, l));
        }
        assert(bytes.take(k) + rest =~= bytes);
    }
}

/// Loading a document and saving it with no edits reproduces its bytes
/// exactly, length included.
pub proof fn lemma_load_save_roundtrip(bytes: Seq<u8>)
    ensures
        spec_layout(bytes, BYTES_PER_LINE as nat).flatten() == bytes,
        spec_layout(bytes, BYTES_PER_LINE as nat).flatten().len() == bytes.len(),
{
    lemma_layout_partition(bytes, BYTES_PER_LINE as nat);
}

/// The document model: the addressed lines and the cursor.
pub struct HexView {
    pub lines: Vec<HexViewLine>,
    pub cursor: Cursor,
}

impl HexView {
    /// The bytes of each line, in order.
    pub open spec fn bytes_seq(self) -> Seq<Seq<u8>> {
        self.lines@.map_values(|line: HexViewLine| line.bytes@)
    }

    /// The document invariant: every line is non-empty and holds at most
    /// `BYTES_PER_LINE` bytes, every line but the last is full, each line's
    /// address renders its starting offset, the cursor column is inside the
    /// line width, and the cursor row is inside the document (or zero when
    /// the document is empty).
    pub open spec fn wf(self) -> bool {
        &&& forall|i: int|
            0 <= i < self.lines@.len() ==> 0 < (#[trigger] self.lines@[i].bytes@.len())
                <= BYTES_PER_LINE
        &&& forall|i: int|
            0 <= i < self.lines@.len() - 1 ==> (#[trigger] self.lines@[i].bytes@.len())
                == BYTES_PER_LINE
        &&& forall|i: int|
            0 <= i < self.lines@.len() ==> (#[trigger] self.lines@[i].offset@)
                == spec_address_chars((i * BYTES_PER_LINE) as nat)
        &&& self.cursor.x < BYTES_PER_LINE
        &&& (self.cursor.y < self.lines@.len() || (self.lines@.len() == 0 && self.cursor.y == 0))
    }

    /// Lays a document out into addressed lines of `BYTES_PER_LINE` bytes,
    /// with the cursor in its initial state. The length bound keeps every
    /// line offset inside the 8-hex-digit address range.
    pub fn new(data: &[u8]) -> (hv: HexView)
        requires
            data@.len() <= 0x1_0000_0000,
        ensures
            hv.wf(),
            hv.bytes_seq() == spec_layout(data@, BYTES_PER_LINE as nat),
            hv.cursor == spec_initial_cursor(),
    {
        let ghost n = data@.len() as int;
        let mut lines: Vec<HexViewLine> = Vec::new();
        let mut offset: usize = 0;
        while offset < data.len()
            invariant
                data@.len() <= 0x1_0000_0000,
                n == data@.len() as int,
                0 <= offset <= n,
                offset == lines@.len() * 16 || (offset == n && lines@.len() * 16 > n
                    && (lines@.len() - 1) * 16 < n),
                forall|i: int|
                    0 <= i < lines@.len() ==> (#[trigger] lines@[i].bytes@) == spec_line_bytes(
                        data@,
                        16,
                        i,
                    ),
                forall|i: int|
                    0 <= i < lines@.len() ==> (#[trigger] lines@[i].offset@) == spec_address_chars(
                        (i * 16) as nat,
                    ),
            decreases n - offset,
        {
            let ghost li = lines@.len() as int;
            let end = if data.len() - offset > BYTES_PER_LINE {
                offset + BYTES_PER_LINE
            } else {
                data.len()
            };
            let mut line_bytes: Vec<u8> = Vec::new();
            let mut j = offset;
            while j < end
                invariant
                    offset <= j <= end,
                    end <= data@.len(),
                    line_bytes@ =~= data@.subrange(offset as int, j as int),
                decreases end - j,
            {
                line_bytes.push(data[j]);
                proof {
                    assert(line_bytes@ =~= data@.subrange(offset as int, j + 1));
                }
                j = j + 1;
            }
            let addr = address_string(offset);
            let line = HexViewLine::new(addr, line_bytes.as_slice());
            lines.push(line);
            proof {
                assert(offset == li * 16);
                assert(end == spec_line_end(n, 16, li));
                assert(lines@[li].bytes@ == spec_line_bytes(data@, 16, li));
            }
            offset = end;
        }
        proof {
            let c = lines@.len() as int;
            vstd::arithmetic::div_mod::lemma_fundamental_div_mod_converse(
                n + 15,
                16,
                c,
                n + 15 - c * 16,
            );
            assert(c == spec_line_count(data@.len(), BYTES_PER_LINE as nat));
        }
        let hv = HexView { lines, cursor: Cursor::default() };
        proof {
            assert(hv.bytes_seq() =~= spec_layout(data@, BYTES_PER_LINE as nat));
            assert forall|i: int| 0 <= i < hv.lines@.len() implies 0 < (#[trigger] hv.lines@[i]
                .bytes@.len()) <= BYTES_PER_LINE by {
                lemma_line_lengths(data@, BYTES_PER_LINE as nat, i);
            }
            assert forall|i: int| 0 <= i < hv.lines@.len() - 1 implies (#[trigger] hv.lines@[i]
                .bytes@.len()) == BYTES_PER_LINE by {
                lemma_line_lengths(data@, BYTES_PER_LINE as nat, i);
            }
        }
        hv
    }

    /// The byte under the cursor, or `None` when the cursor points past the
    /// bytes of a short line or past the last line.
    pub open spec fn spec_selected_byte(self) -> Option<u8> {
        if self.cursor.y < self.lines@.len() && self.cursor.x < self.lines@[
            self.cursor.y as int
        ].bytes@.len() {
            Some(self.lines@[self.cursor.y as int].bytes@[self.cursor.x as int])
        } else {
            None
        }
    }

    /// Reads the byte under the cursor, defensively: `None` when no byte
    /// lies under it.
    pub fn get_selected_byte(&self) -> (r: Option<u8>)
        ensures
            r == self.spec_selected_byte(),
    {
        let x = self.cursor.x;
        let y = self.cursor.y;
        if y < self.lines.len() {
            let line = &self.lines[y];
            if x < line.bytes.len() {
                return Some(line.bytes[x]);
            }
        }
        None
    }

    /// The addressed lines.
    pub fn get_lines(&self) -> (r: &Vec<HexViewLine>)
        ensures
            r == &self.lines,
    {
        &self.lines
    }

    /// Reconstructs the full byte stream by concatenating all lines' bytes
    /// in order; this is what saving writes back.
    pub fn get_data_as_bytes(&self) -> (bytes: Vec<u8>)
        ensures
            bytes@ == self.bytes_seq().flatten(),
    {
        let mut bytes: Vec<u8> = Vec::new();
        let n = self.lines.len();
        let mut i: usize = 0;
        proof {
            assert(self.bytes_seq().take(0).flatten() =~= bytes@);
        }
        while i < n
            invariant
                i <= n,
                n == self.lines@.len(),
                bytes@ == self.bytes_seq().take(i as int).flatten(),
            decreases n - i,
        {
            let line = &self.lines[i];
            let m = line.bytes.len();
            let ghost sofar = bytes@;
            let mut j: usize = 0;
            while j < m
                invariant
                    j <= m,
                    i < self.lines@.len(),
                    line == &self.lines@[i as int],
                    m == line.bytes@.len(),
                    bytes@ == sofar + self.lines@[i as int].bytes@.take(j as int),
                decreases m - j,
            {
                bytes.push(line.bytes[j]);
                proof {
                    assert(sofar + self.lines@[i as int].bytes@.take(j + 1) =~= bytes@);
                }
                j = j + 1;
            }
            proof {
                let s = self.bytes_seq();
                let ai = i as int;
                assert(self.lines@[ai].bytes@.take(m as int) =~= s[ai]);
                lemma_flatten_take_step(s, ai);
            }
            i = i + 1;
        }
        proof {
            assert(self.bytes_seq().take(n as int) =~= self.bytes_seq());
        }
        bytes
    }
}

/// The cursor after a left key: an invisible cursor only wakes; from the
/// low nibble it moves to the high nibble of the same byte; from the high
/// nibble of column 0 it stays; otherwise it moves to the low nibble of the
/// previous column.
pub open spec fn spec_move_left(c: Cursor) -> Cursor {
    if !c.is_visible {
        Cursor { is_visible: true, ..c }
    } else if !c.is_left_nibble {
        Cursor { is_left_nibble: true, ..c }
    } else if c.x == 0 {
        c
    } else {
        Cursor { x: (c.x - 1) as usize, is_left_nibble: false, ..c }
    }
}

/// The cursor after a right key on a line of `line_len` bytes: an invisible
/// cursor only wakes; from the high nibble it moves to the low nibble of
/// the same byte; from the low nibble of the last valid column (or beyond)
/// it stays; otherwise it moves to the high nibble of the next column.
pub open spec fn spec_move_right(c: Cursor, line_len: nat) -> Cursor {
    if !c.is_visible {
        Cursor { is_visible: true, ..c }
    } else if c.is_left_nibble {
        Cursor { is_left_nibble: false, ..c }
    } else if c.x + 1 < line_len {
        Cursor { x: (c.x + 1) as usize, is_left_nibble: true, ..c }
    } else {
        c
    }
}

/// The cursor after an up key: an invisible cursor only wakes; otherwise
/// the row decrements, clamped at the top; column and side are kept and the
/// column is not re-clamped against the destination line.
pub open spec fn spec_move_up(c: Cursor) -> Cursor {
    if !c.is_visible {
        Cursor { is_visible: true, ..c }
    } else if c.y == 0 {
        c
    } else {
        Cursor { y: (c.y - 1) as usize, ..c }
    }
}

/// The cursor after a down key in a document of `line_count` lines: an
/// invisible cursor only wakes; otherwise the row increments, clamped at
/// the bottom (a no-op in an empty document); column and side are kept and
/// the column is not re-clamped against the destination line.
pub open spec fn spec_move_down(c: Cursor, line_count: nat) -> Cursor {
    if !c.is_visible {
        Cursor { is_visible: true, ..c }
    } else if c.y + 1 < line_count {
        Cursor { y: (c.y + 1) as usize, ..c }
    } else {
        c
    }
}

/// The byte sequences after writing hex digit `digit` at the cursor: the
/// addressed nibble is replaced and every other nibble of the document is
/// kept; an invisible cursor, or one pointing past the bytes of a short
/// line or past the last line, changes nothing.
pub open spec fn spec_write_nibble_bytes(lines: Seq<Seq<u8>>, c: Cursor, digit: u8) -> Seq<
    Seq<u8>,
> {
    if c.is_visible && c.y < lines.len() && c.x < lines[c.y as int].len() {
        let b = lines[c.y as int][c.x as int];
        let nb = if c.is_left_nibble {
            crate::hex::spec_set_high_nibble(b, digit)
        } else {
            crate::hex::spec_set_low_nibble(b, digit)
        };
        lines.update(c.y as int, lines[c.y as int].update(c.x as int, nb))
    } else {
        lines
    }
}

impl HexView {
    /// The length of the line under the cursor's row, or zero past the last
    /// line.
    pub open spec fn spec_cur_line_len(self) -> nat {
        if self.cursor.y < self.lines@.len() {
            self.lines@[self.cursor.y as int].bytes@.len()
        } else {
            0
        }
    }

    /// Moves the cursor one nibble to the left; the first key press only
    /// wakes the cursor.
    pub fn move_cursor_left(&mut self)
        ensures
            final(self).lines == old(self).lines,
            final(self).cursor == spec_move_left(old(self).cursor),
            old(self).wf() ==> final(self).wf(),
    {
        if !self.cursor.is_visible {
            self.cursor.is_visible = true;
            return ;
        }
        if !self.cursor.is_left_nibble {
            self.cursor.is_left_nibble = true;
        } else if self.cursor.x > 0 {
            self.cursor.x = self.cursor.x - 1;
            self.cursor.is_left_nibble = false;
        }
    }

    /// Moves the cursor one nibble to the right, clamped at the last valid
    /// column of the current line; the first key press only wakes the
    /// cursor.
    pub fn move_cursor_right(&mut self)
        ensures
            final(self).lines == old(self).lines,
            final(self).cursor == spec_move_right(old(self).cursor, old(self).spec_cur_line_len()),
            old(self).wf() ==> final(self).wf(),
    {
        if !self.cursor.is_visible {
            self.cursor.is_visible = true;
            return ;
        }
        if self.cursor.is_left_nibble {
            self.cursor.is_left_nibble = false;
        } else {
            let y = self.cursor.y;
            if y < self.lines.len() {
                let len = self.lines[y].bytes.len();
                if len > 0 && self.cursor.x < len - 1 {
                    self.cursor.x = self.cursor.x + 1;
                    self.cursor.is_left_nibble = true;
                }
            }
        }
    }

    /// Moves the cursor one line up, clamped at the top; column and side
    /// are kept; the first key press only wakes the cursor.
    pub fn move_cursor_up(&mut self)
        ensures
            final(self).lines == old(self).lines,
            final(self).cursor == spec_move_up(old(self).cursor),
            old(self).wf() ==> final(self).wf(),
    {
        if !self.cursor.is_visible {
            self.cursor.is_visible = true;
            return ;
        }
        if self.cursor.y > 0 {
            self.cursor.y = self.cursor.y - 1;
        }
    }

    /// Moves the cursor one line down, clamped at the bottom and guarded
    /// against an empty document; column and side are kept; the first key
    /// press only wakes the cursor.
    pub fn move_cursor_down(&mut self)
        ensures
            final(self).lines == old(self).lines,
            final(self).cursor == spec_move_down(old(self).cursor, old(self).lines@.len()),
            old(self).wf() ==> final(self).wf(),
    {
        if !self.cursor.is_visible {
            self.cursor.is_visible = true;
            return ;
        }
        let count = self.lines.len();
        if count > 0 && self.cursor.y < count - 1 {
            self.cursor.y = self.cursor.y + 1;
        }
    }

    /// Writes hex digit `digit` into the nibble under the cursor, replacing
    /// only that nibble. A no-op while the cursor is invisible, and a
    /// defensive no-op when no byte lies under the cursor.
    pub fn write_nibble(&mut self, digit: u8)
        requires
            digit < 16,
        ensures
            final(self).cursor == old(self).cursor,
            final(self).lines@.len() == old(self).lines@.len(),
            forall|i: int|
                0 <= i < old(self).lines@.len() ==> (#[trigger] final(self).lines@[i].offset)
                    == old(self).lines@[i].offset,
            final(self).bytes_seq() == spec_write_nibble_bytes(
                old(self).bytes_seq(),
                old(self).cursor,
                digit,
            ),
            old(self).wf() ==> final(self).wf(),
    {
        if !self.cursor.is_visible {
            return ;
        }
        let x = self.cursor.x;
        let y = self.cursor.y;
        let left = self.cursor.is_left_nibble;
        if y < self.lines.len() {
            let line = &mut self.lines[y];
            if x < line.bytes.len() {
                let b = line.bytes[x];
                let nb = if left {
                    crate::hex::set_high_nibble(b, digit)
                } else {
                    crate::hex::set_low_nibble(b, digit)
                };
                line.bytes.set(x, nb);
            }
        }
        proof {
            assert(self.bytes_seq() =~= spec_write_nibble_bytes(
                old(self).bytes_seq(),
                old(self).cursor,
                digit,
            ));
        }
    }
}

/// Cursor wake: from the invisible state, every directional move makes the
/// cursor visible and leaves column, row and nibble side unchanged.
pub proof fn lemma_cursor_wake(c: Cursor, line_len: nat, line_count: nat)
    requires
        !c.is_visible,
    ensures
        spec_move_left(c) == (Cursor { is_visible: true, ..c }),
        spec_move_right(c, line_len) == (Cursor { is_visible: true, ..c }),
        spec_move_up(c) == (Cursor { is_visible: true, ..c }),
        spec_move_down(c, line_count) == (Cursor { is_visible: true, ..c }),
{
}

/// Cursor bounds: left and right keep the column inside the current line
/// and never change the row; up and down keep column and side and clamp the
/// row inside the document.
pub proof fn lemma_cursor_moves_bounded(c: Cursor, line_len: nat, line_count: nat)
    requires
        c.is_visible,
        c.x < line_len,
        c.y < line_count,
    ensures
        spec_move_left(c).x < line_len,
        spec_move_left(c).y == c.y,
        spec_move_right(c, line_len).x < line_len,
        spec_move_right(c, line_len).y == c.y,
        spec_move_up(c).x == c.x,
        spec_move_up(c).is_left_nibble == c.is_left_nibble,
        spec_move_up(c).y <= c.y < line_count,
        spec_move_down(c, line_count).x == c.x,
        spec_move_down(c, line_count).is_left_nibble == c.is_left_nibble,
        spec_move_down(c, line_count).y < line_count,
{
}

/// Writing the same digit to the same nibble twice leaves the document
/// exactly as one write does.
pub proof fn lemma_write_nibble_idempotent_doc(lines: Seq<Seq<u8>>, c: Cursor, digit: u8)
    ensures
        spec_write_nibble_bytes(spec_write_nibble_bytes(lines, c, digit), c, digit)
            == spec_write_nibble_bytes(lines, c, digit),
{
    if c.is_visible && c.y < lines.len() && c.x < lines[c.y as int].len() {
        let b = lines[c.y as int][c.x as int];
        crate::hex::lemma_write_nibble_idempotent(b, digit);
        let once = spec_write_nibble_bytes(lines, c, digit);
        assert(spec_write_nibble_bytes(once, c, digit) =~~= once);
    }
}

/// Flattening one more line appends exactly that line's elements.
proof fn lemma_flatten_take_step(s: Seq<Seq<u8>>, i: int)
    requires
        0 <= i < s.len(),
    ensures
        s.take(i + 1).flatten() == s.take(i).flatten() + s[i],
{
    s.take(i + 1).lemma_flatten_and_flatten_alt_are_equivalent();
    s.take(i).lemma_flatten_and_flatten_alt_are_equivalent();
    assert(s.take(i + 1).drop_last() =~= s.take(i));
    assert(s.take(i + 1).last() == s[i]);
    assert(s.take(i + 1).flatten_alt() == s.take(i).flatten_alt() + s[i]);
}

} // verus!
