//! A double-bufferable terminal cell grid: a row-major `W x H` grid of
//! (glyph, foreground, background) cells with point and run writes, a full
//! clear, a minimal diff against a reference frame, patch application, and
//! the command stream of a full repaint.

use vstd::prelude::*;

verus! {

use vstd::pervasive::VecAdditionalExecFns;

/// A terminal color. The grid draws with a fixed "normal" pair,
/// white on black, and inverts it under the cursor.
#[derive(Clone, Copy, PartialEq, Eq, Structural, Debug)]
pub enum Color {
    Black,
    White,
}

/// One terminal character position: a displayed glyph with its foreground
/// and background colors.
#[derive(Clone, Copy, PartialEq, Eq, Structural, Debug)]
pub struct Cell {
    pub ch: char,
    pub fg: Color,
    pub bg: Color,
}

/// The default cell: a space in the normal colors.
pub open spec fn spec_default_cell() -> Cell {
    Cell { ch: ' ', fg: Color::White, bg: Color::Black }
}

impl Default for Cell {
    /// The default cell: a space in the normal colors.
    fn default() -> (c: Cell)
        ensures
            c == spec_default_cell(),
    {
        Cell { ch: ' ', fg: Color::White, bg: Color::Black }
    }
}

/// A single-cell correction turning one frame into another: the cell at
/// `(x, y)` must become `cell`.
#[derive(Clone, Copy, PartialEq, Eq, Structural, Debug)]
pub struct Patch {
    pub cell: Cell,
    pub x: usize,
    pub y: usize,
}

/// The row-major index of the cell at column `x`, row `y` of a grid that is
/// `w` cells wide.
pub open spec fn cell_index(w: int, x: int, y: int) -> int {
    y * w + x
}

/// Row-major indices of in-bounds positions stay inside the grid.
pub proof fn lemma_cell_index_bounds(w: int, h: int, x: int, y: int)
    by (nonlinear_arith)
    requires
        0 <= x < w,
        0 <= y < h,
    ensures
        0 <= cell_index(w, x, y) < w * h,
{
}

/// Row-major indexing is injective on in-bounds positions.
pub proof fn lemma_cell_index_injective(w: int, h: int, x1: int, y1: int, x2: int, y2: int)
    by (nonlinear_arith)
    requires
        0 <= x1 < w,
        0 <= y1 < h,
        0 <= x2 < w,
        0 <= y2 < h,
        cell_index(w, x1, y1) == cell_index(w, x2, y2),
    ensures
        x1 == x2,
        y1 == y2,
{
}

/// A flat row-major grid of cells for one rendered frame.
pub struct TerminalBuffer {
    pub cells: Vec<Cell>,
    pub w: usize,
    pub h: usize,
}

impl TerminalBuffer {
    /// The grid invariant: the flat cell vector covers exactly `w * h`
    /// row-major positions.
    pub open spec fn wf(self) -> bool {
        self.cells@.len() == self.w * self.h
    }

    /// The cell at column `x`, row `y`.
    pub open spec fn cell_at(self, x: int, y: int) -> Cell {
        self.cells@[cell_index(self.w as int, x, y)]
    }

    /// Allocates a `w` by `h` grid with every cell default.
    pub fn new(w: usize, h: usize) -> (buf: TerminalBuffer)
        requires
            w * h <= usize::MAX,
        ensures
            buf.wf(),
            buf.w == w,
            buf.h == h,
            buf.cells@ == Seq::new((w * h) as nat, |i: int| spec_default_cell()),
    {
        proof {
            assert(0 <= w * h) by (nonlinear_arith);
        }
        let n = w * h;
        let mut cells: Vec<Cell> = Vec::new();
        let mut i: usize = 0;
        while i < n
            invariant
                i <= n,
                cells@ =~= Seq::new(i as nat, |j: int| spec_default_cell()),
            decreases n - i,
        {
            cells.push(Cell::default());
            i = i + 1;
        }
        proof {
            assert(cells@ =~= Seq::new((w * h) as nat, |i: int| spec_default_cell()));
        }
        TerminalBuffer { cells, w, h }
    }

    /// Resets every cell to the default in place; the allocation and the
    /// dimensions are kept.
    pub fn clear(&mut self)
        requires
            old(self).wf(),
        ensures
            final(self).wf(),
            final(self).w == old(self).w,
            final(self).h == old(self).h,
            final(self).cells@ == Seq::new(old(self).cells@.len(), |i: int| spec_default_cell()),
    {
        let n = self.cells.len();
        let mut i: usize = 0;
        while i < n
            invariant
                i <= n,
                self.w == old(self).w,
                self.h == old(self).h,
                self.cells@.len() == n,
                forall|j: int| 0 <= j < i ==> self.cells@[j] == spec_default_cell(),
            decreases n - i,
        {
            self.cells.set(i, Cell::default());
            i = i + 1;
        }
        proof {
            assert(self.cells@ =~= Seq::new(old(self).cells@.len(), |i: int| spec_default_cell()));
        }
    }

    /// Writes one cell; a position at or past the right or bottom edge is a
    /// silent no-op.
    pub fn put_cell(&mut self, x: usize, y: usize, ch: char, fg: Color, bg: Color)
        requires
            old(self).wf(),
        ensures
            final(self).wf(),
            final(self).w == old(self).w,
            final(self).h == old(self).h,
            x < old(self).w && y < old(self).h ==> final(self).cells@ == old(self).cells@.update(
                cell_index(old(self).w as int, x as int, y as int),
                (Cell { ch, fg, bg }),
            ),
            !(x < old(self).w && y < old(self).h) ==> final(self).cells@ == old(self).cells@,
    {
        if x < self.w && y < self.h {
            let n = self.cells.len();
            proof {
                lemma_cell_index_bounds(self.w as int, self.h as int, x as int, y as int);
                assert(y * self.w + x < n);
            }
            let index = y * self.w + x;
            self.cells.set(index, Cell { ch, fg, bg });
        }
    }

    /// Writes consecutive cells starting at `(x, y)`, one per character of
    /// `text`, left to right; each out-of-bounds position is a silent
    /// no-op, and the run does not wrap to the next row.
    pub fn put_cells(&mut self, x: usize, y: usize, text: &str, fg: Color, bg: Color)
        requires
            old(self).wf(),
        ensures
            final(self).wf(),
            final(self).w == old(self).w,
            final(self).h == old(self).h,
            forall|cx: int, cy: int|
                0 <= cx < old(self).w && 0 <= cy < old(self).h ==> final(self).cell_at(cx, cy) == (
                if cy == y && x <= cx < x + text@.len() {
                    Cell { ch: text@[cx - x], fg, bg }
                } else {
                    old(self).cell_at(cx, cy)
                }),
    {
        let ghost orig = *self;
        let n = text.unicode_len();
        let mut i: usize = 0;
        while i < n
            invariant
                i <= n,
                n == text@.len(),
                self.wf(),
                self.w == orig.w,
                self.h == orig.h,
                orig.wf(),
                forall|cx: int, cy: int|
                    0 <= cx < orig.w && 0 <= cy < orig.h ==> self.cell_at(cx, cy) == (if cy == y
                        && x <= cx < x + i {
                        Cell { ch: text@[cx - x], fg, bg }
                    } else {
                        orig.cell_at(cx, cy)
                    }),
            decreases n - i,
        {
            let ghost prev = *self;
            let c = text.get_char(i);
            if x < self.w && i < self.w - x && y < self.h {
                let ghost w = self.w as int;
                let ghost h = self.h as int;
                let ghost tx = x + i;
                self.put_cell(x + i, y, c, fg, bg);
                proof {
                    lemma_cell_index_bounds(w, h, tx as int, y as int);
                    assert(self.cells@ == prev.cells@.update(
                        cell_index(w, tx as int, y as int),
                        (Cell { ch: c, fg, bg }),
                    ));
                    assert forall|cx: int, cy: int| 0 <= cx < w && 0 <= cy < h implies self
                        .cell_at(cx, cy) == (if cy == y && x <= cx < x + i + 1 {
                        Cell { ch: text@[cx - x], fg, bg }
                    } else {
                        orig.cell_at(cx, cy)
                    }) by {
                        lemma_cell_index_bounds(w, h, cx, cy);
                        assert(prev.cell_at(cx, cy) == (if cy == y && x <= cx < x + i {
                            Cell { ch: text@[cx - x], fg, bg }
                        } else {
                            orig.cell_at(cx, cy)
                        }));
                        if cell_index(w, cx, cy) == cell_index(w, tx as int, y as int) {
                            lemma_cell_index_injective(w, h, cx, cy, tx as int, y as int);
                            assert(cx == tx && cy == y);
                        } else {
                            assert(self.cell_at(cx, cy) == prev.cell_at(cx, cy));
                        }
                    }
                }
            } else {
                proof {
                    assert forall|cx: int, cy: int| 0 <= cx < self.w && 0 <= cy < self.h implies
                        self.cell_at(cx, cy) == (if cy == y && x <= cx < x + i + 1 {
                        Cell { ch: text@[cx - x], fg, bg }
                    } else {
                        orig.cell_at(cx, cy)
                    }) by {
                        lemma_cell_index_bounds(self.w as int, self.h as int, cx, cy);
                    }
                }
            }
            i = i + 1;
        }
    }

    /// The minimal patch list turning `other` into `self`: one patch, in
    /// row-major order, for each cell index where the two frames differ.
    /// Diffing frames of different dimensions is a programmer error and is
    /// excluded by precondition.
    pub fn diff(&self, other: &TerminalBuffer) -> (patches: Vec<Patch>)
        requires
            self.wf(),
            other.wf(),
            self.w == other.w,
            self.h == other.h,
        ensures
            patches@ == spec_diff(self.cells@, other.cells@, self.w as int),
    {
        let mut patches: Vec<Patch> = Vec::new();
        let n = self.cells.len();
        let mut i: usize = 0;
        while i < n
            invariant
                i <= n,
                n == self.cells@.len(),
                self.wf(),
                other.wf(),
                self.w == other.w,
                self.h == other.h,
                other.cells@.len() == n,
                patches@ == spec_diff(
                    self.cells@.take(i as int),
                    other.cells@.take(i as int),
                    self.w as int,
                ),
            decreases n - i,
        {
            proof {
                assert(self.w > 0) by (nonlinear_arith)
                    requires
                        self.w * self.h > i >= 0,
                ;
            }
            let a = self.cells[i];
            let b = other.cells[i];
            if a != b {
                patches.push(Patch { cell: a, x: i % self.w, y: i / self.w });
            }
            proof {
                let ai = i as int;
                assert(self.cells@.take(ai + 1).drop_last() =~= self.cells@.take(ai));
                assert(other.cells@.take(ai + 1).drop_last() =~= other.cells@.take(ai));
                assert(self.cells@.take(ai + 1).last() == self.cells@[ai]);
                assert(other.cells@.take(ai + 1).last() == other.cells@[ai]);
                assert(patches@ =~= spec_diff(
                    self.cells@.take(ai + 1),
                    other.cells@.take(ai + 1),
                    self.w as int,
                ));
            }
            i = i + 1;
        }
        proof {
            assert(self.cells@.take(n as int) =~= self.cells@);
            assert(other.cells@.take(n as int) =~= other.cells@);
        }
        patches
    }
}

/// The patch list turning `b` into `a` on a grid `w` cells wide: one patch,
/// in row-major index order, per index where the two flat cell sequences
/// differ.
pub open spec fn spec_diff(a: Seq<Cell>, b: Seq<Cell>, w: int) -> Seq<Patch>
    decreases a.len(),
{
    if a.len() == 0 {
        Seq::empty()
    } else {
        let i = a.len() - 1;
        spec_diff(a.drop_last(), b.drop_last(), w) + (if a.last() == b.last() {
            Seq::empty()
        } else {
            seq![Patch { cell: a.last(), x: (i % w) as usize, y: (i / w) as usize }]
        })
    }
}

/// One patch applied to a flat cell sequence; a patch aimed at or past the
/// right or bottom edge changes nothing, as in `put_cell`.
pub open spec fn spec_apply_patch(cells: Seq<Cell>, w: int, h: int, p: Patch) -> Seq<Cell> {
    if p.x < w && p.y < h && 0 <= cell_index(w, p.x as int, p.y as int) < cells.len() {
        cells.update(cell_index(w, p.x as int, p.y as int), p.cell)
    } else {
        cells
    }
}

/// A patch list applied to a flat cell sequence, first patch first.
pub open spec fn spec_apply_patches(cells: Seq<Cell>, w: int, h: int, patches: Seq<Patch>) -> Seq<
    Cell,
>
    decreases patches.len(),
{
    if patches.len() == 0 {
        cells
    } else {
        spec_apply_patch(
            spec_apply_patches(cells, w, h, patches.drop_last()),
            w,
            h,
            patches.last(),
        )
    }
}

/// Applies a patch list to a frame, one cell write per patch.
pub fn apply_patches(target: &mut TerminalBuffer, patches: &Vec<Patch>)
    requires
        old(target).wf(),
    ensures
        final(target).wf(),
        final(target).w == old(target).w,
        final(target).h == old(target).h,
        final(target).cells@ == spec_apply_patches(
            old(target).cells@,
            old(target).w as int,
            old(target).h as int,
            patches@,
        ),
{
    let ghost orig = *target;
    let n = patches.len();
    let mut i: usize = 0;
    while i < n
        invariant
            i <= n,
            n == patches@.len(),
            target.wf(),
            target.w == orig.w,
            target.h == orig.h,
            orig.wf(),
            target.cells@ == spec_apply_patches(
                orig.cells@,
                orig.w as int,
                orig.h as int,
                patches@.take(i as int),
            ),
        decreases n - i,
    {
        let p = patches[i];
        target.put_cell(p.x, p.y, p.cell.ch, p.cell.fg, p.cell.bg);
        proof {
            let ai = i as int;
            if p.x < orig.w && p.y < orig.h {
                lemma_cell_index_bounds(orig.w as int, orig.h as int, p.x as int, p.y as int);
            }
            assert(patches@.take(ai + 1).drop_last() =~= patches@.take(ai));
            assert(patches@.take(ai + 1).last() == patches@[ai]);
        }
        i = i + 1;
    }
    proof {
        assert(patches@.take(n as int) =~= patches@);
    }
}

/// Diffing a frame against itself yields no patches.
pub proof fn lemma_diff_same(a: Seq<Cell>, w: int)
    ensures
        spec_diff(a, a, w) == Seq::<Patch>::empty(),
    decreases a.len(),
{
    if a.len() == 0 {
    } else {
        lemma_diff_same(a.drop_last(), w);
        assert(spec_diff(a, a, w) =~= Seq::<Patch>::empty());
    }
}

/// Every patch of a diff aims at an in-bounds position of the grid, and its
/// row-major index is inside the cell sequence.
pub proof fn lemma_diff_patches_in_range(a: Seq<Cell>, b: Seq<Cell>, w: usize, h: usize)
    requires
        a.len() <= w * h,
    ensures
        forall|j: int|
            0 <= j < spec_diff(a, b, w as int).len() ==> {
                let p = #[trigger] spec_diff(a, b, w as int)[j];
                p.x < w && p.y < h && 0 <= cell_index(w as int, p.x as int, p.y as int) < a.len()
            },
    decreases a.len(),
{
    if a.len() == 0 {
    } else {
        lemma_diff_patches_in_range(a.drop_last(), b.drop_last(), w, h);
        let i = a.len() - 1;
        assert(w > 0 && h > 0) by (nonlinear_arith)
            requires
                0 < a.len() <= w * h,
        ;
        vstd::arithmetic::div_mod::lemma_mod_bound(i as int, w as int);
        vstd::arithmetic::div_mod::lemma_fundamental_div_mod(i as int, w as int);
        assert((i as int) / (w as int) < h) by (nonlinear_arith)
            requires
                0 <= i as int,
                0 < w as int,
                (i as int) < (w as int) * (h as int),
        ;
        if a.last() != b.last() {
            let p = Patch { cell: a.last(), x: (i as int % w as int) as usize, y: (i as int / w as int) as usize };
            assert(cell_index(w as int, p.x as int, p.y as int) == i);
        }
    }
}

/// A diff is a minimal script: every patch it holds records a real change,
/// writing the changed frame's cell where the reference frame's cell
/// differs, and a cell whose value is unchanged never appears.
pub proof fn lemma_diff_minimal(a: Seq<Cell>, b: Seq<Cell>, w: usize, h: usize)
    requires
        a.len() == b.len(),
        a.len() <= w * h,
    ensures
        forall|j: int|
            0 <= j < spec_diff(a, b, w as int).len() ==> {
                let p = #[trigger] spec_diff(a, b, w as int)[j];
                &&& p.cell == a[cell_index(w as int, p.x as int, p.y as int)]
                &&& p.cell != b[cell_index(w as int, p.x as int, p.y as int)]
            },
    decreases a.len(),
{
    if a.len() == 0 {
    } else {
        lemma_diff_minimal(a.drop_last(), b.drop_last(), w, h);
        let i = a.len() - 1;
        assert(w > 0 && h > 0) by (nonlinear_arith)
            requires
                0 < a.len() <= w * h,
        ;
        vstd::arithmetic::div_mod::lemma_mod_bound(i as int, w as int);
        vstd::arithmetic::div_mod::lemma_fundamental_div_mod(i as int, w as int);
        assert((i as int) / (w as int) < h) by (nonlinear_arith)
            requires
                0 <= i as int,
                0 < w as int,
                (i as int) < (w as int) * (h as int),
        ;
        assert(((i as int) / (w as int)) * (w as int) == (w as int) * ((i as int) / (w as int)))
            by (nonlinear_arith);
        if a.last() != b.last() {
            let p = Patch {
                cell: a.last(),
                x: (i as int % w as int) as usize,
                y: (i as int / w as int) as usize,
            };
            assert(cell_index(w as int, p.x as int, p.y as int) == i);
        }
        lemma_diff_patches_in_range(a.drop_last(), b.drop_last(), w, h);
        assert forall|j: int| 0 <= j < spec_diff(a, b, w as int).len() implies {
            let p = #[trigger] spec_diff(a, b, w as int)[j];
            &&& p.cell == a[cell_index(w as int, p.x as int, p.y as int)]
            &&& p.cell != b[cell_index(w as int, p.x as int, p.y as int)]
        } by {
            let d1 = spec_diff(a.drop_last(), b.drop_last(), w as int);
            if j < d1.len() {
                assert(spec_diff(a, b, w as int)[j] == d1[j]);
            }
        }
    }
}

/// Applying patches changes cell values, never the length of the sequence.
pub proof fn lemma_apply_patches_len(cells: Seq<Cell>, w: int, h: int, patches: Seq<Patch>)
    ensures
        spec_apply_patches(cells, w, h, patches).len() == cells.len(),
    decreases patches.len(),
{
    if patches.len() == 0 {
    } else {
        lemma_apply_patches_len(cells, w, h, patches.drop_last());
    }
}

/// Applying a concatenation of patch lists applies the first list, then the
/// second.
pub proof fn lemma_apply_patches_concat(cells: Seq<Cell>, w: int, h: int, p: Seq<Patch>, q: Seq<Patch>)
    ensures
        spec_apply_patches(cells, w, h, p + q) == spec_apply_patches(
            spec_apply_patches(cells, w, h, p),
            w,
            h,
            q,
        ),
    decreases q.len(),
{
    if q.len() == 0 {
        assert(p + q =~= p);
    } else {
        lemma_apply_patches_concat(cells, w, h, p, q.drop_last());
        assert((p + q).drop_last() =~= p + q.drop_last());
        assert((p + q).last() == q.last());
    }
}

/// Patches whose row-major indices lie inside `cells` commute with pushing a
/// further cell onto the end of the sequence.
pub proof fn lemma_apply_patches_push(cells: Seq<Cell>, z: Cell, w: int, h: int, patches: Seq<Patch>)
    requires
        forall|j: int|
            0 <= j < patches.len() ==> {
                let p = #[trigger] patches[j];
                p.x < w && p.y < h && 0 <= cell_index(w, p.x as int, p.y as int) < cells.len()
            },
    ensures
        spec_apply_patches(cells.push(z), w, h, patches) == spec_apply_patches(
            cells,
            w,
            h,
            patches,
        ).push(z),
    decreases patches.len(),
{
    if patches.len() == 0 {
    } else {
        lemma_apply_patches_push(cells, z, w, h, patches.drop_last());
        lemma_apply_patches_len(cells, w, h, patches.drop_last());
        let inner = spec_apply_patches(cells, w, h, patches.drop_last());
        let p = patches.last();
        let k = cell_index(w, p.x as int, p.y as int);
        assert(inner.push(z).update(k, p.cell) =~= inner.update(k, p.cell).push(z));
    }
}

/// Applying the diff of `a` against `b` to `b` reproduces `a` exactly.
pub proof fn lemma_diff_then_apply(a: Seq<Cell>, b: Seq<Cell>, w: usize, h: usize)
    requires
        a.len() == b.len(),
        a.len() <= w * h,
    ensures
        spec_apply_patches(b, w as int, h as int, spec_diff(a, b, w as int)) == a,
    decreases a.len(),
{
    if a.len() == 0 {
        assert(spec_apply_patches(b, w as int, h as int, spec_diff(a, b, w as int)) =~= a);
    } else {
        let i = a.len() - 1;
        let a1 = a.drop_last();
        let b1 = b.drop_last();
        let d1 = spec_diff(a1, b1, w as int);
        assert(w > 0 && h > 0) by (nonlinear_arith)
            requires
                0 < a.len() <= w * h,
        ;
        lemma_diff_then_apply(a1, b1, w, h);
        lemma_diff_patches_in_range(a1, b1, w, h);
        lemma_apply_patches_push(b1, b.last(), w as int, h as int, d1);
        assert(b1.push(b.last()) =~= b);
        assert(spec_apply_patches(b, w as int, h as int, d1) == a1.push(b.last()));
        vstd::arithmetic::div_mod::lemma_mod_bound(i as int, w as int);
        vstd::arithmetic::div_mod::lemma_fundamental_div_mod(i as int, w as int);
        assert((i as int) / (w as int) < h) by (nonlinear_arith)
            requires
                0 <= i as int,
                0 < w as int,
                (i as int) < (w as int) * (h as int),
        ;
        if a.last() == b.last() {
            assert(spec_diff(a, b, w as int) =~= d1);
            assert(a1.push(b.last()) =~= a);
        } else {
            let p = Patch { cell: a.last(), x: (i as int % w as int) as usize, y: (i as int / w as int) as usize };
            assert(spec_diff(a, b, w as int) == d1 + seq![p]);
            lemma_apply_patches_concat(b, w as int, h as int, d1, seq![p]);
            assert(spec_apply_patches(a1.push(b.last()), w as int, h as int, seq![p])
                == spec_apply_patch(a1.push(b.last()), w as int, h as int, p)) by {
                let c2 = a1.push(b.last());
                assert(seq![p].drop_last() =~= Seq::<Patch>::empty());
                assert(spec_apply_patches(c2, w as int, h as int, Seq::<Patch>::empty()) == c2);
                assert(seq![p].last() == p);
            }
            assert((i as int / w as int) * (w as int) == (w as int) * (i as int / w as int))
                by (nonlinear_arith);
            assert(cell_index(w as int, p.x as int, p.y as int) == i);
            assert(a1.push(b.last()).update(i as int, a.last()) =~= a);
        }
    }
}

/// One drawing instruction for the terminal sink. The sink that performs
/// these against the real terminal lives outside the library.
#[derive(Clone, Copy, PartialEq, Eq, Structural, Debug)]
pub enum Command {
    /// Erase the whole screen.
    ClearAll,
    /// Set the pen's foreground color.
    SetFg(Color),
    /// Set the pen's background color.
    SetBg(Color),
    /// Move the terminal cursor to a column and row.
    MoveTo(usize, usize),
    /// Print one glyph at the terminal cursor, advancing it.
    Print(char),
}

/// The commands printing `cells` left to right with a pen currently holding
/// the colors `fg` and `bg`: a color-set command is emitted only when the
/// color differs from the pen's.
pub open spec fn spec_cell_commands(cells: Seq<Cell>, fg: Color, bg: Color) -> Seq<Command>
    decreases cells.len(),
{
    if cells.len() == 0 {
        Seq::empty()
    } else {
        let c = cells.first();
        let fgpart: Seq<Command> = if c.fg == fg {
            Seq::empty()
        } else {
            seq![Command::SetFg(c.fg)]
        };
        let bgpart: Seq<Command> = if c.bg == bg {
            Seq::empty()
        } else {
            seq![Command::SetBg(c.bg)]
        };
        fgpart + bgpart + seq![Command::Print(c.ch)] + spec_cell_commands(
            cells.drop_first(),
            c.fg,
            c.bg,
        )
    }
}

/// The command stream of an unconditional full repaint: clear, reset the
/// pen to the normal colors, home the cursor, then print every cell in
/// row-major order, re-emitting a color only where it changes.
pub open spec fn spec_render_commands(cells: Seq<Cell>) -> Seq<Command> {
    seq![
        Command::ClearAll,
        Command::SetFg(Color::White),
        Command::SetBg(Color::Black),
        Command::MoveTo(0, 0),
    ] + spec_cell_commands(cells, Color::White, Color::Black)
}

/// The command stream applying a patch list: for each patch in order, move
/// to its position, set both colors, and print its glyph.
pub open spec fn spec_patch_commands(patches: Seq<Patch>) -> Seq<Command>
    decreases patches.len(),
{
    if patches.len() == 0 {
        Seq::empty()
    } else {
        let p = patches.last();
        spec_patch_commands(patches.drop_last()) + seq![
            Command::MoveTo(p.x, p.y),
            Command::SetFg(p.cell.fg),
            Command::SetBg(p.cell.bg),
            Command::Print(p.cell.ch),
        ]
    }
}

impl TerminalBuffer {
    /// The command stream of a full repaint of this frame.
    pub fn render_commands(&self) -> (cmds: Vec<Command>)
        ensures
            cmds@ == spec_render_commands(self.cells@),
    {
        let mut cmds: Vec<Command> = Vec::new();
        cmds.push(Command::ClearAll);
        cmds.push(Command::SetFg(Color::White));
        cmds.push(Command::SetBg(Color::Black));
        cmds.push(Command::MoveTo(0, 0));
        let mut fg = Color::White;
        let mut bg = Color::Black;
        proof {
            assert(self.cells@.skip(0) =~= self.cells@);
            assert(cmds@ + spec_cell_commands(self.cells@.skip(0), fg, bg) =~=
                spec_render_commands(self.cells@));
        }
        let n = self.cells.len();
        let mut i: usize = 0;
        while i < n
            invariant
                i <= n,
                n == self.cells@.len(),
                spec_render_commands(self.cells@) == cmds@ + spec_cell_commands(
                    self.cells@.skip(i as int),
                    fg,
                    bg,
                ),
            decreases n - i,
        {
            let ghost cmds0 = cmds@;
            let ghost fg0 = fg;
            let ghost bg0 = bg;
            let cell = self.cells[i];
            if cell.fg != fg {
                fg = cell.fg;
                cmds.push(Command::SetFg(fg));
            }
            if cell.bg != bg {
                bg = cell.bg;
                cmds.push(Command::SetBg(bg));
            }
            cmds.push(Command::Print(cell.ch));
            proof {
                let s = self.cells@;
                let ai = i as int;
                let fgpart: Seq<Command> = if cell.fg == fg0 {
                    Seq::empty()
                } else {
                    seq![Command::SetFg(cell.fg)]
                };
                let bgpart: Seq<Command> = if cell.bg == bg0 {
                    Seq::empty()
                } else {
                    seq![Command::SetBg(cell.bg)]
                };
                assert(s.skip(ai).first() == cell);
                assert(s.skip(ai).drop_first() =~= s.skip(ai + 1));
                assert(cmds@ =~= cmds0 + fgpart + bgpart + seq![Command::Print(cell.ch)]);
                assert(spec_cell_commands(s.skip(ai), fg0, bg0) == fgpart + bgpart + seq![
                    Command::Print(cell.ch),
                ] + spec_cell_commands(s.skip(ai + 1), cell.fg, cell.bg));
                assert(cmds@ + spec_cell_commands(s.skip(ai + 1), fg, bg) =~= cmds0
                    + spec_cell_commands(s.skip(ai), fg0, bg0));
            }
            i = i + 1;
        }
        proof {
            assert(self.cells@.skip(n as int) =~= Seq::<Cell>::empty());
            assert(cmds@ =~= cmds@ + spec_cell_commands(self.cells@.skip(n as int), fg, bg));
        }
        cmds
    }
}

/// The command stream applying a patch list to the terminal.
pub fn patch_commands(patches: &Vec<Patch>) -> (cmds: Vec<Command>)
    ensures
        cmds@ == spec_patch_commands(patches@),
{
    let mut cmds: Vec<Command> = Vec::new();
    let n = patches.len();
    let mut i: usize = 0;
    proof {
        assert(patches@.take(0) =~= Seq::<Patch>::empty());
    }
    while i < n
        invariant
            i <= n,
            n == patches@.len(),
            cmds@ == spec_patch_commands(patches@.take(i as int)),
        decreases n - i,
    {
        let p = patches[i];
        cmds.push(Command::MoveTo(p.x, p.y));
        cmds.push(Command::SetFg(p.cell.fg));
        cmds.push(Command::SetBg(p.cell.bg));
        cmds.push(Command::Print(p.cell.ch));
        proof {
            let ai = i as int;
            assert(patches@.take(ai + 1).drop_last() =~= patches@.take(ai));
            assert(patches@.take(ai + 1).last() == patches@[ai]);
            assert(cmds@ =~= spec_patch_commands(patches@.take(ai + 1)));
        }
        i = i + 1;
    }
    proof {
        assert(patches@.take(n as int) =~= patches@);
    }
    cmds
}

/// Differential redraw is faithful: diffing a frame against itself yields
/// no patches, and applying `a.diff(b)` to `b` reproduces `a` exactly, so a
/// full repaint of the patched frame emits exactly the commands of a full
/// repaint of `a`.
pub proof fn lemma_diff_apply_roundtrip(a: TerminalBuffer, b: TerminalBuffer)
    requires
        a.wf(),
        b.wf(),
        a.w == b.w,
        a.h == b.h,
    ensures
        spec_diff(a.cells@, a.cells@, a.w as int) == Seq::<Patch>::empty(),
        spec_apply_patches(
            b.cells@,
            a.w as int,
            a.h as int,
            spec_diff(a.cells@, b.cells@, a.w as int),
        ) == a.cells@,
        spec_render_commands(
            spec_apply_patches(
                b.cells@,
                a.w as int,
                a.h as int,
                spec_diff(a.cells@, b.cells@, a.w as int),
            ),
        ) == spec_render_commands(a.cells@),
{
    lemma_diff_same(a.cells@, a.w as int);
    lemma_diff_then_apply(a.cells@, b.cells@, a.w, a.h);
}

} // verus!

