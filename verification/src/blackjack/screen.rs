//! The frame the table is drawn into: a grid of character cells with a
//! foreground and a background colour, written one cell at a time.

use vstd::prelude::*;
use crate::blackjack::table::Rect;

verus! {

/// The colours the table uses.
#[derive(Clone, Copy, Debug, PartialEq, Eq, Structural)]
pub enum Color {
    White,
    Black,
    Grey,
    DarkGrey,
    DarkGreen,
    Green,
    Yellow,
    Blue,
    Red,
    Cyan,
    Magenta,
}

#[derive(Clone, Copy, Debug, PartialEq, Eq, Structural)]
pub struct Cell {
    pub ch: char,
    pub fg: Color,
    pub bg: Color,
}

impl Cell {
    /// A blank white-on-black cell.
    pub fn blank() -> (c: Cell)
        ensures
            c == (Cell { ch: ' ', fg: Color::White, bg: Color::Black }),
    {
        Cell { ch: ' ', fg: Color::White, bg: Color::Black }
    }
}

/// A `w` by `h` grid of cells, row by row.
pub struct FrameBuffer {
    pub w: u16,
    pub h: u16,
    pub cells: Vec<Cell>,
}

/// The cells with (`x`, `y`) set to `c` when it lies on the `w` by `h`
/// grid; off the grid, unchanged.
pub open spec fn put(cells: Seq<Cell>, w: int, h: int, x: int, y: int, c: Cell) -> Seq<Cell> {
    if 0 <= x < w && 0 <= y < h { cells.update(y * w + x, c) } else { cells }
}

/// The first `k` characters of `s` written rightward from (`x`, `y`).
pub open spec fn put_text(cells: Seq<Cell>, w: int, h: int, x: int, y: int, s: Seq<char>, fg: Color, bg: Color, k: int) -> Seq<Cell>
    decreases k,
{
    if k <= 0 {
        cells
    } else {
        put(put_text(cells, w, h, x, y, s, fg, bg, k - 1), w, h, x + k - 1, y, Cell { ch: s[k - 1], fg, bg })
    }
}

/// `k` copies of one cell written rightward from (`x`, `y`).
pub open spec fn put_run(cells: Seq<Cell>, w: int, h: int, x: int, y: int, c: Cell, k: int) -> Seq<Cell>
    decreases k,
{
    if k <= 0 {
        cells
    } else {
        put(put_run(cells, w, h, x, y, c, k - 1), w, h, x + k - 1, y, c)
    }
}

/// The cells with `g(0)`, `g(1)`, ... written rightward from (`x`, `y`),
/// `cols` of them.
pub open spec fn put_row(cells: Seq<Cell>, w: int, h: int, x: int, y: int, cols: int, g: spec_fn(int) -> Cell) -> Seq<Cell>
    decreases cols,
{
    if cols <= 0 {
        cells
    } else {
        put(put_row(cells, w, h, x, y, cols - 1, g), w, h, x + cols - 1, y, g(cols - 1))
    }
}

/// The cells with a block of `cols` by `rows` written from (`x`, `y`),
/// row by row, cell (`dx`, `dy`) of the block being `f(dx, dy)`.
pub open spec fn put_block(cells: Seq<Cell>, w: int, h: int, x: int, y: int, cols: int, rows: int, f: spec_fn(int, int) -> Cell) -> Seq<Cell>
    decreases rows,
{
    if rows <= 0 {
        cells
    } else {
        put_row(put_block(cells, w, h, x, y, cols, rows - 1, f), w, h, x, y + rows - 1, cols, |dx: int| f(dx, rows - 1))
    }
}

/// The two sides of a box: for each of `k` rows from `y`, a vertical bar
/// at `x` and at `x2`.
pub open spec fn put_sides(cells: Seq<Cell>, w: int, h: int, x: int, x2: int, y: int, c: Cell, k: int) -> Seq<Cell>
    decreases k,
{
    if k <= 0 {
        cells
    } else {
        let prev = put_sides(cells, w, h, x, x2, y, c, k - 1);
        put(put(prev, w, h, x, y + k - 1, c), w, h, x2, y + k - 1, c)
    }
}

/// A box drawn with light lines round the rectangle (nothing for one
/// narrower or lower than two).
pub open spec fn put_border(cells: Seq<Cell>, w: int, h: int, r: Rect, fg: Color, bg: Color) -> Seq<Cell> {
    if r.w < 2 || r.h < 2 {
        cells
    } else {
        let c1 = put(cells, w, h, r.x as int, r.y as int, Cell { ch: '\u{250C}', fg, bg });
        let c2 = put(c1, w, h, r.x + r.w - 1, r.y as int, Cell { ch: '\u{2510}', fg, bg });
        let c3 = put(c2, w, h, r.x as int, r.y + r.h - 1, Cell { ch: '\u{2514}', fg, bg });
        let c4 = put(c3, w, h, r.x + r.w - 1, r.y + r.h - 1, Cell { ch: '\u{2518}', fg, bg });
        let c5 = put_run(c4, w, h, r.x + 1, r.y as int, Cell { ch: '\u{2500}', fg, bg }, r.w - 2);
        let c6 = put_run(c5, w, h, r.x + 1, r.y + r.h - 1, Cell { ch: '\u{2500}', fg, bg }, r.w - 2);
        put_sides(c6, w, h, r.x as int, r.x + r.w - 1, r.y + 1, Cell { ch: '\u{2502}', fg, bg }, r.h - 2)
    }
}

/// A frame's coordinates small enough for any text or run of up to a
/// million cells to be placed without overflow.
pub open spec fn coord_ok(x: int) -> bool {
    -0x1000_0000 <= x <= 0x1000_0000
}

impl FrameBuffer {
    pub open spec fn wf(&self) -> bool {
        self.cells@.len() == self.w * self.h
    }

    /// A blank white-on-black frame.
    pub fn new(w: u16, h: u16) -> (fb: FrameBuffer)
        ensures
            fb.wf(),
            fb.w == w && fb.h == h,
            forall|i: int| 0 <= i < fb.cells@.len() ==> #[trigger] fb.cells@[i] == (Cell { ch: ' ', fg: Color::White, bg: Color::Black }),
    {
        assert(w as usize * h as usize <= 65535 * 65535) by (nonlinear_arith)
            requires
                w <= 65535,
                h <= 65535,
        ;
        FrameBuffer { w, h, cells: vec![Cell::blank(); w as usize * h as usize] }
    }

    /// Every cell a blank on `bg`.
    pub fn clear(&mut self, bg: Color)
        requires
            old(self).wf(),
        ensures
            final(self).wf(),
            final(self).w == old(self).w && final(self).h == old(self).h,
            forall|i: int| 0 <= i < final(self).cells@.len() ==> #[trigger] final(self).cells@[i] == (Cell { ch: ' ', fg: Color::White, bg }),
    {
        let mut i: usize = 0;
        while i < self.cells.len()
            invariant
                self.wf(),
                self.w == old(self).w && self.h == old(self).h,
                i <= self.cells@.len(),
                forall|j: int| 0 <= j < i ==> #[trigger] self.cells@[j] == (Cell { ch: ' ', fg: Color::White, bg }),
            decreases self.cells@.len() - i,
        {
            self.cells.set(i, Cell { ch: ' ', fg: Color::White, bg });
            i += 1;
        }
    }

    /// Sets cell (`x`, `y`) when it is on the frame.
    pub fn set(&mut self, x: i32, y: i32, ch: char, fg: Color, bg: Color)
        requires
            old(self).wf(),
        ensures
            final(self).wf(),
            final(self).w == old(self).w && final(self).h == old(self).h,
            final(self).cells@ == put(old(self).cells@, old(self).w as int, old(self).h as int, x as int, y as int, Cell { ch, fg, bg }),
    {
        if x < 0 || y < 0 || x >= self.w as i32 || y >= self.h as i32 {
            return;
        }
        assert(0 <= y * self.w + x < self.w * self.h <= 65535 * 65535) by (nonlinear_arith)
            requires
                0 <= x < self.w,
                0 <= y < self.h,
                self.w <= 65535,
                self.h <= 65535,
        ;
        let idx = y as usize * self.w as usize + x as usize;
        self.cells.set(idx, Cell { ch, fg, bg });
    }

    /// Writes `s` rightward from (`x`, `y`), clipped to the frame.
    pub fn text(&mut self, x: i32, y: i32, s: &str, fg: Color, bg: Color)
        requires
            old(self).wf(),
            coord_ok(x as int),
            s@.len() <= 0x1000_0000,
        ensures
            final(self).wf(),
            final(self).w == old(self).w && final(self).h == old(self).h,
            final(self).cells@ == put_text(old(self).cells@, old(self).w as int, old(self).h as int, x as int, y as int, s@, fg, bg, s@.len() as int),
    {
        let n = s.unicode_len();
        let mut i: usize = 0;
        while i < n
            invariant
                self.wf(),
                self.w == old(self).w && self.h == old(self).h,
                n == s@.len(),
                n <= 0x1000_0000,
                coord_ok(x as int),
                i <= n,
                self.cells@ == put_text(old(self).cells@, old(self).w as int, old(self).h as int, x as int, y as int, s@, fg, bg, i as int),
            decreases n - i,
        {
            let ch = s.get_char(i);
            self.set(x + i as i32, y, ch, fg, bg);
            i += 1;
        }
    }

    /// `w` copies of `ch` rightward from (`x`, `y`), clipped to the frame.
    pub fn hline(&mut self, x: i32, y: i32, w: i32, ch: char, fg: Color, bg: Color)
        requires
            old(self).wf(),
            coord_ok(x as int),
            w <= 0x1000_0000,
        ensures
            final(self).wf(),
            final(self).w == old(self).w && final(self).h == old(self).h,
            final(self).cells@ == put_run(old(self).cells@, old(self).w as int, old(self).h as int, x as int, y as int, Cell { ch, fg, bg }, w as int),
    {
        let n: i32 = if w > 0 { w } else { 0 };
        let mut dx: i32 = 0;
        while dx < n
            invariant
                self.wf(),
                self.w == old(self).w && self.h == old(self).h,
                coord_ok(x as int),
                n <= 0x1000_0000,
                0 <= dx <= n,
                self.cells@ == put_run(old(self).cells@, old(self).w as int, old(self).h as int, x as int, y as int, Cell { ch, fg, bg }, dx as int),
            decreases n - dx,
        {
            self.set(x + dx, y, ch, fg, bg);
            dx += 1;
        }
    }

    /// A light-line box round `r` (nothing when narrower or lower than two).
    pub fn rect_border(&mut self, r: Rect, fg: Color, bg: Color)
        requires
            old(self).wf(),
            -0x0800_0000 <= r.x <= 0x0800_0000,
            -0x0800_0000 <= r.y <= 0x0800_0000,
            0 <= r.w <= 0x0800_0000,
            0 <= r.h <= 0x0800_0000,
        ensures
            final(self).wf(),
            final(self).w == old(self).w && final(self).h == old(self).h,
            final(self).cells@ == put_border(old(self).cells@, old(self).w as int, old(self).h as int, r, fg, bg),
    {
        if r.w < 2 || r.h < 2 {
            return;
        }
        self.set(r.x, r.y, '\u{250C}', fg, bg);
        self.set(r.x + r.w - 1, r.y, '\u{2510}', fg, bg);
        self.set(r.x, r.y + r.h - 1, '\u{2514}', fg, bg);
        self.set(r.x + r.w - 1, r.y + r.h - 1, '\u{2518}', fg, bg);
        self.hline(r.x + 1, r.y, r.w - 2, '\u{2500}', fg, bg);
        self.hline(r.x + 1, r.y + r.h - 1, r.w - 2, '\u{2500}', fg, bg);
        let ghost c6 = self.cells@;
        let mut y = r.y + 1;
        while y < r.y + r.h - 1
            invariant
                self.wf(),
                self.w == old(self).w && self.h == old(self).h,
                -0x0800_0000 <= r.x <= 0x0800_0000,
                -0x0800_0000 <= r.y <= 0x0800_0000,
                2 <= r.w <= 0x0800_0000,
                2 <= r.h <= 0x0800_0000,
                r.y + 1 <= y <= r.y + r.h - 1,
                self.cells@ == put_sides(c6, self.w as int, self.h as int, r.x as int, r.x + r.w - 1, r.y + 1, Cell { ch: '\u{2502}', fg, bg }, y - (r.y + 1)),
            decreases r.y + r.h - 1 - y,
        {
            self.set(r.x, y, '\u{2502}', fg, bg);
            self.set(r.x + r.w - 1, y, '\u{2502}', fg, bg);
            y += 1;
        }
    }
}

} // verus!
