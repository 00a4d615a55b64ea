//! The pipe walker's picture: the sub-pixels it paints (0 for dark, else a
//! packed colour), two across and four down per terminal cell, packed
//! into braille characters that take the brightest colour of their dots;
//! and the text laid over them.

use vstd::prelude::*;
use crate::pixels::{braille_dot, unpack_rgb, valid_scalar, cp_to_char};

verus! {

/// The character cells of the picture: a glyph and a packed colour each.
pub struct Cells {
    pub cols: u16,
    pub rows: u16,
    pub glyphs: Vec<char>,
    pub cell_rgb: Vec<u32>,
}

/// The perceived brightness the walker ranks colours by: three parts
/// red, four green, one blue.
pub open spec fn luma(c: u32) -> int {
    3 * ((c / 65536) % 256) + 4 * ((c / 256) % 256) + c % 256
}

/// Sub-pixel `k` (row by row, two to a row) of cell (`cx`, `cy`) in a
/// sub-pixel buffer `w` wide.
pub open spec fn sub_rgb(buf: Seq<u32>, w: int, cx: int, cy: int, k: int) -> u32 {
    buf[(cy * 4 + k / 2) * w + cx * 2 + k % 2]
}

/// The dots raised by the first `k` sub-pixels of a cell: one for each
/// lit sub-pixel.
pub open spec fn dots_upto(buf: Seq<u32>, w: int, cx: int, cy: int, k: int) -> u8
    decreases k,
{
    if k <= 0 {
        0
    } else if sub_rgb(buf, w, cx, cy, k - 1) != 0 {
        dots_upto(buf, w, cx, cy, k - 1) | braille_dot((k - 1) % 2, (k - 1) / 2)
    } else {
        dots_upto(buf, w, cx, cy, k - 1)
    }
}

/// The colour of the brightest of the first `k` lit sub-pixels of a cell
/// (the first of equals), and its brightness; 0 and -1 when none is lit.
pub open spec fn brightest_upto(buf: Seq<u32>, w: int, cx: int, cy: int, k: int) -> (u32, int)
    decreases k,
{
    if k <= 0 {
        (0, -1)
    } else {
        let prev = brightest_upto(buf, w, cx, cy, k - 1);
        let c = sub_rgb(buf, w, cx, cy, k - 1);
        if c != 0 && luma(c) > prev.1 {
            (c, luma(c))
        } else {
            prev
        }
    }
}

/// Cell (`cx`, `cy`) of a picture `cols` wide shows the packing of its
/// sub-pixels in `buf`.
pub open spec fn cell_shown(glyphs: Seq<char>, rgbs: Seq<u32>, buf: Seq<u32>, cols: int, cx: int, cy: int) -> bool {
    let i = cy * cols + cx;
    &&& glyphs[i] == glyph_of(dots_upto(buf, cols * 2, cx, cy, 8))
    &&& rgbs[i] == brightest_upto(buf, cols * 2, cx, cy, 8).0
}

/// The glyph of a cell with dots `bits`: a space when none is raised.
pub open spec fn glyph_of(bits: u8) -> char {
    if bits == 0 {
        ' '
    } else {
        (0x2800 + bits) as char
    }
}

/// `cells` with the first `k` characters of `s` written rightward from
/// column `x` of row `y` in colour `rgb`, stopping at the right edge.
pub open spec fn text_written(glyphs: Seq<char>, cols: int, x: int, y: int, s: Seq<char>, k: int) -> Seq<char> {
    Seq::new(glyphs.len(), |i: int| if i / cols == y && x <= i % cols < x + k { s[i % cols - x] } else { glyphs[i] })
}

/// The colours after the same write.
pub open spec fn text_tinted(rgbs: Seq<u32>, cols: int, x: int, y: int, k: int, rgb: u32) -> Seq<u32> {
    Seq::new(rgbs.len(), |i: int| if i / cols == y && x <= i % cols < x + k { rgb } else { rgbs[i] })
}

pub open spec fn min_of(a: int, b: int) -> int {
    if a < b {
        a
    } else {
        b
    }
}

proof fn lemma_cell_index(cols: int, rows: int, cx: int, cy: int)
    requires
        0 <= cx < cols,
        0 <= cy < rows,
    ensures
        0 <= cy * cols + cx < cols * rows,
        0 <= cy * cols <= cy * cols + cx,
        (cy * cols + cx) / cols == cy,
        (cy * cols + cx) % cols == cx,
{
    assert(0 <= cy * cols + cx < cols * rows && 0 <= cy * cols) by (nonlinear_arith)
        requires
            0 <= cx < cols,
            0 <= cy < rows,
    ;
    vstd::arithmetic::div_mod::lemma_fundamental_div_mod_converse(cy * cols + cx, cols, cy, cx);
}

impl Cells {
    pub open spec fn wf(&self) -> bool {
        &&& self.glyphs@.len() == self.cols * self.rows
        &&& self.cell_rgb@.len() == self.cols * self.rows
    }

    /// Cells `cols` by `rows`, blank and dark.
    pub fn new(cols: u16, rows: u16) -> (c: Cells)
        ensures
            c.wf(),
            c.cols == cols && c.rows == rows,
            forall|i: int| 0 <= i < c.glyphs@.len() ==> #[trigger] c.glyphs@[i] == ' ' && c.cell_rgb@[i] == 0,
    {
        assert(cols as usize * rows as usize <= 65535 * 65535) by (nonlinear_arith)
            requires
                cols <= 65535,
                rows <= 65535,
        ;
        let n = cols as usize * rows as usize;
        Cells { cols, rows, glyphs: vec![' '; n], cell_rgb: vec![0u32; n] }
    }

    /// Packs a sub-pixel buffer of the same picture (`cols` * 2 wide,
    /// `rows` * 4 high) into the cells: each cell shows the braille dots
    /// of its lit sub-pixels in the colour of the brightest of them.
    pub fn pack(&mut self, rgbbuf: &Vec<u32>)
        requires
            old(self).wf(),
            rgbbuf@.len() == (old(self).cols * 2) * (old(self).rows * 4),
        ensures
            final(self).wf(),
            final(self).cols == old(self).cols && final(self).rows == old(self).rows,
            forall|cy: int, cx: int|
                0 <= cy < old(self).rows && 0 <= cx < old(self).cols ==> #[trigger] cell_shown(
                    final(self).glyphs@,
                    final(self).cell_rgb@,
                    rgbbuf@,
                    old(self).cols as int,
                    cx,
                    cy,
                ),
    {
        let cols = self.cols as usize;
        let rows = self.rows as usize;
        let ncell = self.glyphs.len();
        let nsub = rgbbuf.len();
        let w = cols * 2;
        let mut cy: usize = 0;
        while cy < rows
            invariant
                self.wf(),
                self.cols == old(self).cols && self.rows == old(self).rows,
                cols == self.cols,
                rows == self.rows,
                ncell == cols * rows,
                nsub == (cols * 2) * (rows * 4),
                w == cols * 2,
                rgbbuf@.len() == (cols * 2) * (rows * 4),
                cy <= rows,
                forall|py: int, px: int|
                    0 <= py < cy && 0 <= px < cols ==> #[trigger] cell_shown(self.glyphs@, self.cell_rgb@, rgbbuf@, cols as int, px, py),
            decreases rows - cy,
        {
            let mut cx: usize = 0;
            while cx < cols
                invariant
                    self.wf(),
                    self.cols == old(self).cols && self.rows == old(self).rows,
                    cols == self.cols,
                    rows == self.rows,
                    ncell == cols * rows,
                    nsub == (cols * 2) * (rows * 4),
                    w == cols * 2,
                    rgbbuf@.len() == (cols * 2) * (rows * 4),
                    cy < rows,
                    cx <= cols,
                    forall|py: int, px: int|
                        (0 <= py < cy && 0 <= px < cols) || (py == cy && 0 <= px < cx) ==> #[trigger] cell_shown(
                            self.glyphs@,
                            self.cell_rgb@,
                            rgbbuf@,
                            cols as int,
                            px,
                            py,
                        ),
                decreases cols - cx,
            {
                proof {
                    lemma_cell_index(cols as int, rows as int, cx as int, cy as int);
                }
                let cell_i = cy * cols + cx;
                let mut bits: u8 = 0;
                let mut pick_rgb: u32 = 0;
                let mut best_luma: i32 = -1;
                let mut k: usize = 0;
                while k < 8
                    invariant
                        w == cols * 2,
                        nsub == (cols * 2) * (rows * 4),
                        rgbbuf@.len() == (cols * 2) * (rows * 4),
                        cy < rows,
                        cx < cols,
                        k <= 8,
                        bits == dots_upto(rgbbuf@, w as int, cx as int, cy as int, k as int),
                        (pick_rgb, best_luma as int) == brightest_upto(rgbbuf@, w as int, cx as int, cy as int, k as int),
                        -1 <= best_luma <= 3 * 255 + 4 * 255 + 255,
                    decreases 8 - k,
                {
                    let dy = k / 2;
                    let dx = k % 2;
                    assert((cy * 4 + dy) * w + cx * 2 + dx < (cols * 2) * (rows * 4) && 0 <= (cy * 4 + dy) * w
                        <= (cy * 4 + dy) * w + cx * 2 + dx && cy * 4 + dy <= (cy * 4 + dy) * w) by (nonlinear_arith)
                        requires
                            cy < rows,
                            cx < cols,
                            dy < 4,
                            dx < 2,
                            w == cols * 2,
                    ;
                    let idx = (cy * 4 + dy) * w + cx * 2 + dx;
                    let c = rgbbuf[idx];
                    if c != 0 {
                        bits = bits | crate::pixels::braille_bit(dx, dy);
                        let (r, g, b) = unpack_rgb(c);
                        let l: i32 = (r as i32) * 3 + (g as i32) * 4 + (b as i32) * 1;
                        if l > best_luma {
                            best_luma = l;
                            pick_rgb = c;
                        }
                    }
                    k += 1;
                }
                let ch = if bits == 0 {
                    ' '
                } else {
                    crate::pixels::braille_char(bits)
                };
                let ghost gb = self.glyphs@;
                let ghost rb = self.cell_rgb@;
                self.glyphs.set(cell_i, ch);
                self.cell_rgb.set(cell_i, pick_rgb);
                assert forall|py: int, px: int|
                    (0 <= py < cy && 0 <= px < cols) || (py == cy && 0 <= px < cx + 1) implies #[trigger] cell_shown(
                    self.glyphs@,
                    self.cell_rgb@,
                    rgbbuf@,
                    cols as int,
                    px,
                    py,
                ) by {
                    lemma_cell_index(cols as int, rows as int, px, py);
                    if py == cy && px == cx {
                    } else {
                        assert(py * cols + px != cell_i) by {
                            lemma_cell_index(cols as int, rows as int, cx as int, cy as int);
                            if py * cols + px == cell_i {
                                assert((py * cols + px) / (cols as int) == py);
                            }
                        }
                        assert(cell_shown(gb, rb, rgbbuf@, cols as int, px, py));
                    }
                }
                cx += 1;
            }
            cy += 1;
        }
    }

    /// Writes `s` rightward from column `x` of row `y` in colour `rgb`,
    /// stopping at the right edge; nothing below the last row.
    pub fn put_text(&mut self, x: usize, y: usize, s: &str, rgb: u32)
        requires
            old(self).wf(),
        ensures
            final(self).wf(),
            final(self).cols == old(self).cols && final(self).rows == old(self).rows,
            y >= old(self).rows ==> final(self).glyphs@ == old(self).glyphs@ && final(self).cell_rgb@ == old(
                self,
            ).cell_rgb@,
            y < old(self).rows ==> {
                let k = if x >= old(self).cols { 0 } else { min_of(s@.len() as int, old(self).cols - x) };
                &&& final(self).glyphs@ == text_written(old(self).glyphs@, old(self).cols as int, x as int, y as int, s@, k)
                &&& final(self).cell_rgb@ == text_tinted(old(self).cell_rgb@, old(self).cols as int, x as int, y as int, k, rgb)
            },
    {
        let cols = self.cols as usize;
        let rows = self.rows as usize;
        if y >= rows {
            return;
        }
        let n = s.unicode_len();
        let ncell = self.glyphs.len();
        let ghost g0 = self.glyphs@;
        let ghost r0 = self.cell_rgb@;
        let mut k: usize = 0;
        while k < n && x < cols && k < cols - x
            invariant
                self.wf(),
                self.cols == old(self).cols && self.rows == old(self).rows,
                cols == self.cols,
                rows == self.rows,
                ncell == cols * rows,
                y < rows,
                n == s@.len(),
                g0 == old(self).glyphs@,
                r0 == old(self).cell_rgb@,
                k <= n,
                x < cols ==> k <= cols - x,
                x >= cols ==> k == 0,
                self.glyphs@ == text_written(g0, cols as int, x as int, y as int, s@, k as int),
                self.cell_rgb@ == text_tinted(r0, cols as int, x as int, y as int, k as int, rgb),
            decreases n - k,
        {
            let cx = x + k;
            proof {
                lemma_cell_index(cols as int, rows as int, cx as int, y as int);
            }
            let i = y * cols + cx;
            let ch = s.get_char(k);
            let ghost gb = self.glyphs@;
            let ghost rb = self.cell_rgb@;
            self.glyphs.set(i, ch);
            self.cell_rgb.set(i, rgb);
            assert forall|j: int| #![trigger self.glyphs@[j]] #![trigger self.cell_rgb@[j]] 0 <= j < self.glyphs@.len() implies self.glyphs@[j] == text_written(
                g0,
                cols as int,
                x as int,
                y as int,
                s@,
                k + 1,
            )[j] && self.cell_rgb@[j] == text_tinted(r0, cols as int, x as int, y as int, k + 1, rgb)[j] by {
                if j != i {
                    assert(self.glyphs@[j] == gb[j] && self.cell_rgb@[j] == rb[j]);
                    assert(gb[j] == text_written(g0, cols as int, x as int, y as int, s@, k as int)[j]);
                    assert(rb[j] == text_tinted(r0, cols as int, x as int, y as int, k as int, rgb)[j]);
                    vstd::arithmetic::div_mod::lemma_fundamental_div_mod(j, cols as int);
                    if j / (cols as int) == y && j % (cols as int) == cx {
                        assert(j == (cols as int) * y + cx);
                    }
                }
            }
            assert(self.glyphs@ =~= text_written(g0, cols as int, x as int, y as int, s@, k + 1));
            assert(self.cell_rgb@ =~= text_tinted(r0, cols as int, x as int, y as int, k + 1, rgb));
            k += 1;
        }
    }
}

} // verus!
