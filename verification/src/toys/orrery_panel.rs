//! The orrery's text panels: a grid of character cells, and single cells,
//! strings and boxes of line characters written into it, clipped to it.

use vstd::prelude::*;
use crate::toys::palette::Named;

verus! {

/// A colour of the orrery: a named one or a 24-bit one.
#[derive(Clone, Copy, Debug, PartialEq, Eq, Structural)]
pub enum Tone {
    Named(Named),
    Rgb(u8, u8, u8),
}

#[derive(Clone, Copy, Debug, PartialEq, Eq, Structural)]
pub struct OCell {
    pub ch: char,
    pub fg: Tone,
    pub bg: Tone,
}

/// A colour as red, green and blue: a 24-bit colour as it is; the named
/// colours the orrery uses as it draws them; any other, light grey.
pub open spec fn rgb_of(t: Tone) -> (u8, u8, u8) {
    match t {
        Tone::Rgb(r, g, b) => (r, g, b),
        Tone::Named(n) => match n {
            Named::Grey => (170, 170, 170),
            Named::DarkGrey => (110, 110, 110),
            Named::Yellow => (255, 220, 90),
            Named::Cyan => (80, 210, 255),
            Named::Red => (255, 90, 80),
            Named::Blue => (90, 140, 255),
            _ => (200, 200, 200),
        },
    }
}

/// A colour as red, green and blue.
pub fn color_to_rgb(t: Tone) -> (c: (u8, u8, u8))
    ensures
        c == rgb_of(t),
{
    match t {
        Tone::Rgb(r, g, b) => (r, g, b),
        Tone::Named(n) => match n {
            Named::Grey => (170, 170, 170),
            Named::DarkGrey => (110, 110, 110),
            Named::Yellow => (255, 220, 90),
            Named::Cyan => (80, 210, 255),
            Named::Red => (255, 90, 80),
            Named::Blue => (90, 140, 255),
            _ => (200, 200, 200),
        },
    }
}

/// The cells of a `w` wide grid with (`x`, `y`) set to `c` when it lies on
/// the `w` by `h` grid.
pub open spec fn cell_put(buf: Seq<OCell>, w: int, h: int, x: int, y: int, c: OCell) -> Seq<OCell> {
    if x < w && y < h {
        buf.update(y * w + x, c)
    } else {
        buf
    }
}

/// Cell `i` after the first `k` characters of `s` are written from
/// column `x` of row `y` of a grid `w` wide.
pub open spec fn str_cell(buf: Seq<OCell>, w: int, x: int, y: int, s: Seq<char>, k: int, fg: Tone, bg: Tone, i: int) -> OCell {
    if i / w == y && x <= i % w < x + k {
        OCell { ch: s[i % w - x], fg, bg }
    } else {
        buf[i]
    }
}

/// The cells after the first `k` characters of `s` are written from
/// column `x` of row `y`.
pub open spec fn str_written(buf: Seq<OCell>, w: int, x: int, y: int, s: Seq<char>, k: int, fg: Tone, bg: Tone) -> Seq<OCell> {
    Seq::new(buf.len(), |i: int| str_cell(buf, w, x, y, s, k, fg, bg, i))
}

proof fn lemma_grid_index(w: int, h: int, x: int, y: int)
    requires
        0 <= x < w,
        0 <= y < h,
    ensures
        0 <= y * w <= y * w + x < w * h,
        (y * w + x) / w == y,
        (y * w + x) % w == x,
{
    assert(0 <= y * w <= y * w + x < w * h) by (nonlinear_arith)
        requires
            0 <= x < w,
            0 <= y < h,
    ;
    vstd::arithmetic::div_mod::lemma_fundamental_div_mod_converse(y * w + x, w, y, x);
}

/// The line character of the box with corners (`x0`, `y0`) and (`x1`, `y1`)
/// at (`x`, `y`), where that cell lies on the box's outline.
pub open spec fn box_glyph(x0: int, y0: int, x1: int, y1: int, x: int, y: int) -> Option<char> {
    if x == x0 && y == y0 {
        Some('┌')
    } else if x == x1 && y == y0 {
        Some('┐')
    } else if x == x0 && y == y1 {
        Some('└')
    } else if x == x1 && y == y1 {
        Some('┘')
    } else if (y == y0 || y == y1) && x0 < x < x1 {
        Some('─')
    } else if (x == x0 || x == x1) && y0 < y < y1 {
        Some('│')
    } else {
        None
    }
}

/// Cell `i` of a grid `w` wide once the outline of that box is drawn on it.
pub open spec fn box_cell(b: Seq<OCell>, w: int, x0: int, y0: int, x1: int, y1: int, fg: Tone, bg: Tone, i: int) -> OCell {
    match box_glyph(x0, y0, x1, y1, i % w, i / w) {
        Some(ch) => OCell { ch, fg, bg },
        None => b[i],
    }
}

/// The cells once the outline of the box with corners (`x0`, `y0`) and
/// (`x1`, `y1`) is drawn on them; the parts off the grid are left out.
pub open spec fn box_drawn(b: Seq<OCell>, w: int, x0: int, y0: int, x1: int, y1: int, fg: Tone, bg: Tone) -> Seq<OCell> {
    Seq::new(b.len(), |i: int| box_cell(b, w, x0, y0, x1, y1, fg, bg, i))
}

/// The far corner of a box `size` cells across from `start`, held to the
/// u16 range.
pub open spec fn far_corner(start: u16, size: u16) -> int {
    if start + size - 1 > u16::MAX {
        u16::MAX as int
    } else {
        start + size - 1
    }
}

/// Whether (`x`, `y`) is drawn once the top edge is drawn left of column
/// `xt`, the bottom edge left of `xb`, the left side above row `yl`, the
/// right side above `yr`, and the first `k` corners.
spec fn box_reached(x0: int, y0: int, x1: int, y1: int, xt: int, xb: int, yl: int, yr: int, k: int, x: int, y: int) -> bool {
    ||| y == y0 && x0 < x < xt
    ||| y == y1 && x0 < x < xb
    ||| x == x0 && y0 < y < yl
    ||| x == x1 && y0 < y < yr
    ||| x == x0 && y == y0 && k > 0
    ||| x == x1 && y == y0 && k > 1
    ||| x == x0 && y == y1 && k > 2
    ||| x == x1 && y == y1 && k > 3
}

spec fn box_stage_cell(b: Seq<OCell>, w: int, x0: int, y0: int, x1: int, y1: int, xt: int, xb: int, yl: int, yr: int, k: int, fg: Tone, bg: Tone, i: int) -> OCell {
    if box_reached(x0, y0, x1, y1, xt, xb, yl, yr, k, i % w, i / w) {
        OCell { ch: box_glyph(x0, y0, x1, y1, i % w, i / w).unwrap(), fg, bg }
    } else {
        b[i]
    }
}

spec fn box_stage(b: Seq<OCell>, w: int, x0: int, y0: int, x1: int, y1: int, xt: int, xb: int, yl: int, yr: int, k: int, fg: Tone, bg: Tone) -> Seq<OCell> {
    Seq::new(b.len(), |i: int| box_stage_cell(b, w, x0, y0, x1, y1, xt, xb, yl, yr, k, fg, bg, i))
}

/// Setting cell (`x`, `y`) to `c` turns `cur` into `next` where `next` holds
/// `c` there and agrees with `cur` at every other cell.
proof fn lemma_put_gives(cur: Seq<OCell>, next: Seq<OCell>, w: int, h: int, x: int, y: int, c: OCell)
    requires
        0 < w,
        0 <= x,
        0 <= y,
        cur.len() == w * h,
        next.len() == cur.len(),
        forall|j: int|
            0 <= j < cur.len() ==> #[trigger] next[j] == if j % w == x && j / w == y {
                c
            } else {
                cur[j]
            },
    ensures
        cell_put(cur, w, h, x, y, c) == next,
{
    if x < w && y < h {
        lemma_grid_index(w, h, x, y);
    }
    assert forall|j: int| 0 <= j < cur.len() implies #[trigger] cell_put(cur, w, h, x, y, c)[j] == next[j] by {
        vstd::arithmetic::div_mod::lemma_fundamental_div_mod(j, w);
        if j % w == x && j / w == y {
            assert(j == w * y + x);
            assert(w * y == y * w) by (nonlinear_arith);
            assert(x < w) by {
                vstd::arithmetic::div_mod::lemma_mod_bound(j, w);
            }
            assert(y < h) by (nonlinear_arith)
                requires
                    j == w * y + x,
                    0 <= x,
                    0 < w,
                    j < w * h,
            ;
        }
    }
    assert(cell_put(cur, w, h, x, y, c) =~= next);
}

/// Sets cell (`x`, `y`) when it lies on the grid.
pub fn put_cell(buf: &mut Vec<OCell>, w: u16, h: u16, x: u16, y: u16, c: OCell)
    requires
        old(buf)@.len() == w * h,
    ensures
        final(buf)@ == cell_put(old(buf)@, w as int, h as int, x as int, y as int, c),
{
    if x >= w || y >= h {
        return;
    }
    // The grid's length, a usize, bounds the index computed below.
    let cells = buf.len();
    proof {
        lemma_grid_index(w as int, h as int, x as int, y as int);
        assert(y * w + x < cells);
    }
    let i = y as usize * w as usize + x as usize;
    buf.set(i, c);
}

/// Writes `s` rightward from column `x` of row `y`, stopping at the right
/// edge; nothing below the last row.
pub fn write_str(buf: &mut Vec<OCell>, w: u16, h: u16, x: u16, y: u16, s: &str, fg: Tone, bg: Tone)
    requires
        old(buf)@.len() == w * h,
    ensures
        y >= h ==> final(buf)@ == old(buf)@,
        y < h ==> final(buf)@ == str_written(old(buf)@, w as int, x as int, y as int, s@, if x >= w {
            0
        } else if s@.len() < w - x {
            s@.len() as int
        } else {
            w - x
        }, fg, bg),
{
    if y >= h {
        return;
    }
    let n = s.unicode_len();
    let ww = w as usize;
    let ghost b0 = buf@;
    let mut k: usize = 0;
    while k < n && (x as usize) < ww && k < ww - x as usize
        invariant
            b0.len() == w * h,
            buf@.len() == b0.len(),
            ww == w,
            y < h,
            n == s@.len(),
            k <= n,
            x < w ==> k <= w - x,
            x >= w ==> k == 0,
            buf@ == str_written(b0, w as int, x as int, y as int, s@, k as int, fg, bg),
        decreases n - k,
    {
        let xi = x as usize + k;
        proof {
            lemma_grid_index(w as int, h as int, xi as int, y as int);
        }
        // The grid's length, a usize, bounds the index computed below.
        let cells = buf.len();
        let i = y as usize * ww + xi;
        let ch = s.get_char(k);
        let ghost bb = buf@;
        buf.set(i, OCell { ch, fg, bg });
        assert forall|j: int| 0 <= j < buf@.len() implies #[trigger] buf@[j] == str_written(
            b0,
            w as int,
            x as int,
            y as int,
            s@,
            k + 1,
            fg,
            bg,
        )[j] by {
            if j == i {
                assert((i as int) / (w as int) == y && (i as int) % (w as int) == xi);
            } else {
                assert(bb[j] == str_written(b0, w as int, x as int, y as int, s@, k as int, fg, bg)[j]);
                vstd::arithmetic::div_mod::lemma_fundamental_div_mod(j, w as int);
                if j / (w as int) == y && j % (w as int) == xi {
                    assert(j == (w as int) * y + xi);
                }
            }
        }
        assert(buf@ =~= str_written(b0, w as int, x as int, y as int, s@, k + 1, fg, bg));
        k += 1;
    }
}

/// Draws the outline of a box `bw` by `bh` cells with its top left corner
/// at (`x0`, `y0`) in line characters, clipped to the grid; a box under two
/// cells across or high draws nothing.
pub fn box_draw(buf: &mut Vec<OCell>, w: u16, h: u16, x0: u16, y0: u16, bw: u16, bh: u16, fg: Tone, bg: Tone)
    requires
        old(buf)@.len() == w * h,
        bw >= 2 && bh >= 2 ==> x0 < u16::MAX && y0 < u16::MAX,
    ensures
        bw < 2 || bh < 2 ==> final(buf)@ == old(buf)@,
        bw >= 2 && bh >= 2 ==> final(buf)@ == box_drawn(
            old(buf)@,
            w as int,
            x0 as int,
            y0 as int,
            far_corner(x0, bw),
            far_corner(y0, bh),
            fg,
            bg,
        ),
{
    if bw < 2 || bh < 2 {
        return;
    }
    let x1 = x0.saturating_add(bw - 1);
    let y1 = y0.saturating_add(bh - 1);
    if w == 0 {
        proof {
            assert(buf@ =~= box_drawn(buf@, w as int, x0 as int, y0 as int, x1 as int, y1 as int, fg, bg));
        }
        return;
    }
    let ghost b0 = buf@;
    let ghost (gw, gx0, gy0, gx1, gy1) = (w as int, x0 as int, y0 as int, x1 as int, y1 as int);
    assert(buf@ =~= box_stage(b0, gw, gx0, gy0, gx1, gy1, gx0 + 1, gx0 + 1, gy0 + 1, gy0 + 1, 0, fg, bg));
    let mut x: u16 = x0 + 1;
    while x < x1
        invariant
            b0.len() == w * h,
            0 < w,
            gw == w, gx0 == x0, gy0 == y0, gx1 == x1, gy1 == y1,
            x0 < x1,
            y0 < y1,
            x0 < x <= x1,
            buf@ == box_stage(b0, gw, gx0, gy0, gx1, gy1, x as int, x as int, gy0 + 1, gy0 + 1, 0, fg, bg),
        decreases x1 - x,
    {
        let ghost cur = buf@;
        put_cell(buf, w, h, x, y0, OCell { ch: '─', fg, bg });
        proof {
            lemma_put_gives(
                cur,
                box_stage(b0, gw, gx0, gy0, gx1, gy1, x + 1, x as int, gy0 + 1, gy0 + 1, 0, fg, bg),
                gw, h as int, x as int, gy0, OCell { ch: '─', fg, bg },
            );
        }
        let ghost cur = buf@;
        put_cell(buf, w, h, x, y1, OCell { ch: '─', fg, bg });
        proof {
            lemma_put_gives(
                cur,
                box_stage(b0, gw, gx0, gy0, gx1, gy1, x + 1, x + 1, gy0 + 1, gy0 + 1, 0, fg, bg),
                gw, h as int, x as int, gy1, OCell { ch: '─', fg, bg },
            );
        }
        x = x + 1;
    }
    let mut y: u16 = y0 + 1;
    while y < y1
        invariant
            b0.len() == w * h,
            0 < w,
            gw == w, gx0 == x0, gy0 == y0, gx1 == x1, gy1 == y1,
            x0 < x1,
            y0 < y1,
            y0 < y <= y1,
            buf@ == box_stage(b0, gw, gx0, gy0, gx1, gy1, gx1, gx1, y as int, y as int, 0, fg, bg),
        decreases y1 - y,
    {
        let ghost cur = buf@;
        put_cell(buf, w, h, x0, y, OCell { ch: '│', fg, bg });
        proof {
            lemma_put_gives(
                cur,
                box_stage(b0, gw, gx0, gy0, gx1, gy1, gx1, gx1, y + 1, y as int, 0, fg, bg),
                gw, h as int, gx0, y as int, OCell { ch: '│', fg, bg },
            );
        }
        let ghost cur = buf@;
        put_cell(buf, w, h, x1, y, OCell { ch: '│', fg, bg });
        proof {
            lemma_put_gives(
                cur,
                box_stage(b0, gw, gx0, gy0, gx1, gy1, gx1, gx1, y + 1, y + 1, 0, fg, bg),
                gw, h as int, gx1, y as int, OCell { ch: '│', fg, bg },
            );
        }
        y = y + 1;
    }
    let ghost cur = buf@;
    put_cell(buf, w, h, x0, y0, OCell { ch: '┌', fg, bg });
    proof {
        lemma_put_gives(cur, box_stage(b0, gw, gx0, gy0, gx1, gy1, gx1, gx1, gy1, gy1, 1, fg, bg),
            gw, h as int, gx0, gy0, OCell { ch: '┌', fg, bg });
    }
    let ghost cur = buf@;
    put_cell(buf, w, h, x1, y0, OCell { ch: '┐', fg, bg });
    proof {
        lemma_put_gives(cur, box_stage(b0, gw, gx0, gy0, gx1, gy1, gx1, gx1, gy1, gy1, 2, fg, bg),
            gw, h as int, gx1, gy0, OCell { ch: '┐', fg, bg });
    }
    let ghost cur = buf@;
    put_cell(buf, w, h, x0, y1, OCell { ch: '└', fg, bg });
    proof {
        lemma_put_gives(cur, box_stage(b0, gw, gx0, gy0, gx1, gy1, gx1, gx1, gy1, gy1, 3, fg, bg),
            gw, h as int, gx0, gy1, OCell { ch: '└', fg, bg });
    }
    let ghost cur = buf@;
    put_cell(buf, w, h, x1, y1, OCell { ch: '┘', fg, bg });
    proof {
        lemma_put_gives(cur, box_stage(b0, gw, gx0, gy0, gx1, gy1, gx1, gx1, gy1, gy1, 4, fg, bg),
            gw, h as int, gx1, gy1, OCell { ch: '┘', fg, bg });
        assert(buf@ =~= box_drawn(b0, gw, gx0, gy0, gx1, gy1, fg, bg));
    }
}

} // verus!
