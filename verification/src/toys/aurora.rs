//! Text over the aurora: a character and a colour per terminal cell.

use vstd::prelude::*;

verus! {

/// A 24-bit colour.
#[derive(Clone, Copy, Debug, PartialEq, Eq, Structural)]
pub struct Rgb {
    pub r: u8,
    pub g: u8,
    pub b: u8,
}

/// How many characters of `s` fit on a row `w` wide from column `x`.
pub open spec fn fitting(w: int, x: int, len: int) -> int {
    if x >= w { 0 } else if w - x < len { w - x } else { len }
}

/// Whether cell `i` of a `w * h` frame receives a character of text
/// written at (`x`, `y`).
pub open spec fn text_cell(i: int, w: int, h: int, x: int, y: int, len: int) -> bool {
    y < h && y * w + x <= i < y * w + x + fitting(w, x, len)
}

/// The characters after writing `s` at (`x`, `y`), clipped to the row.
pub open spec fn text_chars(chars: Seq<char>, w: int, h: int, x: int, y: int, s: Seq<char>) -> Seq<char> {
    Seq::new(chars.len(), |i: int| if text_cell(i, w, h, x, y, s.len() as int) { s[i - (y * w + x)] } else { chars[i] })
}

/// The colours after writing text of length `len` in `color` at (`x`, `y`).
pub open spec fn text_colors(rgbs: Seq<Rgb>, w: int, h: int, x: int, y: int, len: int, color: Rgb) -> Seq<Rgb> {
    Seq::new(rgbs.len(), |i: int| if text_cell(i, w, h, x, y, len) { color } else { rgbs[i] })
}

/// Writes `s` in `color` from (`x`, `y`) rightward, stopping at the right
/// edge; a row below the frame is left alone.
pub fn draw_text(chars: &mut Vec<char>, rgbs: &mut Vec<Rgb>, w: usize, h: usize, x: usize, y: usize, s: &str, color: Rgb)
    requires
        old(chars)@.len() == w * h,
        old(rgbs)@.len() == w * h,
    ensures
        final(chars)@ == text_chars(old(chars)@, w as int, h as int, x as int, y as int, s@),
        final(rgbs)@ == text_colors(old(rgbs)@, w as int, h as int, x as int, y as int, s@.len() as int, color),
{
    if y >= h {
        assert(chars@ =~= text_chars(old(chars)@, w as int, h as int, x as int, y as int, s@));
        assert(rgbs@ =~= text_colors(old(rgbs)@, w as int, h as int, x as int, y as int, s@.len() as int, color));
        return;
    }
    let total = chars.len();
    let n = s.unicode_len();
    let ghost base = y * w + x;
    let mut k: usize = 0;
    let mut xx = x;
    while k < n
        invariant_except_break
            chars@.len() == w * h,
            rgbs@.len() == w * h,
            total == w * h,
            y < h,
            n == s@.len(),
            base == y * w + x,
            k <= n,
            xx == x + k,
            k <= fitting(w as int, x as int, n as int),
            forall|i: int| 0 <= i < chars@.len() ==> #[trigger] chars@[i] == if base <= i < base + k { s@[i - base] } else { old(chars)@[i] },
            forall|i: int| 0 <= i < rgbs@.len() ==> #[trigger] rgbs@[i] == if base <= i < base + k { color } else { old(rgbs)@[i] },
        ensures
            chars@.len() == w * h,
            rgbs@.len() == w * h,
            k == fitting(w as int, x as int, n as int),
            forall|i: int| 0 <= i < chars@.len() ==> #[trigger] chars@[i] == if base <= i < base + k { s@[i - base] } else { old(chars)@[i] },
            forall|i: int| 0 <= i < rgbs@.len() ==> #[trigger] rgbs@[i] == if base <= i < base + k { color } else { old(rgbs)@[i] },
        decreases n - k,
    {
        if xx >= w {
            break;
        }
        assert(y * w + xx < w * h && y * w <= w * h) by (nonlinear_arith)
            requires
                xx < w,
                y < h,
        ;
        let i = y * w + xx;
        let ch = s.get_char(k);
        chars.set(i, ch);
        rgbs.set(i, color);
        k += 1;
        xx += 1;
    }
    assert(chars@ =~= text_chars(old(chars)@, w as int, h as int, x as int, y as int, s@));
    assert(rgbs@ =~= text_colors(old(rgbs)@, w as int, h as int, x as int, y as int, s@.len() as int, color));
}

} // verus!
