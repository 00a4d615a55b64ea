//! The lunar lander's ground: a height per column, wrapping round the
//! screen, with a landing pad; and the text lines of its byte frame.

use vstd::prelude::*;
use vstd::string::StringSliceAdditionalSpecFns;

verus! {

/// Heights per column (from the bottom), the pad's columns `pad_x0` up to
/// (not including) `pad_x1`, and the pad's height.
pub struct Terrain {
    pub h: Vec<i32>,
    pub pad_x0: usize,
    pub pad_x1: usize,
    pub pad_y: i32,
}

/// `v` held between `lo` and `hi` (at `lo` when the bounds cross).
pub open spec fn clamp_between(v: int, lo: int, hi: int) -> int {
    let m = if hi < v { hi } else { v };
    if lo > m { lo } else { m }
}

pub fn clamp_i32(v: i32, lo: i32, hi: i32) -> (r: i32)
    ensures
        r == clamp_between(v as int, lo as int, hi as int),
{
    let m = if hi < v { hi } else { v };
    if lo > m { lo } else { m }
}

/// Column `x` wrapped onto a ground of `w` columns.
pub open spec fn ground_column(x: int, w: int) -> int {
    x % w
}

fn wrap_column(x: i32, w: i32) -> (c: i32)
    requires
        w > 0,
    ensures
        c == ground_column(x as int, w as int),
        0 <= c < w,
{
    let mut xx = x % w;
    proof {
        if x < 0 {
            lemma_negative_remainder(x as int, w as int);
        }
    }
    if xx < 0 {
        xx += w;
    }
    xx
}

proof fn lemma_negative_remainder(v: int, m: int)
    requires
        v < 0,
        m > 0,
    ensures
        (-v) % m == 0 ==> v % m == 0,
        (-v) % m != 0 ==> v % m == m - (-v) % m,
{
    let q = (-v) / m;
    let a = (-v) % m;
    vstd::arithmetic::div_mod::lemma_fundamental_div_mod(-v, m);
    assert(v == (-q - 1) * m + (m - a)) by (nonlinear_arith)
        requires
            -v == m * q + a,
    ;
    if a != 0 {
        vstd::arithmetic::div_mod::lemma_mod_multiples_vanish(-q - 1, m - a, m);
        vstd::arithmetic::div_mod::lemma_small_mod((m - a) as nat, m as nat);
    } else {
        assert(v == (-q) * m) by (nonlinear_arith)
            requires
                -v == m * q + a,
                a == 0,
        ;
        vstd::arithmetic::div_mod::lemma_mod_multiples_basic(-q, m);
    }
}

/// The ground's height under column `x`, the ground repeating every width.
pub fn terrain_height_at(terrain: &Terrain, x: i32) -> (y: i32)
    requires
        0 < terrain.h@.len() <= i32::MAX,
    ensures
        y == terrain.h@[ground_column(x as int, terrain.h@.len() as int)],
{
    let w = terrain.h.len() as i32;
    let xx = wrap_column(x, w);
    terrain.h[xx as usize]
}

/// Whether column `x` (wrapped) lies over the landing pad.
pub fn is_on_pad(terrain: &Terrain, x: i32) -> (b: bool)
    requires
        0 < terrain.h@.len() <= i32::MAX,
    ensures
        b == (terrain.pad_x0 <= ground_column(x as int, terrain.h@.len() as int) < terrain.pad_x1),
{
    let w = terrain.h.len() as i32;
    let xx = wrap_column(x, w);
    (xx as usize) >= terrain.pad_x0 && (xx as usize) < terrain.pad_x1
}

/// Writes `text` at the start of row `y` of a byte frame `w` wide: its
/// bytes, cut to `w - 1`; a row past the frame is left alone.
pub fn write_text_line(buf: &mut Vec<u8>, w: usize, y: usize, text: &str)
    requires
        w > 0,
    ensures
        ({
            let n = if text.spec_bytes().len() < w - 1 { text.spec_bytes().len() as int } else { w - 1 };
            &&& y >= (old(buf)@.len() as int) / (w as int) ==> final(buf)@ == old(buf)@
            &&& y < (old(buf)@.len() as int) / (w as int) ==> final(buf)@.len() == old(buf)@.len()
                && (forall|i: int| 0 <= i < old(buf)@.len() ==> #[trigger] final(buf)@[i] == (
                    if y * w <= i < y * w + n { text.spec_bytes()[i - y * w] } else { old(buf)@[i] }))
        }),
{
    if y >= buf.len() / w {
        return;
    }
    let total = buf.len();
    assert(y * w + w <= total) by (nonlinear_arith)
        requires
            y < (total as int) / (w as int),
            w > 0,
    {
        vstd::arithmetic::div_mod::lemma_fundamental_div_mod(total as int, w as int);
    }
    let bytes = text.as_bytes();
    let start = y * w;
    let maxlen = w.saturating_sub(1);
    let len = if bytes.len() < maxlen { bytes.len() } else { maxlen };
    let ghost before = buf@;
    let mut k: usize = 0;
    while k < len
        invariant
            start + w <= buf@.len(),
            buf@.len() == total,
            len <= w - 1,
            len <= bytes@.len(),
            bytes@ == text.spec_bytes(),
            start == y * w,
            before.len() == buf@.len(),
            k <= len,
            forall|i: int| 0 <= i < before.len() ==> #[trigger] buf@[i] == (
                if start <= i < start + k { bytes@[i - start] } else { before[i] }),
        decreases len - k,
    {
        buf.set(start + k, bytes[k]);
        k += 1;
    }
}

} // verus!
