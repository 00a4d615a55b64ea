//! The reaction-diffusion grid's addressing: cells of a `w` by `h` torus.

use vstd::prelude::*;

verus! {

/// The cell of (`x`, `y`) on a `w` by `h` torus, row by row.
pub fn wrap(w: usize, h: usize, x: isize, y: isize) -> (i: usize)
    requires
        0 < w <= isize::MAX,
        0 < h <= isize::MAX,
        w * h <= usize::MAX,
    ensures
        i == (y as int % h as int) * w + (x as int % w as int),
        i < w * h,
{
    let wi = w as isize;
    let hi = h as isize;
    let r = x % wi;
    let xx = if r < 0 { r + wi } else { r };
    let s = y % hi;
    let yy = if s < 0 { s + hi } else { s };
    proof {
        if x < 0 {
            crate::toys::ants::lemma_negative_mod(x as int, w as int);
        }
        if y < 0 {
            crate::toys::ants::lemma_negative_mod(y as int, h as int);
        }
    }
    assert(xx == x as int % w as int);
    assert(yy == y as int % h as int);
    assert(yy * w + xx < w * h) by (nonlinear_arith)
        requires
            0 <= xx < w,
            0 <= yy < h,
    ;
    (yy as usize) * w + (xx as usize)
}

} // verus!
