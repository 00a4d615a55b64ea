//! The aquarium's braille canvas: an intensity (0 to 255) per sub-pixel,
//! two columns by four rows of sub-pixels per terminal cell.

use vstd::prelude::*;
use crate::pixels::braille_dot;

verus! {

pub const SUB_X: usize = 2;
pub const SUB_Y: usize = 4;

/// `x` clamped to a byte.
pub open spec fn clamp_byte(x: int) -> u8 {
    if x < 0 { 0 } else if x > 255 { 255 } else { x as u8 }
}

pub fn clamp_u8(x: i32) -> (b: u8)
    ensures
        b == clamp_byte(x as int),
{
    if x < 0 {
        0
    } else if x > 255 {
        255
    } else {
        x as u8
    }
}

/// `tw` by `th` terminal cells, `sw` by `sh` sub-pixels, an intensity per
/// sub-pixel in row-major order.
pub struct BrailleCanvas {
    pub tw: usize,
    pub th: usize,
    pub sw: usize,
    pub sh: usize,
    pub sub: Vec<u8>,
}

/// Whether (`x`, `y`) is a sub-pixel of a `sw` by `sh` canvas, and which.
pub open spec fn sub_index(sw: int, sh: int, x: int, y: int) -> Option<usize> {
    if x < 0 || y < 0 || x >= sw || y >= sh { None } else { Some((y * sw + x) as usize) }
}

/// The mask of the braille cell (`tx`, `ty`) after its first `k`
/// sub-pixels (row by row, two per row): each sub-pixel at or above the
/// threshold raises its dot.
pub open spec fn cell_mask(sub: Seq<u8>, sw: int, tx: int, ty: int, threshold: u8, k: int) -> u8
    decreases k,
{
    if k <= 0 {
        0
    } else {
        let prev = cell_mask(sub, sw, tx, ty, threshold, k - 1);
        let oy = (k - 1) / 2;
        let ox = (k - 1) % 2;
        if sub[(ty * 4 + oy) * sw + (tx * 2 + ox)] >= threshold { prev | braille_dot(ox, oy) } else { prev }
    }
}

/// The sum of the first `k` sub-pixels of cell (`tx`, `ty`), row by row.
pub open spec fn cell_sum(sub: Seq<u8>, sw: int, tx: int, ty: int, k: int) -> int
    decreases k,
{
    if k <= 0 {
        0
    } else {
        cell_sum(sub, sw, tx, ty, k - 1) + sub[(ty * 4 + (k - 1) / 2) * sw + (tx * 2 + (k - 1) % 2)]
    }
}

proof fn lemma_cell_sum_bound(sub: Seq<u8>, sw: int, tx: int, ty: int, k: int)
    requires
        0 <= k,
    ensures
        0 <= cell_sum(sub, sw, tx, ty, k) <= 255 * k,
    decreases k,
{
    if k > 0 {
        lemma_cell_sum_bound(sub, sw, tx, ty, k - 1);
    }
}

impl BrailleCanvas {
    /// The sizes agree and every sub-pixel has its intensity.
    pub open spec fn wf(&self) -> bool {
        &&& self.sw == self.tw * 2
        &&& self.sh == self.th * 4
        &&& self.sub@.len() == self.sw * self.sh
        &&& self.sw * self.sh <= usize::MAX
    }

    /// A blank canvas of `term_w` by `term_h` cells.
    pub fn new(term_w: usize, term_h: usize) -> (c: BrailleCanvas)
        requires
            term_w * 2 <= usize::MAX,
            term_h * 4 <= usize::MAX,
            term_w * 2 * (term_h * 4) <= usize::MAX,
        ensures
            c.wf(),
            c.tw == term_w,
            c.th == term_h,
            forall|i: int| 0 <= i < c.sub@.len() ==> #[trigger] c.sub@[i] == 0,
    {
        let sw = term_w * SUB_X;
        let sh = term_h * SUB_Y;
        BrailleCanvas { tw: term_w, th: term_h, sw, sh, sub: vec![0u8; sw * sh] }
    }

    /// Blank again, at a new size.
    pub fn resize(&mut self, term_w: usize, term_h: usize)
        requires
            term_w * 2 <= usize::MAX,
            term_h * 4 <= usize::MAX,
            term_w * 2 * (term_h * 4) <= usize::MAX,
        ensures
            final(self).wf(),
            final(self).tw == term_w,
            final(self).th == term_h,
            forall|i: int| 0 <= i < final(self).sub@.len() ==> #[trigger] final(self).sub@[i] == 0,
    {
        self.tw = term_w;
        self.th = term_h;
        self.sw = term_w * SUB_X;
        self.sh = term_h * SUB_Y;
        self.sub = vec![0u8; self.sw * self.sh];
    }

    /// The index of sub-pixel (`x`, `y`), if it is on the canvas.
    pub fn sidx(&self, x: i32, y: i32) -> (r: Option<usize>)
        requires
            self.wf(),
        ensures
            r == sub_index(self.sw as int, self.sh as int, x as int, y as int),
            r matches Some(i) ==> i < self.sub@.len(),
    {
        if x < 0 || y < 0 {
            return None;
        }
        let (x, y) = (x as usize, y as usize);
        if x >= self.sw || y >= self.sh {
            return None;
        }
        assert(y * self.sw + x < self.sw * self.sh) by (nonlinear_arith)
            requires
                x < self.sw,
                y < self.sh,
        ;
        assert(y * self.sw <= self.sw * self.sh) by (nonlinear_arith)
            requires
                y < self.sh,
        ;
        Some(y * self.sw + x)
    }

    /// Every sub-pixel back to 0.
    pub fn clear(&mut self)
        requires
            old(self).wf(),
        ensures
            final(self).wf(),
            final(self).tw == old(self).tw,
            final(self).th == old(self).th,
            forall|i: int| 0 <= i < final(self).sub@.len() ==> #[trigger] final(self).sub@[i] == 0,
    {
        let mut i: usize = 0;
        while i < self.sub.len()
            invariant
                self.wf(),
                self.tw == old(self).tw,
                self.th == old(self).th,
                i <= self.sub@.len(),
                forall|j: int| 0 <= j < i ==> #[trigger] self.sub@[j] == 0,
            decreases self.sub@.len() - i,
        {
            self.sub.set(i, 0);
            i += 1;
        }
    }

    /// Adds `v` to a sub-pixel, saturating at 255; off the canvas, nothing.
    pub fn add(&mut self, x: i32, y: i32, v: u8)
        requires
            old(self).wf(),
        ensures
            final(self).wf(),
            final(self).tw == old(self).tw && final(self).th == old(self).th,
            match sub_index(old(self).sw as int, old(self).sh as int, x as int, y as int) {
                Some(i) => final(self).sub@ == old(self).sub@.update(
                    i as int,
                    clamp_byte(old(self).sub@[i as int] + v),
                ),
                None => final(self).sub@ == old(self).sub@,
            },
    {
        if let Some(i) = self.sidx(x, y) {
            let cur = self.sub[i] as i32;
            self.sub.set(i, clamp_u8(cur + v as i32));
        }
    }

    /// Raises a sub-pixel to at least `v`; off the canvas, nothing.
    pub fn set_max(&mut self, x: i32, y: i32, v: u8)
        requires
            old(self).wf(),
        ensures
            final(self).wf(),
            final(self).tw == old(self).tw && final(self).th == old(self).th,
            match sub_index(old(self).sw as int, old(self).sh as int, x as int, y as int) {
                Some(i) => final(self).sub@ == old(self).sub@.update(
                    i as int,
                    if old(self).sub@[i as int] >= v { old(self).sub@[i as int] } else { v },
                ),
                None => final(self).sub@ == old(self).sub@,
            },
    {
        if let Some(i) = self.sidx(x, y) {
            let cur = self.sub[i];
            self.sub.set(i, if cur >= v { cur } else { v });
        }
    }

    /// The mean intensity of cell (`tx`, `ty`)'s eight sub-pixels, rounded
    /// down.
    pub fn sample_avg(&self, tx: usize, ty: usize) -> (a: u8)
        requires
            self.wf(),
            tx < self.tw,
            ty < self.th,
        ensures
            a == cell_sum(self.sub@, self.sw as int, tx as int, ty as int, 8) / 8,
    {
        cell_average(&self.sub, self.sw, self.sh, tx, ty)
    }

    /// The braille dots of cell (`tx`, `ty`): a dot for each sub-pixel at
    /// or above `threshold`.
    pub fn to_braille_cell(&self, tx: usize, ty: usize, threshold: u8) -> (mask: u8)
        requires
            self.wf(),
            tx < self.tw,
            ty < self.th,
        ensures
            mask == cell_mask(self.sub@, self.sw as int, tx as int, ty as int, threshold, 8),
    {
        cell_dots(&self.sub, self.sw, self.sh, tx, ty, threshold)
    }
}

/// The mean intensity of cell (`tx`, `ty`)'s eight sub-pixels, rounded
/// down.
pub(crate) fn cell_average(sub: &Vec<u8>, sw: usize, sh: usize, tx: usize, ty: usize) -> (a: u8)
    requires
        sub@.len() == sw * sh,
        sw * sh <= usize::MAX,
        tx * 2 + 2 <= sw,
        ty * 4 + 4 <= sh,
    ensures
        a == cell_sum(sub@, sw as int, tx as int, ty as int, 8) / 8,
{
    let sx0 = tx * SUB_X;
    let sy0 = ty * SUB_Y;
    let mut sum: u32 = 0;
    let mut oy: usize = 0;
    while oy < SUB_Y
        invariant
            sub@.len() == sw * sh,
            sw * sh <= usize::MAX,
            tx * 2 + 2 <= sw,
            ty * 4 + 4 <= sh,
            sx0 == tx * 2,
            sy0 == ty * 4,
            oy <= 4,
            sum == cell_sum(sub@, sw as int, tx as int, ty as int, (oy * 2) as int),
            sum <= 255 * oy * 2,
        decreases 4 - oy,
    {
        let mut ox: usize = 0;
        while ox < SUB_X
            invariant
                sub@.len() == sw * sh,
                sw * sh <= usize::MAX,
                tx * 2 + 2 <= sw,
                ty * 4 + 4 <= sh,
                sx0 == tx * 2,
                sy0 == ty * 4,
                oy < 4,
                ox <= 2,
                sum == cell_sum(sub@, sw as int, tx as int, ty as int, (oy * 2 + ox) as int),
                sum <= 255 * (oy * 2 + ox),
            decreases 2 - ox,
        {
            assert((sy0 + oy) * sw + (sx0 + ox) < sw * sh) by (nonlinear_arith)
                requires
                    sy0 + oy < sh,
                    sx0 + ox < sw,
            ;
            assert((sy0 + oy) * sw <= sw * sh) by (nonlinear_arith)
                requires
                    sy0 + oy < sh,
            ;
            assert(((oy * 2 + ox) as int) / 2 == oy && ((oy * 2 + ox) as int) % 2 == ox);
            sum += sub[(sy0 + oy) * sw + (sx0 + ox)] as u32;
            ox += 1;
        }
        oy += 1;
    }
    (sum / (SUB_X * SUB_Y) as u32) as u8
}

/// The braille dots of cell (`tx`, `ty`): a dot for each sub-pixel at
/// or above `threshold`.
pub(crate) fn cell_dots(sub: &Vec<u8>, sw: usize, sh: usize, tx: usize, ty: usize, threshold: u8) -> (mask: u8)
    requires
        sub@.len() == sw * sh,
        sw * sh <= usize::MAX,
        tx * 2 + 2 <= sw,
        ty * 4 + 4 <= sh,
    ensures
        mask == cell_mask(sub@, sw as int, tx as int, ty as int, threshold, 8),
{
    let sx0 = tx * SUB_X;
    let sy0 = ty * SUB_Y;
    let mut mask: u8 = 0;
    let mut oy: usize = 0;
    while oy < SUB_Y
        invariant
            sub@.len() == sw * sh,
            sw * sh <= usize::MAX,
            tx * 2 + 2 <= sw,
            ty * 4 + 4 <= sh,
            sx0 == tx * 2,
            sy0 == ty * 4,
            oy <= 4,
            mask == cell_mask(sub@, sw as int, tx as int, ty as int, threshold, (oy * 2) as int),
        decreases 4 - oy,
    {
        let mut ox: usize = 0;
        while ox < SUB_X
            invariant
                sub@.len() == sw * sh,
                sw * sh <= usize::MAX,
                tx * 2 + 2 <= sw,
                ty * 4 + 4 <= sh,
                sx0 == tx * 2,
                sy0 == ty * 4,
                oy < 4,
                ox <= 2,
                mask == cell_mask(sub@, sw as int, tx as int, ty as int, threshold, (oy * 2 + ox) as int),
            decreases 2 - ox,
        {
            assert((sy0 + oy) * sw + (sx0 + ox) < sw * sh) by (nonlinear_arith)
                requires
                    sy0 + oy < sh,
                    sx0 + ox < sw,
            ;
            assert((sy0 + oy) * sw <= sw * sh) by (nonlinear_arith)
                requires
                    sy0 + oy < sh,
            ;
            assert(((oy * 2 + ox) as int) / 2 == oy && ((oy * 2 + ox) as int) % 2 == ox);
            let v = sub[(sy0 + oy) * sw + (sx0 + ox)];
            if v >= threshold {
                let bit: u8 = match (ox, oy) {
                    (0, 0) => 0x01,
                    (0, 1) => 0x02,
                    (0, 2) => 0x04,
                    (0, 3) => 0x40,
                    (1, 0) => 0x08,
                    (1, 1) => 0x10,
                    (1, 2) => 0x20,
                    (1, 3) => 0x80,
                    _ => 0,
                };
                mask |= bit;
            }
            ox += 1;
        }
        oy += 1;
    }
    mask
}

} // verus!
