//! The ghost scene's braille canvas: each sub-pixel has an intensity and
//! the layer that last painted it (background, far and near ghosts, eyes,
//! moon, foreground, ground, glow). A stronger stroke wins a sub-pixel;
//! a ghost over the ground blends into it instead.

use vstd::prelude::*;
use crate::pixels::braille_char;
use crate::toys::canvas::{SUB_X, SUB_Y, cell_average, cell_dots, cell_mask, cell_sum, clamp_byte, sub_index};

verus! {

pub const LAYER_BG: u8 = 0;
pub const LAYER_GHOST_FAR: u8 = 1;
pub const LAYER_GHOST_NEAR: u8 = 2;
pub const LAYER_EYE: u8 = 3;
pub const LAYER_MOON: u8 = 4;
pub const LAYER_FOREGROUND: u8 = 5;
pub const LAYER_GROUND: u8 = 6;
pub const LAYER_GLOW: u8 = 7;

/// `tw` by `th` terminal cells, `sw` by `sh` sub-pixels; per sub-pixel an
/// intensity (`val`) and a layer (`layer`), row-major.
pub struct BrailleCanvas {
    pub tw: usize,
    pub th: usize,
    pub sw: usize,
    pub sh: usize,
    pub val: Vec<u8>,
    pub layer: Vec<u8>,
}

/// The layers that blend into the ground rather than cover it.
pub open spec fn ghostly(layer: u8) -> bool {
    layer == LAYER_GHOST_FAR || layer == LAYER_GHOST_NEAR || layer == LAYER_EYE || layer == LAYER_GLOW
}

/// 45% of the old intensity and 55% of the new, rounded half up.
pub open spec fn blend(cur: u8, v: u8) -> u8 {
    ((9 * cur + 11 * v + 10) / 20) as u8
}

/// A stroke of intensity `v` on layer `l` over a sub-pixel holding
/// (`cur`, `cl`): over the ground, a ghostly stroke blends in when the
/// blend is no darker; elsewhere a brighter stroke, or an equal one on a
/// higher layer, replaces what is there.
pub open spec fn stronger(cur: u8, cl: u8, v: u8, l: u8) -> (u8, u8) {
    if cl == LAYER_GROUND && ghostly(l) {
        if blend(cur, v) >= cur { (blend(cur, v), l) } else { (cur, cl) }
    } else if v > cur || (v == cur && l > cl) {
        (v, l)
    } else {
        (cur, cl)
    }
}

/// What a sub-pixel holding (`cur`, `cl`) becomes under a stroke of `v`
/// on layer `l`, or under paint.
pub open spec fn stroke_val(paint: bool, cur: u8, cl: u8, v: u8, l: u8) -> u8 {
    if paint { v } else { stronger(cur, cl, v, l).0 }
}

pub open spec fn stroke_layer(paint: bool, cur: u8, cl: u8, v: u8, l: u8) -> u8 {
    if paint { l } else { stronger(cur, cl, v, l).1 }
}

/// The intensities after a stroke (or paint) over the rectangle of columns
/// `xa..=xb` and rows `ya..=yb` of a canvas `sw` wide.
pub open spec fn stroked_vals(val: Seq<u8>, lay: Seq<u8>, sw: int, xa: int, xb: int, ya: int, yb: int, v: u8, l: u8, paint: bool) -> Seq<u8> {
    Seq::new(val.len(), |j: int| if in_span(j, sw, xa, xb, ya, yb) { stroke_val(paint, val[j], lay[j], v, l) } else { val[j] })
}

/// The layers after a stroke (or paint) over the rectangle.
pub open spec fn stroked_layers(val: Seq<u8>, lay: Seq<u8>, sw: int, xa: int, xb: int, ya: int, yb: int, v: u8, l: u8, paint: bool) -> Seq<u8> {
    Seq::new(lay.len(), |j: int| if in_span(j, sw, xa, xb, ya, yb) { stroke_layer(paint, val[j], lay[j], v, l) } else { lay[j] })
}

/// Whether sub-pixel `j` of a canvas `sw` wide lies in the rectangle of
/// columns `xa..=xb` and rows `ya..=yb`.
pub open spec fn in_span(j: int, sw: int, xa: int, xb: int, ya: int, yb: int) -> bool {
    xa <= j % sw <= xb && ya <= j / sw <= yb
}

/// The rectangle's sub-pixels visited before (`cx`, `cy`), row by row.
pub open spec fn visited(j: int, sw: int, xa: int, xb: int, ya: int, yb: int, cy: int, cx: int) -> bool {
    in_span(j, sw, xa, xb, ya, yb) && (j / sw < cy || (j / sw == cy && j % sw < cx))
}

pub open spec fn min_i(a: int, b: int) -> int {
    if a <= b { a } else { b }
}

pub open spec fn max_i(a: int, b: int) -> int {
    if a >= b { a } else { b }
}

/// The heaviest layer's weight among the first `k` sub-pixels of cell
/// (`tx`, `ty`): the sum of the intensities at or above the threshold of
/// those painted by layer `l`.
pub open spec fn layer_weight(val: Seq<u8>, lay: Seq<u8>, sw: int, tx: int, ty: int, threshold: u8, l: int, k: int) -> int
    decreases k,
{
    if k <= 0 {
        0
    } else {
        let i = (ty * 4 + (k - 1) / 2) * sw + (tx * 2 + (k - 1) % 2);
        let add = if val[i] >= threshold && lay[i] as int == l { val[i] as int } else { 0 };
        layer_weight(val, lay, sw, tx, ty, threshold, l, k - 1) + add
    }
}

/// The last of layers `0..n` with the greatest weight.
pub open spec fn heaviest(val: Seq<u8>, lay: Seq<u8>, sw: int, tx: int, ty: int, threshold: u8, n: int) -> int
    decreases n,
{
    if n <= 1 {
        0
    } else {
        let b = heaviest(val, lay, sw, tx, ty, threshold, n - 1);
        if layer_weight(val, lay, sw, tx, ty, threshold, n - 1, 8) >= layer_weight(val, lay, sw, tx, ty, threshold, b, 8) {
            n - 1
        } else {
            b
        }
    }
}

proof fn lemma_layer_weight_bound(val: Seq<u8>, lay: Seq<u8>, sw: int, tx: int, ty: int, threshold: u8, l: int, k: int)
    requires
        0 <= k,
    ensures
        0 <= layer_weight(val, lay, sw, tx, ty, threshold, l, k) <= 255 * k,
    decreases k,
{
    if k > 0 {
        lemma_layer_weight_bound(val, lay, sw, tx, ty, threshold, l, k - 1);
    }
}

proof fn lemma_heaviest_range(val: Seq<u8>, lay: Seq<u8>, sw: int, tx: int, ty: int, threshold: u8, n: int)
    requires
        n >= 1,
    ensures
        0 <= heaviest(val, lay, sw, tx, ty, threshold, n) < n,
    decreases n,
{
    if n > 1 {
        lemma_heaviest_range(val, lay, sw, tx, ty, threshold, n - 1);
    }
}

/// Sub-pixel `j` of a canvas `sw` wide is at column `j % sw`, row `j / sw`.
proof fn lemma_split_index(x: int, y: int, sw: int)
    requires
        0 <= x < sw,
        0 <= y,
    ensures
        (y * sw + x) % sw == x,
        (y * sw + x) / sw == y,
{
    vstd::arithmetic::div_mod::lemma_fundamental_div_mod_converse(y * sw + x, sw, y, x);
}

/// Sub-pixel `j` of a `sw * sh` canvas has its column and row on the
/// canvas; when it lies in a rectangle, they lie in the rectangle clipped
/// to the canvas and to the columns and rows an `i32` can name.
proof fn lemma_span_clip(j: int, sw: int, sh: int, xa: int, xb: int, ya: int, yb: int, sw_e: int, sh_e: int)
    requires
        0 <= j < sw * sh,
        sw > 0,
        sh > 0,
        sw_e == min_i(sw, 0x8000_0000),
        sh_e == min_i(sh, 0x8000_0000),
        xb <= 0x7fff_ffff,
        yb <= 0x7fff_ffff,
    ensures
        j == sw * (j / sw) + j % sw,
        0 <= j % sw < sw,
        0 <= j / sw < sh,
        in_span(j, sw, xa, xb, ya, yb) ==> max_i(xa, 0) <= j % sw <= min_i(xb, sw_e - 1) && max_i(ya, 0) <= j / sw
            <= min_i(yb, sh_e - 1),
{
    vstd::arithmetic::div_mod::lemma_fundamental_div_mod(j, sw);
    assert(0 <= j / sw < sh) by (nonlinear_arith)
        requires
            0 <= j < sw * sh,
            j == sw * (j / sw) + j % sw,
            0 <= j % sw < sw,
            sw > 0,
    {
        if j / sw >= sh {
            assert(sw * (j / sw) >= sw * sh);
        }
        if j / sw < 0 {
            assert(sw * (j / sw) <= -sw);
        }
    }
}

impl BrailleCanvas {
    /// The sizes agree and every sub-pixel has an intensity and a layer.
    pub open spec fn wf(&self) -> bool {
        &&& self.sw == self.tw * 2
        &&& self.sh == self.th * 4
        &&& self.val@.len() == self.sw * self.sh
        &&& self.layer@.len() == self.sw * self.sh
        &&& self.sw * self.sh <= usize::MAX
    }

    /// A dark canvas of `term_w` by `term_h` cells, all background.
    pub fn new(term_w: usize, term_h: usize) -> (c: BrailleCanvas)
        requires
            term_w * 2 <= usize::MAX,
            term_h * 4 <= usize::MAX,
            term_w * 2 * (term_h * 4) <= usize::MAX,
        ensures
            c.wf(),
            c.tw == term_w,
            c.th == term_h,
            forall|i: int| 0 <= i < c.val@.len() ==> #[trigger] c.val@[i] == 0 && c.layer@[i] == LAYER_BG,
    {
        let sw = term_w * SUB_X;
        let sh = term_h * SUB_Y;
        BrailleCanvas { tw: term_w, th: term_h, sw, sh, val: vec![0u8; sw * sh], layer: vec![LAYER_BG; sw * sh] }
    }

    /// Dark again, at a new size.
    pub fn resize(&mut self, term_w: usize, term_h: usize)
        requires
            term_w * 2 <= usize::MAX,
            term_h * 4 <= usize::MAX,
            term_w * 2 * (term_h * 4) <= usize::MAX,
        ensures
            final(self).wf(),
            final(self).tw == term_w,
            final(self).th == term_h,
            forall|i: int| 0 <= i < final(self).val@.len() ==> #[trigger] final(self).val@[i] == 0 && final(self).layer@[i] == LAYER_BG,
    {
        let c = BrailleCanvas::new(term_w, term_h);
        assert(forall|i: int| 0 <= i < c.val@.len() ==> #[trigger] c.val@[i] == 0 && c.layer@[i] == LAYER_BG);
        *self = c;
    }

    /// Every sub-pixel dark and background.
    pub fn clear(&mut self)
        requires
            old(self).wf(),
        ensures
            final(self).wf(),
            final(self).tw == old(self).tw,
            final(self).th == old(self).th,
            forall|i: int| 0 <= i < final(self).val@.len() ==> #[trigger] final(self).val@[i] == 0 && final(self).layer@[i] == LAYER_BG,
    {
        let mut i: usize = 0;
        while i < self.val.len()
            invariant
                self.wf(),
                self.tw == old(self).tw,
                self.th == old(self).th,
                i <= self.val@.len(),
                forall|j: int| 0 <= j < i ==> #[trigger] self.val@[j] == 0 && self.layer@[j] == LAYER_BG,
            decreases self.val@.len() - i,
        {
            self.val.set(i, 0);
            self.layer.set(i, LAYER_BG);
            i += 1;
        }
    }

    /// The index of sub-pixel (`x`, `y`), if it is on the canvas.
    pub fn sidx(&self, x: i32, y: i32) -> (r: Option<usize>)
        requires
            self.wf(),
        ensures
            r == sub_index(self.sw as int, self.sh as int, x as int, y as int),
            r matches Some(i) ==> i < self.val@.len(),
    {
        if x < 0 || y < 0 {
            return None;
        }
        let (x, y) = (x as usize, y as usize);
        if x >= self.sw || y >= self.sh {
            return None;
        }
        assert(y * self.sw + x < self.sw * self.sh) by (nonlinear_arith)
            requires
                x < self.sw,
                y < self.sh,
        ;
        assert(y * self.sw <= self.sw * self.sh) by (nonlinear_arith)
            requires
                y < self.sh,
        ;
        Some(y * self.sw + x)
    }

    /// Strokes sub-pixel (`x`, `y`) with intensity `v` on layer `layer`
    /// (see `stronger`); off the canvas, nothing.
    pub fn set_if_stronger(&mut self, x: i32, y: i32, v: u8, layer: u8)
        requires
            old(self).wf(),
        ensures
            final(self).wf(),
            final(self).tw == old(self).tw && final(self).th == old(self).th,
            match sub_index(old(self).sw as int, old(self).sh as int, x as int, y as int) {
                Some(i) => {
                    let s = stronger(old(self).val@[i as int], old(self).layer@[i as int], v, layer);
                    &&& final(self).val@ == old(self).val@.update(i as int, s.0)
                    &&& final(self).layer@ == old(self).layer@.update(i as int, s.1)
                },
                None => final(self).val@ == old(self).val@ && final(self).layer@ == old(self).layer@,
            },
    {
        if let Some(i) = self.sidx(x, y) {
            let cur = self.val[i];
            let cl = self.layer[i];
            if cl == LAYER_GROUND && (layer == LAYER_GHOST_FAR || layer == LAYER_GHOST_NEAR || layer == LAYER_EYE
                || layer == LAYER_GLOW) {
                let mixed = ((9 * cur as u32 + 11 * v as u32 + 10) / 20) as u8;
                if mixed >= cur {
                    self.val.set(i, mixed);
                    self.layer.set(i, layer);
                }
                return;
            }
            if v > cur || (v == cur && layer > cl) {
                self.val.set(i, v);
                self.layer.set(i, layer);
            }
        }
    }

    /// Adds `v` to a sub-pixel (saturating at 255) and returns it to the
    /// background; off the canvas, nothing.
    pub fn add_bg(&mut self, x: i32, y: i32, v: u8)
        requires
            old(self).wf(),
        ensures
            final(self).wf(),
            final(self).tw == old(self).tw && final(self).th == old(self).th,
            match sub_index(old(self).sw as int, old(self).sh as int, x as int, y as int) {
                Some(i) => {
                    &&& final(self).val@ == old(self).val@.update(i as int, clamp_byte(old(self).val@[i as int] + v))
                    &&& final(self).layer@ == old(self).layer@.update(i as int, LAYER_BG)
                },
                None => final(self).val@ == old(self).val@ && final(self).layer@ == old(self).layer@,
            },
    {
        if let Some(i) = self.sidx(x, y) {
            let sum = self.val[i] as u16 + v as u16;
            let capped: u16 = if sum < 255 { sum } else { 255 };
            self.val.set(i, capped as u8);
            self.layer.set(i, LAYER_BG);
        }
    }

    /// Strokes every sub-pixel of the rectangle with corners (`x0`, `y0`)
    /// and (`x1`, `y1`), either way round; off the canvas, nothing.
    pub fn draw_rect(&mut self, x0: i32, y0: i32, x1: i32, y1: i32, intensity: u8, layer: u8)
        requires
            old(self).wf(),
        ensures
            final(self).wf(),
            final(self).tw == old(self).tw && final(self).th == old(self).th,
            final(self).val@ == stroked_vals(old(self).val@, old(self).layer@, old(self).sw as int, min_i(x0 as int, x1 as int), max_i(x0 as int, x1 as int), min_i(y0 as int, y1 as int), max_i(y0 as int, y1 as int), intensity, layer, false),
            final(self).layer@ == stroked_layers(old(self).val@, old(self).layer@, old(self).sw as int, min_i(x0 as int, x1 as int), max_i(x0 as int, x1 as int), min_i(y0 as int, y1 as int), max_i(y0 as int, y1 as int), intensity, layer, false),
    {
        self.stroke_rect(x0, y0, x1, y1, intensity, layer, false);
    }

    /// Sets every sub-pixel of the rectangle with corners (`x0`, `y0`) and
    /// (`x1`, `y1`), either way round, to `intensity` on `layer`; off the
    /// canvas, nothing.
    pub fn paint_rect(&mut self, x0: i32, y0: i32, x1: i32, y1: i32, intensity: u8, layer: u8)
        requires
            old(self).wf(),
        ensures
            final(self).wf(),
            final(self).tw == old(self).tw && final(self).th == old(self).th,
            final(self).val@ == stroked_vals(old(self).val@, old(self).layer@, old(self).sw as int, min_i(x0 as int, x1 as int), max_i(x0 as int, x1 as int), min_i(y0 as int, y1 as int), max_i(y0 as int, y1 as int), intensity, layer, true),
            final(self).layer@ == stroked_layers(old(self).val@, old(self).layer@, old(self).sw as int, min_i(x0 as int, x1 as int), max_i(x0 as int, x1 as int), min_i(y0 as int, y1 as int), max_i(y0 as int, y1 as int), intensity, layer, true),
    {
        self.stroke_rect(x0, y0, x1, y1, intensity, layer, true);
    }

    /// The rectangle walk of `draw_rect` and `paint_rect`: each sub-pixel
    /// of the rectangle on the canvas is painted outright (`paint`) or
    /// stroked. Rows and columns off the canvas are skipped, as a stroke
    /// there changes nothing.
    #[verifier::spinoff_prover]
    #[verifier::rlimit(40)]
    fn stroke_rect(&mut self, x0: i32, y0: i32, x1: i32, y1: i32, v: u8, l: u8, paint: bool)
        requires
            old(self).wf(),
        ensures
            final(self).wf(),
            final(self).tw == old(self).tw && final(self).th == old(self).th,
            final(self).val@ == stroked_vals(old(self).val@, old(self).layer@, old(self).sw as int, min_i(x0 as int, x1 as int), max_i(x0 as int, x1 as int), min_i(y0 as int, y1 as int), max_i(y0 as int, y1 as int), v, l, paint),
            final(self).layer@ == stroked_layers(old(self).val@, old(self).layer@, old(self).sw as int, min_i(x0 as int, x1 as int), max_i(x0 as int, x1 as int), min_i(y0 as int, y1 as int), max_i(y0 as int, y1 as int), v, l, paint),
    {
        let ghost v0 = self.val@;
        let ghost l0 = self.layer@;
        let ghost sw = self.sw as int;
        let ghost sh = self.sh as int;
        let ghost xa = min_i(x0 as int, x1 as int);
        let ghost xb = max_i(x0 as int, x1 as int);
        let ghost ya = min_i(y0 as int, y1 as int);
        let ghost yb = max_i(y0 as int, y1 as int);
        let xa_e: i64 = if x0 < x1 { x0 as i64 } else { x1 as i64 };
        let xb_e: i64 = if x0 < x1 { x1 as i64 } else { x0 as i64 };
        let ya_e: i64 = if y0 < y1 { y0 as i64 } else { y1 as i64 };
        let yb_e: i64 = if y0 < y1 { y1 as i64 } else { y0 as i64 };
        if self.sw == 0 || self.sh == 0 {
            assert(v0.len() == 0) by (nonlinear_arith)
                requires
                    v0.len() == sw * sh,
                    sw == 0 || sh == 0,
            ;
            assert(self.val@ =~= stroked_vals(v0, l0, sw, xa, xb, ya, yb, v, l, paint));
            assert(self.layer@ =~= stroked_layers(v0, l0, sw, xa, xb, ya, yb, v, l, paint));
        } else {
            self.stroke_clipped(xa_e, xb_e, ya_e, yb_e, v, l, paint);
        }
    }

    /// `stroke_rect` on a canvas with at least one sub-pixel, the corners
    /// put in order.
    #[verifier::spinoff_prover]
    #[verifier::rlimit(40)]
    fn stroke_clipped(&mut self, xa_e: i64, xb_e: i64, ya_e: i64, yb_e: i64, v: u8, l: u8, paint: bool)
        requires
            old(self).wf(),
            old(self).sw > 0 && old(self).sh > 0,
            i32::MIN <= xa_e <= xb_e <= i32::MAX,
            i32::MIN <= ya_e <= yb_e <= i32::MAX,
        ensures
            final(self).wf(),
            final(self).tw == old(self).tw && final(self).th == old(self).th,
            final(self).val@ == stroked_vals(old(self).val@, old(self).layer@, old(self).sw as int, xa_e as int, xb_e as int, ya_e as int, yb_e as int, v, l, paint),
            final(self).layer@ == stroked_layers(old(self).val@, old(self).layer@, old(self).sw as int, xa_e as int, xb_e as int, ya_e as int, yb_e as int, v, l, paint),
    {
        let ghost v0 = self.val@;
        let ghost l0 = self.layer@;
        let ghost sw = self.sw as int;
        let ghost sh = self.sh as int;
        let ghost xa = xa_e as int;
        let ghost xb = xb_e as int;
        let ghost ya = ya_e as int;
        let ghost yb = yb_e as int;
        // The rectangle clipped to the canvas and to the columns and rows
        // an `i32` can name: a stroke elsewhere changes nothing.
        let sw_e: i64 = if self.sw > 0x8000_0000 { 0x8000_0000 } else { self.sw as i64 };
        let sh_e: i64 = if self.sh > 0x8000_0000 { 0x8000_0000 } else { self.sh as i64 };
        let cxa: i64 = if xa_e > 0 { xa_e } else { 0 };
        let cxb: i64 = if xb_e < sw_e - 1 { xb_e } else { sw_e - 1 };
        let cya: i64 = if ya_e > 0 { ya_e } else { 0 };
        let cyb: i64 = if yb_e < sh_e - 1 { yb_e } else { sh_e - 1 };
        if cxa > cxb || cya > cyb {
            proof {
                assert forall|j: int| 0 <= j < v0.len() implies !in_span(j, sw, xa, xb, ya, yb) by {
                    lemma_span_clip(j, sw, sh, xa, xb, ya, yb, sw_e as int, sh_e as int);
                }
                assert(self.val@ =~= stroked_vals(v0, l0, sw, xa, xb, ya, yb, v, l, paint));
                assert(self.layer@ =~= stroked_layers(v0, l0, sw, xa, xb, ya, yb, v, l, paint));
            }
        } else {
            self.stroke_span(cxa, cxb, cya, cyb, Ghost(xa), Ghost(xb), Ghost(ya), Ghost(yb), v, l, paint);
        }
    }

    fn stroke_span(&mut self, cxa: i64, cxb: i64, cya: i64, cyb: i64, Ghost(xa): Ghost<int>, Ghost(xb): Ghost<int>,
        Ghost(ya): Ghost<int>, Ghost(yb): Ghost<int>, v: u8, l: u8, paint: bool)
        requires
            old(self).wf(),
            old(self).sw > 0 && old(self).sh > 0,
            xb <= 0x7fff_ffff && yb <= 0x7fff_ffff,
            0 <= cxa <= cxb,
            0 <= cya <= cyb,
            cxa == max_i(xa, 0),
            cxb == min_i(xb, min_i(old(self).sw as int, 0x8000_0000) - 1),
            cya == max_i(ya, 0),
            cyb == min_i(yb, min_i(old(self).sh as int, 0x8000_0000) - 1),
        ensures
            final(self).wf(),
            final(self).tw == old(self).tw && final(self).th == old(self).th,
            final(self).sw == old(self).sw,
            final(self).val@ == stroked_vals(old(self).val@, old(self).layer@, old(self).sw as int, xa, xb, ya, yb, v, l, paint),
            final(self).layer@ == stroked_layers(old(self).val@, old(self).layer@, old(self).sw as int, xa, xb, ya, yb, v, l, paint),
    {
        let ghost v0 = self.val@;
        let ghost l0 = self.layer@;
        let ghost sw = self.sw as int;
        let ghost sh = self.sh as int;
        let ghost sw_e = min_i(sw, 0x8000_0000);
        let ghost sh_e = min_i(sh, 0x8000_0000);
        let mut y: i64 = cya;
        while y <= cyb
            invariant
                self.wf(),
                self.tw == old(self).tw && self.th == old(self).th,
                self.sw as int == sw && self.sh as int == sh,
                sw > 0 && sh > 0,
                v0 == old(self).val@ && l0 == old(self).layer@,
                v0.len() == sw * sh,
                0 <= cya <= y <= cyb + 1,
                cyb < sh,
                cyb <= 0x7fff_ffff,
                0 <= cxa <= cxb,
                cxb < sw,
                cxb <= 0x7fff_ffff,
                xb <= 0x7fff_ffff && yb <= 0x7fff_ffff,
                cxa == max_i(xa, 0),
                cxb == min_i(xb, sw_e - 1),
                cya == max_i(ya, 0),
                cyb == min_i(yb, sh_e - 1),
                sw_e == min_i(sw, 0x8000_0000),
                sh_e == min_i(sh, 0x8000_0000),
                forall|j: int| #![trigger self.val@[j]] #![trigger self.layer@[j]] 0 <= j < v0.len() ==> {
                    &&& self.val@[j] == if visited(j, sw, xa, xb, ya, yb, y as int, xa) { stroke_val(paint, v0[j], l0[j], v, l) } else { v0[j] }
                    &&& self.layer@[j] == if visited(j, sw, xa, xb, ya, yb, y as int, xa) { stroke_layer(paint, v0[j], l0[j], v, l) } else { l0[j] }
                },
            decreases cyb + 1 - y,
        {
            let mut x: i64 = cxa;
            proof {
                assert forall|j: int| 0 <= j < v0.len() implies visited(j, sw, xa, xb, ya, yb, y as int, xa)
                    == visited(j, sw, xa, xb, ya, yb, y as int, cxa as int) by {
                    lemma_span_clip(j, sw, sh, xa, xb, ya, yb, sw_e as int, sh_e as int);
                }
            }
            while x <= cxb
                invariant
                    self.wf(),
                    self.tw == old(self).tw && self.th == old(self).th,
                    self.sw as int == sw && self.sh as int == sh,
                    sw > 0 && sh > 0,
                    v0 == old(self).val@ && l0 == old(self).layer@,
                    v0.len() == sw * sh,
                    0 <= cya <= y <= cyb,
                    cyb < sh,
                    cyb <= 0x7fff_ffff,
                    0 <= cxa <= x <= cxb + 1,
                    cxb < sw,
                    cxb <= 0x7fff_ffff,
                    xb <= 0x7fff_ffff && yb <= 0x7fff_ffff,
                    cxa == max_i(xa, 0),
                    cxb == min_i(xb, sw_e - 1),
                    cya == max_i(ya, 0),
                    cyb == min_i(yb, sh_e - 1),
                    sw_e == min_i(sw, 0x8000_0000),
                    sh_e == min_i(sh, 0x8000_0000),
                    forall|j: int| #![trigger self.val@[j]] #![trigger self.layer@[j]] 0 <= j < v0.len() ==> {
                        &&& self.val@[j] == if visited(j, sw, xa, xb, ya, yb, y as int, x as int) { stroke_val(paint, v0[j], l0[j], v, l) } else { v0[j] }
                        &&& self.layer@[j] == if visited(j, sw, xa, xb, ya, yb, y as int, x as int) { stroke_layer(paint, v0[j], l0[j], v, l) } else { l0[j] }
                    },
                decreases cxb + 1 - x,
            {
                let ghost k = (y * sw + x) as int;
                let ghost bv = self.val@;
                let ghost bl = self.layer@;
                proof {
                    lemma_split_index(x as int, y as int, sw);
                    assert(0 <= k < v0.len()) by (nonlinear_arith)
                        requires
                            k == y * sw + x,
                            0 <= x < sw,
                            0 <= y < sh,
                            v0.len() == sw * sh,
                    ;
                }
                if paint {
                    if let Some(i) = self.sidx(x as i32, y as i32) {
                        self.val.set(i, v);
                        self.layer.set(i, l);
                    }
                } else {
                    self.set_if_stronger(x as i32, y as i32, v, l);
                }
                proof {
                    assert forall|j: int| #![trigger self.val@[j]] #![trigger self.layer@[j]] 0 <= j < v0.len() implies {
                        &&& self.val@[j] == if visited(j, sw, xa, xb, ya, yb, y as int, x + 1) { stroke_val(paint, v0[j], l0[j], v, l) } else { v0[j] }
                        &&& self.layer@[j] == if visited(j, sw, xa, xb, ya, yb, y as int, x + 1) { stroke_layer(paint, v0[j], l0[j], v, l) } else { l0[j] }
                    } by {
                        lemma_span_clip(j, sw, sh, xa, xb, ya, yb, sw_e as int, sh_e as int);
                        assert(bv[j] == if visited(j, sw, xa, xb, ya, yb, y as int, x as int) {
                            stroke_val(paint, v0[j], l0[j], v, l) } else { v0[j] });
                        if j == k {
                            assert(!visited(j, sw, xa, xb, ya, yb, y as int, x as int));
                            assert(visited(j, sw, xa, xb, ya, yb, y as int, x + 1));
                        } else {
                            assert(self.val@[j] == bv[j]);
                            assert(self.layer@[j] == bl[j]);
                            if j / sw == y && j % sw == x {
                                assert(j == y * sw + x) by (nonlinear_arith)
                                    requires
                                        j == sw * (j / sw) + j % sw,
                                        j / sw == y,
                                        j % sw == x,
                                ;
                            }
                        }
                    }
                }
                x += 1;
            }
            proof {
                assert forall|j: int| #![trigger self.val@[j]] #![trigger self.layer@[j]] 0 <= j < v0.len() implies {
                    &&& self.val@[j] == if visited(j, sw, xa, xb, ya, yb, y + 1, xa) { stroke_val(paint, v0[j], l0[j], v, l) } else { v0[j] }
                    &&& self.layer@[j] == if visited(j, sw, xa, xb, ya, yb, y + 1, xa) { stroke_layer(paint, v0[j], l0[j], v, l) } else { l0[j] }
                } by {
                    lemma_span_clip(j, sw, sh, xa, xb, ya, yb, sw_e as int, sh_e as int);
                }
            }
            y += 1;
        }
        proof {
            assert forall|j: int| #![trigger self.val@[j]] #![trigger self.layer@[j]] 0 <= j < v0.len() implies {
                &&& self.val@[j] == if in_span(j, sw, xa, xb, ya, yb) { stroke_val(paint, v0[j], l0[j], v, l) } else { v0[j] }
                &&& self.layer@[j] == if in_span(j, sw, xa, xb, ya, yb) { stroke_layer(paint, v0[j], l0[j], v, l) } else { l0[j] }
            } by {
                lemma_span_clip(j, sw, sh, xa, xb, ya, yb, sw_e as int, sh_e as int);
                assert(y == cyb + 1);
                assert(self.val@[j] == if visited(j, sw, xa, xb, ya, yb, y as int, xa) {
                    stroke_val(paint, v0[j], l0[j], v, l) } else { v0[j] });
                assert(in_span(j, sw, xa, xb, ya, yb) == visited(j, sw, xa, xb, ya, yb, y as int, xa));
            }
            assert(self.val@ =~= stroked_vals(v0, l0, sw, xa, xb, ya, yb, v, l, paint));
            assert(self.layer@ =~= stroked_layers(v0, l0, sw, xa, xb, ya, yb, v, l, paint));
        }
    }

    /// The mean intensity of cell (`tx`, `ty`)'s eight sub-pixels, rounded
    /// down.
    pub fn sample_avg(&self, tx: usize, ty: usize) -> (a: u8)
        requires
            self.wf(),
            tx < self.tw,
            ty < self.th,
        ensures
            a == cell_sum(self.val@, self.sw as int, tx as int, ty as int, 8) / 8,
    {
        cell_average(&self.val, self.sw, self.sh, tx, ty)
    }

    /// The braille dots of cell (`tx`, `ty`): a dot for each sub-pixel at
    /// or above `threshold`.
    pub fn to_braille_cell(&self, tx: usize, ty: usize, threshold: u8) -> (mask: u8)
        requires
            self.wf(),
            tx < self.tw,
            ty < self.th,
        ensures
            mask == cell_mask(self.val@, self.sw as int, tx as int, ty as int, threshold, 8),
    {
        cell_dots(&self.val, self.sw, self.sh, tx, ty, threshold)
    }

    /// The layer that colours cell (`tx`, `ty`): of the eight layers, the
    /// one whose sub-pixels at or above `threshold` sum highest, the later
    /// one on a tie.
    pub fn dominant_layer(&self, tx: usize, ty: usize, threshold: u8) -> (l: u8)
        requires
            self.wf(),
            tx < self.tw,
            ty < self.th,
        ensures
            l == heaviest(self.val@, self.layer@, self.sw as int, tx as int, ty as int, threshold, 8),
    {
        assert(ty * 4 < self.sh && tx * 2 < self.sw);
        let sx0 = tx * SUB_X;
        let sy0 = ty * SUB_Y;
        let mut weights: Vec<u16> = vec![0u16; 8];
        let mut k: usize = 0;
        while k < 8
            invariant
                self.wf(),
                tx < self.tw,
                ty < self.th,
                sx0 == tx * 2,
                sy0 == ty * 4,
                k <= 8,
                weights@.len() == 8,
                forall|l: int| 0 <= l < 8 ==> #[trigger] weights@[l] as int == layer_weight(self.val@, self.layer@,
                    self.sw as int, tx as int, ty as int, threshold, l, k as int),
            decreases 8 - k,
        {
            let oy = k / 2;
            let ox = k % 2;
            assert((sy0 + oy) * self.sw + (sx0 + ox) < self.sw * self.sh) by (nonlinear_arith)
                requires
                    sy0 + oy < self.sh,
                    sx0 + ox < self.sw,
            ;
            assert((sy0 + oy) * self.sw <= self.sw * self.sh) by (nonlinear_arith)
                requires
                    sy0 + oy < self.sh,
            ;
            let i = (sy0 + oy) * self.sw + (sx0 + ox);
            let v = self.val[i];
            proof {
                assert forall|l: int| 0 <= l < 8 implies layer_weight(self.val@, self.layer@, self.sw as int, tx as int,
                    ty as int, threshold, l, k as int) <= 255 * k by {
                    lemma_layer_weight_bound(self.val@, self.layer@, self.sw as int, tx as int, ty as int, threshold, l, k as int);
                }
            }
            if v >= threshold {
                let layer = self.layer[i] as usize;
                if layer < 8 {
                    let w = weights[layer];
                    assert(w as int == layer_weight(self.val@, self.layer@, self.sw as int, tx as int, ty as int, threshold, layer as int, k as int));
                    let nw: u16 = if w as u32 + v as u32 > 65535 { 65535 } else { w + v as u16 };
                    weights.set(layer, nw);
                }
            }
            k += 1;
        }
        let mut best: usize = 0;
        let mut best_w: u16 = 0;
        let mut i: usize = 0;
        while i < 8
            invariant
                weights@.len() == 8,
                forall|l: int| 0 <= l < 8 ==> #[trigger] weights@[l] as int == layer_weight(self.val@, self.layer@,
                    self.sw as int, tx as int, ty as int, threshold, l, 8),
                i <= 8,
                i == 0 ==> best == 0 && best_w == 0,
                i > 0 ==> best == heaviest(self.val@, self.layer@, self.sw as int, tx as int, ty as int, threshold, i as int),
                i > 0 ==> best < i && best_w == weights@[best as int],
            decreases 8 - i,
        {
            if weights[i] >= best_w {
                best = i;
                best_w = weights[i];
            }
            i += 1;
        }
        best as u8
    }
}

/// The scene's colours, as indices into the terminal's 256-colour palette.
#[derive(Clone, Copy, Debug, PartialEq, Eq, Structural)]
pub struct GhostTheme {
    pub bg: u8,
    pub fog_deep: u8,
    pub fog_low: u8,
    pub fog_mid: u8,
    pub fog_hi: u8,
    pub fog_glow: u8,
    pub ghost_near_shadow: u8,
    pub ghost_near_mid: u8,
    pub ghost_near_hi: u8,
    pub ghost_far_shadow: u8,
    pub ghost_far_mid: u8,
    pub ghost_far_hi: u8,
    pub glow: u8,
    pub eye: u8,
    pub hud: u8,
    pub moon: u8,
    pub foreground_dark: u8,
    pub foreground_bright: u8,
    pub ground_dark: u8,
    pub ground_mid: u8,
    pub ground_hi: u8,
}

/// The night palette: deep blue fog, white and grey ghosts, a pale moon,
/// dark green ground.
pub open spec fn night() -> GhostTheme {
    GhostTheme {
        bg: 16,
        fog_deep: 17,
        fog_low: 18,
        fog_mid: 19,
        fog_hi: 25,
        fog_glow: 31,
        ghost_near_shadow: 252,
        ghost_near_mid: 255,
        ghost_near_hi: 231,
        ghost_far_shadow: 246,
        ghost_far_mid: 250,
        ghost_far_hi: 254,
        glow: 117,
        eye: 15,
        hud: 153,
        moon: 223,
        foreground_dark: 65,
        foreground_bright: 108,
        ground_dark: 59,
        ground_mid: 66,
        ground_hi: 72,
    }
}

/// The scene's palette.
pub fn theme() -> (t: GhostTheme)
    ensures
        t == night(),
{
    GhostTheme {
        bg: 16,
        fog_deep: 17,
        fog_low: 18,
        fog_mid: 19,
        fog_hi: 25,
        fog_glow: 31,
        ghost_near_shadow: 252,
        ghost_near_mid: 255,
        ghost_near_hi: 231,
        ghost_far_shadow: 246,
        ghost_far_mid: 250,
        ghost_far_hi: 254,
        glow: 117,
        eye: 15,
        hud: 153,
        moon: 223,
        foreground_dark: 65,
        foreground_bright: 108,
        ground_dark: 59,
        ground_mid: 66,
        ground_hi: 72,
    }
}

/// The dot threshold of a cell of mean intensity `avg`: brighter cells
/// need brighter sub-pixels to raise a dot.
pub open spec fn threshold_of(avg: u8) -> u8 {
    if avg > 130 {
        68
    } else if avg > 90 {
        56
    } else {
        48
    }
}

/// The colour of a cell coloured by `layer` with mean intensity `avg`:
/// moon, eyes and glow have one colour each; ghosts, foreground and ground
/// shade by brightness; anything else is fog, from deep to glowing.
pub open spec fn layer_ink(th: GhostTheme, layer: u8, avg: u8) -> u8 {
    if layer == LAYER_MOON {
        th.moon
    } else if layer == LAYER_EYE {
        th.eye
    } else if layer == LAYER_GLOW {
        th.glow
    } else if layer == LAYER_GHOST_NEAR {
        if avg > 190 { th.ghost_near_hi } else if avg > 132 { th.ghost_near_mid } else { th.ghost_near_shadow }
    } else if layer == LAYER_GHOST_FAR {
        if avg > 168 { th.ghost_far_hi } else if avg > 118 { th.ghost_far_mid } else { th.ghost_far_shadow }
    } else if layer == LAYER_FOREGROUND {
        if avg > 118 { th.foreground_bright } else { th.foreground_dark }
    } else if layer == LAYER_GROUND {
        if avg > 122 { th.ground_hi } else if avg > 82 { th.ground_mid } else { th.ground_dark }
    } else {
        if avg < 34 {
            th.fog_deep
        } else if avg < 62 {
            th.fog_low
        } else if avg < 108 {
            th.fog_mid
        } else if avg < 152 {
            th.fog_hi
        } else {
            th.fog_glow
        }
    }
}

/// The dot threshold of a cell of mean intensity `avg`.
pub fn cell_threshold(avg: u8) -> (t: u8)
    ensures
        t == threshold_of(avg),
{
    if avg > 130 {
        68
    } else if avg > 90 {
        56
    } else {
        48
    }
}

/// The colour of a cell coloured by `layer` with mean intensity `avg`.
pub fn ink_for(th: GhostTheme, layer: u8, avg: u8) -> (c: u8)
    ensures
        c == layer_ink(th, layer, avg),
{
    match layer {
        LAYER_MOON => th.moon,
        LAYER_EYE => th.eye,
        LAYER_GLOW => th.glow,
        LAYER_GHOST_NEAR => {
            if avg > 190 {
                th.ghost_near_hi
            } else if avg > 132 {
                th.ghost_near_mid
            } else {
                th.ghost_near_shadow
            }
        },
        LAYER_GHOST_FAR => {
            if avg > 168 {
                th.ghost_far_hi
            } else if avg > 118 {
                th.ghost_far_mid
            } else {
                th.ghost_far_shadow
            }
        },
        LAYER_FOREGROUND => {
            if avg > 118 {
                th.foreground_bright
            } else {
                th.foreground_dark
            }
        },
        LAYER_GROUND => {
            if avg > 122 {
                th.ground_hi
            } else if avg > 82 {
                th.ground_mid
            } else {
                th.ground_dark
            }
        },
        _ => {
            if avg < 34 {
                th.fog_deep
            } else if avg < 62 {
                th.fog_low
            } else if avg < 108 {
                th.fog_mid
            } else if avg < 152 {
                th.fog_hi
            } else {
                th.fog_glow
            }
        },
    }
}

impl BrailleCanvas {
    /// Terminal cell (`tx`, `ty`) of the scene: the braille dots of its
    /// sub-pixels at or above its threshold (a space when there are none)
    /// and the colour of its dominant layer; while lightning flashes
    /// (`lit`), ghosts and eyes take the moon's colour.
    pub fn shade_cell(&self, tx: usize, ty: usize, th: GhostTheme, lit: bool) -> (r: (char, u8))
        requires
            self.wf(),
            tx < self.tw,
            ty < self.th,
        ensures
            ({
                let avg = (cell_sum(self.val@, self.sw as int, tx as int, ty as int, 8) / 8) as u8;
                let t = threshold_of(avg);
                let mask = cell_mask(self.val@, self.sw as int, tx as int, ty as int, t, 8);
                let layer = heaviest(self.val@, self.layer@, self.sw as int, tx as int, ty as int, t, 8) as u8;
                &&& mask == 0 ==> r.0 == ' '
                &&& mask != 0 ==> r.0 as u32 == 0x2800 + mask
                &&& r.1 == if lit && (layer == LAYER_GHOST_NEAR || layer == LAYER_GHOST_FAR || layer == LAYER_EYE) {
                    th.moon
                } else {
                    layer_ink(th, layer, avg)
                }
            }),
    {
        let avg = self.sample_avg(tx, ty);
        let threshold = cell_threshold(avg);
        let mask = self.to_braille_cell(tx, ty, threshold);
        let layer = self.dominant_layer(tx, ty, threshold);
        let fg = ink_for(th, layer, avg);
        let ch = if mask == 0 { ' ' } else { braille_char(mask) };
        let fg = if lit && (layer == LAYER_GHOST_NEAR || layer == LAYER_GHOST_FAR || layer == LAYER_EYE) {
            th.moon
        } else {
            fg
        };
        (ch, fg)
    }
}

pub const MIN_GHOSTS: usize = 6;
pub const MAX_GHOSTS: usize = 80;

/// Whether another ghost may join a scene of `n`.
pub fn can_add_ghost(n: usize) -> (b: bool)
    ensures
        b == (n < MAX_GHOSTS),
{
    n < MAX_GHOSTS
}

/// Whether a ghost may leave a scene of `n`.
pub fn can_remove_ghost(n: usize) -> (b: bool)
    ensures
        b == (n > MIN_GHOSTS),
{
    n > MIN_GHOSTS
}


} // verus!
