//! The digital rain's columns: each falls one row per step, a bright head
//! over a fading tail, erasing the row its length left behind, and starts
//! again above the screen once it has fallen off the bottom. A step here
//! says what to draw; colouring and printing it is the caller's.

use vstd::prelude::*;
use rand::rngs::StdRng;
use crate::rng::{std_range_i32, std_ratio};
use crate::toys::rain::{GlyphCache, rain_glyph};

verus! {

/// A falling column: its screen column, the row of its head (negative
/// while above the screen), rows per frame, length, and the steps owed.
#[derive(Clone, Copy, Debug, PartialEq, Eq, Structural)]
pub struct Column {
    pub x: u16,
    pub head_y: i32,
    pub speed: i32,
    pub length: i32,
    pub tick_accum: i32,
}

/// The colour schemes, in the order the `c` key cycles them.
#[derive(Clone, Copy, Debug, PartialEq, Eq, Structural)]
pub enum Theme {
    Green,
    Purple,
    Amber,
    Ice,
}

pub open spec fn theme_after(t: Theme) -> Theme {
    match t {
        Theme::Green => Theme::Purple,
        Theme::Purple => Theme::Amber,
        Theme::Amber => Theme::Ice,
        Theme::Ice => Theme::Green,
    }
}

impl Theme {
    pub fn next(self) -> (t: Theme)
        ensures
            t == theme_after(self),
    {
        match self {
            Theme::Green => Theme::Purple,
            Theme::Purple => Theme::Amber,
            Theme::Amber => Theme::Ice,
            Theme::Ice => Theme::Green,
        }
    }
}

/// The rain's settings. Chances are in hundredths; the fade curve of the
/// tail is the caller's, as it colours the tail.
#[derive(Clone, Copy, Debug, PartialEq, Eq, Structural)]
pub struct Config {
    pub frame_ms: u64,
    pub density_pct: u32,
    pub double_pct: u32,
    pub double_enabled: bool,
    pub tail_draw: i32,
    pub shimmer: bool,
    pub head_ttl_min: u8,
    pub head_ttl_max: u8,
    pub tail_ttl_min: u8,
    pub tail_ttl_max: u8,
    pub shimmer_ttl_min: u8,
    pub shimmer_ttl_max: u8,
    pub cache_prune_every: u32,
    pub theme: Theme,
}

/// The settings the rain starts with.
pub fn default_config() -> (c: Config)
    ensures
        c.frame_ms == 40 && c.density_pct == 75 && c.double_pct == 30 && c.double_enabled,
        c.tail_draw == 26 && c.shimmer && c.theme == Theme::Green,
        c.head_ttl_min == 0 && c.head_ttl_max == 2 && c.tail_ttl_min == 6 && c.tail_ttl_max == 28,
        c.shimmer_ttl_min == 3 && c.shimmer_ttl_max == 16 && c.cache_prune_every == 60,
{
    Config {
        frame_ms: 40,
        density_pct: 75,
        double_pct: 30,
        double_enabled: true,
        tail_draw: 26,
        shimmer: true,
        head_ttl_min: 0,
        head_ttl_max: 2,
        tail_ttl_min: 6,
        tail_ttl_max: 28,
        shimmer_ttl_min: 3,
        shimmer_ttl_max: 16,
        cache_prune_every: 60,
        theme: Theme::Green,
    }
}

/// What a step asks to draw: a blank at a cell, the head glyph, or a tail
/// glyph `i` rows behind the head on a fade over `max_i` rows.
#[derive(Clone, Copy, Debug, PartialEq, Eq, Structural)]
pub enum RainDraw {
    Erase { x: u16, y: u16 },
    Head { x: u16, y: u16, ch: char },
    Tail { x: u16, y: u16, ch: char, i: i32, max_i: i32 },
}

/// The colour of a head: a pale tint of the theme.
pub open spec fn head_rgb(t: Theme) -> (u8, u8, u8) {
    match t {
        Theme::Green => (200, 255, 200),
        Theme::Purple => (245, 205, 255),
        Theme::Amber => (255, 235, 180),
        Theme::Ice => (200, 245, 255),
    }
}

pub fn head_color(t: Theme) -> (c: (u8, u8, u8))
    ensures
        c == head_rgb(t),
{
    match t {
        Theme::Green => (200, 255, 200),
        Theme::Purple => (245, 205, 255),
        Theme::Amber => (255, 235, 180),
        Theme::Ice => (200, 245, 255),
    }
}

pub open spec fn clamp_i(v: int, lo: int, hi: int) -> int {
    if v < lo { lo } else if v > hi { hi } else { v }
}

/// The shortest column on a screen `h` rows high.
pub open spec fn min_len(h: int) -> int {
    clamp_i(h / 6, 10, 20)
}

/// The longest column on a screen `h` rows high.
pub open spec fn max_len(h: int) -> int {
    clamp_i(h * 3 / 4, 30, 120)
}

/// A column just started for a screen `h` rows high: its head somewhere
/// from `h` rows above the screen to the top row, one or two rows per
/// frame, a length between the bounds, nothing owed.
pub open spec fn fresh(c: Column, x: u16, h: int) -> bool {
    &&& c.x == x
    &&& -h <= c.head_y <= 0
    &&& 1 <= c.speed <= 2
    &&& min_len(h) <= c.length <= max_len(h)
    &&& c.tick_accum == 0
}

/// A column as steps keep it: one or two rows per frame, a length of 10 to
/// 120, nothing owed, and a head not far outside the screen.
pub open spec fn column_ok(c: Column) -> bool {
    &&& 1 <= c.speed <= 2
    &&& 10 <= c.length <= 120
    &&& c.tick_accum == 0
    &&& -0x0001_0000 <= c.head_y <= 0x0001_0000 + 130
}

fn clamp_i32(v: i32, lo: i32, hi: i32) -> (r: i32)
    requires
        lo <= hi,
    ensures
        r == clamp_i(v as int, lo as int, hi as int),
{
    if v < lo { lo } else if v > hi { hi } else { v }
}

/// A new column at `x` for a screen `h` rows high.
pub fn new_column(x: u16, h: u16, rng: &mut StdRng) -> (c: Column)
    ensures
        fresh(c, x, h as int),
{
    let h_i = h as i32;
    let min_l = clamp_i32(h_i / 6, 10, 20);
    let max_l = clamp_i32(h_i * 3 / 4, 30, 120);
    Column {
        x,
        head_y: std_range_i32(rng, -h_i, 0),
        speed: std_range_i32(rng, 1, 2),
        length: std_range_i32(rng, min_l, max_l),
        tick_accum: 0,
    }
}

/// The columns the first `n` of the `ws` columns give for coin results
/// `hits` (a column starts there) and `doubles` (one more starts at the
/// next column, or at the same one at the right edge), by position.
pub open spec fn slots_upto(ws: int, hits: Seq<bool>, doubles: Seq<bool>, n: int) -> Seq<int>
    decreases n,
{
    if n <= 0 {
        Seq::empty()
    } else {
        let s = slots_upto(ws, hits, doubles, n - 1);
        let x = n - 1;
        if !hits[x] {
            s
        } else if doubles[x] {
            s.push(x).push(if x + 1 < ws { x + 1 } else { x })
        } else {
            s.push(x)
        }
    }
}

/// The positions of some columns.
pub open spec fn col_xs(cols: Seq<Column>) -> Seq<int> {
    cols.map_values(|c: Column| c.x as int)
}

/// One column's coin results as `cfg` can give them: a double only with a
/// hit and doubles on, none at chance 0, and the coin up at chance 100.
pub open spec fn coin_ok(cfg: Config, hit: bool, dbl: bool) -> bool {
    &&& (dbl ==> hit && cfg.double_enabled)
    &&& (cfg.density_pct == 0 ==> !hit)
    &&& (cfg.density_pct == 100 ==> hit)
    &&& (cfg.double_pct == 0 ==> !dbl)
    &&& (hit && cfg.double_enabled && cfg.double_pct == 100 ==> dbl)
}

/// Coin results for `n` columns as `cfg` can give them.
pub open spec fn coins_ok(cfg: Config, hits: Seq<bool>, doubles: Seq<bool>, n: int) -> bool {
    &&& hits.len() == n
    &&& doubles.len() == n
    &&& forall|k: int| 0 <= k < n ==> coin_ok(cfg, #[trigger] hits[k], doubles[k])
}

proof fn lemma_slots_prefix(ws: int, h1: Seq<bool>, d1: Seq<bool>, h2: Seq<bool>, d2: Seq<bool>, n: int)
    requires
        0 <= n <= h1.len(),
        n <= d1.len(),
        n <= h2.len(),
        n <= d2.len(),
        forall|k: int| 0 <= k < n ==> h1[k] == h2[k] && d1[k] == d2[k],
    ensures
        slots_upto(ws, h1, d1, n) == slots_upto(ws, h2, d2, n),
    decreases n,
{
    if n > 0 {
        lemma_slots_prefix(ws, h1, d1, h2, d2, n - 1);
    }
}

/// Some column of `cols` stands at `x`.
pub open spec fn has_column_at(cols: Seq<Column>, x: int) -> bool {
    exists|i: int| 0 <= i < cols.len() && #[trigger] cols[i].x == x
}

/// The columns for a `w` by `h` screen (none when either is 0): each column
/// but the last gets a column with the density's chance, and with the
/// second chance (when doubles are on) one more at the next column, or at
/// the same one at the right edge.  At full density every such column gets
/// one; at no density none does; without doubles no column gets two; with
/// both chances full every column but the last gets two.
pub fn init_columns(w: u16, h: u16, rng: &mut StdRng, cfg: &Config) -> (cols: Vec<Column>)
    requires
        cfg.density_pct <= 100,
        cfg.double_pct <= 100,
    ensures
        w == 0 || h == 0 ==> cols@.len() == 0,
        cols@.len() <= 2 * w,
        w > 0 ==> cols@.len() <= 2 * (w - 1),
        forall|i: int| 0 <= i < cols@.len() ==> {
            &&& (#[trigger] cols@[i]).x + 1 < w
            &&& fresh(cols@[i], cols@[i].x, h as int)
        },
        forall|i: int, j: int| 0 <= i < j < cols@.len() ==> cols@[i].x <= cols@[j].x,
        cfg.density_pct == 0 ==> cols@.len() == 0,
        !(cfg.double_enabled && cfg.double_pct > 0) ==> forall|i: int, j: int|
            0 <= i < j < cols@.len() ==> cols@[i].x < cols@[j].x,
        h > 0 && cfg.density_pct == 100 ==> forall|x: int| 0 <= x < w - 1 ==> #[trigger] has_column_at(cols@, x),
        h > 0 && w > 0 && cfg.density_pct == 100 && cfg.double_enabled && cfg.double_pct == 100 ==> cols@.len()
            == 2 * (w - 1),
        h > 0 && w > 0 ==> exists|hits: Seq<bool>, doubles: Seq<bool>|
            coins_ok(*cfg, hits, doubles, w - 1) && col_xs(cols@) == #[trigger] slots_upto(w - 1, hits, doubles, w - 1),
{
    let mut cols: Vec<Column> = Vec::new();
    if w == 0 || h == 0 {
        return cols;
    }
    let w_safe = w - 1;
    let ghost dbl = cfg.double_enabled && cfg.double_pct > 0;
    let ghost full = cfg.density_pct == 100 && cfg.double_enabled && cfg.double_pct == 100;
    let ghost mut hits: Seq<bool> = Seq::empty();
    let ghost mut doubles: Seq<bool> = Seq::empty();
    let mut x: u16 = 0;
    while x < w_safe
        invariant
            w_safe == w - 1,
            cfg.density_pct <= 100,
            cfg.double_pct <= 100,
            dbl == (cfg.double_enabled && cfg.double_pct > 0),
            full == (cfg.density_pct == 100 && cfg.double_enabled && cfg.double_pct == 100),
            x <= w_safe,
            cols@.len() <= 2 * x,
            forall|i: int| 0 <= i < cols@.len() ==> {
                &&& (#[trigger] cols@[i]).x + 1 < w
                &&& cols@[i].x <= x
                &&& fresh(cols@[i], cols@[i].x, h as int)
            },
            forall|i: int, j: int| 0 <= i < j < cols@.len() ==> cols@[i].x <= cols@[j].x,
            cfg.density_pct == 0 ==> cols@.len() == 0,
            !dbl ==> forall|i: int| 0 <= i < cols@.len() ==> (#[trigger] cols@[i]).x < x,
            !dbl ==> forall|i: int, j: int| 0 <= i < j < cols@.len() ==> cols@[i].x < cols@[j].x,
            cfg.density_pct == 100 ==> forall|x2: int| 0 <= x2 < x ==> #[trigger] has_column_at(cols@, x2),
            full ==> cols@.len() == 2 * x,
            coins_ok(*cfg, hits, doubles, x as int),
            col_xs(cols@) == slots_upto(w_safe as int, hits, doubles, x as int),
        decreases w_safe - x,
    {
        let ghost before = cols@;
        let hit = std_ratio(rng, cfg.density_pct, 100);
        let mut dbl_coin = false;
        if hit {
            cols.push(new_column(x, h, rng));
            if cfg.double_enabled && std_ratio(rng, cfg.double_pct, 100) {
                dbl_coin = true;
                let x2 = if x + 1 < w_safe { x + 1 } else { x };
                cols.push(new_column(x2, h, rng));
            }
        }
        proof {
            let h0 = hits;
            let d0 = doubles;
            hits = hits.push(hit);
            doubles = doubles.push(dbl_coin);
            assert(slots_upto(w_safe as int, hits, doubles, x as int) == slots_upto(w_safe as int, h0, d0, x as int)) by {
                lemma_slots_prefix(w_safe as int, h0, d0, hits, doubles, x as int);
            }
            assert(hits[x as int] == hit && doubles[x as int] == dbl_coin);
            assert(coin_ok(*cfg, hit, dbl_coin));
            assert forall|k: int| 0 <= k < x + 1 implies coin_ok(*cfg, #[trigger] hits[k], doubles[k]) by {
                if k < x {
                    assert(hits[k] == h0[k] && doubles[k] == d0[k]);
                }
            }
            let sx = slots_upto(w_safe as int, hits, doubles, x as int);
            assert(col_xs(before) == sx);
            if hit {
                assert(cols@[before.len() as int].x == x);
                if dbl_coin {
                    let x2 = if x + 1 < w_safe { x + 1 } else { x as int };
                    assert(cols@[before.len() as int + 1].x == x2);
                    assert(col_xs(cols@) =~= sx.push(x as int).push(x2));
                } else {
                    assert(col_xs(cols@) =~= sx.push(x as int));
                }
            } else {
                assert(col_xs(cols@) =~= sx);
            }
            assert(col_xs(cols@) == slots_upto(w_safe as int, hits, doubles, x + 1));
            assert forall|x2: int| cfg.density_pct == 100 && 0 <= x2 < x + 1 implies #[trigger] has_column_at(
                cols@,
                x2,
            ) by {
                if x2 == x {
                    assert(cols@[before.len() as int].x == x2);
                } else {
                    assert(has_column_at(before, x2));
                    let i = choose|i: int| 0 <= i < before.len() && #[trigger] before[i].x == x2;
                    assert(cols@[i] == before[i]);
                }
            }
        }
        x += 1;
    }
    cols
}


// ---------------------------------------------------------------------
// A frame of rain.

/// A draw with its glyph left out: the kind (0 erase, 1 head, 2 tail), the
/// cell, and for a tail its place on the fade.
pub open spec fn mark(op: RainDraw) -> (u8, u16, u16, i32, i32) {
    match op {
        RainDraw::Erase { x, y } => (0u8, x, y, 0i32, 0i32),
        RainDraw::Head { x, y, .. } => (1u8, x, y, 0i32, 0i32),
        RainDraw::Tail { x, y, i, max_i, .. } => (2u8, x, y, i, max_i),
    }
}

pub open spec fn marks(ops: Seq<RainDraw>) -> Seq<(u8, u16, u16, i32, i32)> {
    ops.map_values(|o: RainDraw| mark(o))
}

pub open spec fn glyph_of(op: RainDraw) -> Option<char> {
    match op {
        RainDraw::Erase { .. } => None,
        RainDraw::Head { ch, .. } => Some(ch),
        RainDraw::Tail { ch, .. } => Some(ch),
    }
}

/// Whether row `y` is on a screen with `dh` drawable rows.
pub open spec fn on_rows(y: int, dh: int) -> bool {
    0 <= y < dh
}

/// The tail of a head just arrived at row `nh`: rows 1 to `k` behind it,
/// those on the screen, each with its place on a fade over `tail` rows.
pub open spec fn tail_marks(x: u16, nh: int, dh: int, tail: int, k: int) -> Seq<(u8, u16, u16, i32, i32)>
    decreases k,
{
    if k <= 0 {
        Seq::empty()
    } else {
        tail_marks(x, nh, dh, tail, k - 1) + (if on_rows(nh - k, dh) {
            seq![(2u8, x, (nh - k) as u16, k as i32, tail as i32)]
        } else {
            Seq::empty()
        })
    }
}

/// One row of fall to row `nh`: the row the column's length left behind
/// is erased, the head drawn, then the tail, each where it is on the screen.
pub open spec fn advance_marks(x: u16, nh: int, len: int, dh: int, tail: int) -> Seq<(u8, u16, u16, i32, i32)> {
    (if on_rows(nh - len, dh) { seq![(0u8, x, (nh - len) as u16, 0i32, 0i32)] } else { Seq::empty() })
        + (if on_rows(nh, dh) { seq![(1u8, x, nh as u16, 0i32, 0i32)] } else { Seq::empty() })
        + tail_marks(x, nh, dh, tail, tail)
}

/// The rows a column falls in a frame: its speed, but one when the first
/// row already takes it off the bottom (it then starts again above).
pub open spec fn column_steps(c: Column, dh: int) -> int {
    if c.speed == 1 || c.head_y + 1 - c.length > dh { 1 } else { 2 }
}

/// Whether a column on the drawable part starts again this frame.
pub open spec fn restarts(c: Column, dw: int, dh: int) -> bool {
    c.x < dw && c.head_y + column_steps(c, dh) - c.length > dh
}

/// The draws of a column's fall in a frame.
pub open spec fn column_marks(c: Column, dh: int, tail: int) -> Seq<(u8, u16, u16, i32, i32)> {
    advance_marks(c.x, c.head_y + 1, c.length as int, dh, tail) + (if column_steps(c, dh) == 2 {
        advance_marks(c.x, c.head_y + 2, c.length as int, dh, tail)
    } else {
        Seq::empty()
    })
}

/// The draws of the first `k` columns: each column on the drawable part
/// falls, then its shimmer draw, if any, from `extra`.
pub open spec fn frame_marks(cols: Seq<Column>, extra: Seq<Seq<(u8, u16, u16, i32, i32)>>, dw: int, dh: int, tail: int, k: int) -> Seq<(u8, u16, u16, i32, i32)>
    decreases k,
{
    if k <= 0 {
        Seq::empty()
    } else {
        frame_marks(cols, extra, dw, dh, tail, k - 1) + (if cols[k - 1].x < dw { column_marks(cols[k - 1], dh, tail) } else { Seq::empty() })
            + extra[k - 1]
    }
}

/// A column after a frame: off the drawable part, unchanged; otherwise
/// fallen by its rows, or started again above the screen when that takes
/// it off the bottom.
pub open spec fn column_after(old: Column, new: Column, dw: int, dh: int) -> bool {
    if old.x >= dw {
        new == old
    } else if restarts(old, dw, dh) {
        &&& new.x == old.x
        &&& -dh <= new.head_y <= -1
        &&& 1 <= new.speed <= 2
        &&& min_len(dh) <= new.length <= max_len(dh)
        &&& new.tick_accum == 0
    } else {
        new == Column { head_y: (old.head_y + column_steps(old, dh)) as i32, ..old }
    }
}

/// The one shimmer draw a column may add: a tail glyph up to
/// `max(2 * tail_draw, 8)` rows behind the head, on the screen, placed on
/// the fade by its distance.
pub open spec fn shimmer_mark(m: (u8, u16, u16, i32, i32), c: Column, dh: int, tail_draw: int) -> bool {
    let dist = c.head_y - m.2;
    let fade = if tail_draw > 2 { tail_draw } else { 2 };
    let reach = if 2 * tail_draw > 8 { 2 * tail_draw } else { 8 };
    &&& m.0 == 2 && m.1 == c.x
    &&& on_rows(m.2 as int, dh)
    &&& 0 <= dist <= reach
    &&& m.3 == (if dist < 1 { 1 } else if dist > fade { fade } else { dist })
    &&& m.4 == fade
}

/// Every cached glyph is a rain glyph.
pub open spec fn cache_ok(m: Map<u32, crate::toys::rain::GlyphState>) -> bool {
    forall|k: u32| m.contains_key(k) ==> rain_glyph(#[trigger] m[k].ch)
}

/// The glyph of cell (`x`, `y`): the cached one while it lasts, else a new
/// one (see `GlyphCache::get_or_roll`).
fn roll(cache: &mut GlyphCache, x: u16, y: u16, ttl_min: u8, ttl_max: u8, rng: &mut StdRng) -> (c: char)
    requires
        cache_ok(old(cache).map@),
    ensures
        cache_ok(final(cache).map@),
        rain_glyph(c),
{
    let ghost m0 = cache.map@;
    let c = cache.get_or_roll(x, y, ttl_min, ttl_max, rng);
    proof {
        let k = crate::toys::rain::cell_key(x, y);
        assert forall|j: u32| cache.map@.contains_key(j) implies rain_glyph(#[trigger] cache.map@[j].ch) by {
            if j != k {
                assert(m0.contains_key(j));
            }
        }
    }
    c
}

fn forget(cache: &mut GlyphCache, x: u16, y: u16)
    requires
        cache_ok(old(cache).map@),
    ensures
        final(cache).map@ == old(cache).map@.remove(crate::toys::rain::cell_key(x, y)),
        cache_ok(final(cache).map@),
{
    cache.clear_cell(x, y);
    assert forall|j: u32| cache.map@.contains_key(j) implies rain_glyph(#[trigger] cache.map@[j].ch) by {
        assert(old(cache).map@.contains_key(j));
    }
}

/// Every draw lies on the drawable part and shows a rain glyph.
pub open spec fn ops_ok(ops: Seq<RainDraw>, dw: int, dh: int) -> bool {
    forall|k: int| 0 <= k < ops.len() ==> {
        &&& (mark(#[trigger] ops[k]).1 as int) < dw
        &&& (mark(ops[k]).2 as int) < dh
        &&& (glyph_of(ops[k]) matches Some(c) ==> rain_glyph(c))
    }
}

proof fn lemma_marks_push(ops: Seq<RainDraw>, o: RainDraw)
    ensures
        marks(ops.push(o)) == marks(ops).push(mark(o)),
{
    assert(marks(ops.push(o)) =~= marks(ops).push(mark(o)));
}

/// Pushes a draw, keeping the marks and the bounds.
fn push_op(ops: &mut Vec<RainDraw>, o: RainDraw, Ghost(dw): Ghost<int>, Ghost(dh): Ghost<int>)
    requires
        ops_ok(old(ops)@, dw, dh),
        (mark(o).1 as int) < dw,
        (mark(o).2 as int) < dh,
        glyph_of(o) matches Some(c) ==> rain_glyph(c),
    ensures
        final(ops)@ == old(ops)@.push(o),
        marks(final(ops)@) == marks(old(ops)@).push(mark(o)),
        ops_ok(final(ops)@, dw, dh),
{
    proof {
        lemma_marks_push(ops@, o);
    }
    ops.push(o);
}

/// One row of fall of the column at `x` to row `nh`: erase, head, tail.
fn fall_one(
    ops: &mut Vec<RainDraw>,
    cache: &mut GlyphCache,
    rng: &mut StdRng,
    cfg: &Config,
    x: u16,
    nh: i32,
    len: i32,
    dh: i32,
    tail: i32,
    Ghost(dw): Ghost<int>,
)
    requires
        ops_ok(old(ops)@, dw, dh as int),
        cache_ok(old(cache).map@),
        (x as int) < dw,
        0 <= dh <= 65535,
        4 <= tail <= 10000,
        -0x0002_0000 <= nh <= 0x0002_0000,
        10 <= len <= 120,
    ensures
        ops_ok(final(ops)@, dw, dh as int),
        cache_ok(final(cache).map@),
        marks(final(ops)@) == marks(old(ops)@) + advance_marks(x, nh as int, len as int, dh as int, tail as int),
{
    let ghost m0 = marks(ops@);
    let erase_y = nh - len;
    if 0 <= erase_y && erase_y < dh {
        forget(cache, x, erase_y as u16);
        push_op(ops, RainDraw::Erase { x, y: erase_y as u16 }, Ghost(dw), Ghost(dh as int));
    }
    let ghost m1 = marks(ops@);
    assert(m1 == m0 + (if on_rows(nh - len, dh as int) { seq![(0u8, x, (nh - len) as u16, 0i32, 0i32)] } else { Seq::empty() }));
    if 0 <= nh && nh < dh {
        let ch = roll(cache, x, nh as u16, cfg.head_ttl_min, cfg.head_ttl_max, rng);
        push_op(ops, RainDraw::Head { x, y: nh as u16, ch }, Ghost(dw), Ghost(dh as int));
    }
    let ghost m2 = marks(ops@);
    assert(m2 == m1 + (if on_rows(nh as int, dh as int) { seq![(1u8, x, nh as u16, 0i32, 0i32)] } else { Seq::empty() }));
    let mut i: i32 = 1;
    while i <= tail
        invariant
            ops_ok(ops@, dw, dh as int),
            cache_ok(cache.map@),
            (x as int) < dw,
            0 <= dh <= 65535,
            4 <= tail <= 10000,
            -0x0002_0000 <= nh <= 0x0002_0000,
            1 <= i <= tail + 1,
            marks(ops@) == m2 + tail_marks(x, nh as int, dh as int, tail as int, (i - 1) as int),
        decreases tail + 1 - i,
    {
        let y_i = nh - i;
        if 0 <= y_i && y_i < dh {
            let ch = roll(cache, x, y_i as u16, cfg.tail_ttl_min, cfg.tail_ttl_max, rng);
            push_op(ops, RainDraw::Tail { x, y: y_i as u16, ch, i, max_i: tail }, Ghost(dw), Ghost(dh as int));
        }
        assert(marks(ops@) =~= m2 + tail_marks(x, nh as int, dh as int, tail as int, i as int));
        i += 1;
    }
    assert(marks(ops@) =~= m0 + advance_marks(x, nh as int, len as int, dh as int, tail as int));
}

/// A column's fall in a frame: one row, or two at speed two, each with its
/// draws; past the bottom it starts again above the screen and falls no
/// further this frame.
fn fall_column(
    col: &mut Column,
    ops: &mut Vec<RainDraw>,
    cache: &mut GlyphCache,
    rng: &mut StdRng,
    cfg: &Config,
    dh: i32,
    tail: i32,
    Ghost(dw): Ghost<int>,
)
    requires
        column_ok(*old(col)),
        (old(col).x as int) < dw,
        ops_ok(old(ops)@, dw, dh as int),
        cache_ok(old(cache).map@),
        0 <= dh <= 65534,
        restarts(*old(col), dw, dh as int) ==> dh >= 1,
        4 <= tail <= 10000,
    ensures
        column_after(*old(col), *final(col), dw, dh as int),
        column_ok(*final(col)),
        ops_ok(final(ops)@, dw, dh as int),
        cache_ok(final(cache).map@),
        marks(final(ops)@) == marks(old(ops)@) + column_marks(*old(col), dh as int, tail as int),
{
    let ghost c0 = *col;
    let ghost m0 = marks(ops@);
    col.tick_accum += col.speed;
    // The first row of the frame.
    col.tick_accum -= 1;
    let nh = col.head_y + 1;
    fall_one(ops, cache, rng, cfg, col.x, nh, col.length, dh, tail, Ghost(dw));
    col.head_y = nh;
    if col.head_y - col.length > dh {
        restart(col, rng, dh);
        assert(marks(ops@) =~= m0 + column_marks(c0, dh as int, tail as int));
        return;
    }
    if col.tick_accum > 0 {
        // The second row, at speed two.
        col.tick_accum -= 1;
        let nh2 = col.head_y + 1;
        fall_one(ops, cache, rng, cfg, col.x, nh2, col.length, dh, tail, Ghost(dw));
        col.head_y = nh2;
        if col.head_y - col.length > dh {
            restart(col, rng, dh);
        }
    }
    assert(marks(ops@) =~= m0 + column_marks(c0, dh as int, tail as int));
}

/// A column starting again above the screen: a new head row from `dh`
/// rows above to the row above the top, a new speed and length.
fn restart(col: &mut Column, rng: &mut StdRng, dh: i32)
    requires
        1 <= dh <= 65534,
    ensures
        final(col).x == old(col).x,
        -dh <= final(col).head_y <= -1,
        1 <= final(col).speed <= 2,
        min_len(dh as int) <= final(col).length <= max_len(dh as int),
        final(col).tick_accum == 0,
{
    let min_l = clamp_i32(dh / 6, 10, 20);
    let max_l = clamp_i32(dh * 3 / 4, 30, 120);
    col.head_y = std_range_i32(rng, -dh, -1);
    col.speed = std_range_i32(rng, 1, 2);
    col.length = std_range_i32(rng, min_l, max_l);
    col.tick_accum = 0;
}

/// The chance, each frame, that a column re-rolls one glyph of its tail.
fn maybe_shimmer(col: &Column, ops: &mut Vec<RainDraw>, cache: &mut GlyphCache, rng: &mut StdRng, cfg: &Config, dh: i32, Ghost(dw): Ghost<int>) -> (extra: Ghost<Seq<(u8, u16, u16, i32, i32)>>)
    requires
        column_ok(*col),
        (col.x as int) < dw,
        ops_ok(old(ops)@, dw, dh as int),
        cache_ok(old(cache).map@),
        0 <= dh <= 65534,
        -10000 <= cfg.tail_draw <= 10000,
    ensures
        ops_ok(final(ops)@, dw, dh as int),
        cache_ok(final(cache).map@),
        marks(final(ops)@) == marks(old(ops)@) + extra@,
        extra@.len() <= 1,
        extra@.len() == 1 ==> cfg.shimmer && dh > 0 && shimmer_mark(extra@[0], *col, dh as int, cfg.tail_draw as int),
{
    let ghost m0 = marks(ops@);
    if cfg.shimmer && dh > 0 {
        if std_ratio(rng, 10, 100) {
            let td = cfg.tail_draw;
            let max_dist = if td * 2 > 8 { td * 2 } else { 8 };
            let dist = std_range_i32(rng, 0, max_dist);
            let y_i = col.head_y - dist;
            if 0 <= y_i && y_i < dh {
                let ch = roll(cache, col.x, y_i as u16, cfg.shimmer_ttl_min, cfg.shimmer_ttl_max, rng);
                let fade = if td > 2 { td } else { 2 };
                let near = if dist > 1 { dist } else { 1 };
                let i = if near < fade { near } else { fade };
                let o = RainDraw::Tail { x: col.x, y: y_i as u16, ch, i, max_i: fade };
                push_op(ops, o, Ghost(dw), Ghost(dh as int));
                assert(marks(ops@) =~= m0 + seq![mark(o)]);
                let ghost one = seq![mark(o)];
                return Ghost(one);
            }
        }
    }
    assert(marks(ops@) =~= m0 + Seq::<(u8, u16, u16, i32, i32)>::empty());
    let ghost none = Seq::<(u8, u16, u16, i32, i32)>::empty();
    Ghost(none)
}

/// One frame of rain on a `w` by `h` screen (the last row and column are
/// left alone): each column on the drawable part falls its rows, erasing
/// behind and drawing head and tail, and may re-roll one tail glyph. The
/// draws come back in order; the columns and the glyph cache are updated.
pub fn step(columns: &mut Vec<Column>, w: u16, h: u16, rng: &mut StdRng, cfg: &Config, cache: &mut GlyphCache) -> (ops: Vec<RainDraw>)
    requires
        forall|k: int| 0 <= k < old(columns)@.len() ==> column_ok(#[trigger] old(columns)@[k]),
        forall|k: int| 0 <= k < old(columns)@.len() ==> restarts(#[trigger] old(columns)@[k], w - 1, h - 1) ==> h >= 2,
        cache_ok(old(cache).map@),
        -10000 <= cfg.tail_draw <= 10000,
    ensures
        final(columns)@.len() == old(columns)@.len(),
        forall|k: int| 0 <= k < old(columns)@.len() ==> column_after(#[trigger] old(columns)@[k], final(columns)@[k],
            if w >= 1 { w - 1 } else { 0 }, if h >= 1 { h - 1 } else { 0 }),
        forall|k: int| 0 <= k < old(columns)@.len() ==> column_ok(#[trigger] final(columns)@[k]),
        cache_ok(final(cache).map@),
        ops_ok(ops@, if w >= 1 { w - 1 } else { 0 }, if h >= 1 { h - 1 } else { 0 }),
        exists|extra: Seq<Seq<(u8, u16, u16, i32, i32)>>| #[trigger] frame_explained(marks(ops@), old(columns)@, final(columns)@, extra, w as int, h as int, *cfg),
{
    let ghost c0 = columns@;
    let dw: i32 = if w >= 1 { w as i32 - 1 } else { 0 };
    let dh: i32 = if h >= 1 { h as i32 - 1 } else { 0 };
    let tail: i32 = if cfg.tail_draw > 4 { cfg.tail_draw } else { 4 };
    let mut ops: Vec<RainDraw> = Vec::new();
    let ghost mut extra: Seq<Seq<(u8, u16, u16, i32, i32)>> = Seq::empty();
    assert(marks(ops@) =~= frame_marks(c0, extra, dw as int, dh as int, tail as int, 0));
    let mut ci: usize = 0;
    while ci < columns.len()
        invariant
            columns@.len() == c0.len(),
            c0 == old(columns)@,
            0 <= dw <= 65534 && 0 <= dh <= 65534,
            dw == (if w >= 1 { w - 1 } else { 0 }),
            dh == (if h >= 1 { h - 1 } else { 0 }),
            tail == (if cfg.tail_draw > 4 { cfg.tail_draw as int } else { 4 }),
            -10000 <= cfg.tail_draw <= 10000,
            forall|k: int| 0 <= k < c0.len() ==> column_ok(#[trigger] c0[k]),
            forall|k: int| 0 <= k < c0.len() ==> restarts(#[trigger] c0[k], w - 1, h - 1) ==> h >= 2,
            ci <= c0.len(),
            extra.len() == ci,
            forall|k: int| ci <= k < c0.len() ==> #[trigger] columns@[k] == c0[k],
            forall|k: int| 0 <= k < ci ==> column_after(#[trigger] c0[k], columns@[k], dw as int, dh as int),
            forall|k: int| 0 <= k < ci ==> column_ok(#[trigger] columns@[k]),
            forall|k: int| 0 <= k < ci ==> (#[trigger] extra[k]).len() <= 1,
            forall|k: int| 0 <= k < ci && extra[k].len() == 1 ==> {
                &&& (c0[k].x as int) < w - 1
                &&& cfg.shimmer
                &&& shimmer_mark(extra[k][0], columns@[k], h - 1, cfg.tail_draw as int)
            },
            cache_ok(cache.map@),
            ops_ok(ops@, dw as int, dh as int),
            marks(ops@) == frame_marks(c0, extra, dw as int, dh as int, tail as int, ci as int),
        decreases c0.len() - ci,
    {
        let mut col = columns[ci];
        let ghost before = marks(ops@);
        let ghost ex0 = extra;
        if (col.x as i32) < dw {
            assert(restarts(c0[ci as int], dw as int, dh as int) ==> dh >= 1);
            fall_column(&mut col, &mut ops, cache, rng, cfg, dh, tail, Ghost(dw as int));
            let ghost mid = marks(ops@);
            let Ghost(e) = maybe_shimmer(&col, &mut ops, cache, rng, cfg, dh, Ghost(dw as int));
            proof {
                extra = extra.push(e);
                assert(marks(ops@) =~= before + column_marks(c0[ci as int], dh as int, tail as int) + e);
            }
            columns.set(ci, col);
        } else {
            proof {
                extra = extra.push(Seq::empty());
                assert(marks(ops@) =~= before + Seq::<(u8, u16, u16, i32, i32)>::empty() + Seq::<(u8, u16, u16, i32, i32)>::empty());
            }
        }
        proof {
            assert(frame_marks(c0, extra, dw as int, dh as int, tail as int, ci + 1) == frame_marks(c0, extra, dw as int, dh as int, tail as int, ci as int)
                + (if c0[ci as int].x < dw { column_marks(c0[ci as int], dh as int, tail as int) } else { Seq::empty() }) + extra[ci as int]);
            lemma_frame_marks_agree(c0, ex0, extra, dw as int, dh as int, tail as int, ci as int);
        }
        ci += 1;
    }
    assert(frame_explained(marks(ops@), c0, columns@, extra, w as int, h as int, *cfg));
    ops
}

/// The draws of a frame, explained: each column on the drawable part
/// falls (`column_marks`), followed by at most one shimmer draw, taken from
/// `extra`.
pub open spec fn frame_explained(
    ms: Seq<(u8, u16, u16, i32, i32)>,
    before: Seq<Column>,
    after: Seq<Column>,
    extra: Seq<Seq<(u8, u16, u16, i32, i32)>>,
    w: int,
    h: int,
    cfg: Config,
) -> bool {
    &&& extra.len() == before.len()
    &&& forall|k: int| 0 <= k < extra.len() ==> (#[trigger] extra[k]).len() <= 1
    &&& forall|k: int| 0 <= k < extra.len() && extra[k].len() == 1 ==> {
        &&& (before[k].x as int) < w - 1
        &&& cfg.shimmer
        &&& shimmer_mark(extra[k][0], after[k], h - 1, cfg.tail_draw as int)
    }
    &&& ms == frame_marks(before, extra, if w >= 1 { w - 1 } else { 0 }, if h >= 1 { h - 1 } else { 0 },
        if cfg.tail_draw > 4 { cfg.tail_draw as int } else { 4 }, before.len() as int)
}

/// The draws of the first `k` columns depend on the first `k` shimmer draws only.
proof fn lemma_frame_marks_agree(cols: Seq<Column>, e1: Seq<Seq<(u8, u16, u16, i32, i32)>>, e2: Seq<Seq<(u8, u16, u16, i32, i32)>>, dw: int, dh: int, tail: int, k: int)
    requires
        0 <= k <= e1.len(),
        k <= e2.len(),
        forall|j: int| 0 <= j < k ==> e1[j] == e2[j],
    ensures
        frame_marks(cols, e1, dw, dh, tail, k) == frame_marks(cols, e2, dw, dh, tail, k),
    decreases k,
{
    if k > 0 {
        lemma_frame_marks_agree(cols, e1, e2, dw, dh, tail, k - 1);
    }
}

/// A key, as far as the rain's controls tell keys apart.
#[derive(Clone, Copy, Debug, PartialEq, Eq, Structural)]
pub enum RainKey {
    Char(char),
    Esc,
    Other,
}

/// What a key asks of the program beyond the settings: to stop, to draw a
/// fresh generator, to lay out the columns again (clearing the screen).
#[derive(Clone, Copy, Debug, PartialEq, Eq, Structural)]
pub struct KeyOutcome {
    pub quit: bool,
    pub reseed: bool,
    pub reinit: bool,
}

/// The settings after a key: `c` the next theme; `+`/`=` five milliseconds
/// faster (10 at least), `-` five slower (120 at most); `]`/`[` five
/// hundredths denser (98 at most) or sparser (5 at least); `d` doubles
/// on or off; `s` shimmer on or off.
pub open spec fn config_after(cfg: Config, key: RainKey) -> Config {
    match key {
        RainKey::Char('c') => Config { theme: theme_after(cfg.theme), ..cfg },
        RainKey::Char('+') | RainKey::Char('=') => Config {
            frame_ms: if cfg.frame_ms >= 15 { (cfg.frame_ms - 5) as u64 } else { 10 },
            ..cfg
        },
        RainKey::Char('-') => Config { frame_ms: if cfg.frame_ms + 5 <= 120 { (cfg.frame_ms + 5) as u64 } else { 120 }, ..cfg },
        RainKey::Char(']') => Config { density_pct: if cfg.density_pct + 5 <= 98 { (cfg.density_pct + 5) as u32 } else { 98 }, ..cfg },
        RainKey::Char('[') => Config { density_pct: if cfg.density_pct >= 10 { (cfg.density_pct - 5) as u32 } else { 5 }, ..cfg },
        RainKey::Char('d') => Config { double_enabled: !cfg.double_enabled, ..cfg },
        RainKey::Char('s') => Config { shimmer: !cfg.shimmer, ..cfg },
        _ => cfg,
    }
}

/// What a key asks beyond the settings: `q` or Escape stops; `r` draws a
/// fresh generator; `r`, `[`, `]` and `d` lay the columns out again.
pub open spec fn key_outcome(key: RainKey) -> KeyOutcome {
    match key {
        RainKey::Char('q') | RainKey::Esc => KeyOutcome { quit: true, reseed: false, reinit: false },
        RainKey::Char('r') => KeyOutcome { quit: false, reseed: true, reinit: true },
        RainKey::Char(']') | RainKey::Char('[') | RainKey::Char('d') => KeyOutcome { quit: false, reseed: false, reinit: true },
        _ => KeyOutcome { quit: false, reseed: false, reinit: false },
    }
}

/// Applies a key to the settings and says what else it asks for.
pub fn handle_key(key: RainKey, cfg: &mut Config) -> (o: KeyOutcome)
    requires
        old(cfg).frame_ms <= u64::MAX - 5,
        old(cfg).density_pct <= u32::MAX - 5,
    ensures
        o == key_outcome(key),
        o.quit ==> *final(cfg) == *old(cfg),
        !o.quit ==> *final(cfg) == config_after(*old(cfg), key),
{
    let none = KeyOutcome { quit: false, reseed: false, reinit: false };
    match key {
        RainKey::Char('q') | RainKey::Esc => KeyOutcome { quit: true, reseed: false, reinit: false },
        RainKey::Char('c') => {
            cfg.theme = cfg.theme.next();
            none
        },
        RainKey::Char('+') | RainKey::Char('=') => {
            let slower = if cfg.frame_ms >= 5 { cfg.frame_ms - 5 } else { 0 };
            cfg.frame_ms = if slower > 10 { slower } else { 10 };
            none
        },
        RainKey::Char('-') => {
            let f = cfg.frame_ms + 5;
            cfg.frame_ms = if f < 120 { f } else { 120 };
            none
        },
        RainKey::Char(']') => {
            let d = cfg.density_pct + 5;
            cfg.density_pct = if d < 98 { d } else { 98 };
            KeyOutcome { quit: false, reseed: false, reinit: true }
        },
        RainKey::Char('[') => {
            cfg.density_pct = if cfg.density_pct >= 10 { cfg.density_pct - 5 } else { 5 };
            KeyOutcome { quit: false, reseed: false, reinit: true }
        },
        RainKey::Char('d') => {
            cfg.double_enabled = !cfg.double_enabled;
            KeyOutcome { quit: false, reseed: false, reinit: true }
        },
        RainKey::Char('s') => {
            cfg.shimmer = !cfg.shimmer;
            none
        },
        RainKey::Char('r') => KeyOutcome { quit: false, reseed: true, reinit: true },
        _ => none,
    }
}

/// Whether `step` can run on these columns: a screen of two rows or more,
/// or no column about to start again (which draws a new head row from the
/// rows above the screen, and there are none on a screen of one row).
pub fn step_ready(columns: &Vec<Column>, w: u16, h: u16) -> (b: bool)
    requires
        forall|k: int| 0 <= k < columns@.len() ==> column_ok(#[trigger] columns@[k]),
    ensures
        b == (h >= 2 || forall|k: int| 0 <= k < columns@.len() ==> !restarts(#[trigger] columns@[k], w - 1, h - 1)),
{
    if h >= 2 {
        return true;
    }
    let dw: i32 = w as i32 - 1;
    let dh: i32 = h as i32 - 1;
    let mut k: usize = 0;
    while k < columns.len()
        invariant
            h < 2,
            dw == w - 1 && dh == h - 1,
            forall|j: int| 0 <= j < columns@.len() ==> column_ok(#[trigger] columns@[j]),
            k <= columns@.len(),
            forall|j: int| 0 <= j < k ==> !restarts(#[trigger] columns@[j], w - 1, h - 1),
        decreases columns@.len() - k,
    {
        let c = columns[k];
        let steps: i32 = if c.speed == 1 || c.head_y + 1 - c.length > dh { 1 } else { 2 };
        if (c.x as i32) < dw && c.head_y + steps - c.length > dh {
            return false;
        }
        k += 1;
    }
    true
}

} // verus!
