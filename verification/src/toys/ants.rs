//! The ant colony's grid: wrapped and bounded coordinates, eight headings,
//! carving rooms and digging tunnels in the ground, and the life stages of
//! an ant.

use vstd::prelude::*;

verus! {

pub const EGG_TICKS: u32 = 110;
pub const LARVA_TICKS: u32 = 170;
pub const PUPA_TICKS: u32 = 210;

/// The cell of (`x`, `y`) in a row-major grid of width `w`.
pub fn idx(w: usize, x: usize, y: usize) -> (i: usize)
    requires
        y * w + x <= usize::MAX,
    ensures
        i == y * w + x,
{
    y * w + x
}

/// `v` brought into 0..`max` by wrapping.
pub fn wrap_i32(v: i32, max: i32) -> (r: i32)
    requires
        max > 0,
    ensures
        r == v % max,
        0 <= r < max,
{
    let mut t = v % max;
    proof {
        if v < 0 {
            lemma_negative_mod(v as int, max as int);
        }
    }
    if t < 0 {
        t += max;
    }
    t
}

/// The remainder of a negative number, from that of its opposite.
pub(crate) proof fn lemma_negative_mod(v: int, m: int)
    requires
        v < 0,
        m > 0,
    ensures
        (-v) % m == 0 ==> v % m == 0,
        (-v) % m != 0 ==> v % m == m - (-v) % m,
{
    let q = (-v) / m;
    let a = (-v) % m;
    vstd::arithmetic::div_mod::lemma_fundamental_div_mod(-v, m);
    assert(v == (-q - 1) * m + (m - a)) by (nonlinear_arith)
        requires
            -v == m * q + a,
    ;
    if a != 0 {
        vstd::arithmetic::div_mod::lemma_mod_multiples_vanish(-q - 1, m - a, m);
        vstd::arithmetic::div_mod::lemma_small_mod((m - a) as nat, m as nat);
    } else {
        assert(v == (-q) * m) by (nonlinear_arith)
            requires
                -v == m * q + a,
                a == 0,
        ;
        vstd::arithmetic::div_mod::lemma_mod_multiples_basic(-q, m);
    }
}

/// A point wrapped onto a `w` by `h` torus.
pub fn wrap_xy(w: usize, h: usize, x: i32, y: i32) -> (p: (usize, usize))
    requires
        0 < w <= i32::MAX,
        0 < h <= i32::MAX,
    ensures
        p.0 == (x as int) % (w as int),
        p.1 == (y as int) % (h as int),
        p.0 < w,
        p.1 < h,
{
    (wrap_i32(x, w as i32) as usize, wrap_i32(y, h as i32) as usize)
}

pub open spec fn inside(w: int, h: int, x: int, y: int) -> bool {
    0 <= x < w && 0 <= y < h
}

pub fn in_bounds(w: usize, h: usize, x: i32, y: i32) -> (b: bool)
    requires
        w <= i32::MAX,
        h <= i32::MAX,
    ensures
        b == inside(w as int, h as int, x as int, y as int),
{
    x >= 0 && y >= 0 && x < w as i32 && y < h as i32
}

/// The step of heading `dir` (modulo 8): east, then clockwise in steps of
/// 45 degrees on a screen whose y grows downward.
pub open spec fn dir_step8(dir: int) -> (i32, i32) {
    let d = dir % 8;
    if d == 0 {
        (1i32, 0i32)
    } else if d == 1 {
        (1i32, 1i32)
    } else if d == 2 {
        (0i32, 1i32)
    } else if d == 3 {
        (-1i32, 1i32)
    } else if d == 4 {
        (-1i32, 0i32)
    } else if d == 5 {
        (-1i32, -1i32)
    } else if d == 6 {
        (0i32, -1i32)
    } else {
        (1i32, -1i32)
    }
}

fn rem_euclid8(x: i32) -> (r: i32)
    ensures
        r == x % 8,
        0 <= r < 8,
{
    let r = x % 8;
    if r < 0 { r + 8 } else { r }
}

pub fn dir_vec(dir: i32) -> (v: (i32, i32))
    ensures
        v == dir_step8(dir as int),
{
    match rem_euclid8(dir) {
        0 => (1, 0),
        1 => (1, 1),
        2 => (0, 1),
        3 => (-1, 1),
        4 => (-1, 0),
        5 => (-1, -1),
        6 => (0, -1),
        _ => (1, -1),
    }
}

/// Turns heading `dir` by `delta` eighths of a turn.
pub fn rotate_dir(dir: i32, delta: i32) -> (r: i32)
    requires
        i32::MIN <= dir + delta <= i32::MAX,
    ensures
        r == (dir + delta) % 8,
        0 <= r < 8,
{
    rem_euclid8(dir + delta)
}

/// Turning by `a` and then by `b` is turning by `a + b`; eight turns of
/// an eighth come back to the start.
pub proof fn law_rotations_compose(dir: int, a: int, b: int)
    ensures
        ((dir + a) % 8 + b) % 8 == (dir + a + b) % 8,
        (dir + 8) % 8 == dir % 8,
        dir_step8(dir + 8) == dir_step8(dir),
{
    assert(((dir + a) % 8 + b) % 8 == (dir + a + b) % 8) by (nonlinear_arith);
    assert((dir + 8) % 8 == dir % 8) by (nonlinear_arith);
}

/// `s` cut or padded with spaces to `width` characters (ASCII text).
pub fn pad_or_trunc(s: &str, width: usize) -> (out: String)
    requires
        s.is_ascii(),
    ensures
        s@.len() >= width ==> out@ == s@.subrange(0, width as int),
        s@.len() < width ==> out@ == s@ + Seq::new((width - s@.len()) as nat, |i: int| ' '),
{
    let n = s.unicode_len();
    if n > width {
        let t = s.substring_ascii(0, width);
        String::from_str(t)
    } else {
        let mut out = String::from_str(s);
        let mut k = n;
        proof {
            reveal_strlit(" ");
        }
        while k < width
            invariant
                " "@ =~= seq![' '],
                n == s@.len(),
                n <= k <= width,
                out@ == s@ + Seq::new((k - n) as nat, |i: int| ' '),
            decreases width - k,
        {
            out.append(" ");
            k += 1;
            assert(out@ =~= s@ + Seq::new((k - n) as nat, |i: int| ' '));
        }
        assert(n == width ==> s@.subrange(0, width as int) =~= s@);
        out
    }
}

/// Whether cell `i` of a `w` by `h` torus lies in the disc of radius `r`
/// round (`cx`, `cy`).
pub open spec fn in_room(w: int, h: int, cx: int, cy: int, r: int, i: int) -> bool {
    exists|ox: int, oy: int|
        -r <= ox <= r && -r <= oy <= r && ox * ox + oy * oy <= r * r
            && #[trigger] room_cell(w, h, cx + ox, cy + oy) == i
}

pub open spec fn room_cell(w: int, h: int, x: int, y: int) -> int {
    (y % h) * w + (x % w)
}

/// Clears the ground (to 0) in every cell of the disc of radius `r`
/// round (`cx`, `cy`), wrapping round the edges.
pub fn carve_room(terrain: &mut Vec<u8>, w: usize, h: usize, cx: i32, cy: i32, r: i32)
    requires
        0 < w <= i32::MAX,
        0 < h <= i32::MAX,
        old(terrain)@.len() == w * h,
        0 <= r <= 32767,
        i32::MIN <= cx - r,
        cx + r <= i32::MAX,
        i32::MIN <= cy - r,
        cy + r <= i32::MAX,
    ensures
        final(terrain)@.len() == old(terrain)@.len(),
        forall|i: int| 0 <= i < final(terrain)@.len() ==> #[trigger] final(terrain)@[i] == (if in_room(
            w as int,
            h as int,
            cx as int,
            cy as int,
            r as int,
            i,
        ) {
            0u8
        } else {
            old(terrain)@[i]
        }),
{
    let mut oy: i32 = -r;
    while oy <= r
        invariant
            0 < w <= i32::MAX,
            0 < h <= i32::MAX,
            0 <= r <= 32767,
            i32::MIN <= cx - r,
            cx + r <= i32::MAX,
            i32::MIN <= cy - r,
            cy + r <= i32::MAX,
            -r <= oy <= r + 1,
            terrain@.len() == w * h,
            forall|i: int| 0 <= i < terrain@.len() ==> #[trigger] terrain@[i] == (if (exists|ox: int, qy: int|
                -r <= ox <= r && -r <= qy < oy && ox * ox + qy * qy <= r * r
                    && #[trigger] room_cell(w as int, h as int, cx + ox, cy + qy) == i) {
                0u8
            } else {
                old(terrain)@[i]
            }),
        decreases r + 1 - oy,
    {
        let mut ox: i32 = -r;
        while ox <= r
            invariant
                0 < w <= i32::MAX,
                0 < h <= i32::MAX,
                0 <= r <= 32767,
                i32::MIN <= cx - r,
                cx + r <= i32::MAX,
                i32::MIN <= cy - r,
                cy + r <= i32::MAX,
                -r <= oy <= r,
                -r <= ox <= r + 1,
                terrain@.len() == w * h,
                forall|i: int| 0 <= i < terrain@.len() ==> #[trigger] terrain@[i] == (if (exists|px: int, qy: int|
                    -r <= px <= r && -r <= qy <= oy && (qy < oy || px < ox) && px * px + qy * qy <= r * r
                        && #[trigger] room_cell(w as int, h as int, cx + px, cy + qy) == i) {
                    0u8
                } else {
                    old(terrain)@[i]
                }),
            decreases r + 1 - ox,
        {
            assert(0 <= ox * ox <= 32767 * 32767 && 0 <= oy * oy <= 32767 * 32767) by (nonlinear_arith)
                requires
                    -32767 <= ox <= 32767,
                    -32767 <= oy <= 32767,
            ;
            assert(0 <= r * r <= 32767 * 32767) by (nonlinear_arith)
                requires
                    0 <= r <= 32767,
            ;
            if ox * ox + oy * oy <= r * r {
                let (ux, uy) = wrap_xy(w, h, cx + ox, cy + oy);
                assert(uy * w + ux < w * h) by (nonlinear_arith)
                    requires
                        ux < w,
                        uy < h,
                ;
                let len = terrain.len();
                assert(len == w * h);
                let i = idx(w, ux, uy);
                let ghost before = terrain@;
                terrain.set(i, 0);
                assert(i as int == room_cell(w as int, h as int, cx + ox, cy + oy));
                assert forall|j: int| 0 <= j < terrain@.len() implies #[trigger] terrain@[j] == (if (exists|px: int, qy: int|
                    -r <= px <= r && -r <= qy <= oy && (qy < oy || px < ox + 1) && px * px + qy * qy <= r * r
                        && #[trigger] room_cell(w as int, h as int, cx + px, cy + qy) == j) {
                    0u8
                } else {
                    old(terrain)@[j]
                }) by {
                    if j == i {
                        assert(room_cell(w as int, h as int, cx + ox, cy + oy) == j);
                    } else {
                        assert(before[j] == terrain@[j]);
                        if exists|px: int, qy: int|
                            -r <= px <= r && -r <= qy <= oy && (qy < oy || px < ox + 1) && px * px + qy * qy <= r * r
                                && #[trigger] room_cell(w as int, h as int, cx + px, cy + qy) == j {
                            let (px, qy) = choose|px: int, qy: int|
                                -r <= px <= r && -r <= qy <= oy && (qy < oy || px < ox + 1) && px * px + qy * qy <= r * r
                                    && #[trigger] room_cell(w as int, h as int, cx + px, cy + qy) == j;
                            assert(px != ox || qy != oy);
                            assert(room_cell(w as int, h as int, cx + px, cy + qy) == j);
                        }
                    }
                }
            } else {
                assert forall|j: int| 0 <= j < terrain@.len() implies #[trigger] terrain@[j] == (if (exists|px: int, qy: int|
                    -r <= px <= r && -r <= qy <= oy && (qy < oy || px < ox + 1) && px * px + qy * qy <= r * r
                        && #[trigger] room_cell(w as int, h as int, cx + px, cy + qy) == j) {
                    0u8
                } else {
                    old(terrain)@[j]
                }) by {
                    if exists|px: int, qy: int|
                        -r <= px <= r && -r <= qy <= oy && (qy < oy || px < ox + 1) && px * px + qy * qy <= r * r
                            && #[trigger] room_cell(w as int, h as int, cx + px, cy + qy) == j {
                        let (px, qy) = choose|px: int, qy: int|
                            -r <= px <= r && -r <= qy <= oy && (qy < oy || px < ox + 1) && px * px + qy * qy <= r * r
                                && #[trigger] room_cell(w as int, h as int, cx + px, cy + qy) == j;
                        assert(px != ox || qy != oy);
                        assert(room_cell(w as int, h as int, cx + px, cy + qy) == j);
                    }
                }
            }
            ox += 1;
        }
        oy += 1;
    }
}

/// A life stage.
#[derive(Clone, Copy, Debug, PartialEq, Eq, Structural)]
pub enum Stage {
    Egg,
    Larva,
    Pupa,
    Adult,
}

/// An ant: where it is, its heading (0 to 7), whether it carries food, its
/// age in ticks, its energy, its stage.
#[derive(Clone, Copy, Debug)]
pub struct Ant {
    pub x: i32,
    pub y: i32,
    pub dir: i32,
    pub carrying: bool,
    pub age: u32,
    pub energy: i32,
    pub phase: Stage,
}

/// The stage of an ant of age `age`: an egg for 110 ticks, a larva for
/// 170 more, a pupa for 210 more, then an adult.
pub open spec fn stage_at(age: int) -> Stage {
    if age < 110 {
        Stage::Egg
    } else if age < 280 {
        Stage::Larva
    } else if age < 490 {
        Stage::Pupa
    } else {
        Stage::Adult
    }
}

pub fn update_phase(ant: &mut Ant)
    ensures
        final(ant).phase == stage_at(old(ant).age as int),
        final(ant).x == old(ant).x,
        final(ant).y == old(ant).y,
        final(ant).dir == old(ant).dir,
        final(ant).carrying == old(ant).carrying,
        final(ant).age == old(ant).age,
        final(ant).energy == old(ant).energy,
{
    ant.phase = if ant.age < EGG_TICKS {
        Stage::Egg
    } else if ant.age < EGG_TICKS + LARVA_TICKS {
        Stage::Larva
    } else if ant.age < EGG_TICKS + LARVA_TICKS + PUPA_TICKS {
        Stage::Pupa
    } else {
        Stage::Adult
    };
}

/// Digs through the ground cell ahead of (`x`, `y`) in heading `dir`:
/// with `wrap` the grid is a torus, otherwise a step off the grid digs
/// nothing. Returns whether ground (1) became tunnel (0).
pub fn try_dig(terrain: &mut Vec<u8>, w: usize, h: usize, x: i32, y: i32, dir: i32, wrap: bool) -> (dug: bool)
    requires
        0 < w <= i32::MAX,
        0 < h <= i32::MAX,
        old(terrain)@.len() == w * h,
        i32::MIN < x < i32::MAX,
        i32::MIN < y < i32::MAX,
    ensures
        ({
            let nx = x + dir_step8(dir as int).0;
            let ny = y + dir_step8(dir as int).1;
            let cell = room_cell(w as int, h as int, nx, ny);
            if !wrap && !inside(w as int, h as int, nx, ny) {
                !dug && final(terrain)@ == old(terrain)@
            } else if old(terrain)@[cell] == 1 {
                dug && final(terrain)@ == old(terrain)@.update(cell, 0)
            } else {
                !dug && final(terrain)@ == old(terrain)@
            }
        }),
{
    let (dx, dy) = dir_vec(dir);
    let nx = x + dx;
    let ny = y + dy;
    if !wrap && !in_bounds(w, h, nx, ny) {
        return false;
    }
    let (ux, uy) = wrap_xy(w, h, nx, ny);
    assert(uy * w + ux < w * h) by (nonlinear_arith)
        requires
            ux < w,
            uy < h,
    ;
    let len = terrain.len();
    assert(len == w * h);
    let i = idx(w, ux, uy);
    if terrain[i] == 1 {
        terrain.set(i, 0);
        return true;
    }
    false
}

} // verus!
