//! Frogger's board: the playfield's fit to the terminal, its thirteen
//! lanes, and the sprites painted into a material buffer of sub-pixels,
//! where a paint only covers what ranks no higher.

use vstd::prelude::*;
use crate::pixels::braille_dot;

verus! {

pub const HUD_ROWS: u16 = 2;
pub const FOOTER_ROWS: u16 = 1;
pub const LANES: usize = 13;

#[derive(Clone, Copy, Debug, PartialEq, Eq, Structural)]
pub enum LaneKind {
    Homes,
    Water,
    Safe,
    Road,
    Start,
}

/// What a sub-pixel shows, in rising rank.
#[derive(Clone, Copy, Debug, PartialEq, Eq, Structural)]
pub enum Mat {
    Empty,
    Mark,
    Log,
    Turtle,
    Car,
    Home,
    Frog,
}

pub open spec fn rank(m: Mat) -> u8 {
    match m {
        Mat::Empty => 0,
        Mat::Mark => 1,
        Mat::Log => 2,
        Mat::Turtle => 3,
        Mat::Car => 4,
        Mat::Home => 5,
        Mat::Frog => 6,
    }
}

pub fn mat_priority(m: Mat) -> (p: u8)
    ensures
        p == rank(m),
{
    match m {
        Mat::Empty => 0,
        Mat::Mark => 1,
        Mat::Log => 2,
        Mat::Turtle => 3,
        Mat::Car => 4,
        Mat::Home => 5,
        Mat::Frog => 6,
    }
}

/// Where the playfield sits: the terminal, the field's cells, its size in
/// sub-pixels, and the row offset of the first lane.
#[derive(Clone, Copy, Debug, PartialEq, Eq, Structural)]
pub struct Viewport {
    pub term_w: u16,
    pub term_h: u16,
    pub play_x: u16,
    pub play_y: u16,
    pub play_w: u16,
    pub play_h: u16,
    pub px_w: i32,
    pub px_h: i32,
    pub lane_top: i32,
}

/// The playfield of a terminal, when it is at least 40 columns and more
/// than 9 rows: everything under the two status rows and above the footer,
/// the lanes centred vertically.
pub open spec fn spec_fit_view(term_w: u16, term_h: u16) -> Option<Viewport> {
    if term_h <= 9 || term_w < 40 {
        None
    } else {
        let play_h = (term_h - 3) as u16;
        let q = (play_h as int) - 13;
        Some(Viewport {
            term_w,
            term_h,
            play_x: 0,
            play_y: 2,
            play_w: term_w,
            play_h,
            px_w: (term_w * 2) as i32,
            px_h: (play_h * 4) as i32,
            lane_top: (if q >= 0 { q / 2 } else { -((-q) / 2) }) as i32,
        })
    }
}

pub fn fit_view(term_w: u16, term_h: u16) -> (v: Option<Viewport>)
    ensures
        v == spec_fit_view(term_w, term_h),
{
    if term_h <= HUD_ROWS + FOOTER_ROWS + 6 {
        return None;
    }
    if term_w < 40 {
        return None;
    }
    let usable_h = term_h - HUD_ROWS - FOOTER_ROWS;
    let play_h = usable_h;
    let play_w = term_w;
    let px_w = (play_w as i32) * 2;
    let px_h = (play_h as i32) * 4;
    let lane_top = ((play_h as i32) - (LANES as i32)) / 2;
    Some(Viewport { term_w, term_h, play_x: 0, play_y: HUD_ROWS, play_w, play_h, px_w, px_h, lane_top })
}

/// The lane a sub-pixel row falls in, if any: four rows per lane,
/// counted from the first lane's row.
pub open spec fn spec_lane_of_pixel(v: Viewport, py: int) -> Option<i32> {
    if py < 0 || py >= v.px_h {
        None
    } else {
        let lane = py / 4 - v.lane_top;
        if lane < 0 || lane >= 13 { None } else { Some(lane as i32) }
    }
}

pub fn lane_of_pixel(v: &Viewport, py: i32) -> (l: Option<i32>)
    requires
        v.lane_top >= -0x4000_0000,
    ensures
        l == spec_lane_of_pixel(*v, py as int),
{
    if py < 0 || py >= v.px_h {
        return None;
    }
    let by = py / 4;
    let lane = by - v.lane_top;
    if lane < 0 || lane >= LANES as i32 {
        None
    } else {
        Some(lane)
    }
}

/// The homes on top, five river lanes, a safe strip, five road lanes, and
/// the start at the bottom.
pub open spec fn kind_of_lane(lane: int) -> LaneKind {
    if lane == 0 {
        LaneKind::Homes
    } else if 1 <= lane <= 5 {
        LaneKind::Water
    } else if lane == 6 {
        LaneKind::Safe
    } else if 7 <= lane <= 11 {
        LaneKind::Road
    } else {
        LaneKind::Start
    }
}

pub fn lane_kind_by_index(lane: i32) -> (k: LaneKind)
    ensures
        k == kind_of_lane(lane as int),
{
    match lane {
        0 => LaneKind::Homes,
        1..=5 => LaneKind::Water,
        6 => LaneKind::Safe,
        7..=11 => LaneKind::Road,
        _ => LaneKind::Start,
    }
}

/// The braille bit of dot (`dx`, `dy`), with signed coordinates.
pub fn braille_bit(dx: i32, dy: i32) -> (b: u8)
    ensures
        b == braille_dot(dx as int, dy as int),
{
    match (dx, dy) {
        (0, 0) => 1,
        (0, 1) => 2,
        (0, 2) => 4,
        (1, 0) => 8,
        (1, 1) => 16,
        (1, 2) => 32,
        (0, 3) => 64,
        (1, 3) => 128,
        _ => 0,
    }
}

/// A buffer of `w` by `h` sub-pixels with a rectangle painted: inside the
/// rectangle (clipped to the buffer), a cell takes `m` when `m` ranks at
/// least as high as what it holds.
pub open spec fn painted(buf: Seq<Mat>, w: int, x0: int, y0: int, rw: int, rh: int, m: Mat) -> Seq<Mat> {
    Seq::new(
        buf.len(),
        |i: int|
            if x0 <= i % w < x0 + rw && y0 <= i / w < y0 + rh && rank(m) >= rank(buf[i]) {
                m
            } else {
                buf[i]
            },
    )
}

/// The coordinates small enough that a rectangle's far edges can be
/// computed.
pub open spec fn coords_ok(w: int, h: int, x: int, y: int, a: int, b: int) -> bool {
    &&& 0 < w && 0 < h
    &&& -0x1000_0000 <= x <= 0x1000_0000
    &&& -0x1000_0000 <= y <= 0x1000_0000
    &&& -0x1000_0000 <= a <= 0x1000_0000
    &&& -0x1000_0000 <= b <= 0x1000_0000
}

pub fn draw_rect(buf: &mut Vec<Mat>, w: i32, h: i32, x0: i32, y0: i32, rw: i32, rh: i32, m: Mat)
    requires
        old(buf)@.len() == w * h,
        w * h <= i32::MAX,
        coords_ok(w as int, h as int, x0 as int, y0 as int, rw as int, rh as int),
    ensures
        final(buf)@ == painted(old(buf)@, w as int, x0 as int, y0 as int, rw as int, rh as int, m),
{
    let x1 = x0 + rw;
    let y1 = y0 + rh;
    let ys = if 0 > y0 { 0 } else { y0 };
    let ye = if h < y1 { h } else { y1 };
    let xs = if 0 > x0 { 0 } else { x0 };
    let xe = if w < x1 { w } else { x1 };
    let ghost old_buf = buf@;
    let ghost target = painted(old_buf, w as int, x0 as int, y0 as int, rw as int, rh as int, m);
    let mut y = ys;
    while y < ye
        invariant
            buf@.len() == old_buf.len(),
            old_buf.len() == w * h,
            w * h <= i32::MAX,
            0 < w,
            0 <= ys <= y,
            ye <= h,
            ys == (if 0 > y0 { 0 } else { y0 }),
            ye == (if h < y1 { h } else { y1 }),
            xs == (if 0 > x0 { 0 } else { x0 }),
            xe == (if w < x1 { w } else { x1 }),
            x1 == x0 + rw,
            y1 == y0 + rh,
            y <= ye || ye < ys,
            forall|i: int| 0 <= i < old_buf.len() ==> #[trigger] buf@[i] == (if i / (w as int) < y { target[i] } else { old_buf[i] }),
            target == painted(old_buf, w as int, x0 as int, y0 as int, rw as int, rh as int, m),
        decreases ye - y,
    {
        assert(y * w < w * h) by (nonlinear_arith)
            requires
                0 <= y < h,
                0 < w,
        ;
        let row = y * w;
        let mut x = xs;
        while x < xe
            invariant
                buf@.len() == old_buf.len(),
                old_buf.len() == w * h,
                w * h <= i32::MAX,
                0 < w,
                0 <= ys <= y < ye,
                ye <= h,
                ys == (if 0 > y0 { 0 } else { y0 }),
                ye == (if h < y1 { h } else { y1 }),
                xs == (if 0 > x0 { 0 } else { x0 }),
                xe == (if w < x1 { w } else { x1 }),
                x1 == x0 + rw,
                y1 == y0 + rh,
                row == y * w,
                0 <= xs <= x,
                x <= xe || xe < xs,
                xe <= w,
                forall|i: int| 0 <= i < old_buf.len() ==> #[trigger] buf@[i] == (
                    if i / (w as int) < y || (i / (w as int) == y && i % (w as int) < x) { target[i] } else { old_buf[i] }),
                target == painted(old_buf, w as int, x0 as int, y0 as int, rw as int, rh as int, m),
            decreases xe - x,
        {
            assert(0 <= row + x < w * h) by (nonlinear_arith)
                requires
                    row == y * w,
                    0 <= x < w,
                    0 <= y < h,
            ;
            let i = (row + x) as usize;
            proof {
                vstd::arithmetic::div_mod::lemma_fundamental_div_mod(i as int, w as int);
                assert(i as int / (w as int) == y && i as int % (w as int) == x) by (nonlinear_arith)
                    requires
                        i == y * w + x,
                        0 <= x < w,
                        0 <= y,
                {
                    vstd::arithmetic::div_mod::lemma_fundamental_div_mod_converse(i as int, w as int, y as int, x as int);
                }
            }
            let ghost pre = buf@;
            if mat_priority(m) >= mat_priority(buf[i]) {
                buf.set(i, m);
            }
            proof {
                assert(pre[i as int] == old_buf[i as int]);
                assert forall|j: int| 0 <= j < old_buf.len() implies #[trigger] buf@[j] == (
                    if j / (w as int) < y || (j / (w as int) == y && j % (w as int) < x + 1) { target[j] } else { old_buf[j] }) by {
                    vstd::arithmetic::div_mod::lemma_fundamental_div_mod(j, w as int);
                    if j != i as int {
                        assert(buf@[j] == pre[j]);
                        if j / (w as int) == y && j % (w as int) == x {
                            assert(j == (w as int) * y + x);
                            assert(j == y * w + x) by (nonlinear_arith)
                                requires
                                    j == (w as int) * y + x,
                            ;
                        }
                    }
                }
            }
            x += 1;
        }
        proof {
            assert forall|j: int| 0 <= j < old_buf.len() implies #[trigger] buf@[j] == (
                if j / (w as int) < y + 1 { target[j] } else { old_buf[j] }) by {
                vstd::arithmetic::div_mod::lemma_fundamental_div_mod(j, w as int);
            }
        }
        y += 1;
    }
    proof {
        assert forall|i: int| 0 <= i < old_buf.len() implies #[trigger] buf@[i] == target[i] by {
            vstd::arithmetic::div_mod::lemma_fundamental_div_mod(i, w as int);
            if i / (w as int) >= y {
                assert(i / (w as int) < h) by (nonlinear_arith)
                    requires
                        0 <= i < w * h,
                        w > 0,
                        i == (w as int) * (i / (w as int)) + i % (w as int),
                        0 <= i % (w as int),
                ;
            }
        }
        assert(buf@ =~= target);
    }
}

/// Painting never lowers what a cell shows: every cell ranks at least as
/// high after as before.
pub proof fn law_paint_never_lowers(buf: Seq<Mat>, w: int, x0: int, y0: int, rw: int, rh: int, m: Mat, i: int)
    requires
        0 <= i < buf.len(),
    ensures
        rank(painted(buf, w, x0, y0, rw, rh, m)[i]) >= rank(buf[i]),
        painted(buf, w, x0, y0, rw, rh, m).len() == buf.len(),
{
}

/// Painting empty only covers empty cells, so it changes nothing: the
/// windows of cars, the notches of logs and the bumps of shells never show
/// over the sprite they are cut into.
pub proof fn law_empty_paint_changes_nothing(buf: Seq<Mat>, w: int, x0: int, y0: int, rw: int, rh: int)
    ensures
        painted(buf, w, x0, y0, rw, rh, Mat::Empty) == buf,
{
    assert(painted(buf, w, x0, y0, rw, rh, Mat::Empty) =~= buf);
}

/// Sprite coordinates small enough for every part of a sprite.
pub open spec fn sprite_ok(w: int, h: int, len: Seq<Mat>, x: int, y: int, l: int) -> bool {
    &&& 0 < w && 0 < h
    &&& len.len() == w * h
    &&& w * h <= i32::MAX
    &&& -0x0400_0000 <= x <= 0x0400_0000
    &&& -0x0400_0000 <= y <= 0x0400_0000
    &&& -0x0400_0000 <= l <= 0x0400_0000
}

/// The buffer with the frog's five dots: a 2 by 2 block with one more dot
/// under its left column, clipped to the buffer.
pub open spec fn frog_painted(buf: Seq<Mat>, w: int, h: int, x: int, y: int) -> Seq<Mat> {
    Seq::new(
        buf.len(),
        |i: int| {
            let cx = i % w;
            let cy = i / w;
            if (cx == x || cx == x + 1) && (cy == y || cy == y + 1) || (cx == x && cy == y + 2) {
                Mat::Frog
            } else {
                buf[i]
            }
        },
    )
}

fn plot(buf: &mut Vec<Mat>, w: i32, h: i32, xx: i32, yy: i32, m: Mat)
    requires
        0 < w,
        0 < h,
        old(buf)@.len() == w * h,
        w * h <= i32::MAX,
    ensures
        final(buf)@.len() == old(buf)@.len(),
        forall|i: int| 0 <= i < old(buf)@.len() ==> #[trigger] final(buf)@[i] == (
            if 0 <= xx < w && 0 <= yy < h && i % (w as int) == xx && i / (w as int) == yy { m } else { old(buf)@[i] }),
{
    if xx >= 0 && xx < w && yy >= 0 && yy < h {
        assert(0 <= yy * w + xx < w * h) by (nonlinear_arith)
            requires
                0 <= xx < w,
                0 <= yy < h,
        ;
        let i = (yy * w + xx) as usize;
        let ghost pre = buf@;
        buf.set(i, m);
        proof {
            assert forall|j: int| 0 <= j < pre.len() implies #[trigger] buf@[j] == (
                if j % (w as int) == xx && j / (w as int) == yy { m } else { pre[j] }) by {
                vstd::arithmetic::div_mod::lemma_fundamental_div_mod(j, w as int);
                vstd::arithmetic::div_mod::lemma_fundamental_div_mod_converse(i as int, w as int, yy as int, xx as int);
                if j % (w as int) == xx && j / (w as int) == yy {
                    assert(j == (w as int) * yy + xx);
                    assert(j == yy * w + xx) by (nonlinear_arith)
                        requires
                            j == (w as int) * yy + xx,
                    ;
                }
            }
        }
    }
}

pub fn draw_frog(buf: &mut Vec<Mat>, w: i32, h: i32, x: i32, y: i32)
    requires
        sprite_ok(w as int, h as int, old(buf)@, x as int, y as int, 0),
    ensures
        final(buf)@ == frog_painted(old(buf)@, w as int, h as int, x as int, y as int),
{
    let ghost b0 = buf@;
    plot(buf, w, h, x, y, Mat::Frog);
    plot(buf, w, h, x + 1, y, Mat::Frog);
    plot(buf, w, h, x, y + 1, Mat::Frog);
    plot(buf, w, h, x + 1, y + 1, Mat::Frog);
    plot(buf, w, h, x, y + 2, Mat::Frog);
    proof {
        assert forall|i: int| 0 <= i < b0.len() implies #[trigger] buf@[i] == frog_painted(b0, w as int, h as int, x as int, y as int)[i] by {
            vstd::arithmetic::div_mod::lemma_fundamental_div_mod(i, w as int);
            assert(i / (w as int) < h) by (nonlinear_arith)
                requires
                    0 <= i < w * h,
                    w > 0,
                    i == (w as int) * (i / (w as int)) + i % (w as int),
                    0 <= i % (w as int),
            ;
            assert(i / (w as int) >= 0) by (nonlinear_arith)
                requires
                    0 <= i,
                    w > 0,
            ;
        }
        assert(buf@ =~= frog_painted(b0, w as int, h as int, x as int, y as int));
    }
}

/// A car: a block three rows high; a long car (ten or more) also paints
/// two windows of empty, which only show over empty cells.
pub open spec fn car_painted(buf: Seq<Mat>, w: int, x: int, y: int, len: int) -> Seq<Mat> {
    let b1 = painted(buf, w, x, y, len, 3, Mat::Car);
    if len >= 10 {
        painted(painted(b1, w, x + 2, y + 1, 2, 1, Mat::Empty), w, x + len - 4, y + 1, 2, 1, Mat::Empty)
    } else {
        b1
    }
}

pub fn draw_car(buf: &mut Vec<Mat>, w: i32, h: i32, x: i32, y: i32, len: i32)
    requires
        sprite_ok(w as int, h as int, old(buf)@, x as int, y as int, len as int),
    ensures
        final(buf)@ == car_painted(old(buf)@, w as int, x as int, y as int, len as int),
{
    draw_rect(buf, w, h, x, y, len, 3, Mat::Car);
    if len >= 10 {
        draw_rect(buf, w, h, x + 2, y + 1, 2, 1, Mat::Empty);
        draw_rect(buf, w, h, x + len - 4, y + 1, 2, 1, Mat::Empty);
    }
}

/// A log: a block two rows high, with empty notches at its top left and
/// bottom right corners (showing only over empty cells).
pub open spec fn log_painted(buf: Seq<Mat>, w: int, x: int, y: int, len: int) -> Seq<Mat> {
    painted(
        painted(painted(buf, w, x, y, len, 2, Mat::Log), w, x, y, 1, 1, Mat::Empty),
        w,
        x + len - 1,
        y + 1,
        1,
        1,
        Mat::Empty,
    )
}

pub fn draw_log(buf: &mut Vec<Mat>, w: i32, h: i32, x: i32, y: i32, len: i32)
    requires
        sprite_ok(w as int, h as int, old(buf)@, x as int, y as int, len as int),
    ensures
        final(buf)@ == log_painted(old(buf)@, w as int, x as int, y as int, len as int),
{
    draw_rect(buf, w, h, x, y, len, 2, Mat::Log);
    draw_rect(buf, w, h, x, y, 1, 1, Mat::Empty);
    draw_rect(buf, w, h, x + len - 1, y + 1, 1, 1, Mat::Empty);
}

/// `n` single dots of `m`, `step` apart, starting `first` columns in.
pub open spec fn dots_painted(buf: Seq<Mat>, w: int, x: int, y: int, first: int, step: int, n: int, m: Mat) -> Seq<Mat>
    decreases n,
{
    if n <= 0 {
        buf
    } else {
        painted(dots_painted(buf, w, x, y, first, step, n - 1, m), w, x + first + (n - 1) * step, y, 1, 1, m)
    }
}

/// A turtle row: when diving, faint bubbles every five columns; otherwise
/// a shell two rows high with bumps (empty, showing only over empty) every
/// four columns.
pub open spec fn turtle_painted(buf: Seq<Mat>, w: int, x: int, y: int, len: int, visible: bool) -> Seq<Mat> {
    if !visible {
        dots_painted(buf, w, x, y, 2, 5, if len / 5 > 1 { len / 5 } else { 1 }, Mat::Mark)
    } else {
        dots_painted(painted(buf, w, x, y, len, 2, Mat::Turtle), w, x, y, 1, 4, if len / 4 > 1 { len / 4 } else { 1 }, Mat::Empty)
    }
}

pub fn draw_turtle(buf: &mut Vec<Mat>, w: i32, h: i32, x: i32, y: i32, len: i32, visible: bool)
    requires
        sprite_ok(w as int, h as int, old(buf)@, x as int, y as int, len as int),
    ensures
        final(buf)@ == turtle_painted(old(buf)@, w as int, x as int, y as int, len as int, visible),
{
    let ghost b0 = buf@;
    if !visible {
        let n = if len / 5 > 1 { len / 5 } else { 1 };
        let mut k: i32 = 0;
        while k < n
            invariant
                sprite_ok(w as int, h as int, b0, x as int, y as int, len as int),
                n == (if len / 5 > 1 { len / 5 } else { 1 }),
                0 <= k <= n,
                buf@.len() == b0.len(),
                buf@ == dots_painted(b0, w as int, x as int, y as int, 2, 5, k as int, Mat::Mark),
            decreases n - k,
        {
            let xx = x + 2 + k * 5;
            draw_rect(buf, w, h, xx, y, 1, 1, Mat::Mark);
            k += 1;
        }
        return;
    }
    draw_rect(buf, w, h, x, y, len, 2, Mat::Turtle);
    let ghost b1 = buf@;
    let n = if len / 4 > 1 { len / 4 } else { 1 };
    let mut k: i32 = 0;
    while k < n
        invariant
            sprite_ok(w as int, h as int, b0, x as int, y as int, len as int),
            b1.len() == b0.len(),
            n == (if len / 4 > 1 { len / 4 } else { 1 }),
            0 <= k <= n,
            buf@.len() == b0.len(),
            buf@ == dots_painted(b1, w as int, x as int, y as int, 1, 4, k as int, Mat::Empty),
        decreases n - k,
    {
        let xx = x + 1 + k * 4;
        draw_rect(buf, w, h, xx, y, 1, 1, Mat::Empty);
        k += 1;
    }
}


/// A 24-bit colour.
#[derive(Clone, Copy, Debug, PartialEq, Eq, Structural)]
pub struct Rgb {
    pub r: u8,
    pub g: u8,
    pub b: u8,
}

/// The colours of a look: the HUD, each kind of lane, and each sprite.
#[derive(Clone, Copy, Debug)]
pub struct Theme {
    pub name: &'static str,
    pub hud_fg: Rgb,
    pub hud_bg: Rgb,
    pub safe_bg: Rgb,
    pub road_bg: Rgb,
    pub water_bg: Rgb,
    pub start_bg: Rgb,
    pub homes_bg: Rgb,
    pub frog_fg: Rgb,
    pub car_fg: Rgb,
    pub log_fg: Rgb,
    pub turtle_fg: Rgb,
    pub home_fg: Rgb,
    pub accent_fg: Rgb,
}

/// The looks the game cycles through, in order.
pub open spec fn theme_table() -> Seq<Theme> {
    seq![
        Theme {
            name: "Mint CRT",
            hud_fg: Rgb { r: 160, g: 255, b: 210 },
            hud_bg: Rgb { r: 5, g: 7, b: 10 },
            safe_bg: Rgb { r: 10, g: 16, b: 10 },
            road_bg: Rgb { r: 10, g: 10, b: 14 },
            water_bg: Rgb { r: 7, g: 12, b: 20 },
            start_bg: Rgb { r: 10, g: 16, b: 10 },
            homes_bg: Rgb { r: 7, g: 14, b: 12 },
            frog_fg: Rgb { r: 180, g: 255, b: 120 },
            car_fg: Rgb { r: 255, g: 160, b: 140 },
            log_fg: Rgb { r: 210, g: 190, b: 140 },
            turtle_fg: Rgb { r: 160, g: 210, b: 255 },
            home_fg: Rgb { r: 240, g: 240, b: 240 },
            accent_fg: Rgb { r: 255, g: 220, b: 140 },
        },
        Theme {
            name: "Amber Terminal",
            hud_fg: Rgb { r: 255, g: 190, b: 95 },
            hud_bg: Rgb { r: 7, g: 6, b: 3 },
            safe_bg: Rgb { r: 16, g: 12, b: 6 },
            road_bg: Rgb { r: 12, g: 10, b: 8 },
            water_bg: Rgb { r: 8, g: 8, b: 14 },
            start_bg: Rgb { r: 16, g: 12, b: 6 },
            homes_bg: Rgb { r: 10, g: 10, b: 10 },
            frog_fg: Rgb { r: 255, g: 220, b: 120 },
            car_fg: Rgb { r: 255, g: 140, b: 80 },
            log_fg: Rgb { r: 220, g: 180, b: 120 },
            turtle_fg: Rgb { r: 160, g: 200, b: 255 },
            home_fg: Rgb { r: 240, g: 240, b: 240 },
            accent_fg: Rgb { r: 255, g: 235, b: 160 },
        },
        Theme {
            name: "JoshNet Purple",
            hud_fg: Rgb { r: 200, g: 150, b: 255 },
            hud_bg: Rgb { r: 10, g: 5, b: 15 },
            safe_bg: Rgb { r: 14, g: 10, b: 22 },
            road_bg: Rgb { r: 12, g: 8, b: 18 },
            water_bg: Rgb { r: 10, g: 8, b: 22 },
            start_bg: Rgb { r: 14, g: 10, b: 22 },
            homes_bg: Rgb { r: 10, g: 12, b: 18 },
            frog_fg: Rgb { r: 200, g: 255, b: 180 },
            car_fg: Rgb { r: 255, g: 160, b: 220 },
            log_fg: Rgb { r: 220, g: 200, b: 150 },
            turtle_fg: Rgb { r: 160, g: 210, b: 255 },
            home_fg: Rgb { r: 240, g: 240, b: 240 },
            accent_fg: Rgb { r: 255, g: 220, b: 140 },
        },
    ]
}

/// The looks the game cycles through.
pub fn themes() -> (v: Vec<Theme>)
    ensures
        v@ == theme_table(),
        v@.len() == 3,
{
    vec![
        Theme {
            name: "Mint CRT",
            hud_fg: Rgb { r: 160, g: 255, b: 210 },
            hud_bg: Rgb { r: 5, g: 7, b: 10 },
            safe_bg: Rgb { r: 10, g: 16, b: 10 },
            road_bg: Rgb { r: 10, g: 10, b: 14 },
            water_bg: Rgb { r: 7, g: 12, b: 20 },
            start_bg: Rgb { r: 10, g: 16, b: 10 },
            homes_bg: Rgb { r: 7, g: 14, b: 12 },
            frog_fg: Rgb { r: 180, g: 255, b: 120 },
            car_fg: Rgb { r: 255, g: 160, b: 140 },
            log_fg: Rgb { r: 210, g: 190, b: 140 },
            turtle_fg: Rgb { r: 160, g: 210, b: 255 },
            home_fg: Rgb { r: 240, g: 240, b: 240 },
            accent_fg: Rgb { r: 255, g: 220, b: 140 },
        },
        Theme {
            name: "Amber Terminal",
            hud_fg: Rgb { r: 255, g: 190, b: 95 },
            hud_bg: Rgb { r: 7, g: 6, b: 3 },
            safe_bg: Rgb { r: 16, g: 12, b: 6 },
            road_bg: Rgb { r: 12, g: 10, b: 8 },
            water_bg: Rgb { r: 8, g: 8, b: 14 },
            start_bg: Rgb { r: 16, g: 12, b: 6 },
            homes_bg: Rgb { r: 10, g: 10, b: 10 },
            frog_fg: Rgb { r: 255, g: 220, b: 120 },
            car_fg: Rgb { r: 255, g: 140, b: 80 },
            log_fg: Rgb { r: 220, g: 180, b: 120 },
            turtle_fg: Rgb { r: 160, g: 200, b: 255 },
            home_fg: Rgb { r: 240, g: 240, b: 240 },
            accent_fg: Rgb { r: 255, g: 235, b: 160 },
        },
        Theme {
            name: "JoshNet Purple",
            hud_fg: Rgb { r: 200, g: 150, b: 255 },
            hud_bg: Rgb { r: 10, g: 5, b: 15 },
            safe_bg: Rgb { r: 14, g: 10, b: 22 },
            road_bg: Rgb { r: 12, g: 8, b: 18 },
            water_bg: Rgb { r: 10, g: 8, b: 22 },
            start_bg: Rgb { r: 14, g: 10, b: 22 },
            homes_bg: Rgb { r: 10, g: 12, b: 18 },
            frog_fg: Rgb { r: 200, g: 255, b: 180 },
            car_fg: Rgb { r: 255, g: 160, b: 220 },
            log_fg: Rgb { r: 220, g: 200, b: 150 },
            turtle_fg: Rgb { r: 160, g: 210, b: 255 },
            home_fg: Rgb { r: 240, g: 240, b: 240 },
            accent_fg: Rgb { r: 255, g: 220, b: 140 },
        },
    ]
}

/// A lane's background.
pub open spec fn lane_bg(t: Theme, kind: LaneKind) -> Rgb {
    match kind {
        LaneKind::Homes => t.homes_bg,
        LaneKind::Water => t.water_bg,
        LaneKind::Safe => t.safe_bg,
        LaneKind::Road => t.road_bg,
        LaneKind::Start => t.start_bg,
    }
}

pub fn bg_for_lane(theme: Theme, kind: LaneKind) -> (c: Rgb)
    ensures
        c == lane_bg(theme, kind),
{
    match kind {
        LaneKind::Homes => theme.homes_bg,
        LaneKind::Water => theme.water_bg,
        LaneKind::Safe => theme.safe_bg,
        LaneKind::Road => theme.road_bg,
        LaneKind::Start => theme.start_bg,
    }
}

/// A sprite's colour; marks take the accent, empty sub-pixels the HUD's.
pub open spec fn mat_fg(t: Theme, m: Mat) -> Rgb {
    match m {
        Mat::Frog => t.frog_fg,
        Mat::Car => t.car_fg,
        Mat::Log => t.log_fg,
        Mat::Turtle => t.turtle_fg,
        Mat::Home => t.home_fg,
        Mat::Mark => t.accent_fg,
        Mat::Empty => t.hud_fg,
    }
}

pub fn fg_for_mat(theme: Theme, m: Mat) -> (c: Rgb)
    ensures
        c == mat_fg(theme, m),
{
    match m {
        Mat::Frog => theme.frog_fg,
        Mat::Car => theme.car_fg,
        Mat::Log => theme.log_fg,
        Mat::Turtle => theme.turtle_fg,
        Mat::Home => theme.home_fg,
        Mat::Mark => theme.accent_fg,
        Mat::Empty => theme.hud_fg,
    }
}

} // verus!
