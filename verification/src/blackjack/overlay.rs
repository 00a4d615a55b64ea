//! The animation in flight, drawn over the table: a card sliding from the
//! shoe, the hole card turning over, a hand's outline flashing, and a
//! payout rising above a hand.
//!
//! Time runs in whole milliseconds, so the fraction of an animation that
//! has played is `elapsed / duration`, held to at most one, and every
//! rounding is that of the exact fraction.

use vstd::prelude::*;
use crate::blackjack::render::{card_sprite, draw_card_sprite, lemma_label_lengths, sprite_ok};
use crate::blackjack::screen::{Cell, Color, FrameBuffer, coord_ok, put_border, put_text};
use crate::blackjack::table::{ActiveAnim, AnimEvent, Rect, Vec2, event_duration};
use crate::blackjack::text::{decimal, lemma_u64_decimal_len, push_decimal, push_signed_decimal, signed_decimal};

verus! {

/// `n / d` rounded to the nearest integer, halves away from zero.
pub open spec fn round_div(n: int, d: int) -> int {
    if n >= 0 {
        (2 * n + d) / (2 * d)
    } else {
        -((2 * (-n) + d) / (2 * d))
    }
}

/// The point a fraction `e / d` of the way from `a` to `b`, rounded.
pub open spec fn spec_lerp(a: int, b: int, e: int, d: int) -> int {
    round_div(a * d + (b - a) * e, d)
}

/// The elapsed time held to at most the duration.
pub open spec fn clamped_elapsed(act: ActiveAnim) -> int {
    let d = event_duration(act.event) as int;
    if (act.elapsed_ms as int) < d { act.elapsed_ms as int } else { d }
}

/// The width of the turning hole card: the full nine columns at either
/// end of the turn, one column at its middle.
pub open spec fn flip_width(e: int, d: int) -> int {
    let edge = if 2 * e >= d { 2 * e - d } else { d - 2 * e };
    let w = round_div(9 * edge, d);
    if w > 1 { w } else { 1 }
}

/// What a payout shows: `+n` for a win, `-n` for a loss, `PUSH` for neither.
pub open spec fn chip_text(amount: i64) -> Seq<char> {
    if amount > 0 {
        "+"@ + decimal(amount as nat)
    } else if amount < 0 {
        signed_decimal(amount as int)
    } else {
        "PUSH"@
    }
}

pub open spec fn chip_color(amount: i64) -> Color {
    if amount > 0 {
        Color::Green
    } else if amount < 0 {
        Color::Red
    } else {
        Color::White
    }
}

/// The frame with the animation in flight drawn over it, if there is one.
pub open spec fn overlay_drawn(cells: Seq<Cell>, w: int, h: int, active: Option<ActiveAnim>, bg: Color) -> Seq<Cell> {
    match active {
        None => cells,
        Some(act) => {
            let e = clamped_elapsed(act);
            match act.event {
                AnimEvent::Deal { card, from, to, duration_ms, .. } => {
                    let d = duration_ms as int;
                    let pos = Vec2 {
                        x: spec_lerp(from.x as int, to.x as int, e, d) as i32,
                        y: spec_lerp(from.y as int, to.y as int, e, d) as i32,
                    };
                    card_sprite(cells, w, h, pos, Some(card), false, false, None, bg)
                },
                AnimEvent::FlipHole { at, duration_ms } => {
                    let d = duration_ms as int;
                    card_sprite(cells, w, h, at, None, 2 * e < d, false, Some(flip_width(e, d) as i32), bg)
                },
                AnimEvent::Flash { rect, duration_ms } => {
                    if ((8 * e) / (duration_ms as int)) % 2 == 0 {
                        put_border(cells, w, h, rect, Color::Yellow, bg)
                    } else {
                        cells
                    }
                },
                AnimEvent::ChipDelta { amount, at, duration_ms } => {
                    let y = at.y - (2 * e) / (duration_ms as int);
                    let t = chip_text(amount);
                    put_text(cells, w, h, at.x as int, y, t, chip_color(amount), bg, t.len() as int)
                },
            }
        },
    }
}

/// Animations that can be drawn: a duration of at least a millisecond,
/// and positions far enough from the ends of `i32`.
pub open spec fn overlay_ok(active: Option<ActiveAnim>) -> bool {
    match active {
        None => true,
        Some(act) => {
            &&& event_duration(act.event) > 0
            &&& match act.event {
                AnimEvent::Deal { from, to, .. } => small_pos(from) && small_pos(to),
                AnimEvent::FlipHole { at, .. } => small_pos(at),
                AnimEvent::Flash { rect, .. } => border_ok(rect),
                AnimEvent::ChipDelta { at, .. } => coord_ok(at.x as int) && coord_ok(at.y as int),
            }
        },
    }
}

pub open spec fn small_pos(p: Vec2) -> bool {
    -0x0100_0000 <= p.x <= 0x0100_0000 && -0x0100_0000 <= p.y <= 0x0100_0000
}

pub open spec fn border_ok(r: Rect) -> bool {
    &&& -0x0800_0000 <= r.x <= 0x0800_0000
    &&& -0x0800_0000 <= r.y <= 0x0800_0000
    &&& 0 <= r.w <= 0x0800_0000
    &&& 0 <= r.h <= 0x0800_0000
}

/// Rounding `(2n + d) / 2d` keeps a value that lies between `lo * d` and
/// `hi * d` between `lo` and `hi`.
proof fn lemma_half_up_between(n: int, d: int, lo: int, hi: int)
    requires
        d > 0,
        lo * d <= n <= hi * d,
    ensures
        lo <= (2 * n + d) / (2 * d) <= hi,
{
    let q = (2 * n + d) / (2 * d);
    let r = (2 * n + d) % (2 * d);
    vstd::arithmetic::div_mod::lemma_fundamental_div_mod(2 * n + d, 2 * d);
    assert(0 <= r < 2 * d);
    assert(2 * n + d == 2 * d * q + r);
    assert(lo <= q) by (nonlinear_arith)
        requires
            d > 0,
            lo * d <= n,
            2 * n + d == 2 * d * q + r,
            r < 2 * d,
    {
        if q <= lo - 1 {
            assert(2 * d * q <= 2 * d * (lo - 1));
        }
    }
    assert(q <= hi) by (nonlinear_arith)
        requires
            d > 0,
            n <= hi * d,
            2 * n + d == 2 * d * q + r,
            0 <= r,
    {
        if q >= hi + 1 {
            assert(2 * d * q >= 2 * d * (hi + 1));
        }
    }
}

/// A rounded quotient of a value between `lo * d` and `hi * d` lies
/// between `lo` and `hi`.
proof fn lemma_round_div_between(n: int, d: int, lo: int, hi: int)
    requires
        d > 0,
        lo * d <= n <= hi * d,
    ensures
        lo <= round_div(n, d) <= hi,
{
    if n >= 0 {
        lemma_half_up_between(n, d, lo, hi);
    } else {
        assert((-hi) * d <= -n <= (-lo) * d) by (nonlinear_arith)
            requires
                lo * d <= n <= hi * d,
        ;
        lemma_half_up_between(-n, d, -hi, -lo);
    }
}

/// The point between `a` and `b` stays between them.
proof fn lemma_lerp_between(a: int, b: int, e: int, d: int)
    requires
        d > 0,
        0 <= e <= d,
    ensures
        a <= b ==> a <= spec_lerp(a, b, e, d) <= b,
        b <= a ==> b <= spec_lerp(a, b, e, d) <= a,
{
    let n = a * d + (b - a) * e;
    if a <= b {
        assert(a * d <= n <= b * d) by (nonlinear_arith)
            requires
                n == a * d + (b - a) * e,
                a <= b,
                0 <= e <= d,
        ;
        lemma_round_div_between(n, d, a, b);
    } else {
        assert(b * d <= n <= a * d) by (nonlinear_arith)
            requires
                n == a * d + (b - a) * e,
                b < a,
                0 <= e <= d,
        ;
        lemma_round_div_between(n, d, b, a);
    }
}

/// With `e <= d`, the quotient `(k * e) / d` lies between 0 and `k`.
proof fn lemma_scaled_quotient(k: int, e: int, d: int)
    requires
        k >= 0,
        0 < d,
        0 <= e <= d,
    ensures
        0 <= (k * e) / d <= k,
{
    assert(0 <= k * e <= k * d) by (nonlinear_arith)
        requires
            k >= 0,
            0 <= e <= d,
    ;
    vstd::arithmetic::div_mod::lemma_div_is_ordered(k * e, k * d, d);
    vstd::arithmetic::div_mod::lemma_div_multiples_vanish(k, d);
    assert(k * d == d * k) by (nonlinear_arith);
    vstd::arithmetic::div_mod::lemma_div_pos_is_pos(k * e, d);
}

/// `n / d` rounded, halves away from zero.
fn round_div_exec(n: i64, d: i64) -> (r: i64)
    requires
        0 < d <= 0x1_0000_0000,
        -0x1000_0000_0000_0000 <= n <= 0x1000_0000_0000_0000,
    ensures
        r == round_div(n as int, d as int),
{
    if n >= 0 {
        (2 * n + d) / (2 * d)
    } else {
        -((2 * (-n) + d) / (2 * d))
    }
}

/// The point `e / d` of the way from `a` to `b`, rounded.
fn lerp(a: i32, b: i32, e: u64, d: u32) -> (r: i32)
    requires
        -0x0100_0000 <= a <= 0x0100_0000,
        -0x0100_0000 <= b <= 0x0100_0000,
        0 < d,
        e <= d,
    ensures
        r == spec_lerp(a as int, b as int, e as int, d as int),
        -0x0100_0000 <= r <= 0x0100_0000,
{
    let ai = a as i64;
    let bi = b as i64;
    let di = d as i64;
    let ei = e as i64;
    assert(-0x0100_0000_0000_0000 <= ai * di <= 0x0100_0000_0000_0000) by (nonlinear_arith)
        requires
            -0x0100_0000 <= ai <= 0x0100_0000,
            0 < di <= 0x1_0000_0000,
    ;
    assert(-0x0200_0000_0000_0000 <= (bi - ai) * ei <= 0x0200_0000_0000_0000) by (nonlinear_arith)
        requires
            -0x0200_0000 <= bi - ai <= 0x0200_0000,
            0 <= ei <= 0x1_0000_0000,
    ;
    let n = ai * di + (bi - ai) * ei;
    let r = round_div_exec(n, di);
    proof {
        lemma_lerp_between(a as int, b as int, e as int, d as int);
    }
    r as i32
}

/// The frame's payout text.
fn chip_label(amount: i64) -> (s: String)
    ensures
        s@ == chip_text(amount),
        s@.len() <= 21,
{
    proof {
        lemma_label_lengths();
    }
    if amount > 0 {
        let mut s = String::from_str("+");
        push_decimal(&mut s, amount as u64);
        proof {
            lemma_u64_decimal_len(amount as u64);
        }
        s
    } else if amount < 0 {
        let mut s = String::new();
        push_signed_decimal(&mut s, amount);
        proof {
            lemma_u64_decimal_len((-(amount as int)) as u64);
        }
        s
    } else {
        String::from_str("PUSH")
    }
}

/// Whether the animation in flight can be drawn (see `overlay_ok`).
pub fn overlay_fits(active: &Option<ActiveAnim>) -> (b: bool)
    ensures
        b == overlay_ok(*active),
{
    match active {
        None => true,
        Some(act) => {
            if act.event.duration() == 0 {
                return false;
            }
            let lim: i32 = 0x0100_0000;
            match act.event {
                AnimEvent::Deal { from, to, .. } => {
                    -lim <= from.x && from.x <= lim && -lim <= from.y && from.y <= lim && -lim <= to.x && to.x <= lim
                        && -lim <= to.y && to.y <= lim
                },
                AnimEvent::FlipHole { at, .. } => -lim <= at.x && at.x <= lim && -lim <= at.y && at.y <= lim,
                AnimEvent::Flash { rect, .. } => {
                    let big: i32 = 0x0800_0000;
                    -big <= rect.x && rect.x <= big && -big <= rect.y && rect.y <= big && 0 <= rect.w && rect.w <= big
                        && 0 <= rect.h && rect.h <= big
                },
                AnimEvent::ChipDelta { at, .. } => {
                    let c: i32 = 0x1000_0000;
                    -c <= at.x && at.x <= c && -c <= at.y && at.y <= c
                },
            }
        },
    }
}

/// Draws the animation in flight, if any, over the frame.
pub fn render_anim_overlays(fb: &mut FrameBuffer, active: &Option<ActiveAnim>, bg: Color)
    requires
        old(fb).wf(),
        overlay_ok(*active),
    ensures
        final(fb).wf(),
        final(fb).w == old(fb).w && final(fb).h == old(fb).h,
        final(fb).cells@ == overlay_drawn(old(fb).cells@, old(fb).w as int, old(fb).h as int, *active, bg),
{
    if let Some(act) = active {
        let d = act.event.duration();
        let e: u64 = if act.elapsed_ms < d as u64 { act.elapsed_ms } else { d as u64 };
        assert(e == clamped_elapsed(*act));
        match act.event {
            AnimEvent::Deal { card, from, to, .. } => {
                let pos = Vec2 { x: lerp(from.x, to.x, e, d), y: lerp(from.y, to.y, e, d) };
                draw_card_sprite(fb, pos, Some(card), false, false, None, bg);
            },
            AnimEvent::FlipHole { at, .. } => {
                let twice = 2 * e;
                let dd = d as u64;
                let edge = if twice >= dd { twice - dd } else { dd - twice };
                let w = round_div_exec((9 * edge) as i64, d as i64);
                proof {
                    lemma_round_div_between(9 * edge as int, d as int, 0, 9);
                }
                let thin: i32 = if w > 1 { w as i32 } else { 1 };
                assert(thin == flip_width(e as int, d as int));
                draw_card_sprite(fb, at, None, twice < dd, false, Some(thin), bg);
            },
            AnimEvent::Flash { rect, .. } => {
                let steps = (8 * e) / (d as u64);
                if steps % 2 == 0 {
                    fb.rect_border(rect, Color::Yellow, bg);
                }
            },
            AnimEvent::ChipDelta { amount, at, .. } => {
                let dd = d as u64;
                proof {
                    lemma_scaled_quotient(2, e as int, dd as int);
                }
                let rise = ((2 * e) / dd) as i32;
                let y = at.y - rise;
                let txt = chip_label(amount);
                let col = if amount > 0 {
                    Color::Green
                } else if amount < 0 {
                    Color::Red
                } else {
                    Color::White
                };
                fb.text(at.x, y, txt.as_str(), col, bg);
            },
        }
    }
}

} // verus!
