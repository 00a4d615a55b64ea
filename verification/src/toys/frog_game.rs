//! Frogger's rules and picture: the score, the lives, the five homes and
//! the levels; the lane markings, the homes and the braille packing of the
//! playfield; and the frame of character cells it is drawn into. Where the
//! frog and the traffic are lies in fractional sub-pixels and is kept by
//! the caller, which hands over the frog's sub-pixel row and home slot.

use vstd::prelude::*;
use crate::pixels::{block_dots, braille_from_2x4};
use crate::toys::frog::{
    draw_rect, kind_of_lane, lane_bg, lane_kind_by_index, lane_of_pixel, mat_fg, painted, rank, spec_lane_of_pixel,
    bg_for_lane, fg_for_mat, mat_priority, LaneKind, Mat, Rgb, Theme, Viewport,
};

verus! {

pub const HOMES: usize = 5;
pub const START_LIVES: i32 = 5;
/// The bottom lane, where the frog starts.
pub const START_LANE: i32 = 12;
pub const HOME_POINTS: i32 = 50;
pub const LEVEL_POINTS: i32 = 250;
pub const LANE_POINTS: i32 = 10;

/// The state of a run apart from where things are: the score, the lives
/// left, the level, whether play is paused or over, which homes hold a
/// frog, and the highest lane (smallest index) the frog has reached this
/// life.
#[derive(Clone, Copy, Debug)]
pub struct Progress {
    pub score: i32,
    pub lives: i32,
    pub level: i32,
    pub paused: bool,
    pub game_over: bool,
    pub homes: [bool; 5],
    pub best_lane: i32,
}

/// What reaching for a home came to.
#[derive(Clone, Copy, Debug, PartialEq, Eq, Structural)]
pub enum HomeClaim {
    /// The frog is not in the homes lane, or not yet high enough in it.
    NotHome,
    /// It jumped between the homes or into a taken one, and lost a life.
    Lost,
    /// It took a home.
    Filled,
    /// It took the last home: the level is cleared.
    Cleared,
}

/// The five homes of a sequence.
pub open spec fn homes_of(h: Seq<bool>) -> [bool; 5] {
    [h[0], h[1], h[2], h[3], h[4]]
}

pub open spec fn empty_homes() -> [bool; 5] {
    [false, false, false, false, false]
}

/// Every home holds a frog.
pub open spec fn all_filled(h: [bool; 5]) -> bool {
    forall|i: int| 0 <= i < 5 ==> #[trigger] h[i]
}

/// A run as it starts.
pub open spec fn fresh_run() -> Progress {
    Progress {
        score: 0,
        lives: START_LIVES,
        level: 1,
        paused: false,
        game_over: false,
        homes: empty_homes(),
        best_lane: START_LANE,
    }
}

/// The frog back at the start: the lanes it climbs count again.
pub open spec fn frog_reset(p: Progress) -> Progress {
    Progress { best_lane: START_LANE, ..p }
}

/// The next level: empty homes, a bonus, and the frog at the start.
pub open spec fn leveled_up(p: Progress) -> Progress {
    frog_reset(
        Progress { level: (p.level + 1) as i32, homes: empty_homes(), score: (p.score + LEVEL_POINTS) as i32, ..p },
    )
}

/// A life lost: the run is over when none are left, and otherwise the
/// frog goes back to the start.
pub open spec fn life_lost(p: Progress) -> Progress {
    let q = Progress { lives: (p.lives - 1) as i32, ..p };
    if q.lives <= 0 {
        Progress { game_over: true, ..q }
    } else {
        frog_reset(q)
    }
}

/// Reaching for a home from sub-pixel row `py`, in home slot `slot`: only
/// in the homes lane (lane 0); between the homes or into a taken one costs
/// a life; a free one is taken once the frog is in the top three rows of
/// the lane, for points, and the last one clears the level.
pub open spec fn claim_spec(p: Progress, v: Viewport, py: int, slot: int) -> (HomeClaim, Progress) {
    if spec_lane_of_pixel(v, py) != Some(0i32) {
        (HomeClaim::NotHome, p)
    } else if slot < 0 || slot >= HOMES || p.homes[slot] {
        (HomeClaim::Lost, life_lost(p))
    } else if py % 4 > 2 {
        (HomeClaim::NotHome, p)
    } else {
        let q = Progress { homes: homes_of(p.homes@.update(slot, true)), score: (p.score + HOME_POINTS) as i32, ..p };
        if all_filled(q.homes) {
            (HomeClaim::Cleared, leveled_up(q))
        } else {
            (HomeClaim::Filled, frog_reset(q))
        }
    }
}

/// Climbing: the first time this life that the frog reaches a lane
/// higher than any before, it scores.
pub open spec fn climbed(p: Progress, v: Viewport, py: int) -> Progress {
    match spec_lane_of_pixel(v, py) {
        Some(lane) => if lane < p.best_lane {
            Progress { best_lane: lane, score: (p.score + LANE_POINTS) as i32, ..p }
        } else {
            p
        },
        None => p,
    }
}

impl Progress {
    /// Room for a step's points, a lost life and a level.
    pub open spec fn fits(&self) -> bool {
        &&& self.score <= i32::MAX - (HOME_POINTS + LEVEL_POINTS)
        &&& self.lives > i32::MIN
        &&& self.level < i32::MAX
    }

    /// Whether the next step has room for its arithmetic.
    pub fn has_room(&self) -> (b: bool)
        ensures
            b == self.fits(),
    {
        self.score <= i32::MAX - (HOME_POINTS + LEVEL_POINTS) && self.lives > i32::MIN && self.level < i32::MAX
    }

    /// A run as it starts.
    pub fn new() -> (p: Progress)
        ensures
            p == fresh_run(),
    {
        let p = Progress {
            score: 0,
            lives: START_LIVES,
            level: 1,
            paused: false,
            game_over: false,
            homes: [false; 5],
            best_lane: START_LANE,
        };
        assert(p.homes =~= empty_homes());
        p
    }

    /// Starts the run over.
    pub fn reset_run(&mut self)
        ensures
            *final(self) == fresh_run(),
    {
        *self = Progress::new();
    }

    /// The frog is back at the start.
    pub fn reset_frog(&mut self)
        ensures
            *final(self) == frog_reset(*old(self)),
    {
        self.best_lane = START_LANE;
    }

    /// Goes up a level.
    pub fn next_level(&mut self)
        requires
            old(self).score <= i32::MAX - LEVEL_POINTS,
            old(self).level < i32::MAX,
        ensures
            *final(self) == leveled_up(*old(self)),
    {
        self.level = self.level + 1;
        self.homes = [false; 5];
        self.score = self.score + LEVEL_POINTS;
        self.reset_frog();
        assert(self.homes =~= empty_homes());
    }

    /// Loses a life; returns whether play goes on (and the frog is back at
    /// the start).
    pub fn lose_life(&mut self) -> (alive: bool)
        requires
            old(self).fits(),
        ensures
            *final(self) == life_lost(*old(self)),
            alive == !(old(self).lives - 1 <= 0),
    {
        self.lives = self.lives - 1;
        if self.lives <= 0 {
            self.game_over = true;
            false
        } else {
            self.reset_frog();
            true
        }
    }

    /// Whether every home holds a frog.
    pub fn all_homes_filled(&self) -> (b: bool)
        ensures
            b == all_filled(self.homes),
    {
        let mut i: usize = 0;
        while i < HOMES
            invariant
                i <= HOMES,
                forall|j: int| 0 <= j < i ==> #[trigger] self.homes[j],
            decreases HOMES - i,
        {
            if !self.homes[i] {
                return false;
            }
            i += 1;
        }
        true
    }

    /// Reaching for a home from sub-pixel row `py` in home slot `slot`, as
    /// `claim_spec` states it.
    pub fn claim_home(&mut self, v: &Viewport, py: i32, slot: i32) -> (c: HomeClaim)
        requires
            old(self).fits(),
            v.lane_top >= -0x4000_0000,
        ensures
            (c, *final(self)) == claim_spec(*old(self), *v, py as int, slot as int),
    {
        match lane_of_pixel(v, py) {
            Some(lane) => {
                if lane != 0 {
                    return HomeClaim::NotHome;
                }
            },
            None => {
                return HomeClaim::NotHome;
            },
        }
        if slot < 0 || slot >= HOMES as i32 {
            self.lose_life();
            return HomeClaim::Lost;
        }
        let s = slot as usize;
        if self.homes[s] {
            self.lose_life();
            return HomeClaim::Lost;
        }
        if py % 4 > 2 {
            return HomeClaim::NotHome;
        }
        let ghost before = *self;
        self.homes[s] = true;
        self.score = self.score + HOME_POINTS;
        assert(self.homes =~= homes_of(before.homes@.update(slot as int, true)));
        if self.all_homes_filled() {
            self.next_level();
            HomeClaim::Cleared
        } else {
            self.reset_frog();
            HomeClaim::Filled
        }
    }

    /// Scores the frog's climb to sub-pixel row `py`, as `climbed` states it.
    pub fn score_progress(&mut self, v: &Viewport, py: i32)
        requires
            old(self).fits(),
            v.lane_top >= -0x4000_0000,
        ensures
            *final(self) == climbed(*old(self), *v, py as int),
    {
        if let Some(lane) = lane_of_pixel(v, py) {
            if lane < self.best_lane {
                self.best_lane = lane;
                self.score = self.score + LANE_POINTS;
            }
        }
    }
}

/// Points are never taken away during a run: reaching for a home,
/// climbing and losing a life never lower the score, and a cleared level
/// raises it by the home's and the level's points.
pub proof fn law_score_never_falls(p: Progress, v: Viewport, py: int, slot: int)
    requires
        p.fits(),
    ensures
        claim_spec(p, v, py, slot).1.score >= p.score,
        climbed(p, v, py).score >= p.score,
        life_lost(p).score == p.score,
        claim_spec(p, v, py, slot).0 == HomeClaim::Cleared ==> claim_spec(p, v, py, slot).1.score == p.score
            + HOME_POINTS + LEVEL_POINTS,
{
}

/// A lost life costs exactly one life, and the run is over exactly when
/// none are left.
pub proof fn law_life_costs_one(p: Progress)
    requires
        p.fits(),
    ensures
        life_lost(p).lives == p.lives - 1,
        life_lost(p).game_over == (p.game_over || p.lives - 1 <= 0),
        life_lost(p).homes == p.homes,
        life_lost(p).level == p.level,
{
}

/// A home holds at most one frog: reaching for a taken home costs a life
/// and leaves the homes as they were; taking a free one fills exactly that
/// home (or, when it was the last, empties them all for the next level).
pub proof fn law_homes_fill_once(p: Progress, v: Viewport, py: int, slot: int)
    requires
        p.fits(),
    ensures
        0 <= slot < HOMES && p.homes[slot] && spec_lane_of_pixel(v, py) == Some(0i32) ==> {
            &&& claim_spec(p, v, py, slot).0 == HomeClaim::Lost
            &&& claim_spec(p, v, py, slot).1.homes == p.homes
        },
        claim_spec(p, v, py, slot).0 == HomeClaim::Filled ==> {
            &&& 0 <= slot < HOMES && !p.homes[slot]
            &&& claim_spec(p, v, py, slot).1.homes[slot]
            &&& forall|i: int| 0 <= i < HOMES && i != slot ==> claim_spec(p, v, py, slot).1.homes[i] == p.homes[i]
        },
        claim_spec(p, v, py, slot).0 == HomeClaim::Cleared ==> {
            &&& claim_spec(p, v, py, slot).1.homes == empty_homes()
            &&& claim_spec(p, v, py, slot).1.level == p.level + 1
            &&& forall|i: int| 0 <= i < HOMES && i != slot ==> #[trigger] p.homes[i]
        },
{
    if claim_spec(p, v, py, slot).0 == HomeClaim::Cleared {
        let h = p.homes@.update(slot, true);
        assert forall|i: int| 0 <= i < HOMES && i != slot implies #[trigger] p.homes[i] by {
            assert(homes_of(h)[i] == h[i]);
        }
    }
}

/// The kind of lane a sub-pixel row shows; rows above and below the lanes
/// show as safe ground.
pub open spec fn row_kind(v: Viewport, py: int) -> LaneKind {
    match spec_lane_of_pixel(v, py) {
        Some(lane) => kind_of_lane(lane as int),
        None => LaneKind::Safe,
    }
}

/// The fixed markings: on the third row of each road lane, dashes two
/// sub-pixels long every twenty, staggered from lane to lane; on the
/// second row of each grass and dock lane, a dot every seventeen.
pub open spec fn marked(v: Viewport, px: int, py: int) -> bool {
    let k = row_kind(v, py);
    ||| k == LaneKind::Road && py % 4 == 2 && (px % 10 == 0 || px % 10 == 1) && (px / 10 + spec_lane_of_pixel(
        v,
        py,
    ).unwrap()) % 2 == 0
    ||| (k == LaneKind::Safe || k == LaneKind::Start || k == LaneKind::Homes) && py % 4 == 1 && px % 17 == 0
}

/// A playfield small enough for its sub-pixel arithmetic.
pub open spec fn field_ok(v: Viewport) -> bool {
    &&& 0 < v.px_w
    &&& 0 < v.px_h
    &&& v.px_w * v.px_h <= i32::MAX
    &&& -0x0400_0000 <= v.lane_top <= 0x0400_0000
}

/// `buf` with the fixed markings painted over it.
pub open spec fn marks_painted(buf: Seq<Mat>, v: Viewport) -> Seq<Mat> {
    Seq::new(buf.len(), |i: int| if marked(v, i % (v.px_w as int), i / (v.px_w as int)) { Mat::Mark } else { buf[i] })
}

proof fn lemma_px_index(w: int, h: int, x: int, y: int)
    requires
        0 < w,
        0 <= x < w,
        0 <= y < h,
    ensures
        0 <= y * w + x < w * h,
        (y * w + x) % w == x,
        (y * w + x) / w == y,
{
    assert(0 <= y * w + x < w * h) by (nonlinear_arith)
        requires
            0 < w,
            0 <= x < w,
            0 <= y < h,
    ;
    vstd::arithmetic::div_mod::lemma_fundamental_div_mod_converse(y * w + x, w, y, x);
}

/// Paints the fixed markings of every road, grass and dock row.
pub fn paint_marks(buf: &mut Vec<Mat>, v: &Viewport)
    requires
        field_ok(*v),
        old(buf)@.len() == v.px_w * v.px_h,
    ensures
        final(buf)@ == marks_painted(old(buf)@, *v),
{
    let ghost b0 = buf@;
    let w = v.px_w;
    let h = v.px_h;
    let mut py: i32 = 0;
    while py < h
        invariant
            field_ok(*v),
            w == v.px_w,
            h == v.px_h,
            0 <= py <= h,
            b0.len() == w * h,
            buf@.len() == b0.len(),
            forall|i: int| 0 <= i < b0.len() ==> #[trigger] buf@[i] == (if i / (w as int) < py {
                marks_painted(b0, *v)[i]
            } else {
                b0[i]
            }),
        decreases h - py,
    {
        let lane_opt = lane_of_pixel(v, py);
        let lane = match lane_opt {
            Some(l) => l,
            None => -999,
        };
        let kind = if lane >= 0 { lane_kind_by_index(lane) } else { LaneKind::Safe };
        assert(kind == row_kind(*v, py as int));
        let ghost row_start = buf@;
        let step: i32 = if kind == LaneKind::Road { 10 } else { 17 };
        let active = (kind == LaneKind::Road && py % 4 == 2) || ((kind == LaneKind::Safe || kind == LaneKind::Start
            || kind == LaneKind::Homes) && py % 4 == 1);
        let mut x: i32 = 0;
        if active {
            while x < w
                invariant
                    field_ok(*v),
                    w == v.px_w,
                    h == v.px_h,
                    0 <= py < h,
                    0 <= x,
                    x < w ==> x % step == 0,
                    step == (if kind == LaneKind::Road { 10i32 } else { 17i32 }),
                    kind == row_kind(*v, py as int),
                    lane_opt == spec_lane_of_pixel(*v, py as int),
                    kind == LaneKind::Road ==> lane_opt == Some(lane),
                    active,
                    active == ((kind == LaneKind::Road && py % 4 == 2) || ((kind == LaneKind::Safe || kind
                        == LaneKind::Start || kind == LaneKind::Homes) && py % 4 == 1)),
                    b0.len() == w * h,
                    buf@.len() == b0.len(),
                    forall|i: int| 0 <= i < b0.len() ==> #[trigger] buf@[i] == (if i / (w as int) < py {
                        marks_painted(b0, *v)[i]
                    } else if i / (w as int) == py && i % (w as int) < x {
                        marks_painted(b0, *v)[i]
                    } else {
                        b0[i]
                    }),
                decreases w - x,
            {
                proof {
                    lemma_px_index(w as int, h as int, x as int, py as int);
                }
                let i = (py * w + x) as usize;
                let ghost before = buf@;
                if kind == LaneKind::Road {
                    if (x / 10 + lane) % 2 == 0 {
                        buf.set(i, Mat::Mark);
                        if x + 1 < w {
                            proof {
                                lemma_px_index(w as int, h as int, x + 1, py as int);
                            }
                            buf.set(i + 1, Mat::Mark);
                        }
                    }
                } else {
                    buf.set(i, Mat::Mark);
                }
                let next: i32 = if (x as i64) + (step as i64) < (w as i64) { x + step } else { w };
                assert forall|j: int| 0 <= j < b0.len() implies #[trigger] buf@[j] == (if j / (w as int) < py {
                    marks_painted(b0, *v)[j]
                } else if j / (w as int) == py && j % (w as int) < next {
                    marks_painted(b0, *v)[j]
                } else {
                    b0[j]
                }) by {
                    let jx = j % (w as int);
                    let jy = j / (w as int);
                    vstd::arithmetic::div_mod::lemma_fundamental_div_mod(j, w as int);
                    if jy == py && x <= jx < next {
                        assert(j == py * w + jx) by (nonlinear_arith)
                            requires
                                j == (w as int) * jy + jx,
                                jy == py,
                        ;
                        if kind == LaneKind::Road {
                            assert(jx / 10 == x / 10 && (jx % 10 == 0 || jx % 10 == 1 || jx % 10 >= 2)) by {
                                assert(x % 10 == 0);
                            }
                        }
                        assert(marks_painted(b0, *v)[j] == (if marked(*v, jx, jy) { Mat::Mark } else { b0[j] }));
                    } else {
                        assert(buf@[j] == before[j]);
                    }
                }
                x = next;
            }
        }
        assert forall|j: int| 0 <= j < b0.len() implies #[trigger] buf@[j] == (if j / (w as int) < py + 1 {
            marks_painted(b0, *v)[j]
        } else {
            b0[j]
        }) by {
            let jx = j % (w as int);
            let jy = j / (w as int);
            vstd::arithmetic::div_mod::lemma_fundamental_div_mod(j, w as int);
            if jy == py {
                assert(marks_painted(b0, *v)[j] == (if marked(*v, jx, jy) { Mat::Mark } else { b0[j] }));
            }
        }
        py += 1;
    }
    assert(buf@ =~= marks_painted(b0, *v)) by {
        assert forall|j: int| 0 <= j < b0.len() implies #[trigger] buf@[j] == marks_painted(b0, *v)[j] by {
            vstd::arithmetic::div_mod::lemma_fundamental_div_mod(j, w as int);
            if j / (w as int) >= h {
                assert((w as int) * (j / (w as int)) >= (w as int) * h) by (nonlinear_arith)
                    requires
                        j / (w as int) >= h,
                        w > 0,
                ;
            }
            assert(j / (w as int) < h);
        }
    }
}

/// Home slot `s` painted at the top of the homes lane, centred in its
/// fifth of the field: a filled home as a 4 by 2 block, a free one as an
/// outline open at the bottom.
pub open spec fn slot_painted(buf: Seq<Mat>, v: Viewport, filled: bool, s: int) -> Seq<Mat> {
    let w = v.px_w as int;
    let slot_w = w / 5;
    let x0 = s * slot_w + slot_w / 2 - 2;
    let y = v.lane_top * 4 + 1;
    if filled {
        painted(buf, w, x0, y, 4, 2, Mat::Home)
    } else {
        painted(painted(painted(buf, w, x0, y, 4, 1, Mat::Mark), w, x0, y + 1, 1, 1, Mat::Mark), w, x0 + 3, y + 1, 1, 1, Mat::Mark)
    }
}

/// The first `n` home slots painted in order.
pub open spec fn homes_painted(buf: Seq<Mat>, v: Viewport, homes: [bool; 5], n: int) -> Seq<Mat>
    decreases n,
{
    if n <= 0 {
        buf
    } else {
        slot_painted(homes_painted(buf, v, homes, n - 1), v, homes[n - 1], n - 1)
    }
}

/// The homes, painted when the homes lane is on the field.
pub open spec fn homes_drawn(buf: Seq<Mat>, v: Viewport, homes: [bool; 5]) -> Seq<Mat> {
    if 0 <= v.lane_top < v.play_h {
        homes_painted(buf, v, homes, 5)
    } else {
        buf
    }
}

proof fn lemma_painted_len(buf: Seq<Mat>, w: int, x0: int, y0: int, rw: int, rh: int, m: Mat)
    ensures
        painted(buf, w, x0, y0, rw, rh, m).len() == buf.len(),
{
}

proof fn lemma_homes_painted_len(buf: Seq<Mat>, v: Viewport, homes: [bool; 5], n: int)
    ensures
        homes_painted(buf, v, homes, n).len() == buf.len(),
    decreases n,
{
    if n > 0 {
        lemma_homes_painted_len(buf, v, homes, n - 1);
    }
}

/// Paints the five homes at the top of the homes lane.
pub fn paint_homes(buf: &mut Vec<Mat>, v: &Viewport, homes: &[bool; 5])
    requires
        field_ok(*v),
        v.px_w <= 0x0100_0000,
        old(buf)@.len() == v.px_w * v.px_h,
    ensures
        final(buf)@ == homes_drawn(old(buf)@, *v, *homes),
{
    let lane0_by = v.lane_top;
    if !(lane0_by >= 0 && lane0_by < v.play_h as i32) {
        return;
    }
    let ghost b0 = buf@;
    let y0 = lane0_by * 4;
    let slot_w = v.px_w / HOMES as i32;
    let mut s: usize = 0;
    while s < HOMES
        invariant
            field_ok(*v),
            v.px_w <= 0x0100_0000,
            0 <= lane0_by < v.play_h,
            lane0_by == v.lane_top,
            y0 == lane0_by * 4,
            slot_w == v.px_w / 5,
            s <= HOMES,
            b0.len() == v.px_w * v.px_h,
            buf@ == homes_painted(b0, *v, *homes, s as int),
        decreases HOMES - s,
    {
        proof {
            lemma_homes_painted_len(b0, *v, *homes, s as int);
            assert(0 <= (s as int) * slot_w <= 5 * 0x0100_0000) by (nonlinear_arith)
                requires
                    0 <= s < 5,
                    0 <= slot_w <= 0x0100_0000,
            ;
        }
        let cx = s as i32 * slot_w + slot_w / 2;
        let x0 = cx - 2;
        let y = y0 + 1;
        if homes[s] {
            draw_rect(buf, v.px_w, v.px_h, x0, y, 4, 2, Mat::Home);
        } else {
            draw_rect(buf, v.px_w, v.px_h, x0, y, 4, 1, Mat::Mark);
            draw_rect(buf, v.px_w, v.px_h, x0, y + 1, 1, 1, Mat::Mark);
            draw_rect(buf, v.px_w, v.px_h, x0 + 3, y + 1, 1, 1, Mat::Mark);
        }
        s += 1;
    }
}

/// The material of sub-pixel (`px`, `py`), empty off the field.
pub open spec fn sub_mat(buf: Seq<Mat>, v: Viewport, px: int, py: int) -> Mat {
    if 0 <= px < v.px_w && 0 <= py < v.px_h {
        buf[py * v.px_w + px]
    } else {
        Mat::Empty
    }
}

/// Which sub-pixels of cell (`bx`, `by`) hold something, row by row.
pub open spec fn cell_dots(buf: Seq<Mat>, v: Viewport, bx: int, by: int) -> [[bool; 2]; 4] {
    [
        [sub_mat(buf, v, 2 * bx, 4 * by) != Mat::Empty, sub_mat(buf, v, 2 * bx + 1, 4 * by) != Mat::Empty],
        [sub_mat(buf, v, 2 * bx, 4 * by + 1) != Mat::Empty, sub_mat(buf, v, 2 * bx + 1, 4 * by + 1) != Mat::Empty],
        [sub_mat(buf, v, 2 * bx, 4 * by + 2) != Mat::Empty, sub_mat(buf, v, 2 * bx + 1, 4 * by + 2) != Mat::Empty],
        [sub_mat(buf, v, 2 * bx, 4 * by + 3) != Mat::Empty, sub_mat(buf, v, 2 * bx + 1, 4 * by + 3) != Mat::Empty],
    ]
}

/// The highest-ranked material among the first `k` sub-pixels of cell
/// (`bx`, `by`), taken row by row, left to right.
pub open spec fn best_upto(buf: Seq<Mat>, v: Viewport, bx: int, by: int, k: int) -> Mat
    decreases k,
{
    if k <= 0 {
        Mat::Empty
    } else {
        let prev = best_upto(buf, v, bx, by, k - 1);
        let m = sub_mat(buf, v, 2 * bx + (k - 1) % 2, 4 * by + (k - 1) / 2);
        if m != Mat::Empty && rank(m) > rank(prev) {
            m
        } else {
            prev
        }
    }
}

/// The lane kind of braille row `by` of the field; rows outside the lanes
/// show as safe ground.
pub open spec fn cell_row_kind(v: Viewport, by: int) -> LaneKind {
    let lane = by - v.lane_top;
    if 0 <= lane < 13 {
        kind_of_lane(lane)
    } else {
        LaneKind::Safe
    }
}

/// Cell (`bx`, `by`) of the field: the braille character of its filled
/// sub-pixels (a space when none is), in the colour of its highest-ranked
/// material, on its lane's background.
pub fn field_cell(buf: &Vec<Mat>, v: &Viewport, theme: Theme, bx: i32, by: i32) -> (r: (char, Rgb, Rgb))
    requires
        field_ok(*v),
        buf@.len() == v.px_w * v.px_h,
        0 <= bx <= 0x0100_0000,
        0 <= by <= 0x0100_0000,
    ensures
        block_dots(cell_dots(buf@, *v, bx as int, by as int)) == 0 ==> r.0 == ' ',
        block_dots(cell_dots(buf@, *v, bx as int, by as int)) != 0 ==> r.0 as u32 == 0x2800 + block_dots(
            cell_dots(buf@, *v, bx as int, by as int),
        ),
        r.1 == mat_fg(theme, best_upto(buf@, *v, bx as int, by as int, 8)),
        r.2 == lane_bg(theme, cell_row_kind(*v, by as int)),
{
    let lane_idx = by - v.lane_top;
    let kind = if lane_idx >= 0 && lane_idx < 13 { lane_kind_by_index(lane_idx) } else { LaneKind::Safe };
    let bg = bg_for_lane(theme, kind);
    let mut bits = [[false; 2]; 4];
    let mut best = Mat::Empty;
    let mut k: i32 = 0;
    while k < 8
        invariant
            field_ok(*v),
            buf@.len() == v.px_w * v.px_h,
            0 <= bx <= 0x0100_0000,
            0 <= by <= 0x0100_0000,
            0 <= k <= 8,
            best == best_upto(buf@, *v, bx as int, by as int, k as int),
            forall|j: int| 0 <= j < k ==> #[trigger] bits[j / 2][j % 2] == (sub_mat(buf@, *v, 2 * bx + j % 2, 4 * by + j / 2) != Mat::Empty),
            forall|j: int| k <= j < 8 ==> !#[trigger] bits[j / 2][j % 2],
        decreases 8 - k,
    {
        let dx = k % 2;
        let dy = k / 2;
        let px = bx * 2 + dx;
        let py = by * 4 + dy;
        let m = if px < 0 || px >= v.px_w || py < 0 || py >= v.px_h {
            Mat::Empty
        } else {
            proof {
                lemma_px_index(v.px_w as int, v.px_h as int, px as int, py as int);
            }
            buf[(py * v.px_w + px) as usize]
        };
        if m != Mat::Empty {
            bits[dy as usize][dx as usize] = true;
            if mat_priority(m) > mat_priority(best) {
                best = m;
            }
        }
        k += 1;
    }
    assert(bits =~= cell_dots(buf@, *v, bx as int, by as int)) by {
        assert forall|r: int| 0 <= r < 4 implies #[trigger] bits[r] =~= cell_dots(buf@, *v, bx as int, by as int)[r] by {
            assert(bits[r][0] == bits[(2 * r) / 2][(2 * r) % 2]);
            assert(bits[r][1] == bits[(2 * r + 1) / 2][(2 * r + 1) % 2]);
        }
    }
    let c = braille_from_2x4(bits);
    let ch = if (c as u32) == 0x2800 { ' ' } else { c };
    (ch, fg_for_mat(theme, best), bg)
}

/// A character cell of the screen.
#[derive(Clone, Copy, Debug, PartialEq, Eq, Structural)]
pub struct FrameCell {
    pub ch: char,
    pub fg: Rgb,
    pub bg: Rgb,
}

/// A blank cell, white on black.
pub open spec fn blank_cell() -> FrameCell {
    FrameCell { ch: ' ', fg: Rgb { r: 255, g: 255, b: 255 }, bg: Rgb { r: 0, g: 0, b: 0 } }
}

/// The cells with (`x`, `y`) set to `c` when it lies on the `w` by `h`
/// screen.
pub open spec fn put_cell(cells: Seq<FrameCell>, w: int, h: int, x: int, y: int, c: FrameCell) -> Seq<FrameCell> {
    if 0 <= x < w && 0 <= y < h {
        cells.update(y * w + x, c)
    } else {
        cells
    }
}

/// The first `k` characters of `s` written rightward from (`x`, `y`),
/// clipped to the screen.
pub open spec fn put_chars(cells: Seq<FrameCell>, w: int, h: int, x: int, y: int, s: Seq<char>, fg: Rgb, bg: Rgb, k: int) -> Seq<
    FrameCell,
>
    decreases k,
{
    if k <= 0 {
        cells
    } else {
        put_cell(put_chars(cells, w, h, x, y, s, fg, bg, k - 1), w, h, x + k - 1, y, FrameCell { ch: s[k - 1], fg, bg })
    }
}

/// Characters past the right edge change nothing.
proof fn lemma_chars_off_screen(cells: Seq<FrameCell>, w: int, h: int, x: int, y: int, s: Seq<char>, fg: Rgb, bg: Rgb, i: int, k: int)
    requires
        x + i >= w,
        0 <= i <= k,
    ensures
        put_chars(cells, w, h, x, y, s, fg, bg, k) == put_chars(cells, w, h, x, y, s, fg, bg, i),
    decreases k - i,
{
    if k > i {
        lemma_chars_off_screen(cells, w, h, x, y, s, fg, bg, i, k - 1);
    }
}

/// The screen as last shown (`prev`) and as being drawn (`cur`).
pub struct Frame {
    pub w: u16,
    pub h: u16,
    pub prev: Vec<FrameCell>,
    pub cur: Vec<FrameCell>,
}

fn blank_cells(n: usize) -> (v: Vec<FrameCell>)
    ensures
        v@ == Seq::new(n as nat, |i: int| blank_cell()),
{
    let mut v: Vec<FrameCell> = Vec::new();
    while v.len() < n
        invariant
            v@.len() <= n,
            forall|j: int| 0 <= j < v@.len() ==> #[trigger] v@[j] == blank_cell(),
        decreases n - v@.len(),
    {
        v.push(FrameCell { ch: ' ', fg: Rgb { r: 255, g: 255, b: 255 }, bg: Rgb { r: 0, g: 0, b: 0 } });
    }
    assert(v@ =~= Seq::new(n as nat, |i: int| blank_cell()));
    v
}

impl Frame {
    pub open spec fn wf(&self) -> bool {
        &&& self.prev@.len() == self.w * self.h
        &&& self.cur@.len() == self.w * self.h
    }

    /// A `w` by `h` screen, shown and drawn blank.
    pub fn new(w: u16, h: u16) -> (f: Frame)
        ensures
            f.wf(),
            f.w == w && f.h == h,
            f.prev@ == Seq::new((w * h) as nat, |i: int| blank_cell()),
            f.cur@ == Seq::new((w * h) as nat, |i: int| blank_cell()),
    {
        assert(w as usize * h as usize <= 65535 * 65535) by (nonlinear_arith)
            requires
                w <= 65535,
                h <= 65535,
        ;
        let n = w as usize * h as usize;
        Frame { w, h, prev: blank_cells(n), cur: blank_cells(n) }
    }

    /// A new size, shown and drawn blank.
    pub fn resize(&mut self, w: u16, h: u16)
        ensures
            final(self).wf(),
            final(self).w == w && final(self).h == h,
            final(self).prev@ == Seq::new((w * h) as nat, |i: int| blank_cell()),
            final(self).cur@ == Seq::new((w * h) as nat, |i: int| blank_cell()),
    {
        *self = Frame::new(w, h);
    }

    /// Every drawn cell a space in `fg` on `bg`.
    pub fn clear_to(&mut self, fg: Rgb, bg: Rgb)
        requires
            old(self).wf(),
        ensures
            final(self).wf(),
            final(self).w == old(self).w && final(self).h == old(self).h,
            final(self).prev@ == old(self).prev@,
            final(self).cur@ == Seq::new(old(self).cur@.len(), |i: int| FrameCell { ch: ' ', fg, bg }),
    {
        let mut i: usize = 0;
        while i < self.cur.len()
            invariant
                self.wf(),
                self.w == old(self).w && self.h == old(self).h,
                self.prev@ == old(self).prev@,
                i <= self.cur@.len(),
                forall|j: int| 0 <= j < i ==> #[trigger] self.cur@[j] == (FrameCell { ch: ' ', fg, bg }),
            decreases self.cur@.len() - i,
        {
            self.cur.set(i, FrameCell { ch: ' ', fg, bg });
            i += 1;
        }
        assert(self.cur@ =~= Seq::new(old(self).cur@.len(), |i: int| FrameCell { ch: ' ', fg, bg }));
    }

    /// Draws `ch` at (`x`, `y`) when that is on the screen.
    pub fn put(&mut self, x: u16, y: u16, ch: char, fg: Rgb, bg: Rgb)
        requires
            old(self).wf(),
        ensures
            final(self).wf(),
            final(self).w == old(self).w && final(self).h == old(self).h,
            final(self).prev@ == old(self).prev@,
            final(self).cur@ == put_cell(old(self).cur@, old(self).w as int, old(self).h as int, x as int, y as int, FrameCell { ch, fg, bg }),
    {
        if x >= self.w || y >= self.h {
            return;
        }
        assert(0 <= y * self.w + x < self.w * self.h <= 65535 * 65535) by (nonlinear_arith)
            requires
                x < self.w,
                y < self.h,
                self.w <= 65535,
                self.h <= 65535,
        ;
        let i = y as usize * self.w as usize + x as usize;
        self.cur.set(i, FrameCell { ch, fg, bg });
    }

    /// Draws `s` rightward from (`x`, `y`), clipped to the screen.
    pub fn put_str(&mut self, x: u16, y: u16, s: &str, fg: Rgb, bg: Rgb)
        requires
            old(self).wf(),
        ensures
            final(self).wf(),
            final(self).w == old(self).w && final(self).h == old(self).h,
            final(self).prev@ == old(self).prev@,
            final(self).cur@ == put_chars(old(self).cur@, old(self).w as int, old(self).h as int, x as int, y as int, s@, fg, bg, s@.len() as int),
    {
        let n = s.unicode_len();
        let mut i: usize = 0;
        while i < n
            invariant
                self.wf(),
                self.w == old(self).w && self.h == old(self).h,
                self.prev@ == old(self).prev@,
                n == s@.len(),
                i <= n,
                self.cur@ == put_chars(old(self).cur@, old(self).w as int, old(self).h as int, x as int, y as int, s@, fg, bg, i as int),
            decreases n - i,
        {
            if i >= self.w as usize || (x as usize) >= (self.w as usize) - i {
                proof {
                    lemma_chars_off_screen(old(self).cur@, old(self).w as int, old(self).h as int, x as int, y as int, s@, fg, bg, i as int, n as int);
                }
                return;
            }
            let ch = s.get_char(i);
            let xx = x + i as u16;
            self.put(xx, y, ch, fg, bg);
            i += 1;
        }
    }

    /// The cells whose drawing differs from what is shown, in order.
    pub fn dirty(&self) -> (d: Vec<usize>)
        requires
            self.wf(),
        ensures
            forall|j: int| 0 <= j < d@.len() ==> #[trigger] d@[j] < self.cur@.len() && self.cur@[d@[j] as int] != self.prev@[d@[j] as int],
            forall|j: int, k: int| 0 <= j < k < d@.len() ==> #[trigger] d@[j] < #[trigger] d@[k],
            forall|i: int| 0 <= i < self.cur@.len() && #[trigger] self.cur@[i] != self.prev@[i] ==> d@.contains(i as usize),
    {
        let mut d: Vec<usize> = Vec::new();
        let mut i: usize = 0;
        while i < self.cur.len()
            invariant
                self.wf(),
                i <= self.cur@.len(),
                forall|j: int| 0 <= j < d@.len() ==> #[trigger] d@[j] < i && self.cur@[d@[j] as int] != self.prev@[d@[j] as int],
                forall|j: int, k: int| 0 <= j < k < d@.len() ==> #[trigger] d@[j] < #[trigger] d@[k],
                forall|m: int| 0 <= m < i && #[trigger] self.cur@[m] != self.prev@[m] ==> d@.contains(m as usize),
            decreases self.cur@.len() - i,
        {
            if self.cur[i] != self.prev[i] {
                let ghost d0 = d@;
                d.push(i);
                assert forall|m: int| 0 <= m < i + 1 && #[trigger] self.cur@[m] != self.prev@[m] implies d@.contains(m as usize) by {
                    if m < i {
                        let k = choose|k: int| 0 <= k < d0.len() && d0[k] == m as usize;
                        assert(d@[k] == m as usize);
                    } else {
                        assert(d@[d0.len() as int] == i);
                    }
                }
            }
            i += 1;
        }
        d
    }

    /// The drawing is now what is shown.
    pub fn commit(&mut self)
        requires
            old(self).wf(),
        ensures
            final(self).wf(),
            final(self).w == old(self).w && final(self).h == old(self).h,
            final(self).cur@ == old(self).cur@,
            final(self).prev@ == old(self).cur@,
    {
        let mut i: usize = 0;
        while i < self.cur.len()
            invariant
                self.wf(),
                self.w == old(self).w && self.h == old(self).h,
                self.cur@ == old(self).cur@,
                i <= self.cur@.len(),
                forall|j: int| 0 <= j < i ==> #[trigger] self.prev@[j] == self.cur@[j],
            decreases self.cur@.len() - i,
        {
            let c = self.cur[i];
            self.prev.set(i, c);
            i += 1;
        }
        assert(self.prev@ =~= self.cur@);
    }
}

} // verus!
