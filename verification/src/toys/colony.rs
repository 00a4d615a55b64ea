//! The ant colony's world, apart from its scent: the ground and its
//! tunnels, the food patches, the queen's store and brood, and the rules
//! by which each ant ages, eats, picks up food, turns, walks and digs.
//! The two scent fields are fractional and are kept by the caller, which
//! reads them through `tunnel_cell` and `sensor_cell`.

use rand::rngs::StdRng;
use vstd::prelude::*;
use crate::rng::{std_range_i32, std_range_usize, std_ratio};
use vstd::arithmetic::div_mod::lemma_fundamental_div_mod_converse;
use crate::toys::ants::{
    carve_room, dir_step8, dir_vec, idx, in_bounds, in_room, inside, rotate_dir, room_cell, stage_at, try_dig,
    update_phase, wrap_i32, wrap_xy, Ant, Stage, EGG_TICKS, LARVA_TICKS, PUPA_TICKS,
};

verus! {

pub const INITIAL_ANTS: usize = 150;
pub const MAX_ANTS: usize = 900;
pub const FOOD_TOTAL: u16 = 1500;
pub const FOOD_PATCHES: usize = 4;
pub const FOOD_PATCH_RADIUS: i32 = 5;
pub const ADULT_LIFESPAN_TICKS: u32 = 32_000;
pub const ENERGY_START: i32 = 420;
pub const ENERGY_MOVE_COST: i32 = 1;
pub const ENERGY_CARRY_COST: i32 = 1;
pub const ENERGY_EAT_AT_QUEEN: i32 = 240;
pub const DIG_COST: i32 = 4;
pub const FOOD_VALUE_AT_QUEEN: u64 = 10;
pub const SPAWN_COST_FOOD: u64 = 12;
pub const QUEEN_LAY_COOLDOWN_TICKS: u32 = 25;

/// The colony's grid and stores. Ground is 1 and tunnel 0 in `terrain`;
/// `food` counts the food units in a cell and `food_patch_id` names the
/// patch a cell belongs to (-1 for none); each patch has a count of units
/// left and a flag that it still has some.
#[derive(Debug)]
pub struct Colony {
    pub w: usize,
    pub h: usize,
    pub queen: (i32, i32),
    pub terrain: Vec<u8>,
    pub food: Vec<u16>,
    pub food_patch_id: Vec<i16>,
    pub food_patch_remaining: Vec<u32>,
    pub food_patch_active: Vec<bool>,
    pub colony_food: u64,
    pub queen_cooldown: u32,
}

/// What one tick of upkeep leaves of an ant.
#[derive(Clone, Copy, Debug)]
pub enum Upkeep {
    /// It died of age or hunger, or (between walls) stood off the grid.
    Gone,
    /// Brood, kept on the queen's cell; it does not forage.
    Brood(Ant),
    /// An adult that forages this tick.
    Forage(Ant),
}

/// An ant whose numbers leave room for a tick's arithmetic.
pub open spec fn ant_ok(a: Ant) -> bool {
    &&& -0x4000_0000 <= a.x <= 0x4000_0000
    &&& -0x4000_0000 <= a.y <= 0x4000_0000
    &&& -0x4000_0000 <= a.dir <= 0x4000_0000
    &&& -0x4000_0000 <= a.energy <= 0x4000_0000
}

/// Whether `a` leaves room for a tick's arithmetic.
pub fn ant_fits(a: &Ant) -> (b: bool)
    ensures
        b == ant_ok(*a),
{
    -0x4000_0000 <= a.x && a.x <= 0x4000_0000 && -0x4000_0000 <= a.y && a.y <= 0x4000_0000 && -0x4000_0000
        <= a.dir && a.dir <= 0x4000_0000 && -0x4000_0000 <= a.energy && a.energy <= 0x4000_0000
}

/// `a` one tick older (its age saturating), in the stage of its new age.
pub open spec fn aged(a: Ant) -> Ant {
    let age: u32 = if a.age < u32::MAX { (a.age + 1) as u32 } else { a.age };
    Ant { x: a.x, y: a.y, dir: a.dir, carrying: a.carrying, age, energy: a.energy, phase: stage_at(age as int) }
}

/// An adult past its lifespan, or out of energy.
pub open spec fn worn_out(a: Ant) -> bool {
    a.phase == Stage::Adult && (a.age - (EGG_TICKS + LARVA_TICKS + PUPA_TICKS) > ADULT_LIFESPAN_TICKS
        || a.energy <= 0)
}

pub open spec fn min_int(a: int, b: int) -> int {
    if a < b {
        a
    } else {
        b
    }
}

/// An ant on the queen's cell hands over the food it carries (worth ten
/// units of the colony's store, saturating) and eats its fill; one that
/// carries nothing and is down to a third of its energy eats half a meal
/// from the store, if there is any. Elsewhere nothing happens.
pub open spec fn fed(a: Ant, store: u64, at_queen: bool) -> (Ant, u64) {
    if at_queen && a.carrying {
        let energy = min_int(a.energy + ENERGY_EAT_AT_QUEEN, ENERGY_START as int) as i32;
        let store2: u64 = if store + FOOD_VALUE_AT_QUEEN <= u64::MAX {
            (store + FOOD_VALUE_AT_QUEEN) as u64
        } else {
            u64::MAX
        };
        (Ant { x: a.x, y: a.y, dir: a.dir, carrying: false, age: a.age, energy, phase: a.phase }, store2)
    } else if at_queen && a.energy < ENERGY_START / 3 && store > 0 {
        let energy = min_int(a.energy + ENERGY_EAT_AT_QUEEN / 2, ENERGY_START as int) as i32;
        (Ant { x: a.x, y: a.y, dir: a.dir, carrying: a.carrying, age: a.age, energy, phase: a.phase }, (store
            - 1) as u64)
    } else {
        (a, store)
    }
}

/// Whether an ant picks up a unit of food on tunnel cell `i`.
pub open spec fn picks_up(a: Ant, terrain: Seq<u8>, food: Seq<u16>, i: int) -> bool {
    !a.carrying && terrain[i] == 0 && food[i] > 0
}

/// The patch counts after a unit is taken from patch `pid`: its count
/// drops by one if it has any left, and a patch that runs out is marked
/// spent. A cell of no patch, or of a patch not on the lists, changes
/// nothing.
pub open spec fn patch_taken(rem: Seq<u32>, act: Seq<bool>, pid: int) -> (Seq<u32>, Seq<bool>) {
    if 0 <= pid < rem.len() && rem[pid] > 0 {
        let left = (rem[pid] - 1) as u32;
        (rem.update(pid, left), if left == 0 && pid < act.len() {
            act.update(pid, false)
        } else {
            act
        })
    } else {
        (rem, act)
    }
}

/// The upkeep of ant `a` in colony `c`: what is left of the ant, and the
/// colony's store, food and patch counts after it. `r` is the turn that
/// brood takes where it lies.
pub open spec fn upkeep_spec(c: Colony, a: Ant, wrap: bool, r: int) -> (Upkeep, u64, Seq<u16>, Seq<u32>, Seq<
    bool,
>) {
    let b = aged(a);
    let rem0 = c.food_patch_remaining@;
    let act0 = c.food_patch_active@;
    if worn_out(b) {
        (Upkeep::Gone, c.colony_food, c.food@, rem0, act0)
    } else if b.phase != Stage::Adult {
        let brood = Ant {
            x: c.queen.0,
            y: c.queen.1,
            dir: ((b.dir + r) % 8) as i32,
            carrying: false,
            age: b.age,
            energy: b.energy,
            phase: b.phase,
        };
        (Upkeep::Brood(brood), c.colony_food, c.food@, rem0, act0)
    } else if !wrap && !inside(c.w as int, c.h as int, b.x as int, b.y as int) {
        (Upkeep::Gone, c.colony_food, c.food@, rem0, act0)
    } else {
        let i = room_cell(c.w as int, c.h as int, b.x as int, b.y as int);
        let fs = fed(b, c.colony_food, i == c.queen_cell());
        let f = fs.0;
        if picks_up(f, c.terrain@, c.food@, i) {
            let pt = patch_taken(rem0, act0, c.food_patch_id@[i] as int);
            let g = Ant { x: f.x, y: f.y, dir: f.dir, carrying: true, age: f.age, energy: f.energy, phase: f.phase };
            (Upkeep::Forage(g), fs.1, c.food@.update(i, (c.food@[i] - 1) as u16), pt.0, pt.1)
        } else {
            (Upkeep::Forage(f), fs.1, c.food@, rem0, act0)
        }
    }
}

/// `c1` is `c0` after the upkeep of `a` with brood turn `r`, which left `u`.
pub open spec fn upkept(c0: Colony, c1: Colony, a: Ant, wrap: bool, r: int, u: Upkeep) -> bool {
    let s = upkeep_spec(c0, a, wrap, r);
    &&& u == s.0
    &&& c1.colony_food == s.1
    &&& c1.food@ == s.2
    &&& c1.food_patch_remaining@ == s.3
    &&& c1.food_patch_active@ == s.4
    &&& c1.w == c0.w && c1.h == c0.h && c1.queen == c0.queen
    &&& c1.terrain@ == c0.terrain@
    &&& c1.food_patch_id@ == c0.food_patch_id@
    &&& c1.queen_cooldown == c0.queen_cooldown
}

/// The turn of a forager: the jolt, when one came (0, 1, 2 for left,
/// ahead, right), else towards the stronger scent on the left or right,
/// else ahead.
pub open spec fn steer_spec(left_best: bool, right_best: bool, jolt: Option<u32>) -> int {
    match jolt {
        Some(k) => if k == 0 {
            -1
        } else if k == 1 {
            0
        } else {
            1
        },
        None => if left_best {
            -1
        } else if right_best {
            1
        } else {
            0
        },
    }
}

/// A forager `a` turning by `turn` and trying to step ahead in colony `c`
/// with coin results `dig` (whether it tries to dig when ground blocks
/// it) and `right` (which way it bounces): the ant after it, whether it
/// lays scent, and the ground after it.
pub open spec fn forage_spec(c: Colony, a: Ant, turn: int, wrap: bool, dig: bool, right: bool) -> (Ant, bool, Seq<
    u8,
>) {
    let d1 = (a.dir + turn) % 8;
    let st = dir_step8(d1);
    let nx = a.x + st.0;
    let ny = a.y + st.1;
    let bounced = Ant {
        x: a.x,
        y: a.y,
        dir: ((d1 + if right {
            1int
        } else {
            -1int
        }) % 8) as i32,
        carrying: a.carrying,
        age: a.age,
        energy: a.energy,
        phase: a.phase,
    };
    if !wrap && !inside(c.w as int, c.h as int, nx, ny) {
        (bounced, false, c.terrain@)
    } else {
        let ni = room_cell(c.w as int, c.h as int, nx, ny);
        if c.terrain@[ni] == 0 {
            let cost = if a.carrying {
                ENERGY_CARRY_COST
            } else {
                ENERGY_MOVE_COST
            };
            let px = if wrap {
                nx % (c.w as int)
            } else {
                nx
            };
            let py = if wrap {
                ny % (c.h as int)
            } else {
                ny
            };
            (Ant {
                x: px as i32,
                y: py as i32,
                dir: d1 as i32,
                carrying: a.carrying,
                age: a.age,
                energy: (a.energy - cost) as i32,
                phase: a.phase,
            }, true, c.terrain@)
        } else if dig && a.energy > DIG_COST + 5 {
            let turned = Ant {
                x: a.x,
                y: a.y,
                dir: d1 as i32,
                carrying: a.carrying,
                age: a.age,
                energy: a.energy,
                phase: a.phase,
            };
            if c.terrain@[ni] == 1 {
                (Ant { energy: (a.energy - DIG_COST) as i32, ..turned }, true, c.terrain@.update(ni, 0))
            } else {
                (turned, true, c.terrain@)
            }
        } else {
            (bounced, true, c.terrain@)
        }
    }
}

impl Colony {
    pub open spec fn wf(&self) -> bool {
        &&& 0 < self.w <= 32767
        &&& 0 < self.h <= 32767
        &&& self.terrain@.len() == self.w * self.h
        &&& self.food@.len() == self.w * self.h
        &&& self.food_patch_id@.len() == self.w * self.h
        &&& 0 <= self.queen.0 < self.w
        &&& 0 <= self.queen.1 < self.h
        &&& forall|i: int| 0 <= i < self.terrain@.len() ==> #[trigger] self.terrain@[i] <= 1
    }

    /// The queen's cell.
    pub open spec fn queen_cell(&self) -> int {
        self.queen.1 * self.w + self.queen.0
    }
}

/// The cell at (`x`, `y`) that scent can be read from or laid on: none off
/// the grid between walls, none in the ground, else the tunnel cell (the
/// point wrapped onto the grid).
pub open spec fn tunnel_spec(c: Colony, x: int, y: int, wrap: bool) -> Option<usize> {
    if !wrap && !inside(c.w as int, c.h as int, x, y) {
        None
    } else if c.terrain@[room_cell(c.w as int, c.h as int, x, y)] != 0 {
        None
    } else {
        Some(room_cell(c.w as int, c.h as int, x, y) as usize)
    }
}

/// The point `dist` cells from ant `a` in its heading turned by `steps`
/// eighths.
pub open spec fn sensor_point(a: Ant, steps: int, dist: int) -> (int, int) {
    let st = dir_step8((a.dir + steps) % 8);
    (a.x + st.0 * dist, a.y + st.1 * dist)
}

proof fn lemma_cell_in_grid(w: int, h: int, x: int, y: int)
    requires
        0 < w,
        0 < h,
    ensures
        0 <= room_cell(w, h, x, y) < w * h,
        0 <= x % w < w,
        0 <= y % h < h,
{
    let ux = x % w;
    let uy = y % h;
    assert(0 <= uy * w + ux < w * h) by (nonlinear_arith)
        requires
            0 <= ux < w,
            0 <= uy < h,
    ;
}

impl Colony {
    /// The cell of (`x`, `y`) on the grid, wrapped, as an index.
    fn cell_of(&self, x: i32, y: i32) -> (i: usize)
        requires
            self.wf(),
        ensures
            i == room_cell(self.w as int, self.h as int, x as int, y as int),
            i < self.w * self.h,
    {
        let (ux, uy) = wrap_xy(self.w, self.h, x, y);
        proof {
            lemma_cell_in_grid(self.w as int, self.h as int, x as int, y as int);
            assert(self.w * self.h <= 32767 * 32767) by (nonlinear_arith)
                requires
                    0 < self.w <= 32767,
                    0 < self.h <= 32767,
            ;
        }
        idx(self.w, ux, uy)
    }

    /// The tunnel cell at (`x`, `y`) that scent can be read from or laid
    /// on, if any.
    pub fn tunnel_cell(&self, x: i32, y: i32, wrap: bool) -> (r: Option<usize>)
        requires
            self.wf(),
        ensures
            r == tunnel_spec(*self, x as int, y as int, wrap),
            r matches Some(i) ==> i < self.w * self.h,
    {
        if !wrap && !in_bounds(self.w, self.h, x, y) {
            return None;
        }
        let i = self.cell_of(x, y);
        if self.terrain[i] != 0 {
            None
        } else {
            Some(i)
        }
    }

    /// The tunnel cell that ant `a` smells `dist` cells ahead in its
    /// heading turned by `steps` eighths, if any.
    pub fn sensor_cell(&self, a: &Ant, steps: i32, dist: i32, wrap: bool) -> (r: Option<usize>)
        requires
            self.wf(),
            ant_ok(*a),
            -8 <= steps <= 8,
            -1000 <= dist <= 1000,
        ensures
            r == tunnel_spec(*self, sensor_point(*a, steps as int, dist as int).0, sensor_point(
                *a,
                steps as int,
                dist as int,
            ).1, wrap),
            r matches Some(i) ==> i < self.w * self.h,
    {
        let sdir = rotate_dir(a.dir, steps);
        let (dx, dy) = dir_vec(sdir);
        assert(dir_step8(sdir as int) == dir_step8((a.dir + steps) % 8));
        assert(-1000 <= dx * dist <= 1000 && -1000 <= dy * dist <= 1000) by (nonlinear_arith)
            requires
                -1 <= dx <= 1,
                -1 <= dy <= 1,
                -1000 <= dist <= 1000,
        ;
        self.tunnel_cell(a.x + dx * dist, a.y + dy * dist, wrap)
    }

    /// One tick of upkeep for ant `a`, brood turning by `r` where it lies:
    /// it ages (and dies of age or hunger as an adult); brood is gathered
    /// on the queen's cell; an adult is fed at the queen and picks up food
    /// where it stands.
    pub fn upkeep_with(&mut self, a: Ant, wrap: bool, r: i32) -> (u: Upkeep)
        requires
            old(self).wf(),
            ant_ok(a),
            -1 <= r <= 1,
        ensures
            final(self).wf(),
            upkept(*old(self), *final(self), a, wrap, r as int, u),
            u matches Upkeep::Brood(b) ==> ant_ok(b),
            u matches Upkeep::Forage(b) ==> ant_ok(b) && b.energy >= 1,
    {
        let mut b = a;
        b.age = b.age.saturating_add(1);
        update_phase(&mut b);
        let adult_age = b.age.saturating_sub(EGG_TICKS + LARVA_TICKS + PUPA_TICKS);
        if b.phase == Stage::Adult && adult_age > ADULT_LIFESPAN_TICKS {
            return Upkeep::Gone;
        }
        if b.phase == Stage::Adult && b.energy <= 0 {
            return Upkeep::Gone;
        }
        if b.phase != Stage::Adult {
            b.x = self.queen.0;
            b.y = self.queen.1;
            b.carrying = false;
            b.dir = rotate_dir(b.dir, r);
            return Upkeep::Brood(b);
        }
        if !wrap && !in_bounds(self.w, self.h, b.x, b.y) {
            return Upkeep::Gone;
        }
        let ai = self.cell_of(b.x, b.y);
        let queen_i = self.cell_of(self.queen.0, self.queen.1);
        proof {
            assert(self.queen.0 as int % self.w as int == self.queen.0) by {
                vstd::arithmetic::div_mod::lemma_small_mod(self.queen.0 as nat, self.w as nat);
            }
            assert(self.queen.1 as int % self.h as int == self.queen.1) by {
                vstd::arithmetic::div_mod::lemma_small_mod(self.queen.1 as nat, self.h as nat);
            }
        }
        if ai == queen_i {
            if b.carrying {
                b.carrying = false;
                self.colony_food = self.colony_food.saturating_add(FOOD_VALUE_AT_QUEEN);
                let e = b.energy + ENERGY_EAT_AT_QUEEN;
                b.energy = if e < ENERGY_START { e } else { ENERGY_START };
            } else if b.energy < ENERGY_START / 3 && self.colony_food > 0 {
                self.colony_food = self.colony_food - 1;
                let e = b.energy + ENERGY_EAT_AT_QUEEN / 2;
                b.energy = if e < ENERGY_START { e } else { ENERGY_START };
            }
        }
        if !b.carrying && self.terrain[ai] == 0 && self.food[ai] > 0 {
            let f = self.food[ai];
            self.food.set(ai, f - 1);
            b.carrying = true;
            let pid = self.food_patch_id[ai];
            if pid >= 0 {
                let p = pid as usize;
                if p < self.food_patch_remaining.len() {
                    let left = self.food_patch_remaining[p];
                    if left > 0 {
                        self.food_patch_remaining.set(p, left - 1);
                        if left - 1 == 0 && p < self.food_patch_active.len() {
                            self.food_patch_active.set(p, false);
                        }
                    }
                }
            }
        }
        Upkeep::Forage(b)
    }

    /// One tick of upkeep for ant `a`, as `upkeep_with`, brood turning a
    /// random eighth left, not at all, or right.
    pub fn upkeep(&mut self, a: Ant, wrap: bool, rng: &mut StdRng) -> (u: Upkeep)
        requires
            old(self).wf(),
            ant_ok(a),
        ensures
            final(self).wf(),
            exists|r: int| -1 <= r <= 1 && upkept(*old(self), *final(self), a, wrap, r, u),
            u matches Upkeep::Brood(b) ==> ant_ok(b),
            u matches Upkeep::Forage(b) ==> ant_ok(b) && b.energy >= 1,
    {
        let age = a.age.saturating_add(1);
        let brood = age < EGG_TICKS + LARVA_TICKS + PUPA_TICKS;
        let r = if brood {
            std_range_i32(rng, -1, 1)
        } else {
            0
        };
        self.upkeep_with(a, wrap, r)
    }
}

/// A freshly laid egg on the queen's cell of `c`, facing any of the eight
/// headings.
pub open spec fn fresh_egg(c: Colony, a: Ant) -> bool {
    &&& a.x == c.queen.0 && a.y == c.queen.1
    &&& 0 <= a.dir < 8
    &&& !a.carrying
    &&& a.age == 0
    &&& a.energy == ENERGY_START
    &&& a.phase == Stage::Egg
}

/// The turn of a forager, as `steer_spec` states it.
pub fn steer(left_best: bool, right_best: bool, jolt: Option<u32>) -> (t: i32)
    ensures
        t == steer_spec(left_best, right_best, jolt),
{
    match jolt {
        Some(k) => if k == 0 {
            -1
        } else if k == 1 {
            0
        } else {
            1
        },
        None => if left_best {
            -1
        } else if right_best {
            1
        } else {
            0
        },
    }
}

/// Whether a forager is jolted off its course this tick (with chance
/// 7 in 25), and if so which way: 0, 1 or 2 for left, ahead, right.
pub fn draw_jolt(rng: &mut StdRng) -> (j: Option<u32>)
    ensures
        j matches Some(k) ==> k < 3,
{
    if std_ratio(rng, 7, 25) {
        let k = std_range_i32(rng, 0, 2);
        Some(k as u32)
    } else {
        None
    }
}

impl Colony {
    /// Forager `a` turns by `turn` and tries to step ahead, as
    /// `forage_spec` states it for coin results `dig` and `right`; returns
    /// the ant and whether it lays scent where it ends up.
    pub fn forage_step(&mut self, a: Ant, turn: i32, wrap: bool, dig: bool, right: bool) -> (r: (Ant, bool))
        requires
            old(self).wf(),
            ant_ok(a),
            a.energy >= 1,
            -1 <= turn <= 1,
        ensures
            final(self).wf(),
            ({
                let s = forage_spec(*old(self), a, turn as int, wrap, dig, right);
                &&& r.0 == s.0
                &&& r.1 == s.1
                &&& final(self).terrain@ == s.2
            }),
            final(self).w == old(self).w && final(self).h == old(self).h && final(self).queen == old(self).queen,
            final(self).food@ == old(self).food@,
            final(self).food_patch_id@ == old(self).food_patch_id@,
            final(self).food_patch_remaining@ == old(self).food_patch_remaining@,
            final(self).food_patch_active@ == old(self).food_patch_active@,
            final(self).colony_food == old(self).colony_food,
            final(self).queen_cooldown == old(self).queen_cooldown,
            ant_ok(r.0),
    {
        let mut b = a;
        b.dir = rotate_dir(b.dir, turn);
        let (dx, dy) = dir_vec(b.dir);
        let nx = b.x + dx;
        let ny = b.y + dy;
        let side: i32 = if right { 1 } else { -1 };
        if !wrap && !in_bounds(self.w, self.h, nx, ny) {
            b.dir = rotate_dir(b.dir, side);
            return (b, false);
        }
        let ni = self.cell_of(nx, ny);
        if self.terrain[ni] == 0 {
            if wrap {
                b.x = wrap_i32(nx, self.w as i32);
                b.y = wrap_i32(ny, self.h as i32);
            } else {
                b.x = nx;
                b.y = ny;
            }
            b.energy = b.energy - if b.carrying {
                ENERGY_CARRY_COST
            } else {
                ENERGY_MOVE_COST
            };
        } else if dig && b.energy > DIG_COST + 5 {
            let ghost t0 = self.terrain@;
            if try_dig(&mut self.terrain, self.w, self.h, b.x, b.y, b.dir, wrap) {
                b.energy = b.energy - DIG_COST;
            }
            assert forall|i: int| 0 <= i < self.terrain@.len() implies #[trigger] self.terrain@[i] <= 1 by {
                assert(t0[i] <= 1);
            }
        } else {
            b.dir = rotate_dir(b.dir, side);
        }
        (b, true)
    }

    /// Forager `a` turns by `turn` and tries to step ahead: it walks into
    /// an open tunnel; off the grid between walls it bounces a random way
    /// and lays no scent; blocked by ground it digs with chance 11 in 50
    /// when it has the energy for it, and otherwise bounces a random way.
    pub fn forage_move(&mut self, a: Ant, turn: i32, wrap: bool, rng: &mut StdRng) -> (r: (Ant, bool))
        requires
            old(self).wf(),
            ant_ok(a),
            a.energy >= 1,
            -1 <= turn <= 1,
        ensures
            final(self).wf(),
            exists|dig: bool, right: bool|
                #![trigger forage_spec(*old(self), a, turn as int, wrap, dig, right)]
                r.0 == forage_spec(*old(self), a, turn as int, wrap, dig, right).0 && r.1 == forage_spec(
                    *old(self),
                    a,
                    turn as int,
                    wrap,
                    dig,
                    right,
                ).1 && final(self).terrain@ == forage_spec(*old(self), a, turn as int, wrap, dig, right).2,
            final(self).w == old(self).w && final(self).h == old(self).h && final(self).queen == old(self).queen,
            final(self).food@ == old(self).food@,
            final(self).food_patch_id@ == old(self).food_patch_id@,
            final(self).food_patch_remaining@ == old(self).food_patch_remaining@,
            final(self).food_patch_active@ == old(self).food_patch_active@,
            final(self).colony_food == old(self).colony_food,
            final(self).queen_cooldown == old(self).queen_cooldown,
            ant_ok(r.0),
    {
        let d1 = rotate_dir(a.dir, turn);
        let (dx, dy) = dir_vec(d1);
        let nx = a.x + dx;
        let ny = a.y + dy;
        let (dig, right) = if !wrap && !in_bounds(self.w, self.h, nx, ny) {
            (false, std_ratio(rng, 1, 2))
        } else {
            let ni = self.cell_of(nx, ny);
            if self.terrain[ni] == 0 {
                (false, false)
            } else {
                let dig = std_ratio(rng, 11, 50);
                if dig && a.energy > DIG_COST + 5 {
                    (true, false)
                } else {
                    (dig, std_ratio(rng, 1, 2))
                }
            }
        };
        self.forage_step(a, turn, wrap, dig, right)
    }

    /// The queen's turn: while she rests her rest shortens; otherwise, if
    /// the store holds the price of an egg and the colony has room, she
    /// spends it, lays an egg on her cell and rests.
    pub fn queen_lay(&mut self, ants: &mut Vec<Ant>, rng: &mut StdRng)
        requires
            old(self).wf(),
        ensures
            final(self).wf(),
            final(self).w == old(self).w && final(self).h == old(self).h && final(self).queen == old(self).queen,
            final(self).terrain@ == old(self).terrain@,
            final(self).food@ == old(self).food@,
            final(self).food_patch_id@ == old(self).food_patch_id@,
            final(self).food_patch_remaining@ == old(self).food_patch_remaining@,
            final(self).food_patch_active@ == old(self).food_patch_active@,
            old(self).queen_cooldown > 0 ==> {
                &&& final(self).queen_cooldown == old(self).queen_cooldown - 1
                &&& final(self).colony_food == old(self).colony_food
                &&& final(ants)@ == old(ants)@
            },
            old(self).queen_cooldown == 0 && old(self).colony_food >= SPAWN_COST_FOOD && old(ants)@.len()
                < MAX_ANTS ==> {
                &&& final(self).queen_cooldown == QUEEN_LAY_COOLDOWN_TICKS
                &&& final(self).colony_food == old(self).colony_food - SPAWN_COST_FOOD
                &&& final(ants)@.len() == old(ants)@.len() + 1
                &&& final(ants)@.drop_last() == old(ants)@
                &&& fresh_egg(*old(self), final(ants)@.last())
            },
            old(self).queen_cooldown == 0 && !(old(self).colony_food >= SPAWN_COST_FOOD && old(ants)@.len()
                < MAX_ANTS) ==> {
                &&& final(self).queen_cooldown == 0
                &&& final(self).colony_food == old(self).colony_food
                &&& final(ants)@ == old(ants)@
            },
    {
        if self.queen_cooldown > 0 {
            self.queen_cooldown = self.queen_cooldown - 1;
        } else if self.colony_food >= SPAWN_COST_FOOD && ants.len() < MAX_ANTS {
            self.colony_food = self.colony_food - SPAWN_COST_FOOD;
            self.queen_cooldown = QUEEN_LAY_COOLDOWN_TICKS;
            let dir = std_range_i32(rng, 0, 7);
            ants.push(
                Ant {
                    x: self.queen.0,
                    y: self.queen.1,
                    dir,
                    carrying: false,
                    age: 0,
                    energy: ENERGY_START,
                    phase: Stage::Egg,
                },
            );
            assert(ants@.drop_last() =~= old(ants)@);
        }
    }
}

/// The number of lattice points (ox, oy) with ox*ox + oy*oy <= r*r in
/// the rows -r .. `oy` - 1 of the square of side 2r + 1.
pub open spec fn rows_before(r: int, oy: int) -> nat
    decreases oy + r,
{
    if oy <= -r {
        0
    } else {
        rows_before(r, oy - 1) + row_before(r, oy - 1, r + 1)
    }
}

/// The number of those points in row `oy` with ox < `ox`.
pub open spec fn row_before(r: int, oy: int, ox: int) -> nat
    decreases ox + r,
{
    if ox <= -r {
        0
    } else {
        row_before(r, oy, ox - 1) + if (ox - 1) * (ox - 1) + oy * oy <= r * r {
            1nat
        } else {
            0nat
        }
    }
}

/// The number of cells of a disc of radius `r`.
pub open spec fn disc_cells(r: int) -> nat {
    rows_before(r, r + 1)
}

/// An ant of the founding brood of a colony whose queen is at (`qx`,
/// `qy`): an adult on or next to the queen's cell, facing any heading,
/// younger than 500 ticks, fed, empty handed.
pub open spec fn founder(qx: int, qy: int, a: Ant) -> bool {
    &&& qx - 1 <= a.x <= qx + 1
    &&& qy - 1 <= a.y <= qy + 1
    &&& 0 <= a.dir < 8
    &&& !a.carrying
    &&& a.age < 500
    &&& a.energy == ENERGY_START
    &&& a.phase == Stage::Adult
}

/// The food units of a freshly laid patch cell.
pub open spec fn food_per_patch() -> int {
    FOOD_TOTAL as int / FOOD_PATCHES as int
}

/// The terrain of per-cell ground draws: ground (1) where the draw came
/// up, tunnel (0) elsewhere.
pub fn ground_from(draws: &Vec<bool>) -> (t: Vec<u8>)
    ensures
        t@.len() == draws@.len(),
        forall|i: int| 0 <= i < draws@.len() ==> #[trigger] t@[i] == if draws@[i] { 1u8 } else { 0u8 },
{
    let mut t: Vec<u8> = Vec::new();
    let mut i: usize = 0;
    while i < draws.len()
        invariant
            i <= draws@.len(),
            t@.len() == i,
            forall|j: int| 0 <= j < i ==> #[trigger] t@[j] == if draws@[j] { 1u8 } else { 0u8 },
        decreases draws@.len() - i,
    {
        t.push(if draws[i] { 1 } else { 0 });
        i += 1;
    }
    t
}

/// `n` cells, each ground with chance 39 in 50 and tunnel otherwise;
/// returns the terrain and the draws it came from.
fn fill_ground(n: usize, rng: &mut StdRng) -> (r: (Vec<u8>, Ghost<Seq<bool>>))
    ensures
        r.1@.len() == n,
        r.0@.len() == n,
        forall|i: int| 0 <= i < n ==> #[trigger] r.0@[i] == if r.1@[i] { 1u8 } else { 0u8 },
{
    let mut draws: Vec<bool> = Vec::new();
    while draws.len() < n
        invariant
            draws@.len() <= n,
        decreases n - draws@.len(),
    {
        draws.push(std_ratio(rng, 39, 50));
    }
    let t = ground_from(&draws);
    (t, Ghost(draws@))
}

/// Where a tunnel walk from (`qx`, `qy`) heading `dir0` stands after `k`
/// of its steps, with its heading then: each step first turns by its entry
/// of `turns` (in eighths), then moves one cell on the `w` by `h` torus.
pub open spec fn walk_state(w: int, h: int, qx: int, qy: int, dir0: int, turns: Seq<i32>, k: int) -> (int, int, int)
    decreases k,
{
    if k <= 0 {
        (qx, qy, dir0)
    } else {
        let p = walk_state(w, h, qx, qy, dir0, turns, k - 1);
        let d = (p.2 + turns[k - 1]) % 8;
        let s = dir_step8(d);
        ((p.0 + s.0) % w, (p.1 + s.1) % h, d)
    }
}

/// The cell (by index) a walk stands on after `k` steps.
pub open spec fn walk_cell(w: int, h: int, qx: int, qy: int, dir0: int, turns: Seq<i32>, k: int) -> int {
    let p = walk_state(w, h, qx, qy, dir0, turns, k);
    p.1 * w + p.0
}

/// Cell `i` is one of the cells the first `n` steps of a walk land on.
pub open spec fn walk_digs(w: int, h: int, qx: int, qy: int, dir0: int, turns: Seq<i32>, n: int, i: int) -> bool {
    exists|k: int| 1 <= k <= n && #[trigger] walk_cell(w, h, qx, qy, dir0, turns, k) == i
}

/// Terrain `t` with every cell the first `n` steps of a walk land on dug out.
pub open spec fn walk_dug(t: Seq<u8>, w: int, h: int, qx: int, qy: int, dir0: int, turns: Seq<i32>, n: int) -> Seq<u8> {
    Seq::new(t.len(), |i: int| if walk_digs(w, h, qx, qy, dir0, turns, n, i) { 0u8 } else { t[i] })
}

/// A tunnel walk as the colony draws it: a heading (0 to 7), and 30 to 89
/// steps, each turning by at most an eighth.
pub open spec fn walk_ok(dir0: int, turns: Seq<i32>) -> bool {
    &&& 0 <= dir0 < 8
    &&& 30 <= turns.len() <= 89
    &&& forall|k: int| 0 <= k < turns.len() ==> -1 <= #[trigger] turns[k] <= 1
}

/// Cell `i` lies on one of `walks`, each started from (`qx`, `qy`).
pub open spec fn walks_dig(w: int, h: int, qx: int, qy: int, walks: Seq<(int, Seq<i32>)>, i: int) -> bool {
    exists|b: int|
        0 <= b < walks.len() && #[trigger] walk_digs(w, h, qx, qy, walks[b].0, walks[b].1, walks[b].1.len() as int, i)
}

/// Six walks as the colony draws them.
pub open spec fn walks_ok(walks: Seq<(int, Seq<i32>)>) -> bool {
    &&& walks.len() == 6
    &&& forall|b: int| 0 <= b < 6 ==> walk_ok(#[trigger] walks[b].0, walks[b].1)
}

/// Cells (`ax`, `ay`) and (`bx`, `by`) of a `w` by `h` torus lie within one
/// step of each other, diagonals included.
pub open spec fn within_step(w: int, h: int, ax: int, ay: int, bx: int, by: int) -> bool {
    let dx = (bx - ax) % w;
    let dy = (by - ay) % h;
    &&& (dx <= 1 || dx == w - 1)
    &&& (dy <= 1 || dy == h - 1)
}

/// Some tunnel cell of terrain `t` (`w` wide, `h` high) lies within one
/// step of (`qx`, `qy`).
pub open spec fn tunnel_beside(t: Seq<u8>, w: int, h: int, qx: int, qy: int) -> bool {
    exists|i: int| 0 <= i < t.len() && #[trigger] t[i] == 0 && within_step(w, h, qx, qy, i % w, i / w)
}

/// Cell `i` of terrain `t` lies within one step of (`qx`, `qy`) or of
/// another tunnel cell.
pub open spec fn tunnel_linked(t: Seq<u8>, w: int, h: int, qx: int, qy: int, i: int) -> bool {
    ||| within_step(w, h, qx, qy, i % w, i / w)
    ||| exists|j: int| 0 <= j < t.len() && j != i && #[trigger] t[j] == 0 && within_step(w, h, j % w, j / w, i % w, i / w)
}

/// One step of `d` (-1, 0 or 1) from `a` on a ring of `w` cells lands
/// within one step of `a`, and elsewhere than `a` when it moves on a ring
/// of two or more.
proof fn lemma_ring_step(w: int, a: int, d: int)
    requires
        0 < w,
        0 <= a < w,
        -1 <= d <= 1,
    ensures
        0 <= (a + d) % w < w,
        ((a + d) % w - a) % w <= 1 || ((a + d) % w - a) % w == w - 1,
        w >= 2 && d != 0 ==> (a + d) % w != a,
{
    if d == 0 {
        lemma_fundamental_div_mod_converse(a, w, 0, a);
        lemma_fundamental_div_mod_converse(0, w, 0, 0);
    } else if d == 1 {
        if a + 1 < w {
            lemma_fundamental_div_mod_converse(a + 1, w, 0, a + 1);
            lemma_fundamental_div_mod_converse(1, w, 0, 1);
        } else {
            lemma_fundamental_div_mod_converse(a + 1, w, 1, 0);
            if w >= 2 {
                lemma_fundamental_div_mod_converse(1 - w, w, -1, 1);
            } else {
                lemma_fundamental_div_mod_converse(0, w, 0, 0);
            }
        }
    } else {
        if a > 0 {
            lemma_fundamental_div_mod_converse(a - 1, w, 0, a - 1);
            lemma_fundamental_div_mod_converse(-1, w, -1, w - 1);
        } else {
            lemma_fundamental_div_mod_converse(-1, w, -1, w - 1);
            lemma_fundamental_div_mod_converse(w - 1, w, 0, w - 1);
        }
    }
}

/// A tunnel linked in `t` stays linked in `u` when every tunnel cell of `t`
/// is one in `u`.
proof fn lemma_linked_grows(t: Seq<u8>, u: Seq<u8>, w: int, h: int, qx: int, qy: int, i: int)
    requires
        t.len() == u.len(),
        forall|j: int| 0 <= j < t.len() && #[trigger] t[j] == 0 ==> u[j] == 0,
        tunnel_linked(t, w, h, qx, qy, i),
    ensures
        tunnel_linked(u, w, h, qx, qy, i),
{
    if !within_step(w, h, qx, qy, i % w, i / w) {
        let j = choose|j: int| 0 <= j < t.len() && j != i && #[trigger] t[j] == 0 && within_step(w, h, j % w, j / w, i % w, i / w);
        assert(u[j] == 0);
    }
}

/// Clearing the cell a walk lands on at step `k + 1` turns the terrain dug
/// by its first `k` steps into the terrain dug by its first `k + 1`.
proof fn lemma_walk_dug_step(
    t0: Seq<u8>,
    before: Seq<u8>,
    after: Seq<u8>,
    w: int,
    h: int,
    qx: int,
    qy: int,
    d0: int,
    turns: Seq<i32>,
    k: int,
    c: int,
)
    requires
        0 <= k,
        0 <= c < t0.len(),
        before == walk_dug(t0, w, h, qx, qy, d0, turns, k),
        after == before.update(c, 0u8),
        c == walk_cell(w, h, qx, qy, d0, turns, k + 1),
    ensures
        after == walk_dug(t0, w, h, qx, qy, d0, turns, k + 1),
{
    assert forall|j: int| 0 <= j < t0.len() implies #[trigger] after[j] == walk_dug(t0, w, h, qx, qy, d0, turns, k + 1)[j] by {
        if j == c {
            assert(walk_digs(w, h, qx, qy, d0, turns, k + 1, j));
        } else {
            if walk_digs(w, h, qx, qy, d0, turns, k + 1, j) {
                let kk = choose|kk: int| 1 <= kk <= k + 1 && #[trigger] walk_cell(w, h, qx, qy, d0, turns, kk) == j;
                assert(kk != k + 1);
                assert(walk_digs(w, h, qx, qy, d0, turns, k, j));
            }
            if walk_digs(w, h, qx, qy, d0, turns, k, j) {
                let kk = choose|kk: int| 1 <= kk <= k && #[trigger] walk_cell(w, h, qx, qy, d0, turns, kk) == j;
                assert(walk_digs(w, h, qx, qy, d0, turns, k + 1, j));
            }
        }
    }
    assert(after =~= walk_dug(t0, w, h, qx, qy, d0, turns, k + 1));
}

/// Each step of a tunnel walk lands within one cell (diagonals included)
/// of where the walk stood, the first step within one cell of the queen:
/// the six tunnels of a fresh colony run unbroken from her chamber.
pub proof fn law_walk_steps_touch(w: int, h: int, qx: int, qy: int, dir0: int, turns: Seq<i32>, k: int)
    requires
        0 < w,
        0 < h,
        0 <= qx < w,
        0 <= qy < h,
        0 <= k < turns.len(),
    ensures
        ({
            let p = walk_state(w, h, qx, qy, dir0, turns, k);
            let q = walk_state(w, h, qx, qy, dir0, turns, k + 1);
            &&& 0 <= q.0 < w && 0 <= q.1 < h
            &&& within_step(w, h, p.0, p.1, q.0, q.1)
        }),
{
    let p = walk_state(w, h, qx, qy, dir0, turns, k);
    if k > 0 {
        let pp = walk_state(w, h, qx, qy, dir0, turns, k - 1);
        let d = (pp.2 + turns[k - 1]) % 8;
        let st = dir_step8(d);
        vstd::arithmetic::div_mod::lemma_mod_bound(pp.0 + st.0, w);
        vstd::arithmetic::div_mod::lemma_mod_bound(pp.1 + st.1, h);
    }
    assert(0 <= p.0 < w && 0 <= p.1 < h);
    let d = (p.2 + turns[k]) % 8;
    let st = dir_step8(d);
    assert(-1 <= st.0 <= 1 && -1 <= st.1 <= 1);
    lemma_ring_step(w, p.0, st.0 as int);
    lemma_ring_step(h, p.1, st.1 as int);
}

/// Digs one tunnel walk from the queen's cell (`qx`, `qy`): heading `dir0`
/// to start, each step turning by its entry of `turns` and then clearing
/// the cell it moves onto.  The result is `walk_dug` exactly; the first
/// cell cleared lies beside the queen, and every cell cleared lies beside
/// the queen or beside the tunnel cell the walk came from.
#[verifier::rlimit(50)]
pub fn dig_walk(terrain: &mut Vec<u8>, w: usize, h: usize, qx: i32, qy: i32, dir0: i32, turns: &Vec<i32>)
    requires
        0 < w <= 32767,
        0 < h <= 32767,
        old(terrain)@.len() == w * h,
        0 <= qx < w,
        0 <= qy < h,
        0 <= dir0 < 8,
        forall|k: int| 0 <= k < turns@.len() ==> -1 <= #[trigger] turns@[k] <= 1,
    ensures
        final(terrain)@ == walk_dug(old(terrain)@, w as int, h as int, qx as int, qy as int, dir0 as int, turns@, turns@.len() as int),
        turns@.len() > 0 ==> tunnel_beside(final(terrain)@, w as int, h as int, qx as int, qy as int),
        w >= 2 && h >= 2 ==> forall|i: int|
            0 <= i < old(terrain)@.len() && #[trigger] final(terrain)@[i] == 0 && old(terrain)@[i] != 0 ==> tunnel_linked(
                final(terrain)@,
                w as int,
                h as int,
                qx as int,
                qy as int,
                i,
            ),
{
    let ghost t0 = terrain@;
    let ghost (gw, gh, gqx, gqy, gd) = (w as int, h as int, qx as int, qy as int, dir0 as int);
    assert(w * h <= 32767 * 32767) by (nonlinear_arith)
        requires
            0 < w <= 32767,
            0 < h <= 32767,
    ;
    assert(t0 =~= walk_dug(t0, gw, gh, gqx, gqy, gd, turns@, 0));
    let mut x = qx;
    let mut y = qy;
    let mut dir = dir0;
    let mut k: usize = 0;
    while k < turns.len()
        invariant
            0 < w <= 32767,
            0 < h <= 32767,
            w * h <= 32767 * 32767,
            0 <= x < w,
            0 <= y < h,
            0 <= dir < 8,
            0 <= qx < w,
            0 <= qy < h,
            gw == w, gh == h, gqx == qx, gqy == qy, gd == dir0,
            forall|q: int| 0 <= q < turns@.len() ==> -1 <= #[trigger] turns@[q] <= 1,
            k <= turns@.len(),
            terrain@.len() == w * h,
            t0.len() == w * h,
            (x as int, y as int, dir as int) == walk_state(gw, gh, gqx, gqy, gd, turns@, k as int),
            terrain@ == walk_dug(t0, gw, gh, gqx, gqy, gd, turns@, k as int),
            k > 0 ==> tunnel_beside(terrain@, gw, gh, gqx, gqy),
            w >= 2 && h >= 2 ==> forall|i: int|
                0 <= i < t0.len() && #[trigger] terrain@[i] == 0 && t0[i] != 0 ==> tunnel_linked(terrain@, gw, gh, gqx, gqy, i),
            k == 0 ==> x == qx && y == qy,
            k > 0 ==> terrain@[y * w + x] == 0,
        decreases turns@.len() - k,
    {
        dir = rotate_dir(dir, turns[k]);
        let (dx, dy) = dir_vec(dir);
        let ghost (px, py) = (x as int, y as int);
        assert(-1 <= dx <= 1 && -1 <= dy <= 1 && (dx != 0 || dy != 0));
        x = wrap_i32(x + dx, w as i32);
        y = wrap_i32(y + dy, h as i32);
        let (ux, uy) = wrap_xy(w, h, x, y);
        assert(uy * w + ux < w * h) by (nonlinear_arith)
            requires
                ux < w,
                uy < h,
        ;
        let i = idx(w, ux, uy);
        let ghost before = terrain@;
        terrain.set(i, 0);
        proof {
            let k1 = (k + 1) as int;
            assert((x as int, y as int, dir as int) == walk_state(gw, gh, gqx, gqy, gd, turns@, k1));
            lemma_ring_step(gw, px, dx as int);
            lemma_ring_step(gh, py, dy as int);
            assert((x as int) % gw == x) by {
                lemma_fundamental_div_mod_converse(x as int, gw, 0, x as int);
            }
            assert((y as int) % gh == y) by {
                lemma_fundamental_div_mod_converse(y as int, gh, 0, y as int);
            }
            assert(ux == x && uy == y);
            assert(i as int == walk_cell(gw, gh, gqx, gqy, gd, turns@, k1));
            lemma_walk_dug_step(t0, before, terrain@, gw, gh, gqx, gqy, gd, turns@, k as int, i as int);
            assert((i as int) % gw == ux && (i as int) / gw == uy) by {
                lemma_fundamental_div_mod_converse(i as int, gw, uy as int, ux as int);
            }
            assert(within_step(gw, gh, px, py, (i as int) % gw, (i as int) / gw));
            let pi = py * gw + px;
            if k > 0 {
                assert(0 <= pi < t0.len()) by (nonlinear_arith)
                    requires
                        0 <= px < gw,
                        0 <= py < gh,
                        pi == py * gw + px,
                        t0.len() == gw * gh,
                ;
                assert(pi % gw == px && pi / gw == py) by {
                    lemma_fundamental_div_mod_converse(pi, gw, py, px);
                }
                assert(terrain@[pi] == 0);
            }
            if k == 0 {
                assert(terrain@[i as int] == 0);
                assert(tunnel_beside(terrain@, gw, gh, gqx, gqy));
            } else {
                let q = choose|q: int| 0 <= q < before.len() && #[trigger] before[q] == 0 && within_step(gw, gh, gqx, gqy, q % gw, q / gw);
                assert(terrain@[q] == 0);
                assert(tunnel_beside(terrain@, gw, gh, gqx, gqy));
            }
            if w >= 2 && h >= 2 {
                assert forall|j: int| 0 <= j < t0.len() && #[trigger] terrain@[j] == 0 && t0[j] != 0 implies tunnel_linked(
                    terrain@,
                    gw,
                    gh,
                    gqx,
                    gqy,
                    j,
                ) by {
                    if j == i as int {
                        if k > 0 {
                            assert(pi != j);
                            assert(terrain@[pi] == 0);
                            assert(within_step(gw, gh, pi % gw, pi / gw, j % gw, j / gw));
                        }
                    } else {
                        assert(before[j] == 0);
                        assert(tunnel_linked(before, gw, gh, gqx, gqy, j));
                        assert forall|q: int| 0 <= q < before.len() && #[trigger] before[q] == 0 implies terrain@[q] == 0 by {}
                        lemma_linked_grows(before, terrain@, gw, gh, gqx, gqy, j);
                    }
                }
            }
        }
        k += 1;
    }
}

/// Six tunnels dug from the queen's cell, each a random walk of 30 to 89
/// steps on the torus that turns an eighth either way with chance 1 in 4
/// per step; returns the walks drawn.  Exactly the cells the walks land on
/// are dug; each walk starts beside the queen, and every cell it clears
/// lies beside the queen or beside the tunnel cell it came from.
fn dig_branches(terrain: &mut Vec<u8>, w: usize, h: usize, qx: i32, qy: i32, rng: &mut StdRng) -> (walks: Ghost<Seq<(int, Seq<i32>)>>)
    requires
        0 < w <= 32767,
        0 < h <= 32767,
        old(terrain)@.len() == w * h,
        0 <= qx < w,
        0 <= qy < h,
    ensures
        walks_ok(walks@),
        final(terrain)@.len() == old(terrain)@.len(),
        forall|i: int|
            0 <= i < old(terrain)@.len() ==> #[trigger] final(terrain)@[i] == if walks_dig(
                w as int,
                h as int,
                qx as int,
                qy as int,
                walks@,
                i,
            ) {
                0u8
            } else {
                old(terrain)@[i]
            },
        forall|i: int| 0 <= i < old(terrain)@.len() ==> #[trigger] final(terrain)@[i] <= old(terrain)@[i],
        tunnel_beside(final(terrain)@, w as int, h as int, qx as int, qy as int),
        w >= 2 && h >= 2 ==> forall|i: int|
            0 <= i < old(terrain)@.len() && #[trigger] final(terrain)@[i] == 0 && old(terrain)@[i] != 0 ==> tunnel_linked(
                final(terrain)@,
                w as int,
                h as int,
                qx as int,
                qy as int,
                i,
            ),
{
    let ghost t0 = terrain@;
    let ghost (gw, gh, gqx, gqy) = (w as int, h as int, qx as int, qy as int);
    let ghost mut ws: Seq<(int, Seq<i32>)> = Seq::empty();
    let mut b: usize = 0;
    while b < 6
        invariant
            0 < w <= 32767,
            0 < h <= 32767,
            0 <= qx < w,
            0 <= qy < h,
            gw == w, gh == h, gqx == qx, gqy == qy,
            terrain@.len() == w * h,
            t0.len() == w * h,
            b <= 6,
            ws.len() == b,
            forall|c: int| 0 <= c < b ==> walk_ok(#[trigger] ws[c].0, ws[c].1),
            forall|i: int|
                0 <= i < t0.len() ==> #[trigger] terrain@[i] == if walks_dig(gw, gh, gqx, gqy, ws, i) {
                    0u8
                } else {
                    t0[i]
                },
            b > 0 ==> tunnel_beside(terrain@, gw, gh, gqx, gqy),
            w >= 2 && h >= 2 ==> forall|i: int|
                0 <= i < t0.len() && #[trigger] terrain@[i] == 0 && t0[i] != 0 ==> tunnel_linked(terrain@, gw, gh, gqx, gqy, i),
        decreases 6 - b,
    {
        let steps = std_range_usize(rng, 30, 89);
        let dir = std_range_i32(rng, 0, 7);
        let mut turns: Vec<i32> = Vec::new();
        while turns.len() < steps
            invariant
                turns@.len() <= steps,
                forall|q: int| 0 <= q < turns@.len() ==> -1 <= #[trigger] turns@[q] <= 1,
            decreases steps - turns@.len(),
        {
            let t = if std_ratio(rng, 1, 4) { std_range_i32(rng, -1, 1) } else { 0 };
            turns.push(t);
        }
        let ghost before = terrain@;
        dig_walk(terrain, w, h, qx, qy, dir, &turns);
        proof {
            let nw = ws.push((dir as int, turns@));
            let n = turns@.len() as int;
            assert forall|i: int| 0 <= i < t0.len() implies #[trigger] terrain@[i] == if walks_dig(gw, gh, gqx, gqy, nw, i) {
                0u8
            } else {
                t0[i]
            } by {
                assert(terrain@[i] == walk_dug(before, gw, gh, gqx, gqy, dir as int, turns@, n)[i]);
                if walks_dig(gw, gh, gqx, gqy, ws, i) {
                    let c = choose|c: int| 0 <= c < ws.len() && #[trigger] walk_digs(gw, gh, gqx, gqy, ws[c].0, ws[c].1, ws[c].1.len() as int, i);
                    assert(nw[c] == ws[c]);
                    assert(walks_dig(gw, gh, gqx, gqy, nw, i));
                }
                if walk_digs(gw, gh, gqx, gqy, dir as int, turns@, n, i) {
                    assert(nw[b as int] == (dir as int, turns@));
                    assert(walk_digs(gw, gh, gqx, gqy, nw[b as int].0, nw[b as int].1, nw[b as int].1.len() as int, i));
                    assert(walks_dig(gw, gh, gqx, gqy, nw, i));
                }
                if walks_dig(gw, gh, gqx, gqy, nw, i) {
                    let c = choose|c: int| 0 <= c < nw.len() && #[trigger] walk_digs(gw, gh, gqx, gqy, nw[c].0, nw[c].1, nw[c].1.len() as int, i);
                    if c < b {
                        assert(nw[c] == ws[c]);
                        assert(walks_dig(gw, gh, gqx, gqy, ws, i));
                    }
                }
            }
            if b > 0 {
                let q = choose|q: int| 0 <= q < before.len() && #[trigger] before[q] == 0 && within_step(gw, gh, gqx, gqy, q % gw, q / gw);
                assert(terrain@[q] == walk_dug(before, gw, gh, gqx, gqy, dir as int, turns@, n)[q]);
            }
            if w >= 2 && h >= 2 {
                assert forall|i: int| 0 <= i < t0.len() && #[trigger] terrain@[i] == 0 && t0[i] != 0 implies tunnel_linked(
                    terrain@, gw, gh, gqx, gqy, i) by {
                    if before[i] == 0 {
                        assert forall|q: int| 0 <= q < before.len() && #[trigger] before[q] == 0 implies terrain@[q] == 0 by {
                            assert(terrain@[q] == walk_dug(before, gw, gh, gqx, gqy, dir as int, turns@, n)[q]);
                        }
                        lemma_linked_grows(before, terrain@, gw, gh, gqx, gqy, i);
                    }
                }
            }
            ws = nw;
        }
        b += 1;
    }
    Ghost(ws)
}

proof fn lemma_row_before_bound(oy: int, ox: int)
    requires
        -5 <= ox,
    ensures
        row_before(5, oy, ox) <= ox + 5,
    decreases ox + 5,
{
    if ox > -5 {
        lemma_row_before_bound(oy, ox - 1);
    }
}

proof fn lemma_rows_before_bound(oy: int)
    requires
        -5 <= oy,
    ensures
        rows_before(5, oy) <= (oy + 5) * 11,
    decreases oy + 5,
{
    if oy > -5 {
        lemma_rows_before_bound(oy - 1);
        lemma_row_before_bound(oy - 1, 6);
    }
}

/// `n` copies of `v`.
fn filled_u16(n: usize, v: u16) -> (r: Vec<u16>)
    ensures
        r@ == Seq::new(n as nat, |i: int| v),
{
    let mut r: Vec<u16> = Vec::new();
    while r.len() < n
        invariant
            r@.len() <= n,
            forall|j: int| 0 <= j < r@.len() ==> #[trigger] r@[j] == v,
        decreases n - r@.len(),
    {
        r.push(v);
    }
    assert(r@ =~= Seq::new(n as nat, |i: int| v));
    r
}

/// `n` copies of `v`.
fn filled_i16(n: usize, v: i16) -> (r: Vec<i16>)
    ensures
        r@ == Seq::new(n as nat, |i: int| v),
{
    let mut r: Vec<i16> = Vec::new();
    while r.len() < n
        invariant
            r@.len() <= n,
            forall|j: int| 0 <= j < r@.len() ==> #[trigger] r@[j] == v,
        decreases n - r@.len(),
    {
        r.push(v);
    }
    assert(r@ =~= Seq::new(n as nat, |i: int| v));
    r
}

/// Cell `i` is hit by an offset of the disc of radius `r` round
/// (`cx`, `cy`) in a row above `oy`, or in row `oy` left of `ox`.
pub open spec fn disc_seen(w: int, h: int, cx: int, cy: int, r: int, oy: int, ox: int, i: int) -> bool {
    exists|px: int, qy: int|
        -r <= px <= r && -r <= qy <= oy && (qy < oy || px < ox) && px * px + qy * qy <= r * r
            && #[trigger] room_cell(w, h, cx + px, cy + qy) == i
}

proof fn lemma_disc_seen_rows(w: int, h: int, cx: int, cy: int, r: int, oy: int, i: int)
    requires
        0 <= r,
    ensures
        disc_seen(w, h, cx, cy, r, oy, r + 1, i) == disc_seen(w, h, cx, cy, r, oy + 1, -r, i),
        disc_seen(w, h, cx, cy, r, r + 1, -r, i) == in_room(w, h, cx, cy, r, i),
{
    if disc_seen(w, h, cx, cy, r, oy, r + 1, i) {
        let (px, qy) = choose|px: int, qy: int|
            -r <= px <= r && -r <= qy <= oy && (qy < oy || px < r + 1) && px * px + qy * qy <= r * r
                && #[trigger] room_cell(w, h, cx + px, cy + qy) == i;
        assert(room_cell(w, h, cx + px, cy + qy) == i);
    }
    if disc_seen(w, h, cx, cy, r, oy + 1, -r, i) {
        let (px, qy) = choose|px: int, qy: int|
            -r <= px <= r && -r <= qy <= oy + 1 && (qy < oy + 1 || px < -r) && px * px + qy * qy <= r * r
                && #[trigger] room_cell(w, h, cx + px, cy + qy) == i;
        assert(room_cell(w, h, cx + px, cy + qy) == i);
    }
    if disc_seen(w, h, cx, cy, r, r + 1, -r, i) {
        let (px, qy) = choose|px: int, qy: int|
            -r <= px <= r && -r <= qy <= r + 1 && (qy < r + 1 || px < -r) && px * px + qy * qy <= r * r
                && #[trigger] room_cell(w, h, cx + px, cy + qy) == i;
        assert(room_cell(w, h, cx + px, cy + qy) == i);
    }
    if in_room(w, h, cx, cy, r, i) {
        let (px, qy) = choose|px: int, qy: int|
            -r <= px <= r && -r <= qy <= r && px * px + qy * qy <= r * r && #[trigger] room_cell(w, h, cx + px, cy + qy) == i;
        assert(room_cell(w, h, cx + px, cy + qy) == i);
    }
}

/// What a patch has made of food `f0` and patch marks `i0` once the
/// offsets `disc_seen` covers are laid.
pub open spec fn patch_laid(
    f0: Seq<u16>,
    i0: Seq<i16>,
    f: Seq<u16>,
    ids: Seq<i16>,
    seen: bool,
    i: int,
    per: u16,
    pid: i16,
) -> bool {
    if seen {
        f[i] >= per && ids[i] == pid
    } else {
        f[i] == f0[i] && ids[i] == i0[i]
    }
}

/// Lays `per` units of food (saturating) on each cell of the disc of
/// radius 5 round (`fx`, `fy`) on the torus and marks those cells as
/// patch `pid`; returns the units laid.  Cells off the disc keep their
/// food and mark.
fn add_patch(food: &mut Vec<u16>, ids: &mut Vec<i16>, w: usize, h: usize, fx: i32, fy: i32, pid: i16, per: u16) -> (total: u32)
    requires
        0 < w <= 32767,
        0 < h <= 32767,
        old(food)@.len() == w * h,
        old(ids)@.len() == w * h,
        0 <= fx < w,
        0 <= fy < h,
        pid >= 0,
        per >= 1,
    ensures
        final(food)@.len() == w * h,
        final(ids)@.len() == w * h,
        forall|i: int|
            0 <= i < w * h ==> if #[trigger] in_room(w as int, h as int, fx as int, fy as int, FOOD_PATCH_RADIUS as int, i) {
                final(food)@[i] >= per && final(ids)@[i] == pid
            } else {
                final(food)@[i] == old(food)@[i] && final(ids)@[i] == old(ids)@[i]
            },
        total == per * disc_cells(FOOD_PATCH_RADIUS as int),
{
    let ghost f0 = food@;
    let ghost i0 = ids@;
    let ghost (gw, gh, gx, gy) = (w as int, h as int, fx as int, fy as int);
    assert(w * h <= 32767 * 32767) by (nonlinear_arith)
        requires
            0 < w <= 32767,
            0 < h <= 32767,
    ;
    let r = FOOD_PATCH_RADIUS;
    let mut total: u32 = 0;
    let mut oy: i32 = -r;
    assert(rows_before(5, -5) == 0);
    while oy <= r
        invariant
            r == 5,
            0 < w <= 32767,
            0 < h <= 32767,
            w * h <= 32767 * 32767,
            0 <= fx < w,
            0 <= fy < h,
            gw == w, gh == h, gx == fx, gy == fy,
            pid >= 0,
            per >= 1,
            -5 <= oy <= 6,
            f0.len() == w * h,
            i0.len() == w * h,
            food@.len() == w * h,
            ids@.len() == w * h,
            forall|i: int|
                0 <= i < w * h ==> patch_laid(f0, i0, food@, ids@, #[trigger] disc_seen(gw, gh, gx, gy, 5, oy as int, -5, i), i, per, pid),
            total == per * rows_before(5, oy as int),
        decreases 6 - oy,
    {
        let mut ox: i32 = -r;
        while ox <= r
            invariant
                r == 5,
                0 < w <= 32767,
                0 < h <= 32767,
                w * h <= 32767 * 32767,
                0 <= fx < w,
                0 <= fy < h,
                gw == w, gh == h, gx == fx, gy == fy,
                pid >= 0,
                per >= 1,
                -5 <= oy <= 5,
                -5 <= ox <= 6,
                f0.len() == w * h,
                i0.len() == w * h,
                food@.len() == w * h,
                ids@.len() == w * h,
                forall|i: int|
                    0 <= i < w * h ==> patch_laid(f0, i0, food@, ids@, #[trigger] disc_seen(gw, gh, gx, gy, 5, oy as int, ox as int, i), i, per, pid),
                total == per * (rows_before(5, oy as int) + row_before(5, oy as int, ox as int)),
            decreases 6 - ox,
        {
            proof {
                lemma_rows_before_bound(oy as int);
                lemma_row_before_bound(oy as int, ox as int);
                assert(per * (rows_before(5, oy as int) + row_before(5, oy as int, ox as int)) <= 65535 * 121)
                    by (nonlinear_arith)
                    requires
                        per <= 65535,
                        rows_before(5, oy as int) + row_before(5, oy as int, ox as int) <= 121,
                ;
                assert(row_before(5, oy as int, ox + 1) == row_before(5, oy as int, ox as int) + if ox * ox + oy
                    * oy <= 25 {
                    1nat
                } else {
                    0nat
                });
            }
            assert(0 <= ox * ox <= 25 && 0 <= oy * oy <= 25) by (nonlinear_arith)
                requires
                    -5 <= ox <= 5,
                    -5 <= oy <= 5,
            ;
            let ghost fb = food@;
            let ghost ib = ids@;
            if ox * ox + oy * oy <= r * r {
                let (ux, uy) = wrap_xy(w, h, fx + ox, fy + oy);
                assert(uy * w + ux < w * h) by (nonlinear_arith)
                    requires
                        ux < w,
                        uy < h,
                ;
                let i = idx(w, ux, uy);
                assert(i as int == room_cell(gw, gh, gx + ox, gy + oy));
                let f = food[i];
                food.set(i, f.saturating_add(per));
                ids.set(i, pid);
                assert forall|j: int| 0 <= j < w * h implies patch_laid(f0, i0, food@, ids@, #[trigger] disc_seen(gw, gh, gx, gy, 5, oy as int, ox + 1, j), j, per, pid) by {
                    if j == i as int {
                        assert(room_cell(gw, gh, gx + ox, gy + oy) == j);
                        assert(disc_seen(gw, gh, gx, gy, 5, oy as int, ox + 1, j));
                    } else {
                        assert(fb[j] == food@[j] && ib[j] == ids@[j]);
                        assert(patch_laid(f0, i0, fb, ib, disc_seen(gw, gh, gx, gy, 5, oy as int, ox as int, j), j, per, pid));
                        if disc_seen(gw, gh, gx, gy, 5, oy as int, ox + 1, j) {
                            let (px, qy) = choose|px: int, qy: int|
                                -5 <= px <= 5 && -5 <= qy <= oy && (qy < oy || px < ox + 1) && px * px + qy * qy <= 25
                                    && #[trigger] room_cell(gw, gh, gx + px, gy + qy) == j;
                            assert(px != ox || qy != oy);
                            assert(room_cell(gw, gh, gx + px, gy + qy) == j);
                            assert(disc_seen(gw, gh, gx, gy, 5, oy as int, ox as int, j));
                        }
                        if disc_seen(gw, gh, gx, gy, 5, oy as int, ox as int, j) {
                            let (px, qy) = choose|px: int, qy: int|
                                -5 <= px <= 5 && -5 <= qy <= oy && (qy < oy || px < ox) && px * px + qy * qy <= 25
                                    && #[trigger] room_cell(gw, gh, gx + px, gy + qy) == j;
                            assert(room_cell(gw, gh, gx + px, gy + qy) == j);
                        }
                    }
                }
                assert(per * (rows_before(5, oy as int) + row_before(5, oy as int, ox as int) + 1) == per * (
                rows_before(5, oy as int) + row_before(5, oy as int, ox as int)) + per) by (nonlinear_arith);
                total = total.saturating_add(per as u32);
            } else {
                assert forall|j: int| 0 <= j < w * h implies patch_laid(f0, i0, food@, ids@, #[trigger] disc_seen(gw, gh, gx, gy, 5, oy as int, ox + 1, j), j, per, pid) by {
                    assert(patch_laid(f0, i0, fb, ib, disc_seen(gw, gh, gx, gy, 5, oy as int, ox as int, j), j, per, pid));
                    if disc_seen(gw, gh, gx, gy, 5, oy as int, ox + 1, j) {
                        let (px, qy) = choose|px: int, qy: int|
                            -5 <= px <= 5 && -5 <= qy <= oy && (qy < oy || px < ox + 1) && px * px + qy * qy <= 25
                                && #[trigger] room_cell(gw, gh, gx + px, gy + qy) == j;
                        assert(px != ox || qy != oy);
                        assert(room_cell(gw, gh, gx + px, gy + qy) == j);
                        assert(disc_seen(gw, gh, gx, gy, 5, oy as int, ox as int, j));
                    }
                    if disc_seen(gw, gh, gx, gy, 5, oy as int, ox as int, j) {
                        let (px, qy) = choose|px: int, qy: int|
                            -5 <= px <= 5 && -5 <= qy <= oy && (qy < oy || px < ox) && px * px + qy * qy <= 25
                                && #[trigger] room_cell(gw, gh, gx + px, gy + qy) == j;
                        assert(room_cell(gw, gh, gx + px, gy + qy) == j);
                    }
                }
            }
            ox += 1;
        }
        assert forall|j: int| 0 <= j < w * h implies patch_laid(f0, i0, food@, ids@, #[trigger] disc_seen(gw, gh, gx, gy, 5, oy + 1, -5, j), j, per, pid) by {
            lemma_disc_seen_rows(gw, gh, gx, gy, 5, oy as int, j);
            assert(patch_laid(f0, i0, food@, ids@, disc_seen(gw, gh, gx, gy, 5, oy as int, 6, j), j, per, pid));
        }
        assert(rows_before(5, oy + 1) == rows_before(5, oy as int) + row_before(5, oy as int, 6));
        oy += 1;
    }
    assert forall|j: int| 0 <= j < w * h implies #[trigger] in_room(gw, gh, gx, gy, 5, j) == disc_seen(gw, gh, gx, gy, 5, 6, -5, j) by {
        lemma_disc_seen_rows(gw, gh, gx, gy, 5, 5, j);
    }
    assert forall|j: int| 0 <= j < w * h implies (if #[trigger] in_room(gw, gh, gx, gy, 5, j) {
        food@[j] >= per && ids@[j] == pid
    } else {
        food@[j] == f0[j] && ids@[j] == i0[j]
    }) by {
        assert(patch_laid(f0, i0, food@, ids@, disc_seen(gw, gh, gx, gy, 5, 6, -5, j), j, per, pid));
    }
    total
}

/// A food patch as drawn: a centre on the grid at least sqrt(280) cells
/// from the queen (in plain coordinates), and whether it clears a chamber.
pub open spec fn spot_ok(w: int, h: int, qx: int, qy: int, s: (i32, i32, bool)) -> bool {
    &&& 0 <= s.0 < w
    &&& 0 <= s.1 < h
    &&& (s.0 - qx) * (s.0 - qx) + (s.1 - qy) * (s.1 - qy) >= 280
}

/// The last of the first `n` patches whose disc of radius 5 holds cell
/// `i`, or -1 when none does.
pub open spec fn last_patch(w: int, h: int, spots: Seq<(i32, i32, bool)>, n: int, i: int) -> int
    decreases n,
{
    if n <= 0 {
        -1
    } else if in_room(w, h, spots[n - 1].0 as int, spots[n - 1].1 as int, FOOD_PATCH_RADIUS as int, i) {
        n - 1
    } else {
        last_patch(w, h, spots, n - 1, i)
    }
}

/// Cell `i` lies in the chamber (radius 2) of one of the first `n` patches
/// that clears one.
pub open spec fn patch_cleared(w: int, h: int, spots: Seq<(i32, i32, bool)>, n: int, i: int) -> bool {
    exists|p: int| 0 <= p < n && spots[p].2 && #[trigger] in_room(w, h, spots[p].0 as int, spots[p].1 as int, 2, i)
}

/// Lays the food patches at `spots`, in order: each clears its chamber
/// when drawn to, lays `food_per_patch()` units on every cell of its disc
/// of radius 5 (cells of later patches belong to them), and records the
/// units it laid.  Returns the food, the patch of each cell, the units of
/// each patch and whether each still has any.
pub fn plant_patches(terrain: &mut Vec<u8>, w: usize, h: usize, spots: &Vec<(i32, i32, bool)>) -> (r: (
    Vec<u16>,
    Vec<i16>,
    Vec<u32>,
    Vec<bool>,
))
    requires
        0 < w <= 32767,
        0 < h <= 32767,
        old(terrain)@.len() == w * h,
        spots@.len() <= FOOD_PATCHES,
        forall|p: int| 0 <= p < spots@.len() ==> 0 <= (#[trigger] spots@[p]).0 < w && 0 <= spots@[p].1 < h,
    ensures
        final(terrain)@.len() == w * h,
        forall|i: int|
            0 <= i < w * h ==> #[trigger] final(terrain)@[i] == if patch_cleared(
                w as int,
                h as int,
                spots@,
                spots@.len() as int,
                i,
            ) {
                0u8
            } else {
                old(terrain)@[i]
            },
        r.0@.len() == w * h,
        r.1@.len() == w * h,
        r.2@.len() == spots@.len(),
        r.3@.len() == spots@.len(),
        forall|p: int| 0 <= p < r.2@.len() ==> #[trigger] r.3@[p] && r.2@[p] == food_per_patch() * disc_cells(
            FOOD_PATCH_RADIUS as int,
        ),
        forall|i: int| 0 <= i < w * h ==> #[trigger] r.1@[i] == last_patch(w as int, h as int, spots@, spots@.len() as int, i),
        forall|i: int| 0 <= i < w * h ==> (#[trigger] r.0@[i] > 0) == (r.1@[i] >= 0),
        forall|i: int| 0 <= i < w * h ==> #[trigger] r.1@[i] >= 0 ==> r.0@[i] >= food_per_patch(),
{
    let ghost t0 = terrain@;
    let ghost (gw, gh) = (w as int, h as int);
    let quotient: u16 = FOOD_TOTAL / (FOOD_PATCHES as u16);
    let per: u16 = if quotient > 1 { quotient } else { 1 };
    assert(per == food_per_patch());
    assert(w * h <= 32767 * 32767) by (nonlinear_arith)
        requires
            0 < w <= 32767,
            0 < h <= 32767,
    ;
    let mut food = filled_u16(w * h, 0);
    let mut ids = filled_i16(w * h, -1);
    let mut rem: Vec<u32> = Vec::new();
    let mut act: Vec<bool> = Vec::new();
    let mut p: usize = 0;
    while p < spots.len()
        invariant
            0 < w <= 32767,
            0 < h <= 32767,
            gw == w, gh == h,
            spots@.len() <= FOOD_PATCHES,
            forall|q: int| 0 <= q < spots@.len() ==> 0 <= (#[trigger] spots@[q]).0 < w && 0 <= spots@[q].1 < h,
            per == food_per_patch(),
            p <= spots@.len(),
            t0.len() == w * h,
            terrain@.len() == w * h,
            forall|i: int| 0 <= i < w * h ==> #[trigger] terrain@[i] == if patch_cleared(gw, gh, spots@, p as int, i) {
                0u8
            } else {
                t0[i]
            },
            food@.len() == w * h,
            ids@.len() == w * h,
            rem@.len() == p,
            act@.len() == p,
            forall|q: int| 0 <= q < rem@.len() ==> #[trigger] act@[q] && rem@[q] == food_per_patch() * disc_cells(
                FOOD_PATCH_RADIUS as int,
            ),
            forall|i: int| 0 <= i < w * h ==> #[trigger] ids@[i] == last_patch(gw, gh, spots@, p as int, i),
            forall|i: int| 0 <= i < w * h ==> (#[trigger] food@[i] > 0) == (ids@[i] >= 0),
            forall|i: int| 0 <= i < w * h ==> #[trigger] ids@[i] >= 0 ==> food@[i] >= per,
        decreases spots@.len() - p,
    {
        let (fx, fy, carve) = spots[p];
        let ghost tb = terrain@;
        if carve {
            carve_room(terrain, w, h, fx, fy, 2);
        }
        proof {
            assert forall|i: int| 0 <= i < w * h implies #[trigger] terrain@[i] == if patch_cleared(gw, gh, spots@, p + 1, i) {
                0u8
            } else {
                t0[i]
            } by {
                if patch_cleared(gw, gh, spots@, p as int, i) {
                    let q = choose|q: int| 0 <= q < p && spots@[q].2 && #[trigger] in_room(gw, gh, spots@[q].0 as int, spots@[q].1 as int, 2, i);
                    assert(patch_cleared(gw, gh, spots@, p + 1, i));
                }
                if carve && in_room(gw, gh, fx as int, fy as int, 2, i) {
                    assert(patch_cleared(gw, gh, spots@, p + 1, i));
                }
                if patch_cleared(gw, gh, spots@, p + 1, i) {
                    let q = choose|q: int| 0 <= q < p + 1 && spots@[q].2 && #[trigger] in_room(gw, gh, spots@[q].0 as int, spots@[q].1 as int, 2, i);
                    if q < p {
                        assert(patch_cleared(gw, gh, spots@, p as int, i));
                    }
                }
            }
        }
        let pid = p as i16;
        let ghost fb = food@;
        let ghost ib = ids@;
        let total = add_patch(&mut food, &mut ids, w, h, fx, fy, pid, per);
        rem.push(total);
        act.push(true);
        proof {
            assert forall|i: int| 0 <= i < w * h implies #[trigger] ids@[i] == last_patch(gw, gh, spots@, p + 1, i) by {
                assert(in_room(gw, gh, fx as int, fy as int, FOOD_PATCH_RADIUS as int, i) ==> ids@[i] == pid);
            }
            assert forall|i: int| 0 <= i < w * h implies (#[trigger] food@[i] > 0) == (ids@[i] >= 0) by {
                assert(fb[i] > 0 <==> ib[i] >= 0);
            }
            assert forall|i: int| 0 <= i < w * h && #[trigger] ids@[i] >= 0 implies food@[i] >= per by {
                assert(ib[i] >= 0 ==> fb[i] >= per);
            }
        }
        p += 1;
    }
    (food, ids, rem, act)
}

/// Up to four food patches, each placed at a random cell at least
/// sqrt(280) cells from the queen (in plain coordinates), within 4000
/// tries, clearing a small chamber round its centre with chance 11 in 20;
/// `plant_patches` lays them.  Returns what it returns and the patches
/// drawn.
fn place_food(terrain: &mut Vec<u8>, w: usize, h: usize, qx: i32, qy: i32, rng: &mut StdRng) -> (r: (
    Vec<u16>,
    Vec<i16>,
    Vec<u32>,
    Vec<bool>,
    Ghost<Seq<(i32, i32, bool)>>,
))
    requires
        0 < w <= 32767,
        0 < h <= 32767,
        old(terrain)@.len() == w * h,
        0 <= qx < w,
        0 <= qy < h,
    ensures
        r.4@.len() <= FOOD_PATCHES,
        forall|p: int| 0 <= p < r.4@.len() ==> spot_ok(w as int, h as int, qx as int, qy as int, #[trigger] r.4@[p]),
        final(terrain)@.len() == w * h,
        forall|i: int|
            0 <= i < w * h ==> #[trigger] final(terrain)@[i] == if patch_cleared(w as int, h as int, r.4@, r.4@.len() as int, i) {
                0u8
            } else {
                old(terrain)@[i]
            },
        r.0@.len() == w * h,
        r.1@.len() == w * h,
        r.2@.len() == r.4@.len(),
        r.3@.len() == r.4@.len(),
        forall|p: int| 0 <= p < r.2@.len() ==> #[trigger] r.3@[p] && r.2@[p] == food_per_patch() * disc_cells(
            FOOD_PATCH_RADIUS as int,
        ),
        forall|i: int| 0 <= i < w * h ==> #[trigger] r.1@[i] == last_patch(w as int, h as int, r.4@, r.4@.len() as int, i),
        forall|i: int| 0 <= i < w * h ==> (#[trigger] r.0@[i] > 0) == (r.1@[i] >= 0),
{
    let mut spots: Vec<(i32, i32, bool)> = Vec::new();
    let mut attempts: usize = 0;
    while spots.len() < FOOD_PATCHES && attempts < 4000
        invariant
            0 < w <= 32767,
            0 < h <= 32767,
            0 <= qx < w,
            0 <= qy < h,
            spots@.len() <= FOOD_PATCHES,
            forall|p: int| 0 <= p < spots@.len() ==> spot_ok(w as int, h as int, qx as int, qy as int, #[trigger] spots@[p]),
        decreases 4000 - attempts,
    {
        attempts += 1;
        let fx = std_range_i32(rng, 0, (w - 1) as i32);
        let fy = std_range_i32(rng, 0, (h - 1) as i32);
        let dx = fx - qx;
        let dy = fy - qy;
        assert(0 <= dx * dx <= 32767 * 32767 && 0 <= dy * dy <= 32767 * 32767) by (nonlinear_arith)
            requires
                -32767 <= dx <= 32767,
                -32767 <= dy <= 32767,
        ;
        if dx * dx + dy * dy < 280 {
            continue;
        }
        let carve = std_ratio(rng, 11, 20);
        spots.push((fx, fy, carve));
    }
    let (food, ids, rem, act) = plant_patches(terrain, w, h, &spots);
    (food, ids, rem, act, Ghost(spots@))
}

proof fn lemma_last_patch_range(w: int, h: int, spots: Seq<(i32, i32, bool)>, n: int, i: int)
    requires
        0 <= n,
    ensures
        -1 <= last_patch(w, h, spots, n, i) < n,
    decreases n,
{
    if n > 0 {
        lemma_last_patch_range(w, h, spots, n - 1, i);
    }
}

/// Terrain cell `i` of a fresh colony as its draws made it: tunnel in the
/// queen's chamber (radius 6), on the six walks and in the chambers of the
/// food patches that clear one; elsewhere ground where its draw came up.
pub open spec fn world_cell(
    w: int,
    h: int,
    qx: int,
    qy: int,
    ground: Seq<bool>,
    walks: Seq<(int, Seq<i32>)>,
    spots: Seq<(i32, i32, bool)>,
    i: int,
) -> u8 {
    if in_room(w, h, qx, qy, 6, i) || walks_dig(w, h, qx, qy, walks, i) || patch_cleared(w, h, spots, spots.len() as int, i) {
        0u8
    } else if ground[i] {
        1u8
    } else {
        0u8
    }
}

/// A fresh colony's terrain and patch marks are those its draws give: a
/// ground draw per cell, six walks from the queen, and up to four patches
/// far from her, each cell marked with the last patch whose disc holds it.
pub open spec fn world_drawn(
    w: int,
    h: int,
    qx: int,
    qy: int,
    ground: Seq<bool>,
    walks: Seq<(int, Seq<i32>)>,
    spots: Seq<(i32, i32, bool)>,
    terrain: Seq<u8>,
    ids: Seq<i16>,
) -> bool {
    &&& ground.len() == w * h
    &&& walks_ok(walks)
    &&& spots.len() <= FOOD_PATCHES
    &&& forall|p: int| 0 <= p < spots.len() ==> spot_ok(w, h, qx, qy, #[trigger] spots[p])
    &&& forall|i: int| 0 <= i < w * h ==> #[trigger] terrain[i] == world_cell(w, h, qx, qy, ground, walks, spots, i)
    &&& forall|i: int| 0 <= i < w * h ==> #[trigger] ids[i] == last_patch(w, h, spots, spots.len() as int, i)
}

/// The founding brood: 150 adults round the queen at (`qx`, `qy`).
fn founders(qx: i32, qy: i32, rng: &mut StdRng) -> (ants: Vec<Ant>)
    requires
        0 <= qx <= 32767,
        0 <= qy <= 32767,
    ensures
        ants@.len() == INITIAL_ANTS,
        forall|k: int| 0 <= k < ants@.len() ==> founder(qx as int, qy as int, #[trigger] ants@[k]),
{
    let mut ants: Vec<Ant> = Vec::new();
    while ants.len() < INITIAL_ANTS
        invariant
            0 <= qx <= 32767,
            0 <= qy <= 32767,
            ants@.len() <= INITIAL_ANTS,
            forall|k: int| 0 <= k < ants@.len() ==> founder(qx as int, qy as int, #[trigger] ants@[k]),
        decreases INITIAL_ANTS - ants@.len(),
    {
        let ox = std_range_i32(rng, -1, 1);
        let oy = std_range_i32(rng, -1, 1);
        let dir = std_range_i32(rng, 0, 7);
        let age = std_range_usize(rng, 0, 499);
        ants.push(
            Ant {
                x: qx + ox,
                y: qy + oy,
                dir,
                carrying: false,
                age: age as u32,
                energy: ENERGY_START,
                phase: Stage::Adult,
            },
        );
    }
    ants
}

impl Colony {
    /// A fresh colony on a grid of at least 40 by 18 cells (`w` by `h`,
    /// raised to those): random ground (39 cells in 50), the queen's
    /// chamber of radius 6 in the middle, six tunnels dug from it, up to
    /// four food patches, an empty store, and the founding brood.
    #[verifier::spinoff_prover]
    pub fn new(w: usize, h: usize, rng: &mut StdRng) -> (r: (Colony, Vec<Ant>))
        requires
            w <= 32767,
            h <= 32767,
        ensures
            r.0.wf(),
            r.0.w == if w > 40 {
                w
            } else {
                40
            },
            r.0.h == if h > 18 {
                h
            } else {
                18
            },
            r.0.queen.0 == r.0.w / 2,
            r.0.queen.1 == r.0.h / 2,
            forall|i: int|
                0 <= i < r.0.w * r.0.h && in_room(
                    r.0.w as int,
                    r.0.h as int,
                    r.0.queen.0 as int,
                    r.0.queen.1 as int,
                    6,
                    i,
                ) ==> #[trigger] r.0.terrain@[i] == 0,
            r.0.food_patch_remaining@.len() == r.0.food_patch_active@.len(),
            r.0.food_patch_remaining@.len() <= FOOD_PATCHES,
            forall|p: int|
                0 <= p < r.0.food_patch_remaining@.len() ==> #[trigger] r.0.food_patch_active@[p]
                    && r.0.food_patch_remaining@[p] == food_per_patch() * disc_cells(FOOD_PATCH_RADIUS as int),
            forall|i: int|
                0 <= i < r.0.w * r.0.h ==> (#[trigger] r.0.food@[i] > 0) == (r.0.food_patch_id@[i] >= 0) && -1
                    <= r.0.food_patch_id@[i] < r.0.food_patch_remaining@.len(),
            r.0.colony_food == 0,
            r.0.queen_cooldown == 0,
            r.1@.len() == INITIAL_ANTS,
            forall|k: int| 0 <= k < r.1@.len() ==> founder(r.0.queen.0 as int, r.0.queen.1 as int, #[trigger] r.1@[k]),
            forall|k: int| 0 <= k < r.1@.len() ==> ant_ok(#[trigger] r.1@[k]),
            exists|ground: Seq<bool>, walks: Seq<(int, Seq<i32>)>, spots: Seq<(i32, i32, bool)>|
                spots.len() == r.0.food_patch_remaining@.len() && #[trigger] world_drawn(
                    r.0.w as int,
                    r.0.h as int,
                    r.0.queen.0 as int,
                    r.0.queen.1 as int,
                    ground,
                    walks,
                    spots,
                    r.0.terrain@,
                    r.0.food_patch_id@,
                ),
    {
        let w = if w > 40 { w } else { 40 };
        let h = if h > 18 { h } else { 18 };
        let qx = (w / 2) as i32;
        let qy = (h / 2) as i32;
        assert(w * h <= 32767 * 32767) by (nonlinear_arith)
            requires
                0 < w <= 32767,
                0 < h <= 32767,
        ;
        let (mut terrain, ground) = fill_ground(w * h, rng);
        let ghost t1 = terrain@;
        carve_room(&mut terrain, w, h, qx, qy, 6);
        let ghost room = terrain@;
        let walks = dig_branches(&mut terrain, w, h, qx, qy, rng);
        let ghost dug = terrain@;
        let (food, food_patch_id, food_patch_remaining, food_patch_active, spots) = place_food(
            &mut terrain,
            w,
            h,
            qx,
            qy,
            rng,
        );
        proof {
            let (gw, gh, gqx, gqy) = (w as int, h as int, qx as int, qy as int);
            assert forall|i: int| 0 <= i < w * h implies #[trigger] terrain@[i] == world_cell(
                gw, gh, gqx, gqy, ground@, walks@, spots@, i) by {
                assert(terrain@[i] == if patch_cleared(gw, gh, spots@, spots@.len() as int, i) { 0u8 } else { dug[i] });
                assert(dug[i] == if walks_dig(gw, gh, gqx, gqy, walks@, i) { 0u8 } else { room[i] });
                assert(room[i] == if in_room(gw, gh, gqx, gqy, 6, i) { 0u8 } else { t1[i] });
            }
            assert(world_drawn(gw, gh, gqx, gqy, ground@, walks@, spots@, terrain@, food_patch_id@));
        }
        assert forall|i: int| 0 <= i < w * h implies #[trigger] terrain@[i] <= room[i] by {
            assert(terrain@[i] <= dug[i] && dug[i] <= room[i]);
        }
        assert forall|p: int| 0 <= p < food_patch_remaining@.len() implies #[trigger] food_patch_active@[p]
            && food_patch_remaining@[p] == food_per_patch() * disc_cells(FOOD_PATCH_RADIUS as int) by {}
        assert forall|i: int| 0 <= i < w * h implies (#[trigger] food@[i] > 0) == (food_patch_id@[i] >= 0) && -1
            <= food_patch_id@[i] < food_patch_remaining@.len() by {
            lemma_last_patch_range(w as int, h as int, spots@, spots@.len() as int, i);
        }
        let ants = founders(qx, qy, rng);
        let c = Colony {
            w,
            h,
            queen: (qx, qy),
            terrain,
            food,
            food_patch_id,
            food_patch_remaining,
            food_patch_active,
            colony_food: 0,
            queen_cooldown: 0,
        };
        assert(world_drawn(
            c.w as int,
            c.h as int,
            c.queen.0 as int,
            c.queen.1 as int,
            ground@,
            walks@,
            spots@,
            c.terrain@,
            c.food_patch_id@,
        ));
        (c, ants)
    }
}

/// The number of adults among `ants` that stand on cell `i` of a `w` by
/// `h` grid (wrapped; between walls, only those on the grid count).
pub open spec fn adults_at(w: int, h: int, ants: Seq<Ant>, wrap: bool, i: int) -> nat
    decreases ants.len(),
{
    if ants.len() == 0 {
        0
    } else {
        let a = ants.last();
        adults_at(w, h, ants.drop_last(), wrap, i) + if a.phase == Stage::Adult && (wrap || inside(
            w,
            h,
            a.x as int,
            a.y as int,
        )) && room_cell(w, h, a.x as int, a.y as int) == i {
            1nat
        } else {
            0nat
        }
    }
}

/// The number of `ants` in stage `s`.
pub open spec fn in_stage(ants: Seq<Ant>, s: Stage) -> nat
    decreases ants.len(),
{
    if ants.len() == 0 {
        0
    } else {
        in_stage(ants.drop_last(), s) + if ants.last().phase == s {
            1nat
        } else {
            0nat
        }
    }
}

/// How a cell of the colony shows.
#[derive(Clone, Copy, Debug, PartialEq, Eq, Structural)]
pub enum Look {
    /// The queen's cell.
    Queen,
    /// Four or more adults.
    Swarm,
    /// One to three adults.
    Ants,
    /// Ground, or a patch whose food is spent.
    Ground,
    /// Tunnel with food.
    Food,
    /// Bare tunnel, shaded by its scent.
    Tunnel,
}

/// The look of cell `i` of colony `c`, with `occ` adults on each cell.
pub open spec fn look_spec(c: Colony, occ: Seq<u16>, i: int) -> Look {
    let pid = c.food_patch_id@[i] as int;
    let spent = pid >= 0 && pid < c.food_patch_active@.len() && !c.food_patch_active@[pid];
    if i == c.queen_cell() {
        Look::Queen
    } else if occ[i] >= 4 {
        Look::Swarm
    } else if occ[i] > 0 {
        Look::Ants
    } else if spent || c.terrain@[i] == 1 {
        Look::Ground
    } else if c.food@[i] > 0 {
        Look::Food
    } else {
        Look::Tunnel
    }
}

impl Colony {
    /// The number of adults on each cell, saturating at 65535.
    pub fn occupancy(&self, ants: &Vec<Ant>, wrap: bool) -> (occ: Vec<u16>)
        requires
            self.wf(),
        ensures
            occ@.len() == self.w * self.h,
            forall|i: int|
                0 <= i < self.w * self.h ==> #[trigger] occ@[i] == min_int(
                    adults_at(self.w as int, self.h as int, ants@, wrap, i) as int,
                    65535,
                ),
    {
        assert(self.w * self.h <= 32767 * 32767) by (nonlinear_arith)
            requires
                0 < self.w <= 32767,
                0 < self.h <= 32767,
        ;
        let n = self.w * self.h;
        let mut occ = filled_u16(n, 0);
        let mut k: usize = 0;
        while k < ants.len()
            invariant
                self.wf(),
                n == self.w * self.h,
                k <= ants@.len(),
                occ@.len() == n,
                forall|i: int|
                    0 <= i < n ==> #[trigger] occ@[i] == min_int(
                        adults_at(self.w as int, self.h as int, ants@.take(k as int), wrap, i) as int,
                        65535,
                    ),
            decreases ants@.len() - k,
        {
            let a = ants[k];
            assert(ants@.take(k + 1).drop_last() =~= ants@.take(k as int));
            assert(ants@.take(k + 1).last() == a);
            if a.phase == Stage::Adult && (wrap || in_bounds(self.w, self.h, a.x, a.y)) {
                let i = self.cell_of(a.x, a.y);
                let v = occ[i];
                occ.set(i, v.saturating_add(1));
            }
            k += 1;
        }
        assert(ants@.take(ants@.len() as int) =~= ants@);
        occ
    }

    /// The look of cell `i`.
    pub fn look(&self, occ: &Vec<u16>, i: usize) -> (l: Look)
        requires
            self.wf(),
            occ@.len() == self.w * self.h,
            i < self.w * self.h,
        ensures
            l == look_spec(*self, occ@, i as int),
    {
        let queen_i = self.cell_of(self.queen.0, self.queen.1);
        proof {
            vstd::arithmetic::div_mod::lemma_small_mod(self.queen.0 as nat, self.w as nat);
            vstd::arithmetic::div_mod::lemma_small_mod(self.queen.1 as nat, self.h as nat);
        }
        let pid = self.food_patch_id[i];
        let spent = pid >= 0 && (pid as usize) < self.food_patch_active.len() && !self.food_patch_active[pid as usize];
        if i == queen_i {
            Look::Queen
        } else if occ[i] >= 4 {
            Look::Swarm
        } else if occ[i] > 0 {
            Look::Ants
        } else if spent || self.terrain[i] == 1 {
            Look::Ground
        } else if self.food[i] > 0 {
            Look::Food
        } else {
            Look::Tunnel
        }
    }
}

/// The numbers of eggs, larvae, pupae and adults among `ants`.
pub fn census(ants: &Vec<Ant>) -> (r: (usize, usize, usize, usize))
    ensures
        r.0 == in_stage(ants@, Stage::Egg),
        r.1 == in_stage(ants@, Stage::Larva),
        r.2 == in_stage(ants@, Stage::Pupa),
        r.3 == in_stage(ants@, Stage::Adult),
{
    let mut egg: usize = 0;
    let mut larva: usize = 0;
    let mut pupa: usize = 0;
    let mut adult: usize = 0;
    let mut k: usize = 0;
    while k < ants.len()
        invariant
            k <= ants@.len(),
            egg == in_stage(ants@.take(k as int), Stage::Egg),
            larva == in_stage(ants@.take(k as int), Stage::Larva),
            pupa == in_stage(ants@.take(k as int), Stage::Pupa),
            adult == in_stage(ants@.take(k as int), Stage::Adult),
            egg + larva + pupa + adult == k,
        decreases ants@.len() - k,
    {
        assert(ants@.take(k + 1).drop_last() =~= ants@.take(k as int));
        match ants[k].phase {
            Stage::Egg => egg += 1,
            Stage::Larva => larva += 1,
            Stage::Pupa => pupa += 1,
            Stage::Adult => adult += 1,
        }
        k += 1;
    }
    assert(ants@.take(ants@.len() as int) =~= ants@);
    (egg, larva, pupa, adult)
}

/// A forager's step never turns tunnel back into ground: each cell keeps
/// its ground or loses it, and only the cell straight ahead of the turned
/// ant can change.
pub proof fn law_digging_only_clears(c: Colony, a: Ant, turn: int, wrap: bool, dig: bool, right: bool)
    requires
        c.wf(),
    ensures
        ({
            let t = forage_spec(c, a, turn, wrap, dig, right).2;
            let p = sensor_point(a, turn, 1);
            &&& t.len() == c.terrain@.len()
            &&& forall|i: int| 0 <= i < t.len() ==> #[trigger] t[i] <= c.terrain@[i]
            &&& forall|i: int|
                0 <= i < t.len() && #[trigger] t[i] != c.terrain@[i] ==> i == room_cell(
                    c.w as int,
                    c.h as int,
                    p.0,
                    p.1,
                )
        }),
{
    let st = dir_step8((a.dir + turn) % 8);
    let nx = a.x + st.0;
    let ny = a.y + st.1;
    assert(st.0 * 1 == st.0 && st.1 * 1 == st.1);
    lemma_cell_in_grid(c.w as int, c.h as int, nx, ny);
}

/// Food leaves the ground only into the jaws of the ant that stands on
/// it: when upkeep changes the food, it is one unit less on the ant's
/// cell and nowhere else, and the ant, empty handed before, now carries it.
pub proof fn law_picked_food_is_carried(c: Colony, a: Ant, wrap: bool, r: int)
    requires
        c.wf(),
    ensures
        ({
            let s = upkeep_spec(c, a, wrap, r);
            s.2 != c.food@ ==> {
                let i = room_cell(c.w as int, c.h as int, a.x as int, a.y as int);
                &&& s.0 matches Upkeep::Forage(g)
                &&& g.carrying
                &&& g.x == a.x && g.y == a.y
                &&& c.food@[i] > 0
                &&& s.2 == c.food@.update(i, (c.food@[i] - 1) as u16)
            }
        }),
{
}

/// Brood is gathered on the queen's cell, carrying nothing, and keeps its
/// age and energy.
pub proof fn law_brood_rests_with_queen(c: Colony, a: Ant, wrap: bool, r: int)
    requires
        c.wf(),
    ensures
        upkeep_spec(c, a, wrap, r).0 matches Upkeep::Brood(b) ==> {
            &&& b.x == c.queen.0 && b.y == c.queen.1
            &&& !b.carrying
            &&& b.age == aged(a).age
            &&& b.energy == a.energy
            &&& b.phase != Stage::Adult
        },
{
}

/// An ant never eats beyond its starting energy: whatever it had, after a
/// meal at the queen it holds at most `ENERGY_START`, and a meal never
/// lowers the energy of an ant that had less.
pub proof fn law_meals_top_up(a: Ant, store: u64, at_queen: bool)
    ensures
        ({
            let f = fed(a, store, at_queen);
            f.0.energy != a.energy ==> f.0.energy <= ENERGY_START && (a.energy <= ENERGY_START ==> f.0.energy
                > a.energy)
        }),
{
}

} // verus!
