//! Where walls may stand: away from other walls and trails, and away from
//! the spawn points.

use vstd::prelude::*;
use super::sim::{Coord, Grid, GridModel};

verus! {

pub open spec fn max_int(a: int, b: int) -> int {
    if a >= b { a } else { b }
}

pub open spec fn min_int(a: int, b: int) -> int {
    if a <= b { a } else { b }
}

pub open spec fn clamp_between(v: int, lo: int, hi: int) -> int {
    if v < lo { lo } else if v > hi { hi } else { v }
}

/// The squared distance from a spawn point to the nearest cell of the
/// rectangle at `(x, y)` of `w * h` cells.
pub open spec fn rect_gap2(s: Coord, x: int, y: int, w: int, h: int) -> int {
    let dx = s.x - clamp_between(s.x as int, x, x + w - 1);
    let dy = s.y - clamp_between(s.y as int, y, y + h - 1);
    dx * dx + dy * dy
}

/// The squared distance between two cells.
pub open spec fn dist2(a: Coord, b: Coord) -> int {
    (a.x - b.x) * (a.x - b.x) + (a.y - b.y) * (a.y - b.y)
}

/// The cells round the rectangle, `spacing` wide on each side and held
/// within the grid, are all free.
pub open spec fn margin_free(g: GridModel, x: int, y: int, w: int, h: int, spacing: int) -> bool {
    let min_x = max_int(x - spacing, 0);
    let min_y = max_int(y - spacing, 0);
    let max_x = min_int(x + w + spacing, g.width - 1);
    let max_y = min_int(y + h + spacing, g.height - 1);
    forall|px: int, py: int|
        min_x <= px <= max_x && min_y <= py <= max_y ==> #[trigger] g.at(Coord { x: px as i32, y: py as i32 }) == 0
}

/// A rectangle of wall may go at `(x, y)`: its surroundings are free and
/// every spawn point lies further than `clearance` from it.
pub open spec fn spec_rect_is_valid(
    g: GridModel,
    spawns: Seq<Coord>,
    x: int,
    y: int,
    w: int,
    h: int,
    spacing: int,
    clearance: int,
) -> bool {
    &&& margin_free(g, x, y, w, h, spacing)
    &&& forall|i: int| 0 <= i < spawns.len() ==> rect_gap2(#[trigger] spawns[i], x, y, w, h) > clearance * clearance
}

/// A wall cell may go at `p`: strictly inside the border and further than
/// `clearance` from every spawn point.
pub open spec fn spec_point_valid(g: GridModel, spawns: Seq<Coord>, p: Coord, clearance: int) -> bool {
    &&& 0 < p.x < g.width - 1
    &&& 0 < p.y < g.height - 1
    &&& forall|i: int| 0 <= i < spawns.len() ==> dist2(p, #[trigger] spawns[i]) > clearance * clearance
}

fn clamp_i32(v: i32, lo: i32, hi: i32) -> (r: i32)
    requires
        lo <= hi,
    ensures
        r == clamp_between(v as int, lo as int, hi as int),
{
    if v < lo { lo } else if v > hi { hi } else { v }
}

/// Whether a `w * h` rectangle of wall may go at `(x, y)`.
pub fn rect_is_valid(
    grid: &Grid,
    spawns: &Vec<Coord>,
    x: i32,
    y: i32,
    w: i32,
    h: i32,
    spacing: i32,
    spawn_clearance: i32,
) -> (b: bool)
    requires
        grid@.wf(),
        grid.width > i32::MIN && grid.height > i32::MIN,
        i32::MIN <= x - spacing <= i32::MAX,
        i32::MIN <= y - spacing <= i32::MAX,
        i32::MIN <= x + w <= i32::MAX,
        i32::MIN <= y + h <= i32::MAX,
        i32::MIN <= x + w + spacing <= i32::MAX,
        i32::MIN <= y + h + spacing <= i32::MAX,
        spawns@.len() > 0 ==> w >= 1 && h >= 1,
        spawn_clearance * spawn_clearance <= i32::MAX,
        forall|i: int| 0 <= i < spawns@.len() ==> {
            &&& i32::MIN <= (#[trigger] spawns@[i]).x - (x + w - 1) && spawns@[i].x - x <= i32::MAX
            &&& i32::MIN <= spawns@[i].y - (y + h - 1) && spawns@[i].y - y <= i32::MAX
            &&& rect_gap2(spawns@[i], x as int, y as int, w as int, h as int) <= i32::MAX
        },
    ensures
        b == spec_rect_is_valid(grid@, spawns@, x as int, y as int, w as int, h as int, spacing as int, spawn_clearance as int),
{
    let min_x = if x - spacing > 0 { x - spacing } else { 0 };
    let min_y = if y - spacing > 0 { y - spacing } else { 0 };
    let max_x = if x + w + spacing < grid.width - 1 { x + w + spacing } else { grid.width - 1 };
    let max_y = if y + h + spacing < grid.height - 1 { y + h + spacing } else { grid.height - 1 };
    if min_y <= max_y && min_x <= max_x {
        let mut py = min_y;
        while py <= max_y
            invariant
                grid@.wf(),
                min_x <= max_x,
                min_y <= py,
                py <= max_y + 1,
                max_y < i32::MAX,
                min_x == max_int(x - spacing, 0),
                min_y == max_int(y - spacing, 0),
                max_x == min_int(x + w + spacing, grid@.width - 1),
                max_y == min_int(y + h + spacing, grid@.height - 1),
                forall|qx: int, qy: int|
                    min_x <= qx <= max_x && min_y <= qy < py ==> #[trigger] grid@.at(Coord { x: qx as i32, y: qy as i32 }) == 0,
            decreases max_y + 1 - py,
        {
            let mut px = min_x;
            while px <= max_x
                invariant
                    grid@.wf(),
                    min_x <= px,
                    px <= max_x + 1,
                    max_x < i32::MAX,
                    min_y <= py <= max_y,
                    max_y < i32::MAX,
                    min_x == max_int(x - spacing, 0),
                    min_y == max_int(y - spacing, 0),
                    max_x == min_int(x + w + spacing, grid@.width - 1),
                    max_y == min_int(y + h + spacing, grid@.height - 1),
                    forall|qx: int, qy: int|
                        min_x <= qx <= max_x && min_y <= qy < py ==> #[trigger] grid@.at(Coord { x: qx as i32, y: qy as i32 }) == 0,
                    forall|qx: int| min_x <= qx < px ==> #[trigger] grid@.at(Coord { x: qx as i32, y: py }) == 0,
                decreases max_x + 1 - px,
            {
                if grid.get(Coord { x: px, y: py }) != 0 {
                    assert(grid@.at(Coord { x: (px as int) as i32, y: (py as int) as i32 }) != 0);
                    return false;
                }
                px += 1;
            }
            assert forall|qx: int, qy: int|
                min_x <= qx <= max_x && min_y <= qy < py + 1 implies #[trigger] grid@.at(Coord { x: qx as i32, y: qy as i32 }) == 0 by {
                if qy == py {
                    assert(Coord { x: qx as i32, y: qy as i32 } == Coord { x: qx as i32, y: py });
                }
            }
            py += 1;
        }
    }
    proof {
        assert(spawn_clearance * spawn_clearance >= 0) by (nonlinear_arith);
    }
    let mut i: usize = 0;
    while i < spawns.len()
        invariant
            i <= spawns@.len(),
            i32::MIN <= x + w <= i32::MAX,
            i32::MIN <= y + h <= i32::MAX,
            spawn_clearance * spawn_clearance >= 0,
            spawns@.len() > 0 ==> w >= 1 && h >= 1,
            spawn_clearance * spawn_clearance <= i32::MAX,
            forall|k: int| 0 <= k < spawns@.len() ==> {
                &&& i32::MIN <= (#[trigger] spawns@[k]).x - (x + w - 1) && spawns@[k].x - x <= i32::MAX
                &&& i32::MIN <= spawns@[k].y - (y + h - 1) && spawns@[k].y - y <= i32::MAX
                &&& rect_gap2(spawns@[k], x as int, y as int, w as int, h as int) <= i32::MAX
            },
            forall|k: int| 0 <= k < i ==> rect_gap2(#[trigger] spawns@[k], x as int, y as int, w as int, h as int)
                > spawn_clearance * spawn_clearance,
        decreases spawns@.len() - i,
    {
        let s = spawns[i];
        let nearest_x = clamp_i32(s.x, x, x + w - 1);
        let nearest_y = clamp_i32(s.y, y, y + h - 1);
        let dx = s.x - nearest_x;
        let dy = s.y - nearest_y;
        assert(0 <= dx * dx && 0 <= dy * dy) by (nonlinear_arith);
        if dx * dx + dy * dy <= spawn_clearance * spawn_clearance {
            return false;
        }
        i += 1;
    }
    true
}

/// Whether a single wall cell may go at `p`.
pub fn point_valid_for_wall(grid: &Grid, spawns: &Vec<Coord>, p: Coord, spawn_clearance: i32) -> (b: bool)
    requires
        grid@.wf(),
        grid.width > i32::MIN && grid.height > i32::MIN,
        spawn_clearance * spawn_clearance <= i32::MAX,
        forall|i: int| 0 <= i < spawns@.len() ==> {
            &&& i32::MIN <= p.x - (#[trigger] spawns@[i]).x <= i32::MAX
            &&& i32::MIN <= p.y - spawns@[i].y <= i32::MAX
            &&& dist2(p, spawns@[i]) <= i32::MAX
        },
    ensures
        b == spec_point_valid(grid@, spawns@, p, spawn_clearance as int),
{
    if p.x <= 0 || p.y <= 0 || p.x >= grid.width - 1 || p.y >= grid.height - 1 {
        return false;
    }
    proof {
        assert(spawn_clearance * spawn_clearance >= 0) by (nonlinear_arith);
    }
    let mut i: usize = 0;
    while i < spawns.len()
        invariant
            i <= spawns@.len(),
            spawn_clearance * spawn_clearance >= 0,
            spawn_clearance * spawn_clearance <= i32::MAX,
            forall|k: int| 0 <= k < spawns@.len() ==> {
                &&& i32::MIN <= p.x - (#[trigger] spawns@[k]).x <= i32::MAX
                &&& i32::MIN <= p.y - spawns@[k].y <= i32::MAX
                &&& dist2(p, spawns@[k]) <= i32::MAX
            },
            forall|k: int| 0 <= k < i ==> dist2(p, #[trigger] spawns@[k]) > spawn_clearance * spawn_clearance,
        decreases spawns@.len() - i,
    {
        let s = spawns[i];
        let dx = p.x - s.x;
        let dy = p.y - s.y;
        assert(0 <= dx * dx && 0 <= dy * dy) by (nonlinear_arith);
        if dx * dx + dy * dy <= spawn_clearance * spawn_clearance {
            return false;
        }
        i += 1;
    }
    true
}

} // verus!
