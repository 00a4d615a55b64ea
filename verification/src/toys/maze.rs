//! The maze walker's grid: a fixed 24 by 24 maze, a small xorshift
//! generator, and the right-hand rule with a little randomness.

use vstd::prelude::*;

verus! {

pub const MAP_W: usize = 24;
pub const MAP_H: usize = 24;

/// The walls of row `y`, bit `x` set for a wall at column `x`. The maze,
/// `#` for a wall:
///
///     ########################
///     #......................#
///     #.######.......######..#
///     #.#....#.......#....#..#
///     #.#....#.#####.#....#..#
///     #.#....#.#...#.#....#..#
///     #.#....###...#.#....#..#
///     #........#...#.........#
///     ###.##.#.#...#.#.##.#..#
///     #......................#
///     #.#.####.########.####.#
///     #.#....#....#.....#....#
///     #.#....####.#.#####.####
///     #.#...........#........#
///     #.#############.######.#
///     #........#.............#
///     ######...#.##########..#
///     #........#....#........#
///     #.######.###..#.######.#
///     #..........#..#........#
///     #.######...#..######...#
///     #......#........#......#
///     #......................#
///     ########################
pub open spec fn map_row(y: int) -> u32 {
    if y == 0 {
        0xFFFFFF
    } else if y == 1 {
        0x800001
    } else if y == 2 {
        0x9F80FD
    } else if y == 3 {
        0x908085
    } else if y == 4 {
        0x90BE85
    } else if y == 5 {
        0x90A285
    } else if y == 6 {
        0x90A385
    } else if y == 7 {
        0x802201
    } else if y == 8 {
        0x96A2B7
    } else if y == 9 {
        0x800001
    } else if y == 10 {
        0xBDFEF5
    } else if y == 11 {
        0x841085
    } else if y == 12 {
        0xF7D785
    } else if y == 13 {
        0x804005
    } else if y == 14 {
        0xBF7FFD
    } else if y == 15 {
        0x800201
    } else if y == 16 {
        0x9FFA3F
    } else if y == 17 {
        0x804201
    } else if y == 18 {
        0xBF4EFD
    } else if y == 19 {
        0x804801
    } else if y == 20 {
        0x8FC8FD
    } else if y == 21 {
        0x810081
    } else if y == 22 {
        0x800001
    } else if y == 23 {
        0xFFFFFF
    } else {
        0
    }
}

fn map_row_bits(y: usize) -> (r: u32)
    requires
        y < MAP_H,
    ensures
        r == map_row(y as int),
{
    let rows: [u32; 24] = [0xFFFFFF, 0x800001, 0x9F80FD, 0x908085, 0x90BE85, 0x90A285, 0x90A385, 0x802201, 0x96A2B7, 0x800001, 0xBDFEF5, 0x841085, 0xF7D785, 0x804005, 0xBF7FFD, 0x800201, 0x9FFA3F, 0x804201, 0xBF4EFD, 0x804801, 0x8FC8FD, 0x810081, 0x800001, 0xFFFFFF];
    rows[y]
}

/// A wall at cell (`cx`, `cy`); everything outside the maze is wall.
pub open spec fn is_wall(cx: int, cy: int) -> bool {
    cx < 0 || cy < 0 || cx >= 24 || cy >= 24 || (map_row(cy) >> (cx as u32)) & 1 == 1
}

pub fn is_wall_cell(cx: i32, cy: i32) -> (b: bool)
    ensures
        b == is_wall(cx as int, cy as int),
{
    if cx < 0 || cy < 0 || cx as usize >= MAP_W || cy as usize >= MAP_H {
        return true;
    }
    (map_row_bits(cy as usize) >> (cx as u32)) & 1 == 1
}

/// The xorshift step of the generator's state.
pub open spec fn xorshift(x: u64) -> u64 {
    let a = x ^ (x >> 12u64);
    let b = a ^ (a << 25u64);
    b ^ (b >> 27u64)
}

/// The number drawn from a state: the high half of the state times a
/// fixed odd constant, wrapping.
pub open spec fn draw_of(x: u64) -> u32 {
    (vstd::wrapping::u64_specs::wrapping_mul(x, 0x2545F4914F6CDD1Du64) >> 32u64) as u32
}

/// A small generator: its state is never zero when made from a seed.
#[derive(Clone, Debug)]
pub struct Rng64(pub u64);

impl Rng64 {
    pub fn new(seed: u64) -> (r: Rng64)
        ensures
            r.0 == seed | 1,
    {
        Rng64(seed | 1)
    }

    /// Steps the state and draws 32 bits from it.
    pub fn next_u32(&mut self) -> (v: u32)
        ensures
            final(self).0 == xorshift(old(self).0),
            v == draw_of(xorshift(old(self).0)),
    {
        let mut x = self.0;
        x ^= x >> 12;
        x ^= x << 25;
        x ^= x >> 27;
        self.0 = x;
        ((x.wrapping_mul(0x2545F4914F6CDD1D)) >> 32) as u32
    }

    /// True one time in `n` (never for `n` zero, which draws nothing).
    pub fn one_in(&mut self, n: u32) -> (b: bool)
        ensures
            n == 0 ==> !b && final(self).0 == old(self).0,
            n != 0 ==> final(self).0 == xorshift(old(self).0) && b == (draw_of(xorshift(old(self).0)) % n == 0),
    {
        if n == 0 {
            return false;
        }
        (self.next_u32() % n) == 0
    }
}

/// `x` modulo 4, in 0 to 3.
pub fn rem_euclid4(x: i32) -> (r: i32)
    ensures
        r == x % 4,
        0 <= r < 4,
{
    let r = x % 4;
    if r < 0 { r + 4 } else { r }
}

/// The step of a heading: 0 east, 1 south, 2 west, 3 north (modulo 4).
pub open spec fn step_of(dir: int) -> (i32, i32) {
    let d = dir % 4;
    if d == 0 { (1i32, 0i32) } else if d == 1 { (0i32, 1i32) } else if d == 2 { (-1i32, 0i32) } else { (0i32, -1i32) }
}

pub fn dir_step(dir: i32) -> (s: (i32, i32))
    ensures
        s == step_of(dir as int),
{
    match rem_euclid4(dir) {
        0 => (1, 0),
        1 => (0, 1),
        2 => (-1, 0),
        _ => (0, -1),
    }
}

/// Whether the cell beyond (`cx`, `cy`) in heading `dir` is free.
pub open spec fn open_toward(dir: int, cx: int, cy: int) -> bool {
    !is_wall(cx + step_of(dir).0, cy + step_of(dir).1)
}

pub fn dir_is_open(dir: i32, cx: i32, cy: i32) -> (b: bool)
    requires
        i32::MIN < cx < i32::MAX,
        i32::MIN < cy < i32::MAX,
    ensures
        b == open_toward(dir as int, cx as int, cy as int),
{
    let (dx, dy) = dir_step(dir);
    !is_wall_cell(cx + dx, cy + dy)
}

/// The heading the walker takes at (`cx`, `cy`) heading `cur`, with the
/// generator in state `s`, and the state after: the right-hand rule (right,
/// else ahead, else left, else back), except that with the right open and
/// another way too, one time in ten it goes ahead (one time in two, when
/// ahead is open) or else left when left is open.
pub open spec fn spec_choose_turn(cur: int, cx: int, cy: int, s: u64) -> (int, u64) {
    let right = (cur + 1) % 4;
    let left = (cur + 3) % 4;
    let back = (cur + 2) % 4;
    let r_open = open_toward(right, cx, cy);
    let f_open = open_toward(cur, cx, cy);
    let l_open = open_toward(left, cx, cy);
    let s1 = xorshift(s);
    let wander = r_open && (f_open || l_open) && draw_of(s1) % 10 == 0;
    let s_after = if r_open && (f_open || l_open) { s1 } else { s };
    let s2 = xorshift(s1);
    let ahead = wander && f_open && draw_of(s2) % 2 == 0;
    let s_final = if wander && f_open { s2 } else { s_after };
    if ahead {
        (cur, s_final)
    } else if wander && l_open {
        (left, s_final)
    } else if r_open {
        (right, s_final)
    } else if f_open {
        (cur, s_final)
    } else if l_open {
        (left, s_final)
    } else {
        (back, s_final)
    }
}

pub fn choose_turn(cur_dir: i32, cx: i32, cy: i32, rng: &mut Rng64) -> (d: i32)
    requires
        cur_dir <= i32::MAX - 3,
        i32::MIN < cx < i32::MAX,
        i32::MIN < cy < i32::MAX,
    ensures
        d == spec_choose_turn(cur_dir as int, cx as int, cy as int, old(rng).0).0,
        final(rng).0 == spec_choose_turn(cur_dir as int, cx as int, cy as int, old(rng).0).1,
{
    let right = rem_euclid4(cur_dir + 1);
    let left = rem_euclid4(cur_dir + 3);
    let back = rem_euclid4(cur_dir + 2);

    let r_open = dir_is_open(right, cx, cy);
    let f_open = dir_is_open(cur_dir, cx, cy);
    let l_open = dir_is_open(left, cx, cy);
    proof {
        assert(step_of(right as int) == step_of(cur_dir + 1));
        assert(step_of(left as int) == step_of(cur_dir + 3));
    }

    if r_open && (f_open || l_open) && rng.one_in(10) {
        if f_open && rng.one_in(2) {
            return cur_dir;
        }
        if l_open {
            return left;
        }
    }

    if r_open {
        right
    } else if f_open {
        cur_dir
    } else if l_open {
        left
    } else {
        back
    }
}


/// The right-hand rule never turns the walker round while another way is
/// open: blocked to the right and ahead but open to the left, it turns
/// left; it turns back only when right, ahead and left are all walls; and
/// the heading it takes leads to a free cell unless it is boxed in on all
/// three sides.  With the right open and neither ahead nor left, it turns
/// right.
pub proof fn law_turns_follow_the_walls(cur: int, cx: int, cy: int, s: u64)
    ensures
        ({
            let d = spec_choose_turn(cur, cx, cy, s).0;
            let right = (cur + 1) % 4;
            let left = (cur + 3) % 4;
            let back = (cur + 2) % 4;
            let r_open = !is_wall(cx + step_of(right).0, cy + step_of(right).1);
            let f_open = !is_wall(cx + step_of(cur).0, cy + step_of(cur).1);
            let l_open = !is_wall(cx + step_of(left).0, cy + step_of(left).1);
            &&& !r_open && !f_open && l_open ==> d == left
            &&& !r_open && !f_open && !l_open ==> d == back
            &&& d == back ==> !r_open && !f_open && !l_open
            &&& r_open && !f_open && !l_open ==> d == right
            &&& (r_open || f_open || l_open) ==> !is_wall(cx + step_of(d).0, cy + step_of(d).1)
        }),
{
    let c4 = cur % 4;
    assert(step_of(cur) == step_of(c4));
    assert(((cur + 1) % 4) % 4 == (cur + 1) % 4);
    assert(((cur + 3) % 4) % 4 == (cur + 3) % 4);
    assert((cur + 2) % 4 != cur && (cur + 2) % 4 != (cur + 1) % 4 && (cur + 2) % 4 != (cur + 3) % 4);
}

} // verus!
