//! The arena simulation: grid, cycles and the rules of a tick.

use vstd::prelude::*;
use rand::rngs::SmallRng;
use crate::rng::{small_next_u64, small_range_i32, small_range_usize, small_rng_seeded};
use vstd::arithmetic::div_mod::lemma_fundamental_div_mod_converse;
use super::util::{splitmix64, spec_splitmix64};
use super::ai::{ai_choice_ok, ai_within_headroom, choose_dir};
use super::render::drawable;

verus! {

/// The value a grid cell holds where a wall stands (and what lies outside the grid).
pub const WALL_CELL: u16 = 65535u16;

/// A cell position on the arena grid (or on the terminal).
#[derive(Clone, Copy, Debug, PartialEq, Eq, Structural)]
pub struct Coord {
    pub x: i32,
    pub y: i32,
}

/// One of the four headings a cycle can have.
#[derive(Clone, Copy, Debug, PartialEq, Eq, Structural)]
pub enum Dir {
    Up,
    Down,
    Left,
    Right,
}

/// How a round ended for the player.
#[derive(Clone, Copy, Debug, PartialEq, Eq, Structural)]
pub enum RoundOutcome {
    Victory,
    Defeat,
}

impl Dir {
    /// The unit step of a heading, as `(dx, dy)`; y grows downwards.
    pub open spec fn spec_delta(self) -> (int, int) {
        match self {
            Dir::Up => (0, -1),
            Dir::Down => (0, 1),
            Dir::Left => (-1, 0),
            Dir::Right => (1, 0),
        }
    }

    /// The reverse heading.
    pub open spec fn spec_opposite(self) -> Dir {
        match self {
            Dir::Up => Dir::Down,
            Dir::Down => Dir::Up,
            Dir::Left => Dir::Right,
            Dir::Right => Dir::Left,
        }
    }

    /// The four headings in the order the simulation tries them.
    pub open spec fn spec_all() -> Seq<Dir> {
        seq![Dir::Up, Dir::Down, Dir::Left, Dir::Right]
    }

    /// The four headings in the order the simulation tries them.
    pub fn all() -> (r: [Dir; 4])
        ensures
            r@ == Dir::spec_all(),
    {
        [Dir::Up, Dir::Down, Dir::Left, Dir::Right]
    }

    pub fn delta(self) -> (d: (i32, i32))
        ensures
            d.0 == self.spec_delta().0,
            d.1 == self.spec_delta().1,
    {
        match self {
            Dir::Up => (0, -1),
            Dir::Down => (0, 1),
            Dir::Left => (-1, 0),
            Dir::Right => (1, 0),
        }
    }

    pub fn opposite(self) -> (r: Dir)
        ensures
            r == self.spec_opposite(),
    {
        match self {
            Dir::Up => Dir::Down,
            Dir::Down => Dir::Up,
            Dir::Left => Dir::Right,
            Dir::Right => Dir::Left,
        }
    }
}

/// Turning around twice gives the heading back, and a heading is never its
/// own reverse.
pub proof fn lemma_opposite_involutive(d: Dir)
    ensures
        d.spec_opposite().spec_opposite() == d,
        d.spec_opposite() != d,
{
}

/// The step of the reverse heading undoes the step of the heading.
pub proof fn lemma_opposite_delta(d: Dir)
    ensures
        d.spec_opposite().spec_delta().0 == -d.spec_delta().0,
        d.spec_opposite().spec_delta().1 == -d.spec_delta().1,
{
}

impl Coord {
    /// The cell one step away in direction `d`.
    pub open spec fn moved(self, d: Dir) -> Coord {
        Coord { x: (self.x + d.spec_delta().0) as i32, y: (self.y + d.spec_delta().1) as i32 }
    }

    /// Whether the step in direction `d` stays within `i32`.
    pub open spec fn can_move(self, d: Dir) -> bool {
        &&& i32::MIN <= self.x + d.spec_delta().0 <= i32::MAX
        &&& i32::MIN <= self.y + d.spec_delta().1 <= i32::MAX
    }

    pub fn offset(self, dir: Dir) -> (r: Coord)
        requires
            self.can_move(dir),
        ensures
            r.x == self.x + dir.spec_delta().0,
            r.y == self.y + dir.spec_delta().1,
            r == self.moved(dir),
    {
        let (dx, dy) = dir.delta();
        Coord { x: self.x + dx, y: self.y + dy }
    }
}

/// Stepping one way and then back lands on the starting cell.
pub proof fn lemma_offset_round_trip(c: Coord, d: Dir)
    requires
        c.can_move(d),
    ensures
        c.moved(d).can_move(d.spec_opposite()),
        c.moved(d).moved(d.spec_opposite()) == c,
{
}

/// What a round is built from.
#[derive(Clone, Debug)]
pub struct SimConfig {
    pub cycles: usize,
    pub margin: u16,
    pub no_reverse: bool,
    pub strict_sim: bool,
    pub allow_reverse_if_only_safe: bool,
    pub screensaver: bool,
}

/// One lightcycle.
#[derive(Clone, Copy, Debug)]
pub struct Cycle {
    pub id: u16,
    pub alive: bool,
    pub pos: Coord,
    pub prev_pos: Coord,
    pub dir: Dir,
    pub pending_dir: Option<Dir>,
    pub color_idx: usize,
    pub is_player: bool,
    pub wall_charges: u8,
    pub drop_wall_pending: bool,
}

/// The arena: a row-major `width * height` array of cells; 0 is free, a
/// cycle's id marks its trail and `WALL_CELL` a wall.
#[derive(Clone, Debug)]
pub struct Grid {
    pub width: i32,
    pub height: i32,
    pub cells: Vec<u16>,
}

/// The mathematical content of a grid.
pub struct GridModel {
    pub width: int,
    pub height: int,
    pub cells: Seq<u16>,
}

/// The number of cells of a `width * height` grid.
pub open spec fn cell_count(width: int, height: int) -> int {
    if width * height > 0 { width * height } else { 0 }
}

impl GridModel {
    /// The cell array has one entry per cell and the cell count fits `i32`.
    pub open spec fn wf(self) -> bool {
        &&& self.width * self.height <= i32::MAX
        &&& self.width * self.height >= i32::MIN
        &&& self.cells.len() == cell_count(self.width, self.height)
    }

    pub open spec fn in_bounds(self, c: Coord) -> bool {
        0 <= c.x < self.width && 0 <= c.y < self.height
    }

    pub open spec fn idx(self, c: Coord) -> int {
        c.y * self.width + c.x
    }

    /// The value of a cell; everything outside the grid reads as a wall.
    pub open spec fn at(self, c: Coord) -> u16 {
        if self.in_bounds(c) {
            self.cells[self.idx(c)]
        } else {
            WALL_CELL
        }
    }

    /// The grid after writing `v` into cell `c` (nothing changes outside the grid).
    pub open spec fn with(self, c: Coord, v: u16) -> GridModel {
        if self.in_bounds(c) {
            GridModel { cells: self.cells.update(self.idx(c), v), ..self }
        } else {
            self
        }
    }
}

impl View for Grid {
    type V = GridModel;

    open spec fn view(&self) -> GridModel {
        GridModel { width: self.width as int, height: self.height as int, cells: self.cells@ }
    }
}

impl Grid {
    pub fn new(width: i32, height: i32) -> (g: Grid)
        requires
            i32::MIN <= width * height <= i32::MAX,
        ensures
            g@.wf(),
            g.width == width,
            g.height == height,
            forall|i: int| 0 <= i < g.cells@.len() ==> g.cells@[i] == 0,
    {
        let prod = width * height;
        let len: usize = if prod > 0 { prod as usize } else { 0 };
        let mut cells: Vec<u16> = Vec::new();
        let mut i: usize = 0;
        while i < len
            invariant
                i <= len,
                cells@.len() == i,
                forall|k: int| 0 <= k < i ==> cells@[k] == 0,
            decreases len - i,
        {
            cells.push(0);
            i += 1;
        }
        Grid { width, height, cells }
    }

    pub fn in_bounds(&self, c: Coord) -> (b: bool)
        ensures
            b == self@.in_bounds(c),
    {
        c.x >= 0 && c.y >= 0 && c.x < self.width && c.y < self.height
    }

    fn idx(&self, c: Coord) -> (i: usize)
        requires
            self@.wf(),
            self@.in_bounds(c),
        ensures
            i == self@.idx(c),
            i < self.cells@.len(),
    {
        proof {
            lemma_index_in_range(self.width as int, self.height as int, c.x as int, c.y as int);
        }
        (c.y * self.width + c.x) as usize
    }

    pub fn get(&self, c: Coord) -> (v: u16)
        requires
            self@.wf(),
        ensures
            v == self@.at(c),
    {
        if self.in_bounds(c) {
            self.cells[self.idx(c)]
        } else {
            WALL_CELL
        }
    }

    pub fn set(&mut self, c: Coord, v: u16)
        requires
            old(self)@.wf(),
        ensures
            final(self)@ == old(self)@.with(c, v),
            final(self)@.wf(),
    {
        if self.in_bounds(c) {
            let idx = self.idx(c);
            self.cells.set(idx, v);
        }
    }
}

/// Row-major indices of in-bounds cells stay within the cell array.
pub proof fn lemma_index_in_range(w: int, h: int, x: int, y: int)
    requires
        0 <= x < w,
        0 <= y < h,
    ensures
        0 <= y * w + x < w * h,
        w * h > 0,
{
    assert(0 <= y * w + x < w * h) by (nonlinear_arith)
        requires
            0 <= x < w,
            0 <= y < h,
    ;
}

/// Distinct in-bounds cells have distinct indices.
pub proof fn lemma_index_injective(w: int, x1: int, y1: int, x2: int, y2: int)
    requires
        0 <= x1 < w,
        0 <= x2 < w,
        0 <= y1,
        0 <= y2,
        y1 * w + x1 == y2 * w + x2,
    ensures
        x1 == x2 && y1 == y2,
{
    if y1 < y2 {
        assert(y1 * w + x1 < y2 * w + x2) by (nonlinear_arith)
            requires
                0 <= x1 < w,
                0 <= x2,
                y1 < y2,
        ;
    } else if y2 < y1 {
        assert(y2 * w + x2 < y1 * w + x1) by (nonlinear_arith)
            requires
                0 <= x2 < w,
                0 <= x1,
                y2 < y1,
        ;
    }
}

/// Reading a cell after writing one: the written cell gives back the value
/// (when it lies in the grid) and every other cell keeps its value.
pub proof fn lemma_read_after_write(g: GridModel, c: Coord, v: u16, q: Coord)
    requires
        g.wf(),
    ensures
        g.with(c, v).wf(),
        g.with(c, v).at(q) == (if q == c && g.in_bounds(c) { v } else { g.at(q) }),
{
    if g.in_bounds(c) {
        lemma_index_in_range(g.width, g.height, c.x as int, c.y as int);
        if g.in_bounds(q) && q != c {
            lemma_index_in_range(g.width, g.height, q.x as int, q.y as int);
            if g.idx(q) == g.idx(c) {
                lemma_index_injective(g.width, q.x as int, q.y as int, c.x as int, c.y as int);
            }
        }
    }
}

/// Where the arena sits on the terminal.
#[derive(Clone, Copy, Debug)]
pub struct Playfield {
    pub x: i32,
    pub y: i32,
    pub width: i32,
    pub height: i32,
}

impl Playfield {
    /// Maps an arena cell to its terminal cell.
    pub fn to_terminal(self, local: Coord) -> (r: Coord)
        requires
            i32::MIN <= local.x + self.x <= i32::MAX,
            i32::MIN <= local.y + self.y <= i32::MAX,
        ensures
            r.x == local.x + self.x,
            r.y == local.y + self.y,
    {
        Coord { x: local.x + self.x, y: local.y + self.y }
    }
}

/// The playfield for a terminal, or none when the terminal is too small:
/// a margin on each side and one HUD row on top.
pub open spec fn spec_playfield(term_w: u16, term_h: u16, margin: u16) -> Option<Playfield> {
    let width = term_w - 2 * margin;
    let height = term_h - 1 - 2 * margin;
    if width < 12 || height < 8 {
        None
    } else {
        Some(Playfield { x: margin as i32, y: (1 + margin) as i32, width: width as i32, height: height as i32 })
    }
}

pub fn compute_playfield(term_w: u16, term_h: u16, margin: u16) -> (r: Option<Playfield>)
    ensures
        r == spec_playfield(term_w, term_h, margin),
{
    let tw = term_w as i32;
    let th = term_h as i32;
    let m = margin as i32;
    let hud_rows: i32 = 1;

    let width = tw - 2 * m;
    let height = th - hud_rows - 2 * m;
    if width < 12 || height < 8 {
        return None;
    }

    Some(Playfield { x: m, y: hud_rows + m, width, height })
}

/// The heading a cycle starts with: away from the arena's centre, along
/// the axis on which it lies farther out (vertical on a tie).
pub open spec fn spec_initial_dir(spawn: Coord, width: i32, height: i32) -> Dir {
    let dx = spawn.x - width / 2;
    let dy = spawn.y - height / 2;
    let adx = if dx < 0 { -dx } else { dx };
    let ady = if dy < 0 { -dy } else { dy };
    if adx > ady {
        if dx > 0 { Dir::Right } else { Dir::Left }
    } else if dy > 0 {
        Dir::Down
    } else {
        Dir::Up
    }
}

pub fn initial_dir_for_spawn(spawn: Coord, width: i32, height: i32) -> (d: Dir)
    requires
        0 <= spawn.x < width,
        0 <= spawn.y < height,
    ensures
        d == spec_initial_dir(spawn, width, height),
{
    let cx = width / 2;
    let cy = height / 2;
    let dx = spawn.x - cx;
    let dy = spawn.y - cy;
    let adx = if dx < 0 { -dx } else { dx };
    let ady = if dy < 0 { -dy } else { dy };
    if adx > ady {
        if dx > 0 { Dir::Right } else { Dir::Left }
    } else if dy > 0 {
        Dir::Down
    } else {
        Dir::Up
    }
}


/// A round in progress.
#[derive(Debug)]
pub struct Round {
    pub playfield: Playfield,
    pub grid: Grid,
    pub cycles: Vec<Cycle>,
    pub strict_sim: bool,
    pub no_reverse: bool,
    pub allow_reverse_if_only_safe: bool,
    pub screensaver: bool,
    pub rng: SmallRng,
}

/// What a tick reports.
#[derive(Debug)]
pub struct TickResult {
    pub outcome: Option<RoundOutcome>,
}

// ---------------------------------------------------------------------
// Counting cycles.

/// The number of cycles still alive.
pub open spec fn count_alive(cs: Seq<Cycle>) -> nat
    decreases cs.len(),
{
    if cs.len() == 0 {
        0
    } else {
        count_alive(cs.drop_last()) + (if cs.last().alive { 1nat } else { 0nat })
    }
}

/// The number of AI-driven cycles still alive.
pub open spec fn count_ai_alive(cs: Seq<Cycle>) -> nat
    decreases cs.len(),
{
    if cs.len() == 0 {
        0
    } else {
        count_ai_alive(cs.drop_last()) + (if cs.last().alive && !cs.last().is_player { 1nat } else { 0nat })
    }
}

/// The player is alive, or there is no player (cycle 0 is the player's when there is one).
pub open spec fn spec_player_alive(cs: Seq<Cycle>) -> bool {
    if cs.len() > 0 && cs[0].is_player {
        cs[0].alive
    } else {
        true
    }
}

/// How the round stands once a tick is done.
pub open spec fn spec_outcome(cs: Seq<Cycle>) -> Option<RoundOutcome> {
    if !spec_player_alive(cs) {
        Some(RoundOutcome::Defeat)
    } else if count_ai_alive(cs) == 0 {
        Some(RoundOutcome::Victory)
    } else {
        None
    }
}

// ---------------------------------------------------------------------
// Turning.

/// Some heading other than straight back leads to a free cell.
pub open spec fn safe_non_reverse_exists(g: GridModel, c: Cycle) -> bool {
    exists|d: Dir| d != c.dir.spec_opposite() && #[trigger] g.at(c.pos.moved(d)) == 0
}

/// Whether a requested heading is taken: always, except a reverse under
/// `no_reverse`, which is taken only when that is allowed as a last resort
/// and no other heading leads to a free cell.
pub open spec fn turn_allowed(g: GridModel, c: Cycle, no_reverse: bool, allow_if_only_safe: bool, desired: Dir) -> bool {
    if desired == c.dir {
        true
    } else if no_reverse && desired == c.dir.spec_opposite() {
        allow_if_only_safe && !safe_non_reverse_exists(g, c)
    } else {
        true
    }
}

/// A cycle after its queued turn is consumed.
pub open spec fn turned(g: GridModel, c: Cycle, no_reverse: bool, allow_if_only_safe: bool) -> Cycle {
    if !c.alive {
        c
    } else {
        match c.pending_dir {
            None => c,
            Some(d) => if turn_allowed(g, c, no_reverse, allow_if_only_safe, d) {
                Cycle { dir: d, pending_dir: None, ..c }
            } else {
                Cycle { pending_dir: None, ..c }
            },
        }
    }
}

pub open spec fn all_turned(g: GridModel, cs: Seq<Cycle>, no_reverse: bool, allow_if_only_safe: bool) -> Seq<Cycle> {
    cs.map_values(|c: Cycle| turned(g, c, no_reverse, allow_if_only_safe))
}

// ---------------------------------------------------------------------
// Dropping walls.

/// The headings tried, in order, for a dropped wall segment: the two sides, then behind.
pub open spec fn drop_side(d: Dir) -> Seq<Dir> {
    match d {
        Dir::Up | Dir::Down => seq![Dir::Left, Dir::Right, d.spec_opposite()],
        Dir::Left | Dir::Right => seq![Dir::Up, Dir::Down, d.spec_opposite()],
    }
}

/// The first free cell next to the cycle among the headings of `drop_side`.
pub open spec fn wall_spot(g: GridModel, c: Cycle) -> Option<Coord> {
    let s = drop_side(c.dir);
    if g.at(c.pos.moved(s[0])) == 0 {
        Some(c.pos.moved(s[0]))
    } else if g.at(c.pos.moved(s[1])) == 0 {
        Some(c.pos.moved(s[1]))
    } else if g.at(c.pos.moved(s[2])) == 0 {
        Some(c.pos.moved(s[2]))
    } else {
        None
    }
}

pub open spec fn wants_drop(c: Cycle) -> bool {
    c.alive && c.drop_wall_pending && c.wall_charges > 0
}

/// One cycle's pending wall drop: a wall goes to the first free side cell
/// and costs a charge; the request is consumed either way.
pub open spec fn drop_one(g: GridModel, c: Cycle) -> (GridModel, Cycle) {
    if !wants_drop(c) {
        (g, c)
    } else {
        match wall_spot(g, c) {
            Some(p) => (g.with(p, WALL_CELL), Cycle { wall_charges: (c.wall_charges - 1) as u8, drop_wall_pending: false, ..c }),
            None => (g, Cycle { drop_wall_pending: false, ..c }),
        }
    }
}

/// The wall drops of cycles `0..k`, in order.
pub open spec fn drops(g: GridModel, cs: Seq<Cycle>, k: nat) -> (GridModel, Seq<Cycle>)
    decreases k,
{
    if k == 0 || k > cs.len() {
        (g, cs)
    } else {
        let (g1, cs1) = drops(g, cs, (k - 1) as nat);
        let (g2, c2) = drop_one(g1, cs1[k - 1]);
        (g2, cs1.update(k - 1, c2))
    }
}

// ---------------------------------------------------------------------
// Moving and colliding.

/// The cell a cycle moves to this tick (dead cycles do not move).
pub open spec fn intent(c: Cycle) -> Option<Coord> {
    if c.alive { Some(c.pos.moved(c.dir)) } else { None }
}

/// Cycles `i` and `j` head for the same cell.
pub open spec fn same_target(cs: Seq<Cycle>, i: int, j: int) -> bool {
    cs[i].alive && cs[j].alive && cs[i].pos.moved(cs[i].dir) == cs[j].pos.moved(cs[j].dir)
}

/// Cycles `i` and `j` would pass through each other (head swap).
pub open spec fn head_swap(cs: Seq<Cycle>, i: int, j: int) -> bool {
    cs[i].alive && cs[j].alive && cs[i].pos.moved(cs[i].dir) == cs[j].pos && cs[j].pos.moved(cs[j].dir) == cs[i].pos
}

/// An alive cycle crashes when its target cell is taken (by a wall, a trail
/// or the edge), when another cycle heads for the same cell, or, under the
/// strict rules, when it would swap cells with another cycle.
pub open spec fn crashes(g: GridModel, cs: Seq<Cycle>, strict: bool, i: int) -> bool {
    &&& cs[i].alive
    &&& {
        ||| g.at(cs[i].pos.moved(cs[i].dir)) != 0
        ||| exists|j: int| 0 <= j < cs.len() && j != i && #[trigger] same_target(cs, i, j)
        ||| strict && exists|j: int| 0 <= j < cs.len() && j != i && #[trigger] head_swap(cs, i, j)
    }
}

pub open spec fn crash_seq(g: GridModel, cs: Seq<Cycle>, strict: bool) -> Seq<bool> {
    Seq::new(cs.len(), |i: int| crashes(g, cs, strict, i))
}

/// A cycle after the move: crashed cycles die in place, survivors advance one cell.
pub open spec fn committed(c: Cycle, dead: bool) -> Cycle {
    if !c.alive {
        c
    } else if dead {
        Cycle { alive: false, ..c }
    } else {
        Cycle { prev_pos: c.pos, pos: c.pos.moved(c.dir), ..c }
    }
}

/// The grid after survivors `0..k` mark the cells they leave with their ids.
pub open spec fn trails(g: GridModel, cs: Seq<Cycle>, dead: Seq<bool>, k: nat) -> GridModel
    decreases k,
{
    if k == 0 || k > cs.len() {
        g
    } else {
        let g1 = trails(g, cs, dead, (k - 1) as nat);
        if cs[k - 1].alive && !dead[k - 1] {
            g1.with(cs[k - 1].pos, cs[k - 1].id)
        } else {
            g1
        }
    }
}

/// Every cycle sits on a grid cell.
pub open spec fn positions_in_grid(g: GridModel, cs: Seq<Cycle>) -> bool {
    forall|i: int| 0 <= i < cs.len() ==> #[trigger] g.in_bounds(cs[i].pos)
}

impl Round {
    /// The grid is well formed and every cycle sits on it.
    pub open spec fn wf(&self) -> bool {
        &&& self.grid@.wf()
        &&& positions_in_grid(self.grid@, self.cycles@)
    }

    pub fn alive_count(&self) -> (n: usize)
        ensures
            n == count_alive(self.cycles@),
    {
        let mut n: usize = 0;
        let mut i: usize = 0;
        while i < self.cycles.len()
            invariant
                i <= self.cycles@.len(),
                n == count_alive(self.cycles@.subrange(0, i as int)),
                n <= i,
            decreases self.cycles@.len() - i,
        {
            proof {
                assert(self.cycles@.subrange(0, i as int + 1).drop_last() == self.cycles@.subrange(0, i as int));
            }
            if self.cycles[i].alive {
                n += 1;
            }
            i += 1;
        }
        proof {
            assert(self.cycles@.subrange(0, i as int) == self.cycles@);
        }
        n
    }

    pub fn player_alive(&self) -> (b: bool)
        ensures
            b == spec_player_alive(self.cycles@),
    {
        if self.cycles.len() > 0 && self.cycles[0].is_player {
            self.cycles[0].alive
        } else {
            true
        }
    }

    pub fn ai_alive_count(&self) -> (n: usize)
        ensures
            n == count_ai_alive(self.cycles@),
    {
        let mut n: usize = 0;
        let mut i: usize = 0;
        while i < self.cycles.len()
            invariant
                i <= self.cycles@.len(),
                n == count_ai_alive(self.cycles@.subrange(0, i as int)),
                n <= i,
            decreases self.cycles@.len() - i,
        {
            proof {
                assert(self.cycles@.subrange(0, i as int + 1).drop_last() == self.cycles@.subrange(0, i as int));
            }
            if self.cycles[i].alive && !self.cycles[i].is_player {
                n += 1;
            }
            i += 1;
        }
        proof {
            assert(self.cycles@.subrange(0, i as int) == self.cycles@);
        }
        n
    }
}


/// Everything but the cycles and the generator is the same in both rounds.
pub open spec fn same_setup(a: Round, b: Round) -> bool {
    &&& a.playfield == b.playfield
    &&& a.grid@ == b.grid@
    &&& a.strict_sim == b.strict_sim
    &&& a.no_reverse == b.no_reverse
    &&& a.allow_reverse_if_only_safe == b.allow_reverse_if_only_safe
    &&& a.screensaver == b.screensaver
}

/// Cycle `i` heads for a cell that is already taken.
pub open spec fn wall_hit(g: GridModel, cs: Seq<Cycle>, i: int) -> bool {
    cs[i].alive && g.at(cs[i].pos.moved(cs[i].dir)) != 0
}

/// The pair relation that kills both cycles of a pair: a shared target, or a head swap.
pub open spec fn pair_clash(cs: Seq<Cycle>, i: int, j: int, swap: bool) -> bool {
    if swap { head_swap(cs, i, j) } else { same_target(cs, i, j) }
}

/// Pair `{k, m}` comes before position `(i, j)` of the pair loops.
pub open spec fn pair_done(k: int, m: int, i: int, j: int) -> bool {
    let lo = if k < m { k } else { m };
    let hi = if k < m { m } else { k };
    lo < i || (lo == i && hi < j)
}

pub open spec fn clashes_with_some(cs: Seq<Cycle>, k: int, swap: bool) -> bool {
    exists|m: int| 0 <= m < cs.len() && m != k && #[trigger] pair_clash(cs, k, m, swap)
}

/// Cycle `k` clashes with a cycle of a pair the loops have already looked at.
pub open spec fn clash_before(cs: Seq<Cycle>, k: int, i: int, j: int, swap: bool) -> bool {
    exists|m: int| 0 <= m < cs.len() && m != k && #[trigger] pair_clash(cs, k, m, swap) && pair_done(k, m, i, j)
}

proof fn lemma_pair_clash_symmetric(cs: Seq<Cycle>, i: int, j: int, swap: bool)
    ensures
        pair_clash(cs, i, j, swap) == pair_clash(cs, j, i, swap),
{
}

proof fn lemma_clash_before_eq(cs: Seq<Cycle>, k: int, i1: int, j1: int, i2: int, j2: int, swap: bool)
    requires
        forall|m: int|
            0 <= m < cs.len() && m != k && #[trigger] pair_clash(cs, k, m, swap) ==> pair_done(k, m, i1, j1)
                == pair_done(k, m, i2, j2),
    ensures
        clash_before(cs, k, i1, j1, swap) == clash_before(cs, k, i2, j2, swap),
{
    if clash_before(cs, k, i1, j1, swap) {
        let m = choose|m: int| 0 <= m < cs.len() && m != k && #[trigger] pair_clash(cs, k, m, swap) && pair_done(k, m, i1, j1);
        assert(pair_clash(cs, k, m, swap) && pair_done(k, m, i2, j2));
    }
    if clash_before(cs, k, i2, j2, swap) {
        let m = choose|m: int| 0 <= m < cs.len() && m != k && #[trigger] pair_clash(cs, k, m, swap) && pair_done(k, m, i2, j2);
        assert(pair_clash(cs, k, m, swap) && pair_done(k, m, i1, j1));
    }
}

/// Marks both cycles of every clashing pair.
fn mark_pairs(dead: &mut Vec<bool>, cycles: &Vec<Cycle>, swap: bool, Ghost(base): Ghost<Seq<bool>>)
    requires
        old(dead)@.len() == cycles@.len(),
        base.len() == cycles@.len(),
        forall|k: int| 0 <= k < cycles@.len() ==> #[trigger] old(dead)@[k] == base[k],
        forall|k: int| 0 <= k < cycles@.len() ==> #[trigger] grid_free_moves(cycles@, k),
    ensures
        final(dead)@.len() == cycles@.len(),
        forall|k: int|
            0 <= k < cycles@.len() ==> #[trigger] final(dead)@[k] == (base[k] || clashes_with_some(cycles@, k, swap)),
{
    let n = cycles.len();
    let ghost cs = cycles@;
    let mut i: usize = 0;
    while i < n
        invariant
            n == cs.len(),
            cs == cycles@,
            base.len() == n,
            i <= n,
            dead@.len() == n,
            forall|k: int| 0 <= k < n ==> #[trigger] grid_free_moves(cs, k),
            forall|k: int| 0 <= k < n ==> #[trigger] dead@[k] == (base[k] || clash_before(cs, k, i as int, 0, swap)),
        decreases n - i,
    {
        let ci = cycles[i];
        if ci.alive {
            assert(grid_free_moves(cs, i as int));
            let ti = ci.pos.offset(ci.dir);
            proof {
                assert forall|k: int| 0 <= k < n implies dead@[k] == (base[k] || clash_before(cs, k, i as int, i as int + 1, swap)) by {
                    assert(dead@[k] == (base[k] || clash_before(cs, k, i as int, 0, swap)));
                    lemma_clash_before_eq(cs, k, i as int, 0, i as int, i as int + 1, swap);
                    assert(clash_before(cs, k, i as int, 0, swap) == clash_before(cs, k, i as int, i as int + 1, swap));
                }
            }
            let mut j: usize = i + 1;
            while j < n
                invariant
                    n == cs.len(),
                    cs == cycles@,
                    base.len() == n,
                    i < j <= n,
                    ci == cs[i as int],
                    ci.alive,
                    ti == ci.pos.moved(ci.dir),
                    dead@.len() == n,
                    forall|k: int| 0 <= k < n ==> #[trigger] grid_free_moves(cs, k),
                    forall|k: int| 0 <= k < n ==> #[trigger] dead@[k] == (base[k] || clash_before(cs, k, i as int, j as int, swap)),
                decreases n - j,
            {
                let cj = cycles[j];
                let hit = if cj.alive {
                    assert(grid_free_moves(cs, j as int));
                    let tj = cj.pos.offset(cj.dir);
                    if swap {
                        ti.x == cj.pos.x && ti.y == cj.pos.y && tj.x == ci.pos.x && tj.y == ci.pos.y
                    } else {
                        ti.x == tj.x && ti.y == tj.y
                    }
                } else {
                    false
                };
                assert(hit == pair_clash(cs, i as int, j as int, swap));
                let ghost before = dead@;
                if hit {
                    dead.set(i, true);
                    dead.set(j, true);
                }
                proof {
                    lemma_pair_clash_symmetric(cs, i as int, j as int, swap);
                    assert forall|k: int| 0 <= k < n implies dead@[k] == (base[k] || clash_before(cs, k, i as int, j as int + 1, swap)) by {
                        if hit && k == i {
                            assert(pair_clash(cs, k, j as int, swap) && pair_done(k, j as int, i as int, j as int + 1));
                        } else if hit && k == j {
                            assert(pair_clash(cs, k, i as int, swap) && pair_done(k, i as int, i as int, j as int + 1));
                        } else {
                            lemma_clash_before_eq(cs, k, i as int, j as int, i as int, j as int + 1, swap);
                        }
                    }
                }
                j += 1;
            }
            proof {
                assert forall|k: int| 0 <= k < n implies dead@[k] == (base[k] || clash_before(cs, k, i as int + 1, 0, swap)) by {
                    lemma_clash_before_eq(cs, k, i as int, n as int, i as int + 1, 0, swap);
                }
            }
        } else {
            proof {
                assert forall|k: int| 0 <= k < n implies dead@[k] == (base[k] || clash_before(cs, k, i as int + 1, 0, swap)) by {
                    lemma_clash_before_eq(cs, k, i as int, 0, i as int + 1, 0, swap);
                }
            }
        }
        i += 1;
    }
    proof {
        assert forall|k: int| 0 <= k < n implies dead@[k] == (base[k] || clashes_with_some(cs, k, swap)) by {
            if clashes_with_some(cs, k, swap) {
                let m = choose|m: int| 0 <= m < cs.len() && m != k && #[trigger] pair_clash(cs, k, m, swap);
                assert(pair_clash(cs, k, m, swap) && pair_done(k, m, n as int, 0));
            }
        }
    }
}

/// Every alive cycle can step in its heading without leaving `i32`.
pub open spec fn grid_free_moves(cs: Seq<Cycle>, k: int) -> bool {
    cs[k].alive ==> cs[k].pos.can_move(cs[k].dir)
}


/// The crash flags of a tick, computed as the rules above say.
fn crash_flags(grid: &Grid, cycles: &Vec<Cycle>, strict: bool) -> (dead: Vec<bool>)
    requires
        grid@.wf(),
        positions_in_grid(grid@, cycles@),
    ensures
        dead@ == crash_seq(grid@, cycles@, strict),
{
    let n = cycles.len();
    let ghost cs = cycles@;
    let ghost g = grid@;
    let mut dead: Vec<bool> = Vec::new();
    let mut i: usize = 0;
    while i < n
        invariant
            n == cs.len(),
            cs == cycles@,
            g == grid@,
            g.wf(),
            positions_in_grid(g, cs),
            i <= n,
            dead@.len() == i,
            forall|k: int| 0 <= k < i ==> #[trigger] dead@[k] == wall_hit(g, cs, k),
        decreases n - i,
    {
        let c = cycles[i];
        let hit = if c.alive {
            assert(g.in_bounds(cs[i as int].pos));
            let t = c.pos.offset(c.dir);
            grid.get(t) != 0
        } else {
            false
        };
        dead.push(hit);
        i += 1;
    }
    proof {
        assert forall|k: int| 0 <= k < n implies #[trigger] grid_free_moves(cs, k) by {
            assert(g.in_bounds(cs[k].pos));
        }
    }
    let ghost base0 = dead@;
    mark_pairs(&mut dead, cycles, false, Ghost(base0));
    if strict {
        let ghost base1 = dead@;
        mark_pairs(&mut dead, cycles, true, Ghost(base1));
    }
    proof {
        assert forall|k: int| 0 <= k < n implies #[trigger] dead@[k] == crash_seq(g, cs, strict)[k] by {
            if clashes_with_some(cs, k, false) {
                let m = choose|m: int| 0 <= m < cs.len() && m != k && #[trigger] pair_clash(cs, k, m, false);
                assert(same_target(cs, k, m));
            }
            if exists|j: int| 0 <= j < cs.len() && j != k && #[trigger] same_target(cs, k, j) {
                let m = choose|j: int| 0 <= j < cs.len() && j != k && #[trigger] same_target(cs, k, j);
                assert(pair_clash(cs, k, m, false));
            }
            if clashes_with_some(cs, k, true) {
                let m = choose|m: int| 0 <= m < cs.len() && m != k && #[trigger] pair_clash(cs, k, m, true);
                assert(head_swap(cs, k, m));
            }
            if exists|j: int| 0 <= j < cs.len() && j != k && #[trigger] head_swap(cs, k, j) {
                let m = choose|j: int| 0 <= j < cs.len() && j != k && #[trigger] head_swap(cs, k, j);
                assert(pair_clash(cs, k, m, true));
            }
        }
        assert(dead@ =~= crash_seq(g, cs, strict));
    }
    dead
}

impl Round {
    fn is_turn_allowed(&self, idx: usize, desired: Dir) -> (b: bool)
        requires
            self.wf(),
            idx < self.cycles@.len(),
        ensures
            b == turn_allowed(
                self.grid@,
                self.cycles@[idx as int],
                self.no_reverse,
                self.allow_reverse_if_only_safe,
                desired,
            ),
    {
        let c = self.cycles[idx];
        if desired == c.dir {
            return true;
        }
        if self.no_reverse && desired == c.dir.opposite() {
            if !self.allow_reverse_if_only_safe {
                return false;
            }
            assert(self.grid@.in_bounds(self.cycles@[idx as int].pos));
            let all = Dir::all();
            let mut found_safe = false;
            let mut k: usize = 0;
            while k < 4 && !found_safe
                invariant
                    k <= 4,
                    all@ == Dir::spec_all(),
                    self.grid@.in_bounds(c.pos),
                    self.grid@.wf(),
                    found_safe ==> safe_non_reverse_exists(self.grid@, c),
                    !found_safe ==> forall|q: int| 0 <= q < k ==> (all@[q] == c.dir.spec_opposite() || self.grid@.at(c.pos.moved(#[trigger] all@[q])) != 0),
                decreases 4 - k,
            {
                let d = all[k];
                if d != c.dir.opposite() {
                    let p = c.pos.offset(d);
                    if self.grid.get(p) == 0 {
                        found_safe = true;
                    }
                }
                k += 1;
            }
            proof {
                if !found_safe {
                    assert forall|d: Dir| d != c.dir.spec_opposite() implies #[trigger] self.grid@.at(c.pos.moved(d)) != 0 by {
                        let q: int = match d { Dir::Up => 0, Dir::Down => 1, Dir::Left => 2, Dir::Right => 3 };
                        assert(all@[q] == d);
                    }
                }
            }
            if found_safe {
                return false;
            }
        }
        true
    }

    fn apply_pending_turns(&mut self)
        requires
            old(self).wf(),
        ensures
            final(self).grid.width == old(self).grid.width,
            final(self).grid.height == old(self).grid.height,
            final(self).wf(),
            same_setup(*old(self), *final(self)),
            final(self).cycles@ == all_turned(
                old(self).grid@,
                old(self).cycles@,
                old(self).no_reverse,
                old(self).allow_reverse_if_only_safe,
            ),
    {
        let ghost cs = self.cycles@;
        let ghost start = *self;
        let n = self.cycles.len();
        let mut i: usize = 0;
        while i < n
            invariant
                n == cs.len(),
                i <= n,
                self.wf(),
                same_setup(start, *self),
                self.cycles@.len() == n,
                forall|k: int| 0 <= k < i ==> #[trigger] self.cycles@[k] == turned(
                    start.grid@,
                    cs[k],
                    start.no_reverse,
                    start.allow_reverse_if_only_safe,
                ),
                forall|k: int| i <= k < n ==> #[trigger] self.cycles@[k] == cs[k],
            decreases n - i,
        {
            let c = self.cycles[i];
            if c.alive {
                match c.pending_dir {
                    None => {},
                    Some(desired) => {
                        let allowed = self.is_turn_allowed(i, desired);
                        let mut c2 = c;
                        c2.pending_dir = None;
                        if allowed {
                            c2.dir = desired;
                        }
                        self.cycles.set(i, c2);
                    },
                }
            }
            i += 1;
        }
        proof {
            assert(self.cycles@ =~= all_turned(start.grid@, cs, start.no_reverse, start.allow_reverse_if_only_safe));
        }
    }
}


/// Wall drops leave the grid's shape, the number of cycles and every
/// position alone.
pub proof fn lemma_drops_shape(g: GridModel, cs: Seq<Cycle>, k: nat)
    requires
        g.wf(),
        k <= cs.len(),
    ensures
        drops(g, cs, k).0.wf(),
        drops(g, cs, k).0.width == g.width,
        drops(g, cs, k).0.height == g.height,
        drops(g, cs, k).1.len() == cs.len(),
        forall|i: int| 0 <= i < cs.len() ==> #[trigger] drops(g, cs, k).1[i].pos == cs[i].pos,
        forall|i: int|
            0 <= i < cs.len() ==> #[trigger] drops(g, cs, k).1[i] == (Cycle {
                wall_charges: drops(g, cs, k).1[i].wall_charges,
                drop_wall_pending: drops(g, cs, k).1[i].drop_wall_pending,
                ..cs[i]
            }),
        forall|i: int| 0 <= i < cs.len() ==> #[trigger] drops(g, cs, k).1[i].wall_charges <= cs[i].wall_charges,
        forall|i: int| 0 <= i < cs.len() ==> cs[i].wall_charges - 1 <= #[trigger] drops(g, cs, k).1[i].wall_charges,
        forall|c: Coord| g.at(c) != 0 ==> #[trigger] drops(g, cs, k).0.at(c) != 0,
        forall|i: int| k <= i < cs.len() ==> #[trigger] drops(g, cs, k).1[i] == cs[i],
    decreases k,
{
    if k > 0 {
        lemma_drops_shape(g, cs, (k - 1) as nat);
        let (g1, cs1) = drops(g, cs, (k - 1) as nat);
        let c = cs1[k - 1];
        if wants_drop(c) {
            match wall_spot(g1, c) {
                Some(p) => {
                    lemma_read_after_write(g1, p, WALL_CELL, p);
                    assert forall|q: Coord| g.at(q) != 0 implies #[trigger] drops(g, cs, k).0.at(q) != 0 by {
                        lemma_read_after_write(g1, p, WALL_CELL, q);
                    }
                },
                None => {},
            }
        }
    }
}

impl Round {
    fn apply_optional_wall_drops(&mut self)
        requires
            old(self).wf(),
        ensures
            final(self).wf(),
            final(self).playfield == old(self).playfield,
            final(self).grid.width == old(self).grid.width,
            final(self).grid.height == old(self).grid.height,
            final(self).strict_sim == old(self).strict_sim,
            final(self).no_reverse == old(self).no_reverse,
            final(self).allow_reverse_if_only_safe == old(self).allow_reverse_if_only_safe,
            final(self).screensaver == old(self).screensaver,
            (final(self).grid@, final(self).cycles@) == drops(old(self).grid@, old(self).cycles@, old(self).cycles@.len()),
    {
        let ghost g0 = self.grid@;
        let ghost cs0 = self.cycles@;
        let ghost start = *self;
        let n = self.cycles.len();
        let mut i: usize = 0;
        while i < n
            invariant
                n == cs0.len(),
                i <= n,
                g0.wf(),
                positions_in_grid(g0, cs0),
                (self.grid@, self.cycles@) == drops(g0, cs0, i as nat),
                self.grid@.wf(),
                self.playfield == start.playfield,
                self.strict_sim == start.strict_sim,
                self.no_reverse == start.no_reverse,
                self.allow_reverse_if_only_safe == start.allow_reverse_if_only_safe,
                self.screensaver == start.screensaver,
            decreases n - i,
        {
            proof {
                lemma_drops_shape(g0, cs0, i as nat);
                assert(self.cycles@[i as int].pos == cs0[i as int].pos);
                assert(g0.in_bounds(cs0[i as int].pos));
            }
            let c = self.cycles[i];
            if c.alive && c.drop_wall_pending && c.wall_charges != 0 {
                let back = c.dir.opposite();
                let (s0, s1) = match c.dir {
                    Dir::Up | Dir::Down => (Dir::Left, Dir::Right),
                    Dir::Left | Dir::Right => (Dir::Up, Dir::Down),
                };
                let p0 = c.pos.offset(s0);
                let p1 = c.pos.offset(s1);
                let p2 = c.pos.offset(back);
                let placed: Option<Coord> = if self.grid.get(p0) == 0 {
                    Some(p0)
                } else if self.grid.get(p1) == 0 {
                    Some(p1)
                } else if self.grid.get(p2) == 0 {
                    Some(p2)
                } else {
                    None
                };
                assert(placed == wall_spot(self.grid@, c));
                let mut c2 = c;
                match placed {
                    Some(p) => {
                        self.grid.set(p, WALL_CELL);
                        c2.wall_charges = c.wall_charges.saturating_sub(1);
                        c2.drop_wall_pending = false;
                    },
                    None => {
                        c2.drop_wall_pending = false;
                    },
                }
                self.cycles.set(i, c2);
            }
            i += 1;
        }
        proof {
            lemma_drops_shape(g0, cs0, n as nat);
            assert forall|k: int| 0 <= k < self.cycles@.len() implies #[trigger] self.grid@.in_bounds(self.cycles@[k].pos) by {
                assert(self.cycles@[k].pos == cs0[k].pos);
                assert(g0.in_bounds(cs0[k]. pos));
            }
        }
    }
}


/// The cycles after the move of a tick.
pub open spec fn all_committed(cs: Seq<Cycle>, dead: Seq<bool>) -> Seq<Cycle> {
    Seq::new(cs.len(), |i: int| committed(cs[i], dead[i]))
}

/// Marking trails leaves the grid's shape alone.
pub proof fn lemma_trails_shape(g: GridModel, cs: Seq<Cycle>, dead: Seq<bool>, k: nat)
    requires
        g.wf(),
    ensures
        trails(g, cs, dead, k).wf(),
        trails(g, cs, dead, k).width == g.width,
        trails(g, cs, dead, k).height == g.height,
    decreases k,
{
    if k > 0 && k <= cs.len() {
        lemma_trails_shape(g, cs, dead, (k - 1) as nat);
        let g1 = trails(g, cs, dead, (k - 1) as nat);
        lemma_read_after_write(g1, cs[k - 1].pos, cs[k - 1].id, cs[k - 1].pos);
    }
}

impl Round {
    /// Moves every alive cycle one cell along its heading, killing the ones
    /// that crash and leaving trails behind the survivors.
    fn resolve_moves(&mut self) -> (r: TickResult)
        requires
            old(self).wf(),
        ensures
            final(self).grid.width == old(self).grid.width,
            final(self).grid.height == old(self).grid.height,
            final(self).wf(),
            final(self).playfield == old(self).playfield,
            final(self).strict_sim == old(self).strict_sim,
            final(self).no_reverse == old(self).no_reverse,
            final(self).allow_reverse_if_only_safe == old(self).allow_reverse_if_only_safe,
            final(self).screensaver == old(self).screensaver,
            final(self).cycles@ == all_committed(
                old(self).cycles@,
                crash_seq(old(self).grid@, old(self).cycles@, old(self).strict_sim),
            ),
            final(self).grid@ == trails(
                old(self).grid@,
                old(self).cycles@,
                crash_seq(old(self).grid@, old(self).cycles@, old(self).strict_sim),
                old(self).cycles@.len(),
            ),
            r.outcome == spec_outcome(final(self).cycles@),
    {
        let ghost g0 = self.grid@;
        let ghost cs0 = self.cycles@;
        let ghost start = *self;
        let dead = crash_flags(&self.grid, &self.cycles, self.strict_sim);
        let n = self.cycles.len();
        let mut i: usize = 0;
        while i < n
            invariant
                n == cs0.len(),
                i <= n,
                g0.wf(),
                positions_in_grid(g0, cs0),
                dead@ == crash_seq(g0, cs0, start.strict_sim),
                self.grid@ == trails(g0, cs0, dead@, i as nat),
                self.grid@.wf(),
                self.grid@.width == g0.width,
                self.grid@.height == g0.height,
                self.cycles@.len() == n,
                forall|k: int| 0 <= k < i ==> #[trigger] self.cycles@[k] == committed(cs0[k], dead@[k]),
                forall|k: int| i <= k < n ==> #[trigger] self.cycles@[k] == cs0[k],
                self.playfield == start.playfield,
                self.strict_sim == start.strict_sim,
                self.no_reverse == start.no_reverse,
                self.allow_reverse_if_only_safe == start.allow_reverse_if_only_safe,
                self.screensaver == start.screensaver,
            decreases n - i,
        {
            proof {
                lemma_trails_shape(g0, cs0, dead@, (i + 1) as nat);
            }
            let c = self.cycles[i];
            if c.alive {
                assert(g0.in_bounds(cs0[i as int].pos));
                let target = c.pos.offset(c.dir);
                let mut c2 = c;
                if dead[i] {
                    c2.alive = false;
                } else {
                    self.grid.set(c.pos, c.id);
                    c2.prev_pos = c.pos;
                    c2.pos = target;
                }
                self.cycles.set(i, c2);
            }
            i += 1;
        }
        proof {
            assert(self.cycles@ =~= all_committed(cs0, dead@));
            assert forall|k: int| 0 <= k < n implies #[trigger] self.grid@.in_bounds(self.cycles@[k].pos) by {
                assert(g0.in_bounds(cs0[k].pos));
                if cs0[k].alive && !dead@[k] {
                    assert(!crashes(g0, cs0, start.strict_sim, k));
                    assert(g0.at(cs0[k].pos.moved(cs0[k].dir)) == 0);
                }
            }
        }
        let player_dead = !self.player_alive();
        let outcome = if player_dead {
            Some(RoundOutcome::Defeat)
        } else if self.ai_alive_count() == 0 {
            Some(RoundOutcome::Victory)
        } else {
            None
        };
        TickResult { outcome }
    }

    pub fn queue_player_dir(&mut self, dir: Option<Dir>)
        requires
            old(self).wf(),
        ensures
            final(self).wf(),
            same_setup(*old(self), *final(self)),
            final(self).rng == old(self).rng,
            final(self).cycles@ == (if !old(self).screensaver && old(self).cycles@.len() > 0 && dir is Some {
                old(self).cycles@.update(0, Cycle { pending_dir: dir, ..old(self).cycles@[0] })
            } else {
                old(self).cycles@
            }),
    {
        if self.screensaver {
            return;
        }
        if self.cycles.len() > 0 {
            if let Some(d) = dir {
                let mut c = self.cycles[0];
                c.pending_dir = Some(d);
                self.cycles.set(0, c);
            }
        }
    }

    pub fn set_player_start_dir(&mut self, dir: Dir)
        requires
            old(self).wf(),
        ensures
            final(self).wf(),
            same_setup(*old(self), *final(self)),
            final(self).rng == old(self).rng,
            final(self).cycles@ == (if !old(self).screensaver && old(self).cycles@.len() > 0
                && old(self).cycles@[0].alive && old(self).cycles@[0].is_player {
                old(self).cycles@.update(0, Cycle { dir: dir, pending_dir: None, ..old(self).cycles@[0] })
            } else {
                old(self).cycles@
            }),
    {
        if self.screensaver {
            return;
        }
        if self.cycles.len() > 0 {
            let mut c = self.cycles[0];
            if c.alive && c.is_player {
                c.dir = dir;
                c.pending_dir = None;
                self.cycles.set(0, c);
            }
        }
    }

    pub fn queue_drop_wall(&mut self)
        requires
            old(self).wf(),
        ensures
            final(self).wf(),
            same_setup(*old(self), *final(self)),
            final(self).rng == old(self).rng,
            final(self).cycles@ == (if !old(self).screensaver && old(self).cycles@.len() > 0
                && old(self).cycles@[0].alive && old(self).cycles@[0].wall_charges > 0 {
                old(self).cycles@.update(0, Cycle { drop_wall_pending: true, ..old(self).cycles@[0] })
            } else {
                old(self).cycles@
            }),
    {
        if self.screensaver {
            return;
        }
        if self.cycles.len() > 0 {
            let mut c = self.cycles[0];
            if c.alive && c.wall_charges > 0 {
                c.drop_wall_pending = true;
                self.cycles.set(0, c);
            }
        }
    }
}


/// What the AI drivers may have queued: every alive AI cycle gets a heading
/// its driver may answer (see `ai_choice_ok`), within 16 of the best
/// headroom it weighed (see `ai_within_headroom`); nothing else changes.
pub open spec fn ai_intents_ok(g: GridModel, before: Seq<Cycle>, after: Seq<Cycle>, no_reverse: bool) -> bool {
    &&& after.len() == before.len()
    &&& forall|i: int| 0 <= i < before.len() ==> #[trigger] after[i] == (Cycle { pending_dir: after[i].pending_dir, ..before[i] })
    &&& forall|i: int|
        0 <= i < before.len() ==> if before[i].alive && !before[i].is_player {
            #[trigger] after[i].pending_dir matches Some(d) && ai_choice_ok(g, before[i], no_reverse, d)
                && ai_within_headroom(g, before[i], no_reverse, d)
        } else {
            after[i].pending_dir == before[i].pending_dir
        }
}

/// The deterministic rest of a tick, once the AI drivers have queued their
/// headings: turns, wall drops, then moves and crashes.
pub open spec fn tick_from(
    g: GridModel,
    cs: Seq<Cycle>,
    no_reverse: bool,
    allow_if_only_safe: bool,
    strict: bool,
) -> (GridModel, Seq<Cycle>) {
    let cs1 = all_turned(g, cs, no_reverse, allow_if_only_safe);
    let (g2, cs2) = drops(g, cs1, cs1.len());
    let dead = crash_seq(g2, cs2, strict);
    (trails(g2, cs2, dead, cs2.len()), all_committed(cs2, dead))
}

impl Round {
    fn apply_ai_intents(&mut self)
        requires
            old(self).wf(),
        ensures
            final(self).grid.width == old(self).grid.width,
            final(self).grid.height == old(self).grid.height,
            final(self).wf(),
            same_setup(*old(self), *final(self)),
            ai_intents_ok(old(self).grid@, old(self).cycles@, final(self).cycles@, old(self).no_reverse),
    {
        let ghost cs0 = self.cycles@;
        let ghost start = *self;
        let n = self.cycles.len();
        let mut i: usize = 0;
        while i < n
            invariant
                n == cs0.len(),
                i <= n,
                self.wf(),
                same_setup(start, *self),
                self.cycles@.len() == n,
                forall|k: int| 0 <= k < n ==> #[trigger] self.cycles@[k] == (Cycle { pending_dir: self.cycles@[k].pending_dir, ..cs0[k] }),
                forall|k: int| i <= k < n ==> #[trigger] self.cycles@[k] == cs0[k],
                forall|k: int|
                    0 <= k < i ==> if cs0[k].alive && !cs0[k].is_player {
                        #[trigger] self.cycles@[k].pending_dir matches Some(d) && ai_choice_ok(start.grid@, cs0[k], start.no_reverse, d)
                            && ai_within_headroom(start.grid@, cs0[k], start.no_reverse, d)
                    } else {
                        self.cycles@[k].pending_dir == cs0[k].pending_dir
                    },
            decreases n - i,
        {
            let c = self.cycles[i];
            if c.alive && !c.is_player {
                let seed = small_next_u64(&mut self.rng);
                let mut local_rng = small_rng_seeded(seed);
                let next = choose_dir(&*self, i, &mut local_rng);
                let mut c2 = c;
                c2.pending_dir = Some(next);
                self.cycles.set(i, c2);
            }
            i += 1;
        }
    }

    /// Advances the round by one move of every cycle.  The AI drivers queue
    /// their headings first (their choices rest on chance); the rest is
    /// `tick_from`, and the outcome is read from the cycles afterwards.
    pub fn tick(&mut self) -> (r: TickResult)
        requires
            old(self).wf(),
        ensures
            final(self).wf(),
            final(self).playfield == old(self).playfield,
            final(self).grid.width == old(self).grid.width,
            final(self).grid.height == old(self).grid.height,
            drawable(*old(self)) ==> drawable(*final(self)),
            final(self).strict_sim == old(self).strict_sim,
            final(self).no_reverse == old(self).no_reverse,
            final(self).allow_reverse_if_only_safe == old(self).allow_reverse_if_only_safe,
            final(self).screensaver == old(self).screensaver,
            exists|mid: Seq<Cycle>|
                ai_intents_ok(old(self).grid@, old(self).cycles@, mid, old(self).no_reverse) && (final(self).grid@, final(self).cycles@)
                    == #[trigger] tick_from(
                    old(self).grid@,
                    mid,
                    old(self).no_reverse,
                    old(self).allow_reverse_if_only_safe,
                    old(self).strict_sim,
                ),
            r.outcome == spec_outcome(final(self).cycles@),
    {
        let ghost start = *self;
        self.apply_ai_intents();
        let ghost mid = self.cycles@;
        self.apply_pending_turns();
        self.apply_optional_wall_drops();
        let r = self.resolve_moves();
        assert((self.grid@, self.cycles@) == tick_from(
            start.grid@,
            mid,
            start.no_reverse,
            start.allow_reverse_if_only_safe,
            start.strict_sim,
        ));
        r
    }
}


/// The spawn rectangle: one cell away from every edge.
pub open spec fn spawn_cell(width: i32, height: i32, c: Coord) -> bool {
    1 <= c.x <= width - 2 && 1 <= c.y <= height - 2
}

/// The squared distance between two cells.
pub open spec fn dist2(a: Coord, b: Coord) -> int {
    (a.x - b.x) * (a.x - b.x) + (a.y - b.y) * (a.y - b.y)
}

/// Spawn points lie in the spawn rectangle and keep a squared distance of
/// at least 16 from one another.
pub open spec fn spawns_ok(width: i32, height: i32, s: Seq<Coord>) -> bool {
    &&& forall|i: int| 0 <= i < s.len() ==> spawn_cell(width, height, #[trigger] s[i])
    &&& forall|i: int, j: int| 0 <= i < s.len() && 0 <= j < s.len() && i != j ==> dist2(#[trigger] s[i], #[trigger] s[j]) >= 16
}

fn clamp_to(v: i32, lo: i32, hi: i32) -> (r: i32)
    requires
        lo <= hi,
    ensures
        r == (if v < lo { lo } else if v > hi { hi } else { v }),
{
    if v < lo {
        lo
    } else if v > hi {
        hi
    } else {
        v
    }
}

proof fn lemma_dist_bounds(dx: int, dy: int, bx: int, by: int)
    requires
        -bx <= dx <= bx,
        -by <= dy <= by,
        bx * bx + by * by <= i32::MAX,
    ensures
        0 <= dx * dx <= i32::MAX,
        0 <= dy * dy <= i32::MAX,
        dx * dx + dy * dy <= i32::MAX,
{
    assert(0 <= dx * dx <= bx * bx) by (nonlinear_arith)
        requires
            -bx <= dx <= bx,
    ;
    assert(0 <= dy * dy <= by * by) by (nonlinear_arith)
        requires
            -by <= dy <= by,
    ;
}

/// The radius of ring `n` (0, 1 or 2) of spawn points on a `width` by
/// `height` arena: a third, a quarter and a fifth of the shorter side, at
/// least 3, 2 and 2.
pub open spec fn ring_radius(width: int, height: int, n: int) -> int {
    let m = if width < height { width } else { height };
    if n == 0 {
        if m / 3 > 3 { m / 3 } else { 3 }
    } else if n == 1 {
        if m / 4 > 2 { m / 4 } else { 2 }
    } else {
        if m / 5 > 2 { m / 5 } else { 2 }
    }
}

/// Offset `o` (0 to 7) of a ring of radius `r`: the four axis points, then
/// the four diagonal ones.
pub open spec fn ring_offset(r: int, o: int) -> (int, int) {
    if o == 0 {
        (r, 0)
    } else if o == 1 {
        (-r, 0)
    } else if o == 2 {
        (0, r)
    } else if o == 3 {
        (0, -r)
    } else if o == 4 {
        (r, r)
    } else if o == 5 {
        (r, -r)
    } else if o == 6 {
        (-r, r)
    } else {
        (-r, -r)
    }
}

pub open spec fn clamp_int(v: int, lo: int, hi: int) -> int {
    if v < lo {
        lo
    } else if v > hi {
        hi
    } else {
        v
    }
}

/// Fixed spawn point `k` (0 to 23): offset `k % 8` of ring `k / 8` around
/// the centre, held inside the spawn rectangle.
pub open spec fn ring_point(width: i32, height: i32, k: int) -> Coord {
    let r = ring_radius(width as int, height as int, k / 8);
    let d = ring_offset(r, k % 8);
    Coord {
        x: clamp_int(width / 2 + d.0, 1, width - 2) as i32,
        y: clamp_int(height / 2 + d.1, 1, height - 2) as i32,
    }
}

/// Some spawn of `s` lies closer to `c` than the spawn distance.
pub open spec fn crowded(c: Coord, s: Seq<Coord>) -> bool {
    exists|p: int| 0 <= p < s.len() && dist2(c, #[trigger] s[p]) < 16
}

/// Some entry of `s` is `c`.
pub open spec fn listed(s: Seq<Coord>, c: Coord) -> bool {
    exists|q: int| 0 <= q < s.len() && #[trigger] s[q] == c
}

proof fn lemma_crowded_push(c: Coord, s: Seq<Coord>, x: Coord)
    requires
        crowded(c, s),
    ensures
        crowded(c, s.push(x)),
{
    let p = choose|p: int| 0 <= p < s.len() && dist2(c, #[trigger] s[p]) < 16;
    assert(s.push(x)[p] == s[p]);
}

/// Spawns have been taken up to the count: at least one, and `cycles`.
pub open spec fn stopped(s: Seq<Coord>, cycles: int) -> bool {
    s.len() >= 1 && s.len() >= cycles
}

/// The spawns the greedy pass takes from the first `n` candidates: each
/// in turn unless it is too close to one taken, until `cycles` are taken
/// (and at least one).
pub open spec fn greedy_upto(cands: Seq<Coord>, cycles: int, n: int) -> Seq<Coord>
    decreases n,
{
    if n <= 0 {
        Seq::empty()
    } else {
        let s = greedy_upto(cands, cycles, n - 1);
        if stopped(s, cycles) || crowded(cands[n - 1], s) {
            s
        } else {
            s.push(cands[n - 1])
        }
    }
}

proof fn lemma_greedy_stays(cands: Seq<Coord>, cycles: int, n: int, m: int)
    requires
        0 <= n <= m,
        stopped(greedy_upto(cands, cycles, n), cycles),
    ensures
        greedy_upto(cands, cycles, m) == greedy_upto(cands, cycles, n),
    decreases m - n,
{
    if m > n {
        lemma_greedy_stays(cands, cycles, n, m - 1);
    }
}

/// Takes spawns from `candidates` in order, each unless it lies closer
/// than the spawn distance to one already taken, until `cycles` are taken
/// (the first is always taken): `greedy_upto` of them.  Short of `cycles`,
/// every candidate lies too close to a spawn taken.
pub fn pick_spawns(width: i32, height: i32, candidates: &Vec<Coord>, cycles: usize) -> (spawns: Vec<Coord>)
    requires
        3 <= width,
        3 <= height,
        (width - 3) * (width - 3) + (height - 3) * (height - 3) <= i32::MAX,
        candidates@.len() >= 24,
        forall|q: int| 0 <= q < candidates@.len() ==> spawn_cell(width, height, #[trigger] candidates@[q]),
    ensures
        spawns@ == greedy_upto(candidates@, cycles as int, candidates@.len() as int),
        spawns_ok(width, height, spawns@),
        spawns@.len() <= (if cycles == 0 { 1 } else { cycles }),
        spawns@.len() > 0,
        spawns@.len() < cycles ==> forall|q: int| 0 <= q < candidates@.len() ==> #[trigger] crowded(candidates@[q], spawns@),
{
    assert(width <= 46343 && height <= 46343) by (nonlinear_arith)
        requires
            3 <= width,
            3 <= height,
            (width - 3) * (width - 3) + (height - 3) * (height - 3) <= i32::MAX,
    ;
    let mut spawns: Vec<Coord> = Vec::new();
    let mut ci: usize = 0;
    let mut full = false;
    while ci < candidates.len() && !full
        invariant
            ci <= candidates@.len(),
            3 <= width <= 46343,
            3 <= height <= 46343,
            forall|q: int| 0 <= q < candidates@.len() ==> spawn_cell(width, height, #[trigger] candidates@[q]),
            (width - 3) * (width - 3) + (height - 3) * (height - 3) <= i32::MAX,
            candidates@.len() >= 24,
            spawns_ok(width, height, spawns@),
            spawns@.len() <= (if cycles == 0 { 1 } else { cycles }),
            !full ==> spawns@.len() < cycles || spawns@.len() == 0,
            full ==> spawns@.len() >= cycles && ci > 0,
            ci > 0 ==> spawns@.len() > 0,
            spawns@.len() < cycles ==> forall|q: int| 0 <= q < ci ==> #[trigger] crowded(candidates@[q], spawns@),
            spawns@ == greedy_upto(candidates@, cycles as int, ci as int),
            full == stopped(spawns@, cycles as int),
        decreases candidates@.len() - ci,
    {
        let c = candidates[ci];
        let mut clear = true;
        let mut si: usize = 0;
        while si < spawns.len() && clear
            invariant
                si <= spawns@.len(),
                3 <= width <= 46343,
                3 <= height <= 46343,
                (width - 3) * (width - 3) + (height - 3) * (height - 3) <= i32::MAX,
                spawn_cell(width, height, c),
                spawns_ok(width, height, spawns@),
                clear ==> forall|q: int| 0 <= q < si ==> dist2(c, #[trigger] spawns@[q]) >= 16,
                !clear ==> crowded(c, spawns@),
            decreases spawns@.len() - si,
        {
            let sp = spawns[si];
            assert(spawn_cell(width, height, spawns@[si as int]));
            let dx = c.x - sp.x;
            let dy = c.y - sp.y;
            proof {
                lemma_dist_bounds(dx as int, dy as int, width - 3, height - 3);
            }
            if dx * dx + dy * dy < 16 {
                clear = false;
                assert(dist2(c, spawns@[si as int]) < 16);
            }
            si += 1;
        }
        let ghost before = spawns@;
        proof {
            assert(clear == !crowded(c, spawns@));
            assert(greedy_upto(candidates@, cycles as int, ci + 1) == if crowded(c, before) {
                before
            } else {
                before.push(c)
            });
        }
        if clear {
            spawns.push(c);
            proof {
                assert forall|a: int, b: int| 0 <= a < spawns@.len() && 0 <= b < spawns@.len() && a != b
                    implies dist2(#[trigger] spawns@[a], #[trigger] spawns@[b]) >= 16 by {
                    if a == before.len() as int {
                        assert(dist2(c, before[b]) >= 16);
                        assert(dist2(spawns@[a], spawns@[b]) == dist2(c, before[b])) by (nonlinear_arith)
                            requires spawns@[a] == c, spawns@[b] == before[b];
                    } else if b == before.len() as int {
                        assert(dist2(c, before[a]) >= 16);
                        assert(dist2(spawns@[a], spawns@[b]) == dist2(c, before[a])) by (nonlinear_arith)
                            requires spawns@[b] == c, spawns@[a] == before[a];
                    } else {
                        assert(spawns@[a] == before[a]);
                        assert(spawns@[b] == before[b]);
                    }
                }
                assert(spawns@[before.len() as int] == c);
                assert(dist2(c, c) == 0) by (nonlinear_arith);
                assert forall|q: int| 0 <= q < ci + 1 && spawns@.len() < cycles implies #[trigger] crowded(candidates@[q], spawns@) by {
                    if q < ci {
                        lemma_crowded_push(candidates@[q], before, c);
                    }
                }
            }
            if spawns.len() >= cycles {
                full = true;
            }
        }
        ci += 1;
    }
    proof {
        if full {
            lemma_greedy_stays(candidates@, cycles as int, ci as int, candidates@.len() as int);
        }
    }
    spawns
}

/// Spawn points for `cycles` cycles: fixed rings around the centre plus
/// random points, shuffled, then taken greedily while they keep their
/// distance.  Fewer than `cycles` points may come back, but then every
/// fixed ring point lies too close to one taken.
pub fn generate_spawns(width: i32, height: i32, cycles: usize, rng: &mut SmallRng) -> (spawns: Vec<Coord>)
    requires
        3 <= width,
        3 <= height,
        (width - 3) * (width - 3) + (height - 3) * (height - 3) <= i32::MAX,
        cycles <= usize::MAX / 8,
    ensures
        spawns@.len() <= (if cycles == 0 { 1 } else { cycles }),
        cycles == 0 ==> spawns@.len() == 1,
        spawns_ok(width, height, spawns@),
        spawns@.len() >= cycles || forall|k: int|
            0 <= k < 24 ==> #[trigger] crowded(ring_point(width, height, k), spawns@),
        cycles > 0 ==> spawns@.len() > 0,
        exists|cands: Seq<Coord>|
            #[trigger] greedy_upto(cands, cycles as int, cands.len() as int) == spawns@ && cands.len() == 24 + (if cycles
                * 8 > 16 {
                cycles * 8
            } else {
                16
            }) && (forall|k: int| 0 <= k < 24 ==> #[trigger] listed(cands, ring_point(width, height, k))) && (forall|q: int|
                0 <= q < cands.len() ==> spawn_cell(width, height, #[trigger] cands[q])),
{
    assert(width <= 46343 && height <= 46343) by (nonlinear_arith)
        requires
            3 <= width,
            3 <= height,
            (width - 3) * (width - 3) + (height - 3) * (height - 3) <= i32::MAX,
    ;
    let mut candidates: Vec<Coord> = Vec::new();
    let cx = width / 2;
    let cy = height / 2;
    let m = if width < height { width } else { height };
    let r0 = if m / 3 > 3 { m / 3 } else { 3 };
    let r1 = if m / 4 > 2 { m / 4 } else { 2 };
    let r2 = if m / 5 > 2 { m / 5 } else { 2 };
    let radii = [r0, r1, r2];
    assert(forall|q: int| 0 <= q < 3 ==> #[trigger] radii@[q] == ring_radius(width as int, height as int, q));
    let mut ri: usize = 0;
    while ri < 3
        invariant
            ri <= 3,
            3 <= width <= 46343,
            3 <= height <= 46343,
            cx == width / 2,
            cy == height / 2,
            forall|q: int| 0 <= q < 3 ==> 0 <= #[trigger] radii@[q] <= 46343,
            forall|q: int| 0 <= q < 3 ==> #[trigger] radii@[q] == ring_radius(width as int, height as int, q),
            candidates@.len() == ri * 8,
            forall|q: int| 0 <= q < candidates@.len() ==> spawn_cell(width, height, #[trigger] candidates@[q]),
            forall|q: int| 0 <= q < candidates@.len() ==> #[trigger] candidates@[q] == ring_point(width, height, q),
        decreases 3 - ri,
    {
        let r = radii[ri];
        let offsets = [(r, 0), (-r, 0), (0, r), (0, -r), (r, r), (r, -r), (-r, r), (-r, -r)];
        assert(forall|q: int| 0 <= q < 8 ==> (#[trigger] offsets@[q]).0 == ring_offset(r as int, q).0 && offsets@[q].1 == ring_offset(r as int, q).1);
        let mut oi: usize = 0;
        while oi < 8
            invariant
                oi <= 8,
                ri < 3,
                3 <= width <= 46343,
                3 <= height <= 46343,
                cx == width / 2,
                cy == height / 2,
                0 <= r <= 46343,
                r == ring_radius(width as int, height as int, ri as int),
                forall|q: int| 0 <= q < 8 ==> -46343 <= (#[trigger] offsets@[q]).0 <= 46343 && -46343 <= offsets@[q].1 <= 46343,
                forall|q: int| 0 <= q < 8 ==> (#[trigger] offsets@[q]).0 == ring_offset(r as int, q).0 && offsets@[q].1 == ring_offset(r as int, q).1,
                candidates@.len() == ri * 8 + oi,
                forall|q: int| 0 <= q < candidates@.len() ==> spawn_cell(width, height, #[trigger] candidates@[q]),
                forall|q: int| 0 <= q < candidates@.len() ==> #[trigger] candidates@[q] == ring_point(width, height, q),
            decreases 8 - oi,
        {
            let (dx, dy) = offsets[oi];
            let x = clamp_to(cx + dx, 1, width - 2);
            let y = clamp_to(cy + dy, 1, height - 2);
            let ghost n = candidates@.len() as int;
            proof {
                lemma_fundamental_div_mod_converse(n, 8, ri as int, oi as int);
            }
            candidates.push(Coord { x, y });
            assert(candidates@[n] == ring_point(width, height, n));
            oi += 1;
        }
        ri += 1;
    }
    let extra: usize = if cycles * 8 > 16 { cycles * 8 } else { 16 };
    let mut e: usize = 0;
    while e < extra
        invariant
            e <= extra,
            candidates@.len() == 24 + e,
            3 <= width <= 46343,
            3 <= height <= 46343,
            candidates@.len() >= 24,
            forall|q: int| 0 <= q < candidates@.len() ==> spawn_cell(width, height, #[trigger] candidates@[q]),
            forall|q: int| 0 <= q < 24 ==> #[trigger] candidates@[q] == ring_point(width, height, q),
        decreases extra - e,
    {
        let x = small_range_i32(rng, 1, width - 2);
        let y = small_range_i32(rng, 1, height - 2);
        candidates.push(Coord { x, y });
        e += 1;
    }
    assert forall|k: int| 0 <= k < 24 implies #[trigger] listed(candidates@, ring_point(width, height, k)) by {
        assert(candidates@[k] == ring_point(width, height, k));
    }
    // Shuffle (Fisher-Yates, back to front).
    let mut i: usize = candidates.len();
    while i > 1
        invariant
            i <= candidates@.len(),
            candidates@.len() >= 24,
            candidates@.len() == 24 + extra,
            forall|q: int| 0 <= q < candidates@.len() ==> spawn_cell(width, height, #[trigger] candidates@[q]),
            forall|k: int| 0 <= k < 24 ==> #[trigger] listed(candidates@, ring_point(width, height, k)),
        decreases i,
    {
        i -= 1;
        let j = small_range_usize(rng, 0, i);
        let a = candidates[i];
        let b = candidates[j];
        let ghost before = candidates@;
        candidates.set(i, b);
        candidates.set(j, a);
        assert forall|k: int| 0 <= k < 24 implies #[trigger] listed(candidates@, ring_point(width, height, k)) by {
            let c = ring_point(width, height, k);
            assert(listed(before, c));
            let q = choose|q: int| 0 <= q < before.len() && #[trigger] before[q] == c;
            if q == i as int {
                assert(candidates@[j as int] == c);
            } else if q == j as int {
                assert(candidates@[i as int] == c);
            } else {
                assert(candidates@[q] == c);
            }
        }
    }
    let spawns = pick_spawns(width, height, &candidates, cycles);
    assert(greedy_upto(candidates@, cycles as int, candidates@.len() as int) == spawns@);
    proof {
        if spawns@.len() < cycles {
            assert forall|k: int| 0 <= k < 24 implies #[trigger] crowded(ring_point(width, height, k), spawns@) by {
                let c = ring_point(width, height, k);
                assert(listed(candidates@, c));
                let q = choose|q: int| 0 <= q < candidates@.len() && #[trigger] candidates@[q] == c;
                assert(crowded(candidates@[q], spawns@));
            }
            if cycles > 0 {
                assert(crowded(ring_point(width, height, 0), spawns@));
            }
        }
    }
    spawns
}


/// The cycle a new round puts at spawn point `pos` as its `i`-th cycle.
pub open spec fn spawned_cycle(i: int, pos: Coord, pf: Playfield, screensaver: bool) -> Cycle {
    let is_player = i == 0 && !screensaver;
    Cycle {
        id: (i + 1) as u16,
        alive: true,
        pos: pos,
        prev_pos: pos,
        dir: spec_initial_dir(pos, pf.width, pf.height),
        pending_dir: None,
        color_idx: i as usize,
        is_player: is_player,
        wall_charges: if is_player { 3 } else { 0 },
        drop_wall_pending: false,
    }
}

impl Round {
    /// Sets up a round for a terminal of `term_w * term_h` cells: no round
    /// when the terminal is too small or when too few spawn points keep
    /// their distance (never for a single cycle, and only when the points
    /// taken leave every fixed ring point too close to one of them);
    /// otherwise an empty grid with `config.cycles` cycles, the first one
    /// the player's unless in screensaver mode.
    pub fn new(config: &SimConfig, term_w: u16, term_h: u16, seed: u64) -> (r: Option<Round>)
        requires
            spec_playfield(term_w, term_h, config.margin) matches Some(pf) ==> (pf.width - 3) * (pf.width - 3) + (
            pf.height - 3) * (pf.height - 3) <= i32::MAX,
            config.cycles <= usize::MAX / 8,
        ensures
            spec_playfield(term_w, term_h, config.margin) is None ==> r is None,
            spec_playfield(term_w, term_h, config.margin) is Some && config.cycles <= 1 ==> r is Some,
            r is None && spec_playfield(term_w, term_h, config.margin) is Some ==> {
                let pf = spec_playfield(term_w, term_h, config.margin).unwrap();
                exists|s: Seq<Coord>|
                    #[trigger] spawns_ok(pf.width, pf.height, s) && s.len() < config.cycles && forall|k: int|
                        0 <= k < 24 ==> #[trigger] crowded(ring_point(pf.width, pf.height, k), s)
            },
            r matches Some(round) ==> {
                &&& spec_playfield(term_w, term_h, config.margin) == Some(round.playfield)
                &&& round.wf()
                &&& drawable(round)
                &&& round.grid@.width == round.playfield.width
                &&& round.grid@.height == round.playfield.height
                &&& forall|k: int| 0 <= k < round.grid@.cells.len() ==> #[trigger] round.grid@.cells[k] == 0
                &&& round.cycles@.len() == config.cycles
                &&& spawns_ok(round.playfield.width, round.playfield.height, round.cycles@.map_values(|c: Cycle| c.pos))
                &&& forall|i: int| 0 <= i < round.cycles@.len() ==> #[trigger] round.cycles@[i] == spawned_cycle(
                    i,
                    round.cycles@[i].pos,
                    round.playfield,
                    config.screensaver,
                )
                &&& round.strict_sim == config.strict_sim
                &&& round.no_reverse == config.no_reverse
                &&& round.allow_reverse_if_only_safe == config.allow_reverse_if_only_safe
                &&& round.screensaver == config.screensaver
            },
    {
        let playfield = match compute_playfield(term_w, term_h, config.margin) {
            Some(p) => p,
            None => return None,
        };
        let w = playfield.width;
        let h = playfield.height;
        proof {
            assert(0 < w * h <= i32::MAX) by (nonlinear_arith)
                requires
                    12 <= w,
                    8 <= h,
                    (w - 3) * (w - 3) + (h - 3) * (h - 3) <= i32::MAX,
            {
                assert(w <= 46343 && h <= 46343) by (nonlinear_arith)
                    requires
                        12 <= w,
                        8 <= h,
                        (w - 3) * (w - 3) + (h - 3) * (h - 3) <= i32::MAX,
                ;
                assert(2 * ((w - 3) * (h - 3)) <= (w - 3) * (w - 3) + (h - 3) * (h - 3)) by (nonlinear_arith);
                assert(w * h == (w - 3) * (h - 3) + 3 * w + 3 * h - 9) by (nonlinear_arith);
            }
        }
        let grid = Grid::new(w, h);
        let mut spawn_rng = small_rng_seeded(splitmix64(seed ^ 0x1000_0001u64));
        let spawns = generate_spawns(w, h, config.cycles, &mut spawn_rng);
        if spawns.len() < config.cycles {
            proof {
                assert(spawns_ok(w, h, spawns@));
            }
            return None;
        }
        let mut cycles: Vec<Cycle> = Vec::new();
        let mut i: usize = 0;
        while i < config.cycles
            invariant
                i <= config.cycles,
                spawns@.len() >= config.cycles,
                config.cycles > 0 ==> spawns@.len() == config.cycles,
                spawns_ok(w, h, spawns@),
                cycles@.len() == i,
                forall|k: int| 0 <= k < i ==> #[trigger] cycles@[k] == spawned_cycle(k, spawns@[k], playfield, config.screensaver),
                w == playfield.width,
                h == playfield.height,
            decreases config.cycles - i,
        {
            let is_player = i == 0 && !config.screensaver;
            let pos = spawns[i];
            assert(spawn_cell(w, h, spawns@[i as int]));
            let c = Cycle {
                id: (i + 1) as u16,
                alive: true,
                pos: pos,
                prev_pos: pos,
                dir: initial_dir_for_spawn(pos, w, h),
                pending_dir: None,
                color_idx: i,
                is_player,
                wall_charges: if is_player { 3 } else { 0 },
                drop_wall_pending: false,
            };
            cycles.push(c);
            i += 1;
        }
        let rng = small_rng_seeded(splitmix64(seed ^ 0xCAFE_BABEu64));
        let round = Round {
            playfield,
            grid,
            cycles,
            strict_sim: config.strict_sim,
            no_reverse: config.no_reverse,
            allow_reverse_if_only_safe: config.allow_reverse_if_only_safe,
            screensaver: config.screensaver,
            rng,
        };
        proof {
            if config.cycles > 0 {
                assert(round.cycles@.map_values(|c: Cycle| c.pos) =~= spawns@);
            } else {
                assert(round.cycles@.map_values(|c: Cycle| c.pos) =~= Seq::<Coord>::empty());
            }
            assert forall|k: int| 0 <= k < round.cycles@.len() implies #[trigger] round.grid@.in_bounds(round.cycles@[k].pos) by {
                assert(spawn_cell(w, h, spawns@[k]));
            }
        }
        Some(round)
    }
}

} // verus!
