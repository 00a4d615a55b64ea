//! The pipe walker: a head that wanders a 3-D grid one unit edge at a
//! time, never laying a pipe along an edge it has already used.

use vstd::prelude::*;
use std::collections::HashSet;
use rand::rngs::StdRng;
use crate::rng::{std_range_usize, std_rng_seeded};

verus! {

/// The six unit steps of the grid.
#[derive(Clone, Copy, Debug, PartialEq, Eq, Structural)]
pub enum Dir {
    Xp,
    Xm,
    Yp,
    Ym,
    Zp,
    Zm,
}

pub open spec fn spec_opposite(d: Dir) -> Dir {
    match d {
        Dir::Xp => Dir::Xm,
        Dir::Xm => Dir::Xp,
        Dir::Yp => Dir::Ym,
        Dir::Ym => Dir::Yp,
        Dir::Zp => Dir::Zm,
        Dir::Zm => Dir::Zp,
    }
}

pub open spec fn spec_delta(d: Dir) -> (i32, i32, i32) {
    match d {
        Dir::Xp => (1i32, 0i32, 0i32),
        Dir::Xm => (-1i32, 0i32, 0i32),
        Dir::Yp => (0i32, 1i32, 0i32),
        Dir::Ym => (0i32, -1i32, 0i32),
        Dir::Zp => (0i32, 0i32, 1i32),
        Dir::Zm => (0i32, 0i32, -1i32),
    }
}

pub open spec fn spec_axis(d: Dir) -> u8 {
    match d {
        Dir::Xp | Dir::Xm => 0,
        Dir::Yp | Dir::Ym => 1,
        Dir::Zp | Dir::Zm => 2,
    }
}

pub open spec fn spec_idx(d: Dir) -> u8 {
    match d {
        Dir::Xp => 0,
        Dir::Xm => 1,
        Dir::Yp => 2,
        Dir::Ym => 3,
        Dir::Zp => 4,
        Dir::Zm => 5,
    }
}

/// The six steps in their fixed order.
pub open spec fn all_dirs() -> Seq<Dir> {
    seq![Dir::Xp, Dir::Xm, Dir::Yp, Dir::Ym, Dir::Zp, Dir::Zm]
}

impl Dir {
    pub fn all() -> (a: [Dir; 6])
        ensures
            a@ == all_dirs(),
    {
        let a = [Dir::Xp, Dir::Xm, Dir::Yp, Dir::Ym, Dir::Zp, Dir::Zm];
        assert(a@ =~= all_dirs());
        a
    }

    pub fn opposite(self) -> (o: Dir)
        ensures
            o == spec_opposite(self),
    {
        match self {
            Dir::Xp => Dir::Xm,
            Dir::Xm => Dir::Xp,
            Dir::Yp => Dir::Ym,
            Dir::Ym => Dir::Yp,
            Dir::Zp => Dir::Zm,
            Dir::Zm => Dir::Zp,
        }
    }

    pub fn delta(self) -> (v: (i32, i32, i32))
        ensures
            v == spec_delta(self),
    {
        match self {
            Dir::Xp => (1, 0, 0),
            Dir::Xm => (-1, 0, 0),
            Dir::Yp => (0, 1, 0),
            Dir::Ym => (0, -1, 0),
            Dir::Zp => (0, 0, 1),
            Dir::Zm => (0, 0, -1),
        }
    }

    pub fn axis(self) -> (a: u8)
        ensures
            a == spec_axis(self),
    {
        match self {
            Dir::Xp | Dir::Xm => 0,
            Dir::Yp | Dir::Ym => 1,
            Dir::Zp | Dir::Zm => 2,
        }
    }

    pub fn idx(self) -> (i: u8)
        ensures
            i == spec_idx(self),
    {
        match self {
            Dir::Xp => 0,
            Dir::Xm => 1,
            Dir::Yp => 2,
            Dir::Ym => 3,
            Dir::Zp => 4,
            Dir::Zm => 5,
        }
    }
}

/// The opposite of the opposite is the step itself; opposite steps cancel
/// and share an axis.
pub proof fn law_opposites(d: Dir)
    ensures
        spec_opposite(spec_opposite(d)) == d,
        spec_delta(d).0 + spec_delta(spec_opposite(d)).0 == 0,
        spec_delta(d).1 + spec_delta(spec_opposite(d)).1 == 0,
        spec_delta(d).2 + spec_delta(spec_opposite(d)).2 == 0,
        spec_axis(spec_opposite(d)) == spec_axis(d),
        spec_opposite(d) != d,
{
}

pub open spec fn moved(p: (i32, i32, i32), d: Dir) -> (i32, i32, i32) {
    ((p.0 + spec_delta(d).0) as i32, (p.1 + spec_delta(d).1) as i32, (p.2 + spec_delta(d).2) as i32)
}

/// `p` comes before `q` in the order of x, then y, then z.
pub open spec fn lex_le(p: (i32, i32, i32), q: (i32, i32, i32)) -> bool {
    p.0 < q.0 || (p.0 == q.0 && (p.1 < q.1 || (p.1 == q.1 && p.2 <= q.2)))
}

/// The key of the edge from `from` along `d`, the same from either end:
/// the lower endpoint's coordinates in 10-bit fields and the step from it
/// in the top bits, all in a `u32` (bits past the top are lost).
pub open spec fn spec_edge_key(from: (i32, i32, i32), d: Dir) -> u32 {
    let to = moved(from, d);
    let a = if lex_le(from, to) { from } else { to };
    let da = if lex_le(from, to) { d } else { spec_opposite(d) };
    (a.0 as u32) | ((a.1 as u32) << 10u32) | ((a.2 as u32) << 20u32) | ((spec_idx(da) as u32) << 30u32)
}

fn lex_le_exec(p: (i32, i32, i32), q: (i32, i32, i32)) -> (b: bool)
    ensures
        b == lex_le(p, q),
{
    p.0 < q.0 || (p.0 == q.0 && (p.1 < q.1 || (p.1 == q.1 && p.2 <= q.2)))
}

/// An edge read from its other end has the same key.
pub proof fn law_edge_key_undirected(from: (i32, i32, i32), d: Dir)
    requires
        i32::MIN < from.0 < i32::MAX,
        i32::MIN < from.1 < i32::MAX,
        i32::MIN < from.2 < i32::MAX,
    ensures
        spec_edge_key(moved(from, d), spec_opposite(d)) == spec_edge_key(from, d),
{
    assert(moved(moved(from, d), spec_opposite(d)) == from);
}

/// The pipe walker: the grid's size, the head and its heading, the keys
/// of the edges laid so far, its generator, and its colours.
pub struct World {
    pub gx: i32,
    pub gy: i32,
    pub gz: i32,
    pub head: (i32, i32, i32),
    pub dir: Dir,
    pub occupied_edges: HashSet<u32>,
    pub rng: StdRng,
    pub palette: Vec<(u8, u8, u8)>,
    pub palette_i: usize,
}

pub open spec fn inside(gx: int, gy: int, gz: int, p: (i32, i32, i32)) -> bool {
    0 <= p.0 < gx && 0 <= p.1 < gy && 0 <= p.2 < gz
}

/// The weight of a step in hundredths: a straight step 4, a turn within
/// the axis 1.3, any other turn 1; a step up in z a fifth more.
pub open spec fn step_weight(d: Dir, cur: Dir) -> u32 {
    let base: u32 = if d == cur { 400 } else if spec_axis(d) == spec_axis(cur) { 130 } else { 100 };
    if d == Dir::Zp { (base * 12 / 10) as u32 } else { base }
}

/// Whether the walker may take step `d`: not straight back, staying on
/// the grid, along an edge not yet laid.
pub open spec fn step_open(w: World, d: Dir) -> bool {
    &&& d != spec_opposite(w.dir)
    &&& inside(w.gx as int, w.gy as int, w.gz as int, moved(w.head, d))
    &&& !w.occupied_edges@.contains(spec_edge_key(w.head, d))
}

/// The open steps with their weights, among the first `n` of the six.
pub open spec fn candidates(w: World, n: int) -> Seq<(Dir, u32)>
    decreases n,
{
    if n <= 0 {
        Seq::empty()
    } else {
        let prev = candidates(w, n - 1);
        let d = all_dirs()[n - 1];
        if step_open(w, d) { prev.push((d, step_weight(d, w.dir))) } else { prev }
    }
}

pub open spec fn weight_sum(c: Seq<(Dir, u32)>) -> int
    decreases c.len(),
{
    if c.len() == 0 { 0 } else { weight_sum(c.drop_last()) + c.last().1 }
}

/// The candidate a draw `r` lands on: the first whose running weight
/// passes `r` (the first candidate when none does).
pub open spec fn pick(c: Seq<(Dir, u32)>, r: int) -> Dir
    decreases c.len(),
{
    if c.len() <= 1 || r < c[0].1 {
        c[0].0
    } else {
        pick(c.drop_first(), r - c[0].1)
    }
}

proof fn lemma_candidates_bounds(w: World, n: int)
    requires
        0 <= n <= 6,
    ensures
        candidates(w, n).len() <= n,
        weight_sum(candidates(w, n)) <= 480 * candidates(w, n).len(),
        forall|k: int| 0 <= k < candidates(w, n).len() ==> step_open(w, #[trigger] candidates(w, n)[k].0)
            && candidates(w, n)[k].1 == step_weight(candidates(w, n)[k].0, w.dir)
            && candidates(w, n)[k].1 >= 100,
    decreases n,
{
    if n > 0 {
        lemma_candidates_bounds(w, n - 1);
        let prev = candidates(w, n - 1);
        let d = all_dirs()[n - 1];
        if step_open(w, d) {
            assert(prev.push((d, step_weight(d, w.dir))).drop_last() =~= prev);
        }
    }
}

proof fn lemma_pick_is_candidate(c: Seq<(Dir, u32)>, r: int)
    requires
        c.len() > 0,
    ensures
        exists|k: int| 0 <= k < c.len() && c[k].0 == pick(c, r),
    decreases c.len(),
{
    if c.len() <= 1 || r < c[0].1 {
        assert(c[0].0 == pick(c, r));
    } else {
        lemma_pick_is_candidate(c.drop_first(), r - c[0].1);
        let k = choose|k: int| 0 <= k < c.drop_first().len() && c.drop_first()[k].0 == pick(c.drop_first(), r - c[0].1);
        assert(c[k + 1].0 == pick(c, r));
    }
}

/// The candidate a draw lands on.
pub fn pick_weighted(c: &Vec<(Dir, u32)>, r: u32) -> (d: Dir)
    requires
        c@.len() > 0,
    ensures
        d == pick(c@, r as int),
{
    let mut rest: u32 = r;
    let mut k: usize = 0;
    let last = c.len() - 1;
    assert(c@.subrange(0, c@.len() as int) =~= c@);
    while k < last && rest >= c[k].1
        invariant
            c@.len() > 0,
            last == c@.len() - 1,
            k < c@.len(),
            pick(c@.subrange(k as int, c@.len() as int), rest as int) == pick(c@, r as int),
        decreases c@.len() - k,
    {
        let ghost s = c@.subrange(k as int, c@.len() as int);
        assert(s.drop_first() =~= c@.subrange(k as int + 1, c@.len() as int));
        rest = rest - c[k].1;
        k += 1;
    }
    proof {
        let s = c@.subrange(k as int, c@.len() as int);
        assert(s[0] == c@[k as int]);
    }
    c[k].0
}

impl World {
    /// The walker is well formed: a positive grid of at most 1024 along
    /// each axis, the head on it, six colours with one chosen.
    pub open spec fn wf(&self) -> bool {
        &&& 0 < self.gx <= 1024
        &&& 0 < self.gy <= 1024
        &&& 0 < self.gz <= 1024
        &&& inside(self.gx as int, self.gy as int, self.gz as int, self.head)
        &&& self.palette@.len() == 6
        &&& self.palette_i < 6
    }

    /// A walker in the middle of the grid, heading a random way, no pipe
    /// laid, the first colour chosen.
    pub fn new(seed: u64, gx: i32, gy: i32, gz: i32) -> (w: World)
        requires
            0 < gx <= 1024,
            0 < gy <= 1024,
            0 < gz <= 1024,
        ensures
            w.wf(),
            w.gx == gx && w.gy == gy && w.gz == gz,
            w.head == ((gx / 2) as i32, (gy / 2) as i32, (gz / 2) as i32),
            w.occupied_edges@ == Set::<u32>::empty(),
            w.palette_i == 0,
            w.palette@ == seq![(240u8, 90u8, 20u8), (70u8, 220u8, 120u8), (40u8, 170u8, 255u8), (250u8, 230u8, 80u8), (235u8, 80u8, 210u8), (210u8, 210u8, 210u8)],
    {
        let mut rng = std_rng_seeded(seed);
        let head = (gx / 2, gy / 2, gz / 2);
        let all = Dir::all();
        let dir = all[std_range_usize(&mut rng, 0, 5)];
        assert(0 < gx * gy <= 1024 * 1024 && 0 < gx * gy * gz <= 1024 * 1024 * 1024) by (nonlinear_arith)
            requires
                0 < gx <= 1024,
                0 < gy <= 1024,
                0 < gz <= 1024,
        ;
        let mut palette: Vec<(u8, u8, u8)> = Vec::new();
        palette.push((240, 90, 20));
        palette.push((70, 220, 120));
        palette.push((40, 170, 255));
        palette.push((250, 230, 80));
        palette.push((235, 80, 210));
        palette.push((210, 210, 210));
        let w = World {
            gx,
            gy,
            gz,
            head,
            dir,
            occupied_edges: HashSet::with_capacity((gx * gy * gz) as usize),
            rng,
            palette,
            palette_i: 0,
        };
        assert(w.palette@ =~= seq![(240u8, 90u8, 20u8), (70u8, 220u8, 120u8), (40u8, 170u8, 255u8), (250u8, 230u8, 80u8), (235u8, 80u8, 210u8), (210u8, 210u8, 210u8)]);
        w
    }

    /// No pipe laid, the head back in the middle, a random heading.
    pub fn reset(&mut self)
        requires
            old(self).wf(),
        ensures
            final(self).wf(),
            final(self).occupied_edges@ == Set::<u32>::empty(),
            final(self).head == ((old(self).gx / 2) as i32, (old(self).gy / 2) as i32, (old(self).gz / 2) as i32),
            final(self).gx == old(self).gx && final(self).gy == old(self).gy && final(self).gz == old(self).gz,
            final(self).palette == old(self).palette,
            final(self).palette_i == old(self).palette_i,
    {
        self.occupied_edges.clear();
        self.head = (self.gx / 2, self.gy / 2, self.gz / 2);
        let all = Dir::all();
        self.dir = all[std_range_usize(&mut self.rng, 0, 5)];
    }

    /// The next colour, after the last the first.
    pub fn cycle_palette(&mut self)
        requires
            old(self).wf(),
        ensures
            final(self).wf(),
            final(self).palette_i == (old(self).palette_i + 1) % 6,
            final(self).head == old(self).head,
            final(self).occupied_edges == old(self).occupied_edges,
    {
        self.palette_i = (self.palette_i + 1) % self.palette.len();
    }

    pub fn current_color(&self) -> (c: (u8, u8, u8))
        requires
            self.wf(),
        ensures
            c == self.palette@[self.palette_i as int],
    {
        self.palette[self.palette_i]
    }

    pub fn in_bounds(&self, p: (i32, i32, i32)) -> (b: bool)
        ensures
            b == inside(self.gx as int, self.gy as int, self.gz as int, p),
    {
        p.0 >= 0 && p.0 < self.gx && p.1 >= 0 && p.1 < self.gy && p.2 >= 0 && p.2 < self.gz
    }

    pub fn edge_key(&self, from: (i32, i32, i32), d: Dir) -> (k: u32)
        requires
            i32::MIN < from.0 < i32::MAX,
            i32::MIN < from.1 < i32::MAX,
            i32::MIN < from.2 < i32::MAX,
        ensures
            k == spec_edge_key(from, d),
    {
        let (dx, dy, dz) = d.delta();
        let to = (from.0 + dx, from.1 + dy, from.2 + dz);
        let (a, dir_from_a) = if lex_le_exec(from, to) { (from, d) } else { (to, d.opposite()) };
        let x = a.0 as u32;
        let y = a.1 as u32;
        let z = a.2 as u32;
        let di = dir_from_a.idx() as u32;
        x | (y << 10) | (z << 20) | (di << 30)
    }

    /// The step the walker takes, if any: among the open steps, one drawn
    /// by weight; with none open, straight back when that edge is free;
    /// otherwise none. Returns the edge as its two ends and the step.
    pub fn try_step(&mut self) -> (r: Option<((i32, i32, i32), (i32, i32, i32), Dir)>)
        requires
            old(self).wf(),
        ensures
            final(self).wf(),
            final(self).head == old(self).head,
            final(self).dir == old(self).dir,
            final(self).occupied_edges == old(self).occupied_edges,
            final(self).gx == old(self).gx && final(self).gy == old(self).gy && final(self).gz == old(self).gz,
            final(self).palette == old(self).palette && final(self).palette_i == old(self).palette_i,
            ({
                let c = candidates(*old(self), 6);
                let back = spec_opposite(old(self).dir);
                &&& c.len() == 0 ==> r == (if step_open_back(*old(self)) {
                    Some((old(self).head, moved(old(self).head, back), back))
                } else {
                    None::<((i32, i32, i32), (i32, i32, i32), Dir)>
                })
                &&& c.len() > 0 ==> exists|draw: int| 0 <= draw < weight_sum(c)
                    && r == Some((old(self).head, moved(old(self).head, pick(c, draw)), pick(c, draw)))
            }),
    {
        let ghost w0 = *self;
        let mut candidates_v: Vec<(Dir, u32)> = Vec::new();
        let all = Dir::all();
        let mut i: usize = 0;
        let mut sum: u32 = 0;
        while i < 6
            invariant
                self.wf(),
                *self == w0,
                all@ == all_dirs(),
                i <= 6,
                candidates_v@ == candidates(w0, i as int),
                sum == weight_sum(candidates(w0, i as int)),
                sum <= 480 * i,
            decreases 6 - i,
        {
            proof {
                lemma_candidates_bounds(w0, i as int);
            }
            let d = all[i];
            let (dx, dy, dz) = d.delta();
            let to = (self.head.0 + dx, self.head.1 + dy, self.head.2 + dz);
            if d != self.dir.opposite() && self.in_bounds(to) && !self.occupied_edges.contains(&self.edge_key(self.head, d)) {
                let base: u32 = if d == self.dir { 400 } else if d.axis() == self.dir.axis() { 130 } else { 100 };
                let wgt: u32 = if d == Dir::Zp { base * 12 / 10 } else { base };
                candidates_v.push((d, wgt));
                sum = sum + wgt;
                proof {
                    assert(candidates_v@.drop_last() =~= candidates(w0, i as int));
                }
            }
            i += 1;
        }
        if candidates_v.len() == 0 {
            let d = self.dir.opposite();
            let (dx, dy, dz) = d.delta();
            let to = (self.head.0 + dx, self.head.1 + dy, self.head.2 + dz);
            if self.in_bounds(to) {
                let k = self.edge_key(self.head, d);
                if !self.occupied_edges.contains(&k) {
                    return Some((self.head, to, d));
                }
            }
            return None;
        }
        proof {
            lemma_candidates_bounds(w0, 6);
            let c = candidates(w0, 6);
            assert forall|k: int| 0 <= k < c.len() implies #[trigger] c[k].1 >= 100 by {
                assert(step_open(w0, c[k].0));
            }
            lemma_weights_positive(c);
        }
        let draw = std_range_usize(&mut self.rng, 0, (sum - 1) as usize);
        let chosen = pick_weighted(&candidates_v, draw as u32);
        let (dx, dy, dz) = chosen.delta();
        let to = (self.head.0 + dx, self.head.1 + dy, self.head.2 + dz);
        Some((self.head, to, chosen))
    }

    /// Takes a step, if there is one: lays the edge, moves the head along
    /// it, and heads that way.  There is one exactly when some forward or
    /// sideways edge is open, or else the edge straight back; the step is
    /// the one `try_step` picks.
    pub fn step(&mut self) -> (r: Option<((i32, i32, i32), (i32, i32, i32), Dir)>)
        requires
            old(self).wf(),
        ensures
            final(self).wf(),
            ({
                let c = candidates(*old(self), 6);
                let back = spec_opposite(old(self).dir);
                &&& r is Some <==> (c.len() > 0 || step_open_back(*old(self)))
                &&& c.len() == 0 && step_open_back(*old(self)) ==> r == Some(
                    (old(self).head, moved(old(self).head, back), back),
                )
                &&& c.len() > 0 ==> exists|draw: int|
                    0 <= draw < weight_sum(c) && r == Some(
                        (old(self).head, moved(old(self).head, pick(c, draw)), pick(c, draw)),
                    )
            }),
            final(self).gx == old(self).gx && final(self).gy == old(self).gy && final(self).gz == old(self).gz,
            r is None ==> final(self).head == old(self).head && final(self).occupied_edges@ == old(self).occupied_edges@
                && final(self).dir == old(self).dir,
            r matches Some((from, to, d)) ==> {
                &&& from == old(self).head
                &&& to == moved(from, d)
                &&& !old(self).occupied_edges@.contains(spec_edge_key(from, d))
                &&& final(self).occupied_edges@ == old(self).occupied_edges@.insert(spec_edge_key(from, d))
                &&& final(self).head == to
                &&& final(self).dir == d
            },
    {
        let res = self.try_step();
        proof {
            let c = candidates(*old(self), 6);
            lemma_candidates_bounds(*old(self), 6);
            if c.len() > 0 {
                assert forall|draw: int| 0 <= draw < weight_sum(c) implies step_open(*old(self), #[trigger] pick(c, draw)) by {
                    lemma_pick_is_candidate(c, draw);
                }
            }
        }
        if let Some((from, to, d)) = res {
            let k = self.edge_key(from, d);
            self.occupied_edges.insert(k);
            self.head = to;
            self.dir = d;
            Some((from, to, d))
        } else {
            None
        }
    }
}

/// Whether the walker may step straight back: on the grid, along an edge
/// not yet laid.
pub open spec fn step_open_back(w: World) -> bool {
    let back = spec_opposite(w.dir);
    inside(w.gx as int, w.gy as int, w.gz as int, moved(w.head, back))
        && !w.occupied_edges@.contains(spec_edge_key(w.head, back))
}

proof fn lemma_weights_positive(c: Seq<(Dir, u32)>)
    requires
        forall|k: int| 0 <= k < c.len() ==> #[trigger] c[k].1 >= 100,
    ensures
        weight_sum(c) >= 100 * c.len(),
    decreases c.len(),
{
    if c.len() > 0 {
        lemma_weights_positive(c.drop_last());
    }
}

} // verus!
