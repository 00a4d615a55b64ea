//! The AI drivers: each picks a free heading, preferring the one with the
//! most open space ahead.

use std::collections::VecDeque;
use vstd::prelude::*;
use vstd::set_lib::*;
use rand::rngs::SmallRng;
use crate::rng::small_range_i32;
use super::sim::{lemma_index_in_range, lemma_index_injective, Coord, Cycle, Dir, Grid, GridModel, Round};

verus! {

/// `b` is one step away from `a`.
pub open spec fn adjacent(a: Coord, b: Coord) -> bool {
    ||| b == a.moved(Dir::Up)
    ||| b == a.moved(Dir::Down)
    ||| b == a.moved(Dir::Left)
    ||| b == a.moved(Dir::Right)
}

/// A walk through free cells, one step at a time.
pub open spec fn free_path(g: GridModel, p: Seq<Coord>) -> bool {
    &&& p.len() >= 1
    &&& forall|i: int| 0 <= i < p.len() ==> g.at(#[trigger] p[i]) == 0
    &&& forall|i: int| 0 <= i < p.len() - 1 ==> adjacent(#[trigger] p[i], p[i + 1])
}

/// Cell `c` can be reached from `s` through free cells.
pub open spec fn reaches(g: GridModel, s: Coord, c: Coord) -> bool {
    exists|p: Seq<Coord>| free_path(g, p) && p[0] == s && #[trigger] p[p.len() - 1] == c
}

/// The cells (by index) of the free region that contains `s`.
pub open spec fn region(g: GridModel, s: Coord) -> Set<int> {
    Set::new(|i: int| exists|c: Coord| reaches(g, s, c) && #[trigger] g.idx(c) == i)
}

/// The headroom of a cell: how many cells of its free region a search
/// capped at `cap` (at least one) visits; a taken cell scores -10000.
pub open spec fn spec_flood_score(g: GridModel, s: Coord, cap: usize) -> int {
    if g.at(s) != 0 {
        -10000
    } else {
        let c = if cap == 0 { 1 } else { cap as int };
        let r = region(g, s).len() as int;
        if r < c { r } else { c }
    }
}

/// Some heading other than straight back (under `no_reverse`) is free.
pub open spec fn forward_free(g: GridModel, c: Cycle, no_reverse: bool) -> bool {
    exists|d: Dir| !(no_reverse && d == c.dir.spec_opposite()) && #[trigger] g.at(c.pos.moved(d)) == 0
}

/// The headings an AI driver may pick: free ones, and among them not the
/// reverse under `no_reverse` unless only the reverse is free.
pub open spec fn ai_candidate(g: GridModel, c: Cycle, no_reverse: bool, d: Dir) -> bool {
    &&& g.at(c.pos.moved(d)) == 0
    &&& (!(no_reverse && d == c.dir.spec_opposite()) || !forward_free(g, c, no_reverse))
}

/// What an AI driver may answer: a candidate heading, or its current
/// heading when no heading is free.
pub open spec fn ai_choice_ok(g: GridModel, c: Cycle, no_reverse: bool, d: Dir) -> bool {
    if exists|e: Dir| #[trigger] g.at(c.pos.moved(e)) == 0 {
        ai_candidate(g, c, no_reverse, d)
    } else {
        d == c.dir
    }
}

proof fn lemma_region_finite(g: GridModel, s: Coord)
    requires
        g.wf(),
    ensures
        region(g, s).finite(),
        region(g, s).subset_of(set_int_range(0, g.cells.len() as int)),
        region(g, s).len() <= g.cells.len(),
{
    assert forall|i: int| region(g, s).contains(i) implies set_int_range(0, g.cells.len() as int).contains(i) by {
        let c = choose|c: Coord| reaches(g, s, c) && #[trigger] g.idx(c) == i;
        let p = choose|p: Seq<Coord>| free_path(g, p) && p[0] == s && #[trigger] p[p.len() - 1] == c;
        assert(g.at(p[p.len() - 1]) == 0);
        lemma_index_in_range(g.width, g.height, c.x as int, c.y as int);
    }
    lemma_int_range(0, g.cells.len() as int);
    lemma_len_subset(region(g, s), set_int_range(0, g.cells.len() as int));
}

/// The visited cells (by index).
pub open spec fn seen_set(seen: Seq<bool>) -> Set<int> {
    Set::new(|i: int| 0 <= i < seen.len() && seen[i])
}

proof fn lemma_seen_set_finite(seen: Seq<bool>)
    ensures
        seen_set(seen).finite(),
        seen_set(seen).len() <= seen.len(),
{
    lemma_int_range(0, seen.len() as int);
    assert(seen_set(seen).subset_of(set_int_range(0, seen.len() as int)));
    lemma_len_subset(seen_set(seen), set_int_range(0, seen.len() as int));
}

/// Every cell on a free path out of a closed visited set that holds the
/// path's first cell is visited.
proof fn lemma_closed_covers(g: GridModel, seen: Seq<bool>, p: Seq<Coord>, k: int)
    requires
        g.wf(),
        seen.len() == g.cells.len(),
        free_path(g, p),
        0 <= k < p.len(),
        seen[g.idx(p[0])],
        forall|c: Coord, n: Coord|
            g.in_bounds(c) && #[trigger] seen[g.idx(c)] && adjacent(c, n) && #[trigger] g.at(n) == 0 ==> seen[g.idx(n)],
    ensures
        seen[g.idx(p[k])],
    decreases k,
{
    if k > 0 {
        lemma_closed_covers(g, seen, p, k - 1);
        assert(adjacent(p[k - 1], p[k]));
        assert(g.at(p[k - 1]) == 0);
        assert(g.at(p[k]) == 0);
    }
}

/// Every free neighbour of a visited cell is visited or waiting in the queue.
#[verifier::opaque]
pub open spec fn closed(g: GridModel, seen: Seq<bool>, queue: Seq<Coord>) -> bool {
    forall|c: Coord, n: Coord|
        g.in_bounds(c) && #[trigger] seen[g.idx(c)] && adjacent(c, n) && #[trigger] g.at(n) == 0
            ==> seen[g.idx(n)] || queue.contains(n)
}

proof fn lemma_closed_after_skip(g: GridModel, seen: Seq<bool>, qb: Seq<Coord>, q: Seq<Coord>, p: Coord)
    requires
        g.wf(),
        seen.len() == g.cells.len(),
        closed(g, seen, qb),
        qb.len() > 0,
        qb[0] == p,
        q == qb.subrange(1, qb.len() as int),
        g.in_bounds(p),
        seen[g.idx(p)],
    ensures
        closed(g, seen, q),
{
    reveal(closed);
    assert forall|c: Coord, n: Coord|
        g.in_bounds(c) && #[trigger] seen[g.idx(c)] && adjacent(c, n) && #[trigger] g.at(n) == 0
            implies seen[g.idx(n)] || q.contains(n) by {
        if !seen[g.idx(n)] {
            let qi = choose|qi: int| 0 <= qi < qb.len() && qb[qi] == n;
            if qi == 0 {
                assert(n == p);
            } else {
                assert(q[qi - 1] == n);
            }
        }
    }
}

proof fn lemma_closed_after_visit(
    g: GridModel,
    before: Seq<bool>,
    seen: Seq<bool>,
    qb: Seq<Coord>,
    q0: Seq<Coord>,
    queue: Seq<Coord>,
    p: Coord,
)
    requires
        g.wf(),
        before.len() == g.cells.len(),
        closed(g, before, qb),
        qb.len() > 0,
        qb[0] == p,
        q0 == qb.subrange(1, qb.len() as int),
        g.in_bounds(p),
        seen == before.update(g.idx(p), true),
        queue.len() >= q0.len(),
        forall|q: int| 0 <= q < q0.len() ==> queue[q] == q0[q],
        forall|d: Dir| g.at(#[trigger] p.moved(d)) == 0 ==> seen[g.idx(p.moved(d))] || queue.contains(p.moved(d)),
    ensures
        closed(g, seen, queue),
{
    reveal(closed);
    assert forall|c: Coord, n: Coord|
        g.in_bounds(c) && #[trigger] seen[g.idx(c)] && adjacent(c, n) && #[trigger] g.at(n) == 0
            implies seen[g.idx(n)] || queue.contains(n) by {
        lemma_index_in_range(g.width, g.height, c.x as int, c.y as int);
        lemma_index_in_range(g.width, g.height, p.x as int, p.y as int);
        if c == p {
            if n == p.moved(Dir::Up) {
                assert(g.at(p.moved(Dir::Up)) == 0);
            } else if n == p.moved(Dir::Down) {
                assert(g.at(p.moved(Dir::Down)) == 0);
            } else if n == p.moved(Dir::Left) {
                assert(g.at(p.moved(Dir::Left)) == 0);
            } else {
                assert(g.at(p.moved(Dir::Right)) == 0);
            }
        } else {
            if g.idx(c) == g.idx(p) {
                lemma_index_injective(g.width, c.x as int, c.y as int, p.x as int, p.y as int);
            }
            assert(before[g.idx(c)]);
            if !seen[g.idx(n)] {
                lemma_index_in_range(g.width, g.height, n.x as int, n.y as int);
                assert(!before[g.idx(n)]);
                assert(qb.contains(n));
                let qi = choose|qi: int| 0 <= qi < qb.len() && qb[qi] == n;
                if qi == 0 {
                    assert(n == p);
                } else {
                    assert(q0[qi - 1] == n);
                    assert(queue[qi - 1] == n);
                }
            }
        }
    }
}

/// Extending a free path by a free neighbour of its last cell.
proof fn lemma_reaches_step(g: GridModel, start: Coord, p: Coord, d: Dir)
    requires
        reaches(g, start, p),
        g.at(p.moved(d)) == 0,
    ensures
        reaches(g, start, p.moved(d)),
{
    let pth = choose|pp: Seq<Coord>| free_path(g, pp) && pp[0] == start && #[trigger] pp[pp.len() - 1] == p;
    let n = p.moved(d);
    let pp = pth.push(n);
    assert(adjacent(p, n)) by {
        match d {
            Dir::Up => {},
            Dir::Down => {},
            Dir::Left => {},
            Dir::Right => {},
        }
    }
    assert forall|ii: int| 0 <= ii < pp.len() implies g.at(#[trigger] pp[ii]) == 0 by {
        if ii < pth.len() {
            assert(pp[ii] == pth[ii]);
        }
    }
    assert forall|ii: int| 0 <= ii < pp.len() - 1 implies adjacent(#[trigger] pp[ii], pp[ii + 1]) by {
        if ii < pth.len() - 1 {
            assert(pp[ii] == pth[ii]);
            assert(pp[ii + 1] == pth[ii + 1]);
            assert(adjacent(pth[ii], pth[ii + 1]));
        } else {
            assert(pp[ii] == p);
            assert(pp[ii + 1] == n);
        }
    }
    assert(free_path(g, pp));
    assert(pp[pp.len() - 1] == n);
}

/// Queues the neighbour of `p` in direction `d` when it is free and not yet visited.
fn push_if_open(grid: &Grid, seen: &Vec<bool>, queue: &mut VecDeque<Coord>, p: Coord, d: Dir, Ghost(start): Ghost<Coord>)
    requires
        grid@.wf(),
        grid@.in_bounds(p),
        reaches(grid@, start, p),
        seen@.len() == grid@.cells.len(),
        forall|q: int| 0 <= q < old(queue)@.len() ==> #[trigger] reaches(grid@, start, old(queue)@[q]),
    ensures
        old(queue)@.len() <= final(queue)@.len() <= old(queue)@.len() + 1,
        forall|q: int| 0 <= q < old(queue)@.len() ==> final(queue)@[q] == old(queue)@[q],
        forall|q: int| 0 <= q < final(queue)@.len() ==> #[trigger] reaches(grid@, start, final(queue)@[q]),
        grid@.at(p.moved(d)) == 0 ==> seen@[grid@.idx(p.moved(d))] || final(queue)@.contains(p.moved(d)),
{
    let ghost g = grid@;
    let n = p.offset(d);
    if grid.in_bounds(n) && grid.get(n) == 0 {
        proof {
            lemma_index_in_range(g.width, g.height, n.x as int, n.y as int);
            lemma_reaches_step(g, start, p, d);
        }
        let ni = (n.y * grid.width + n.x) as usize;
        if !seen[ni] {
            queue.push_back(n);
            assert(queue@[queue@.len() - 1] == n);
        }
    }
}

/// Queues the free, unvisited neighbours of `p`, in the order of `Dir::all`.
fn push_open_neighbors(grid: &Grid, seen: &Vec<bool>, queue: &mut VecDeque<Coord>, p: Coord, Ghost(start): Ghost<Coord>)
    requires
        grid@.wf(),
        grid@.in_bounds(p),
        reaches(grid@, start, p),
        seen@.len() == grid@.cells.len(),
        forall|q: int| 0 <= q < old(queue)@.len() ==> #[trigger] reaches(grid@, start, old(queue)@[q]),
    ensures
        old(queue)@.len() <= final(queue)@.len() <= old(queue)@.len() + 4,
        forall|q: int| 0 <= q < old(queue)@.len() ==> final(queue)@[q] == old(queue)@[q],
        forall|q: int| 0 <= q < final(queue)@.len() ==> #[trigger] reaches(grid@, start, final(queue)@[q]),
        forall|d: Dir|
            grid@.at(#[trigger] p.moved(d)) == 0 ==> seen@[grid@.idx(p.moved(d))] || final(queue)@.contains(p.moved(d)),
{
    let ghost q0 = queue@;
    push_if_open(grid, seen, queue, p, Dir::Up, Ghost(start));
    let ghost q1 = queue@;
    push_if_open(grid, seen, queue, p, Dir::Down, Ghost(start));
    let ghost q2 = queue@;
    push_if_open(grid, seen, queue, p, Dir::Left, Ghost(start));
    let ghost q3 = queue@;
    push_if_open(grid, seen, queue, p, Dir::Right, Ghost(start));
    proof {
        let g = grid@;
        let qf = queue@;
        assert forall|q: int| 0 <= q < q0.len() implies qf[q] == q0[q] by {
            assert(q1[q] == q0[q]);
            assert(q2[q] == q1[q]);
            assert(q3[q] == q2[q]);
        }
        assert forall|d: Dir| g.at(#[trigger] p.moved(d)) == 0 implies seen@[g.idx(p.moved(d))] || qf.contains(p.moved(d)) by {
            let n = p.moved(d);
            if !seen@[g.idx(n)] {
                match d {
                    Dir::Up => {
                        let qi = choose|qi: int| 0 <= qi < q1.len() && q1[qi] == n;
                        assert(q2[qi] == n);
                        assert(q3[qi] == n);
                        assert(qf[qi] == n);
                    },
                    Dir::Down => {
                        let qi = choose|qi: int| 0 <= qi < q2.len() && q2[qi] == n;
                        assert(q3[qi] == n);
                        assert(qf[qi] == n);
                    },
                    Dir::Left => {
                        let qi = choose|qi: int| 0 <= qi < q3.len() && q3[qi] == n;
                        assert(qf[qi] == n);
                    },
                    Dir::Right => {},
                }
            }
        }
    }
}

/// Counts the cells of the free region around `start` by breadth-first
/// search, stopping once `cap` cells are counted.
#[verifier::rlimit(80)]
pub fn flood_score(round: &Round, start: Coord, cap: usize) -> (score: i32)
    requires
        round.wf(),
    ensures
        score == spec_flood_score(round.grid@, start, cap),
{
    let ghost g = round.grid@;
    if round.grid.get(start) != 0 {
        return -10_000;
    }
    proof {
        lemma_index_in_range(g.width, g.height, start.x as int, start.y as int);
    }
    let len = round.grid.cells.len();
    let mut seen: Vec<bool> = Vec::new();
    let mut k: usize = 0;
    while k < len
        invariant
            k <= len,
            seen@.len() == k,
            forall|q: int| 0 <= q < k ==> !seen@[q],
        decreases len - k,
    {
        seen.push(false);
        k += 1;
    }
    let mut queue: VecDeque<Coord> = VecDeque::new();
    queue.push_back(start);
    proof {
        reveal(closed);
        assert forall|c: Coord, n: Coord|
            g.in_bounds(c) && #[trigger] seen@[g.idx(c)] && adjacent(c, n) && #[trigger] g.at(n) == 0
                implies seen@[g.idx(n)] || queue@.contains(n) by {
            lemma_index_in_range(g.width, g.height, c.x as int, c.y as int);
        }
        assert(seen_set(seen@) =~= Set::empty());
        assert(free_path(g, seq![start]));
        assert(seq![start][0] == start);
        assert(reaches(g, start, start));
        assert(queue@[0] == start);
    }
    let mut count: i32 = 0;
    let mut stop = false;
    let mut hit_cap = false;
    let w = round.grid.width;
    let ghost capm: int = if cap == 0 { 1 } else { cap as int };
    while !stop
        invariant
            g == round.grid@,
            g.wf(),
            g.at(start) == 0,
            len == g.cells.len(),
            w == g.width,
            seen@.len() == len,
            count as int == seen_set(seen@).len(),
            seen_set(seen@).finite(),
            seen_set(seen@).subset_of(region(g, start)),
            forall|q: int| 0 <= q < queue@.len() ==> #[trigger] reaches(g, start, queue@[q]),
            seen@[g.idx(start)] || queue@.contains(start),
            capm == (if cap == 0 { 1int } else { cap as int }),
            !hit_cap ==> count < capm,
            hit_cap ==> count == capm && stop,
            !hit_cap ==> closed(g, seen@, queue@),
            stop && !hit_cap ==> queue@.len() == 0,
        decreases (len - seen_set(seen@).len()) * 5 + queue@.len() + (if stop { 0int } else { 1int }),
    {
        proof {
            lemma_seen_set_finite(seen@);
            lemma_index_in_range(g.width, g.height, start.x as int, start.y as int);
        }
        let ghost qb = queue@;
        match queue.pop_front() {
            None => {
                stop = true;
            },
            Some(p) => {
                let ghost q0 = queue@;
                assert(qb[0] == p);
                assert(reaches(g, start, p));
                proof {
                    let pth = choose|pp: Seq<Coord>| free_path(g, pp) && pp[0] == start && #[trigger] pp[pp.len() - 1] == p;
                    assert(g.at(pth[pth.len() - 1]) == 0);
                    lemma_index_in_range(g.width, g.height, p.x as int, p.y as int);
                }
                let i = (p.y * w + p.x) as usize;
                if !seen[i] {
                    let ghost before = seen@;
                    seen.set(i, true);
                    proof {
                        assert(seen_set(seen@) =~= seen_set(before).insert(i as int));
                        assert(region(g, start).contains(i as int)) by {
                            assert(reaches(g, start, p) && g.idx(p) == i as int);
                        }
                        lemma_seen_set_finite(seen@);
                    }
                    count += 1;
                    assert(count > 0);
                    if count as usize >= cap {
                        stop = true;
                        hit_cap = true;
                    } else {
                        push_open_neighbors(&round.grid, &seen, &mut queue, p, Ghost(start));
                        proof {
                            lemma_closed_after_visit(g, before, seen@, qb, q0, queue@, p);
                        }
                    }
                    proof {
                        assert(seen@[i as int]);
                        if !seen@[g.idx(start)] {
                            assert(!before[g.idx(start)]);
                            assert(qb.contains(start));
                            let qi = choose|qi: int| 0 <= qi < qb.len() && qb[qi] == start;
                            if qi == 0 {
                                assert(start == p);
                                assert(false);
                            }
                            assert(q0[qi - 1] == start);
                            assert(queue@[qi - 1] == start);
                        }
                    }
                } else {
                    proof {
                        if !hit_cap {
                            lemma_closed_after_skip(g, seen@, qb, queue@, p);
                        }
                        if !seen@[g.idx(start)] {
                            let qi = choose|qi: int| 0 <= qi < qb.len() && qb[qi] == start;
                            assert(qi != 0);
                            assert(queue@[qi - 1] == start);
                        }
                    }
                }
            },
        }
    }
    proof {
        lemma_region_finite(g, start);
        if !hit_cap {
            reveal(closed);
            assert(seen@[g.idx(start)]);
            assert forall|i: int| region(g, start).contains(i) implies seen_set(seen@).contains(i) by {
                let c = choose|c: Coord| reaches(g, start, c) && #[trigger] g.idx(c) == i;
                let p = choose|p: Seq<Coord>| free_path(g, p) && p[0] == start && #[trigger] p[p.len() - 1] == c;
                lemma_closed_covers(g, seen@, p, p.len() - 1);
                assert(g.at(p[p.len() - 1]) == 0);
                lemma_index_in_range(g.width, g.height, c.x as int, c.y as int);
            }
            assert(seen_set(seen@) =~= region(g, start));
        } else {
            lemma_len_subset(seen_set(seen@), region(g, start));
        }
    }
    count
}

/// The headings among the first `k` of `Dir::spec_all()` that the AI may
/// try: free ones, and on the first pass (`any` false) not straight back
/// under `no_reverse`.
pub open spec fn headings_upto(g: GridModel, c: Cycle, no_reverse: bool, any: bool, k: int) -> Seq<Dir>
    decreases k,
{
    if k <= 0 {
        Seq::empty()
    } else {
        let d = Dir::spec_all()[k - 1];
        let rest = headings_upto(g, c, no_reverse, any, k - 1);
        if g.at(c.pos.moved(d)) == 0 && (any || !(no_reverse && d == c.dir.spec_opposite())) {
            rest.push(d)
        } else {
            rest
        }
    }
}

/// The headings an AI driver weighs, in the order it weighs them: the free
/// ones other than straight back (under `no_reverse`), or, when there are
/// none, every free one.
pub open spec fn ai_headings_spec(g: GridModel, c: Cycle, no_reverse: bool) -> Seq<Dir> {
    let first = headings_upto(g, c, no_reverse, false, 4);
    if first.len() > 0 {
        first
    } else {
        headings_upto(g, c, no_reverse, true, 4)
    }
}

/// How many cells the headroom search may count: a fifth of the grid, held
/// to 200..=600.
pub open spec fn ai_cap(g: GridModel) -> usize {
    let f = (g.width * g.height) / 5;
    if f < 200 {
        200
    } else if f > 600 {
        600
    } else {
        f as usize
    }
}

/// The score of heading `d` before the jitter: the headroom of the cell
/// ahead plus 10 for going straight.
pub open spec fn ai_base(g: GridModel, c: Cycle, d: Dir) -> int {
    spec_flood_score(g, c.pos.moved(d), ai_cap(g)) + if d == c.dir {
        10int
    } else {
        0int
    }
}

/// The scores of headings `hs` with jitter `noise`.
pub open spec fn ai_scores(g: GridModel, c: Cycle, hs: Seq<Dir>, noise: Seq<i32>) -> Seq<int> {
    Seq::new(hs.len(), |q: int| ai_base(g, c, hs[q]) + noise[q])
}

/// The best of the first `n` headings of `hs` by scores `sc`, with its
/// score: a later heading wins only with a strictly higher score.
pub open spec fn best_upto(hs: Seq<Dir>, sc: Seq<int>, n: int) -> (Dir, int)
    decreases n,
{
    if n <= 0 {
        (hs[0], i32::MIN as int)
    } else {
        let prev = best_upto(hs, sc, n - 1);
        if sc[n - 1] > prev.1 {
            (hs[n - 1], sc[n - 1])
        } else {
            prev
        }
    }
}

/// The heading an AI driver takes with jitter `noise`: the first heading of
/// highest score, or its current heading when none is free.
pub open spec fn ai_pick(g: GridModel, c: Cycle, no_reverse: bool, noise: Seq<i32>) -> Dir {
    let hs = ai_headings_spec(g, c, no_reverse);
    if hs.len() == 0 {
        c.dir
    } else {
        best_upto(hs, ai_scores(g, c, hs, noise), hs.len() as int).0
    }
}

/// Heading `d` scores, before the jitter, within 16 of every heading the
/// AI driver of cycle `c` weighs.
pub open spec fn ai_within_headroom(g: GridModel, c: Cycle, no_reverse: bool, d: Dir) -> bool {
    forall|e: Dir| ai_headings_spec(g, c, no_reverse).contains(e) ==> ai_base(g, c, e) <= ai_base(g, c, d) + 16
}

/// Jitter for `n` headings: `n` values in `-8..=8`.
pub open spec fn jitter_ok(noise: Seq<i32>, n: int) -> bool {
    &&& noise.len() == n
    &&& forall|q: int| 0 <= q < n ==> -8 <= #[trigger] noise[q] <= 8
}

proof fn lemma_best_upto(hs: Seq<Dir>, sc: Seq<int>, n: int)
    requires
        1 <= n <= hs.len(),
        sc.len() == hs.len(),
        forall|q: int| 0 <= q < n ==> #[trigger] sc[q] > i32::MIN,
    ensures
        exists|j: int| 0 <= j < n && best_upto(hs, sc, n).0 == hs[j] && best_upto(hs, sc, n).1 == #[trigger] sc[j],
        forall|q: int| 0 <= q < n ==> #[trigger] sc[q] <= best_upto(hs, sc, n).1,
    decreases n,
{
    let b = best_upto(hs, sc, n);
    if n == 1 {
        assert(best_upto(hs, sc, 0) == (hs[0], i32::MIN as int));
        assert(sc[0] > i32::MIN);
        assert(b.0 == hs[0] && b.1 == sc[0]);
    } else {
        lemma_best_upto(hs, sc, n - 1);
        let prev = best_upto(hs, sc, n - 1);
        if sc[n - 1] > prev.1 {
            assert(b.0 == hs[n - 1] && b.1 == sc[n - 1]);
        } else {
            let j = choose|j: int| 0 <= j < n - 1 && prev.0 == hs[j] && prev.1 == #[trigger] sc[j];
            assert(b.0 == hs[j] && b.1 == sc[j]);
        }
    }
}

proof fn lemma_flood_bounds(g: GridModel, s: Coord, cap: usize)
    requires
        cap <= 600,
    ensures
        -10000 <= spec_flood_score(g, s, cap) <= 600,
{
}

/// With jitter of at most 8 either way, the heading an AI driver takes
/// scores, before the jitter, within 16 of every heading it weighed: no
/// heading with a clearly larger headroom (plus the straight bonus) is
/// passed over.
pub proof fn law_ai_follows_headroom(g: GridModel, c: Cycle, no_reverse: bool, noise: Seq<i32>)
    requires
        jitter_ok(noise, ai_headings_spec(g, c, no_reverse).len() as int),
    ensures
        ({
            let hs = ai_headings_spec(g, c, no_reverse);
            let d = ai_pick(g, c, no_reverse, noise);
            &&& hs.len() > 0 ==> hs.contains(d)
            &&& forall|e: Dir| hs.contains(e) ==> ai_base(g, c, e) <= ai_base(g, c, d) + 16
        }),
{
    let hs = ai_headings_spec(g, c, no_reverse);
    if hs.len() > 0 {
        let sc = ai_scores(g, c, hs, noise);
        assert forall|q: int| 0 <= q < hs.len() implies #[trigger] sc[q] > i32::MIN by {
            lemma_flood_bounds(g, c.pos.moved(hs[q]), ai_cap(g));
            assert(-8 <= noise[q]);
        }
        lemma_best_upto(hs, sc, hs.len() as int);
        let j = choose|j: int| 0 <= j < hs.len() && best_upto(hs, sc, hs.len() as int).0 == hs[j] && best_upto(hs, sc, hs.len() as int).1 == #[trigger] sc[j];
        assert(hs[j] == ai_pick(g, c, no_reverse, noise));
        assert forall|e: Dir| hs.contains(e) implies ai_base(g, c, e) <= ai_base(g, c, ai_pick(g, c, no_reverse, noise)) + 16 by {
            let q = choose|q: int| 0 <= q < hs.len() && hs[q] == e;
            assert(sc[q] <= sc[j]);
            assert(-8 <= noise[q] <= 8);
            assert(-8 <= noise[j] <= 8);
        }
    }
}

/// The AI driver prefers room: the heading it takes has, before the
/// jitter, a headroom (the flood score of the cell ahead) plus 10 when it
/// goes straight that is within 16 of the largest such value over the
/// headings it weighed; more room ahead never counts against a heading.
pub proof fn law_ai_prefers_room(g: GridModel, c: Cycle, no_reverse: bool, noise: Seq<i32>)
    requires
        jitter_ok(noise, ai_headings_spec(g, c, no_reverse).len() as int),
    ensures
        ({
            let hs = ai_headings_spec(g, c, no_reverse);
            let d = ai_pick(g, c, no_reverse, noise);
            let cap = ai_cap(g);
            forall|e: Dir|
                hs.contains(e) ==> spec_flood_score(g, c.pos.moved(e), cap) + (if e == c.dir { 10int } else { 0int })
                    <= spec_flood_score(g, c.pos.moved(d), cap) + (if d == c.dir { 10int } else { 0int }) + 16
        }),
{
    law_ai_follows_headroom(g, c, no_reverse, noise);
}

/// The headings AI cycle `idx` weighs, as `ai_headings_spec` states them:
/// each a candidate, and none only when no heading is free.
pub fn ai_headings(round: &Round, idx: usize) -> (hs: Vec<Dir>)
    requires
        round.wf(),
        idx < round.cycles@.len(),
    ensures
        hs@ == ai_headings_spec(round.grid@, round.cycles@[idx as int], round.no_reverse),
        forall|q: int|
            0 <= q < hs@.len() ==> ai_candidate(
                round.grid@,
                round.cycles@[idx as int],
                round.no_reverse,
                #[trigger] hs@[q],
            ),
        hs@.len() == 0 <==> !(exists|e: Dir| #[trigger] round.grid@.at(round.cycles@[idx as int].pos.moved(e)) == 0),
{
    let ghost g = round.grid@;
    let c = round.cycles[idx];
    assert(g.in_bounds(round.cycles@[idx as int].pos));
    let all = Dir::all();
    let mut candidates: Vec<Dir> = Vec::new();
    let mut k: usize = 0;
    while k < 4
        invariant
            k <= 4,
            all@ == Dir::spec_all(),
            g == round.grid@,
            g.wf(),
            g.in_bounds(c.pos),
            candidates@ == headings_upto(g, c, round.no_reverse, false, k as int),
            forall|q: int| 0 <= q < candidates@.len() ==> {
                &&& g.at(c.pos.moved(#[trigger] candidates@[q])) == 0
                &&& !(round.no_reverse && candidates@[q] == c.dir.spec_opposite())
            },
            forall|q: int| 0 <= q < k ==> (g.at(c.pos.moved(#[trigger] all@[q])) == 0 && !(round.no_reverse && all@[q]
                == c.dir.spec_opposite())) ==> candidates@.contains(all@[q]),
        decreases 4 - k,
    {
        let d = all[k];
        let ghost cb = candidates@;
        if !(round.no_reverse && d == c.dir.opposite()) {
            let target = c.pos.offset(d);
            if round.grid.get(target) == 0 {
                candidates.push(d);
                assert(candidates@[candidates@.len() - 1] == d);
            }
        }
        proof {
            assert forall|q: int| 0 <= q < k && cb.contains(all@[q]) implies candidates@.contains(all@[q]) by {
                let i = choose|i: int| 0 <= i < cb.len() && cb[i] == all@[q];
                assert(candidates@[i] == all@[q]);
            }
        }
        k += 1;
    }
    proof {
        if candidates@.len() == 0 {
            assert forall|e: Dir| !(round.no_reverse && e == c.dir.spec_opposite()) implies #[trigger] g.at(c.pos.moved(e)) != 0 by {
                let q: int = match e { Dir::Up => 0, Dir::Down => 1, Dir::Left => 2, Dir::Right => 3 };
                assert(all@[q] == e);
            }
            assert(!forward_free(g, c, round.no_reverse));
        }
    }
    if candidates.len() == 0 {
        let mut k2: usize = 0;
        while k2 < 4
            invariant
                k2 <= 4,
                all@ == Dir::spec_all(),
                g == round.grid@,
                g.wf(),
                g.in_bounds(c.pos),
                !forward_free(g, c, round.no_reverse),
                candidates@ == headings_upto(g, c, round.no_reverse, true, k2 as int),
                forall|q: int| 0 <= q < candidates@.len() ==> g.at(c.pos.moved(#[trigger] candidates@[q])) == 0,
                forall|q: int| 0 <= q < k2 ==> g.at(c.pos.moved(#[trigger] all@[q])) == 0 ==> candidates@.contains(all@[q]),
            decreases 4 - k2,
        {
            let d = all[k2];
            let target = c.pos.offset(d);
            if round.grid.get(target) == 0 {
                candidates.push(d);
                assert(candidates@[candidates@.len() - 1] == d);
            }
            k2 += 1;
        }
        proof {
            if candidates@.len() == 0 {
                assert forall|e: Dir| #[trigger] g.at(c.pos.moved(e)) != 0 by {
                    let q: int = match e { Dir::Up => 0, Dir::Down => 1, Dir::Left => 2, Dir::Right => 3 };
                    assert(all@[q] == e);
                }
            }
        }
    }
    proof {
        assert forall|q: int| 0 <= q < candidates@.len() implies ai_candidate(g, c, round.no_reverse, #[trigger] candidates@[q]) by {}
        if candidates@.len() > 0 {
            let e = candidates@[0];
            assert(g.at(c.pos.moved(e)) == 0);
        }
    }
    candidates
}

/// The heading AI cycle `idx` takes with jitter `noise` (one value in
/// `-8..=8` per heading it weighs): among the headings of
/// `ai_headings_spec`, the first with the highest headroom plus 10 for
/// going straight plus its jitter; the current heading when none is free.
pub fn choose_dir_with(round: &Round, idx: usize, noise: &Vec<i32>) -> (d: Dir)
    requires
        round.wf(),
        idx < round.cycles@.len(),
        jitter_ok(noise@, ai_headings_spec(round.grid@, round.cycles@[idx as int], round.no_reverse).len() as int),
    ensures
        d == ai_pick(round.grid@, round.cycles@[idx as int], round.no_reverse, noise@),
        ai_choice_ok(round.grid@, round.cycles@[idx as int], round.no_reverse, d),
{
    let ghost g = round.grid@;
    let c = round.cycles[idx];
    assert(g.in_bounds(round.cycles@[idx as int].pos));
    let candidates = ai_headings(round, idx);
    if candidates.len() == 0 {
        return c.dir;
    }
    let ghost sc = ai_scores(g, c, candidates@, noise@);
    let mut best = candidates[0];
    let mut best_score = i32::MIN;
    let area = round.grid.width * round.grid.height;
    let fifth = area / 5;
    let bfs_cap: usize = if fifth < 200 { 200 } else if fifth > 600 { 600 } else { fifth as usize };
    assert(bfs_cap == ai_cap(g));
    let mut q: usize = 0;
    while q < candidates.len()
        invariant
            q <= candidates@.len(),
            candidates@.len() > 0,
            candidates@.len() == noise@.len(),
            g == round.grid@,
            g.wf(),
            g.in_bounds(c.pos),
            c == round.cycles@[idx as int],
            round.wf(),
            bfs_cap == ai_cap(g),
            bfs_cap <= 600,
            jitter_ok(noise@, candidates@.len() as int),
            sc == ai_scores(g, c, candidates@, noise@),
            (best, best_score as int) == best_upto(candidates@, sc, q as int),
        decreases candidates@.len() - q,
    {
        let d = candidates[q];
        let headroom = flood_score(round, c.pos.offset(d), bfs_cap);
        proof {
            lemma_flood_bounds(g, c.pos.moved(d), bfs_cap);
        }
        let straight_bias: i32 = if d == c.dir { 10 } else { 0 };
        let jitter = noise[q];
        let score = headroom + straight_bias + jitter;
        assert(score == sc[q as int]);
        if score > best_score {
            best_score = score;
            best = d;
        }
        q += 1;
    }
    proof {
        law_ai_follows_headroom(g, c, round.no_reverse, noise@);
    }
    best
}

/// Picks the heading of AI cycle `idx`: it draws one jitter in `-8..=8`
/// per heading it weighs, in order, and takes `choose_dir_with` of them;
/// with no heading free it keeps its heading and draws nothing.  The pick
/// scores, before the jitter, within 16 of every heading weighed.
pub fn choose_dir(round: &Round, idx: usize, rng: &mut SmallRng) -> (d: Dir)
    requires
        round.wf(),
        idx < round.cycles@.len(),
    ensures
        ai_choice_ok(round.grid@, round.cycles@[idx as int], round.no_reverse, d),
        ({
            let g = round.grid@;
            let c = round.cycles@[idx as int];
            let hs = ai_headings_spec(g, c, round.no_reverse);
            &&& hs.len() == 0 ==> d == c.dir && *final(rng) == *old(rng)
            &&& !(exists|e: Dir| #[trigger] g.at(c.pos.moved(e)) == 0) ==> d == c.dir && *final(rng) == *old(rng)
            &&& exists|noise: Seq<i32>| jitter_ok(noise, hs.len() as int) && d == #[trigger] ai_pick(g, c, round.no_reverse, noise)
            &&& ai_within_headroom(g, c, round.no_reverse, d)
        }),
{
    let ghost g = round.grid@;
    let c = round.cycles[idx];
    let hs = ai_headings(round, idx);
    if hs.len() == 0 {
        proof {
            assert(jitter_ok(Seq::<i32>::empty(), 0));
            assert(ai_pick(g, c, round.no_reverse, Seq::<i32>::empty()) == c.dir);
        }
        return c.dir;
    }
    let mut noise: Vec<i32> = Vec::new();
    while noise.len() < hs.len()
        invariant
            noise@.len() <= hs@.len(),
            forall|q: int| 0 <= q < noise@.len() ==> -8 <= #[trigger] noise@[q] <= 8,
        decreases hs@.len() - noise@.len(),
    {
        let v = small_range_i32(rng, -8, 8);
        noise.push(v);
    }
    let d = choose_dir_with(round, idx, &noise);
    proof {
        law_ai_follows_headroom(g, c, round.no_reverse, noise@);
    }
    d
}

} // verus!
