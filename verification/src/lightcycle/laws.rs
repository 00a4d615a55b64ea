//! Properties of the arena rules that span several steps of a tick.

use vstd::prelude::*;
use super::sim::{
    all_committed, all_turned, crash_seq, crashes, drops, lemma_drops_shape, lemma_read_after_write,
    lemma_trails_shape, positions_in_grid, safe_non_reverse_exists, same_target, tick_from, trails,
    turned, Coord, Cycle, Dir, GridModel, count_ai_alive, spec_outcome, RoundOutcome,
};
use super::ai::{ai_choice_ok, ai_candidate};

verus! {

/// Every cycle id is nonzero (a zero id would leave a trail that reads as free).
pub open spec fn ids_nonzero(cs: Seq<Cycle>) -> bool {
    forall|i: int| 0 <= i < cs.len() ==> #[trigger] cs[i].id != 0
}

proof fn lemma_trails_keep_taken(g: GridModel, cs: Seq<Cycle>, dead: Seq<bool>, k: nat, c: Coord)
    requires
        g.wf(),
        ids_nonzero(cs),
        g.at(c) != 0,
    ensures
        trails(g, cs, dead, k).at(c) != 0,
    decreases k,
{
    if k > 0 && k <= cs.len() {
        lemma_trails_keep_taken(g, cs, dead, (k - 1) as nat, c);
        lemma_trails_shape(g, cs, dead, (k - 1) as nat);
        let g1 = trails(g, cs, dead, (k - 1) as nat);
        assert(cs[k - 1].id != 0);
        lemma_read_after_write(g1, cs[k - 1].pos, cs[k - 1].id, c);
    }
}

/// Walls and trails never disappear: a cell that is taken before a tick is
/// still taken after it (every cycle id being nonzero, as `Round::new`
/// makes them for fewer than 65535 cycles).
pub proof fn law_taken_cells_stay_taken(
    g: GridModel,
    cs: Seq<Cycle>,
    no_reverse: bool,
    allow_if_only_safe: bool,
    strict: bool,
    c: Coord,
)
    requires
        g.wf(),
        ids_nonzero(cs),
        g.at(c) != 0,
    ensures
        tick_from(g, cs, no_reverse, allow_if_only_safe, strict).0.at(c) != 0,
{
    let cs1 = all_turned(g, cs, no_reverse, allow_if_only_safe);
    lemma_drops_shape(g, cs1, cs1.len());
    let (g2, cs2) = drops(g, cs1, cs1.len());
    assert(g2.at(c) != 0);
    assert forall|i: int| 0 <= i < cs2.len() implies #[trigger] cs2[i].id != 0 by {
        assert(cs2[i].id == cs1[i].id);
        assert(cs1[i].id == cs[i].id);
    }
    lemma_trails_keep_taken(g2, cs2, crash_seq(g2, cs2, strict), cs2.len(), c);
}

/// What a tick does to one cycle: a dead cycle stays dead where it is; an
/// alive one either dies in place or moves exactly one cell along its new
/// heading onto a cell that was free, remembering where it came from; ids,
/// player flags and colours never change, and wall charges go down by at
/// most one.
pub proof fn law_tick_cycle(
    g: GridModel,
    cs: Seq<Cycle>,
    no_reverse: bool,
    allow_if_only_safe: bool,
    strict: bool,
    i: int,
)
    requires
        g.wf(),
        positions_in_grid(g, cs),
        0 <= i < cs.len(),
    ensures
        ({
            let after = tick_from(g, cs, no_reverse, allow_if_only_safe, strict).1;
            &&& after.len() == cs.len()
            &&& after[i].alive ==> cs[i].alive
            &&& !cs[i].alive ==> !after[i].alive && after[i].pos == cs[i].pos
            &&& !after[i].alive ==> after[i].pos == cs[i].pos
            &&& after[i].alive ==> after[i].prev_pos == cs[i].pos && after[i].pos == cs[i].pos.moved(after[i].dir)
                && g.at(after[i].pos) == 0
            &&& after[i].id == cs[i].id
            &&& after[i].is_player == cs[i].is_player
            &&& after[i].color_idx == cs[i].color_idx
            &&& after[i].wall_charges <= cs[i].wall_charges
            &&& cs[i].wall_charges - 1 <= after[i].wall_charges
        }),
{
    let cs1 = all_turned(g, cs, no_reverse, allow_if_only_safe);
    lemma_drops_shape(g, cs1, cs1.len());
    let (g2, cs2) = drops(g, cs1, cs1.len());
    let dead = crash_seq(g2, cs2, strict);
    assert(cs2[i] == (Cycle { wall_charges: cs2[i].wall_charges, drop_wall_pending: cs2[i].drop_wall_pending, ..cs1[i] }));
    let after = all_committed(cs2, dead);
    if after[i].alive && cs2[i].alive {
        assert(!crashes(g2, cs2, strict, i));
        assert(g2.at(cs2[i].pos.moved(cs2[i].dir)) == 0);
        let t = cs2[i].pos.moved(cs2[i].dir);
        if g.at(t) != 0 {
            assert(g2.at(t) != 0);
        }
    }
}

/// After a tick no two alive cycles share a cell.
pub proof fn law_survivors_apart(
    g: GridModel,
    cs: Seq<Cycle>,
    no_reverse: bool,
    allow_if_only_safe: bool,
    strict: bool,
    i: int,
    j: int,
)
    requires
        g.wf(),
        positions_in_grid(g, cs),
        0 <= i < cs.len(),
        0 <= j < cs.len(),
        i != j,
        tick_from(g, cs, no_reverse, allow_if_only_safe, strict).1[i].alive,
        tick_from(g, cs, no_reverse, allow_if_only_safe, strict).1[j].alive,
    ensures
        tick_from(g, cs, no_reverse, allow_if_only_safe, strict).1[i].pos != tick_from(
            g,
            cs,
            no_reverse,
            allow_if_only_safe,
            strict,
        ).1[j].pos,
{
    let cs1 = all_turned(g, cs, no_reverse, allow_if_only_safe);
    lemma_drops_shape(g, cs1, cs1.len());
    let (g2, cs2) = drops(g, cs1, cs1.len());
    let dead = crash_seq(g2, cs2, strict);
    assert(!crashes(g2, cs2, strict, i));
    assert(!same_target(cs2, i, j));
}

/// Under `no_reverse`, a cycle only turns straight back as a last resort:
/// when that is allowed and no other heading leads to a free cell.
pub proof fn law_reverse_only_as_last_resort(g: GridModel, c: Cycle, allow_if_only_safe: bool)
    ensures
        turned(g, c, true, allow_if_only_safe).dir == c.dir.spec_opposite() ==> allow_if_only_safe
            && !safe_non_reverse_exists(g, c),
{
}

/// An AI driver never steers into a taken cell while some heading is free.
pub proof fn law_ai_avoids_taken(g: GridModel, c: Cycle, no_reverse: bool, d: Dir, e: Dir)
    requires
        ai_choice_ok(g, c, no_reverse, d),
        g.at(c.pos.moved(e)) == 0,
    ensures
        g.at(c.pos.moved(d)) == 0,
{
    assert(exists|f: Dir| #[trigger] g.at(c.pos.moved(f)) == 0);
    assert(ai_candidate(g, c, no_reverse, d));
}


proof fn lemma_no_ai_alive(cs: Seq<Cycle>)
    ensures
        count_ai_alive(cs) == 0 <==> forall|i: int| 0 <= i < cs.len() && #[trigger] cs[i].alive ==> cs[i].is_player,
    decreases cs.len(),
{
    if cs.len() > 0 {
        lemma_no_ai_alive(cs.drop_last());
        let p = cs.drop_last();
        if count_ai_alive(cs) == 0 {
            assert forall|i: int| 0 <= i < cs.len() && #[trigger] cs[i].alive implies cs[i].is_player by {
                if i < cs.len() - 1 {
                    assert(p[i] == cs[i]);
                }
            }
        }
        if forall|i: int| 0 <= i < cs.len() && #[trigger] cs[i].alive ==> cs[i].is_player {
            assert forall|i: int| 0 <= i < p.len() && #[trigger] p[i].alive implies p[i].is_player by {
                assert(p[i] == cs[i]);
            }
            assert(cs[cs.len() - 1].alive ==> cs[cs.len() - 1].is_player);
        }
    }
}

/// How a round stands after a tick: lost once the player's cycle (cycle 0,
/// when it is the player's) is dead; otherwise won once no cycle driven by
/// the AI is alive; and still going exactly while the player (or, without
/// one, nobody needs to) lives and some AI cycle lives.
pub proof fn law_round_outcome(cs: Seq<Cycle>)
    ensures
        cs.len() > 0 && cs[0].is_player && !cs[0].alive ==> spec_outcome(cs) == Some(RoundOutcome::Defeat),
        !(cs.len() > 0 && cs[0].is_player && !cs[0].alive) && (forall|i: int|
            0 <= i < cs.len() && #[trigger] cs[i].alive ==> cs[i].is_player) ==> spec_outcome(cs) == Some(
            RoundOutcome::Victory,
        ),
        spec_outcome(cs) is None <==> !(cs.len() > 0 && cs[0].is_player && !cs[0].alive) && (exists|i: int|
            0 <= i < cs.len() && #[trigger] cs[i].alive && !cs[i].is_player),
{
    lemma_no_ai_alive(cs);
}

} // verus!
