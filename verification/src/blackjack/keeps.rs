//! Every move of the table keeps its invariant (`GameModel::wf`).

use vstd::prelude::*;
use crate::blackjack::cards::{
    Card, HandModel, ShoeModel, fresh_hand, Rank, ace_count, hand_ok, lemma_counts_bounds, raw_sum, spec_is_blackjack, spec_totals, value,
};
use crate::blackjack::model::{
    AnimModel, DT_CLAMP_MS, GameModel, count_to_dealer, count_to_player, deal_event, goes_to_dealer,
    goes_to_player, lemma_counts_concat, lemma_counts_single, live, msg_dealing, msg_double, msg_double_refused,
    msg_blackjack_pays, msg_busts, msg_dealer_hits, msg_dealer_turn, msg_hit, msg_natural_check, msg_not_enough,
    msg_payout, msg_player_turn, msg_push_both, msg_split, msg_split_refused, msg_stand, next_live, payout_tally,
    sat_add_u64, sum_i64, chip_anchor,
};
use crate::blackjack::table::{
    ActiveAnim, AnimEvent, DealDest, DealerReveal, KeyCode, KeyEvent, Layout, Phase, ascii_lower, event_duration,
    rules_ok, spec_dealer_card_pos, spec_player_card_pos, spec_player_hand_rect, CHIP_DURATION_MS,
    FLASH_DURATION_MS, FLIP_DURATION_MS,
};

verus! {

/// A hand of at most 31 hard points: its total can be computed, it has at
/// most 31 cards, and its total is its hard sum or ten more.
pub proof fn lemma_small_hand(cards: Seq<Card>)
    requires
        raw_sum(cards) <= 31,
    ensures
        hand_ok(cards),
        cards.len() <= 31,
        spec_totals(cards).0 >= raw_sum(cards),
        spec_totals(cards).0 <= 21 ==> raw_sum(cards) <= 21,
        raw_sum(cards) <= 21 ==> spec_totals(cards).0 <= 21,
{
    lemma_counts_bounds(cards);
}

pub proof fn lemma_push_card(cards: Seq<Card>, c: Card)
    ensures
        raw_sum(cards.push(c)) == raw_sum(cards) + value(c.rank),
        ace_count(cards.push(c)) == ace_count(cards) + (if c.rank == Rank::A { 1int } else { 0int }),
        1 <= value(c.rank) <= 10,
{
    assert(cards.push(c).drop_last() =~= cards);
}

pub proof fn lemma_one_card(c: Card)
    ensures
        raw_sum(seq![c]) == value(c.rank),
        spec_totals(seq![c]).0 <= 11,
{
    lemma_push_card(Seq::empty(), c);
    assert(Seq::<Card>::empty().push(c) =~= seq![c]);
}

pub proof fn lemma_pending_push(a: AnimModel, e: AnimEvent)
    ensures
        a.push(e).pending() =~= a.pending().push(e),
{
}

/// Queuing an event adds ten points of room to the hand it deals to.
pub proof fn lemma_enqueued_rooms(m: GameModel, e: AnimEvent)
    ensures
        forall|j: int| #[trigger] m.enqueued(e).player_room(j)
            == m.player_room(j) + (if goes_to_player(e, j) { 10int } else { 0int }),
        m.enqueued(e).dealer_room() == m.dealer_room() + (if goes_to_dealer(e) { 10int } else { 0int }),
        m.enqueued(e).anim.pending() =~= m.anim.pending().push(e),
{
    lemma_pending_push(m.anim, e);
    assert(m.anim.pending().push(e).drop_last() =~= m.anim.pending());
}

/// The hand invariant depends on the hands and the pending deals alone.
pub proof fn lemma_hands_ok_same(a: GameModel, b: GameModel)
    requires
        a.hands_ok(),
        b.players == a.players,
        b.dealer == a.dealer,
        b.anim.pending() == a.anim.pending(),
    ensures
        b.hands_ok(),
        forall|i: int| #[trigger] b.player_room(i) == a.player_room(i),
        b.dealer_room() == a.dealer_room(),
{
    assert forall|i: int| #[trigger] b.player_room(i) == a.player_room(i) by {}
    assert forall|i: int| 0 <= i < b.players.len() implies #[trigger] b.player_room(i) <= 31 by {
        assert(b.player_room(i) == a.player_room(i));
    }
}

/// A new message keeps the invariant.
pub proof fn lemma_message_wf(m: GameModel, msg: Seq<char>)
    requires
        m.wf(),
    ensures
        m.with_message(msg).wf(),
{
    lemma_hands_ok_same(m, m.with_message(msg));
}

/// The first hand that can act from `from` on.
pub proof fn lemma_next_live(players: Seq<HandModel>, from: int)
    requires
        0 <= from <= players.len(),
    ensures
        from <= next_live(players, from) <= players.len(),
        next_live(players, from) < players.len() ==> live(players[next_live(players, from)]),
        forall|j: int| from <= j < next_live(players, from) ==> !live(#[trigger] players[j]),
    decreases players.len() - from,
{
    if from < players.len() && !live(players[from]) {
        lemma_next_live(players, from + 1);
    }
}

/// Moving the turn on keeps the invariant.
pub proof fn lemma_progress_wf(m: GameModel)
    requires
        m.wf(),
    ensures
        m.progress().wf(),
        m.progress().active_hand >= m.active_hand,
{
    lemma_next_live(m.players, m.active_hand as int);
    let p = m.progress();
    assert(p.players == m.players && p.anim == m.anim);
    assert forall|i: int| 0 <= i < p.players.len() implies #[trigger] p.player_room(i) <= 31 by {
        assert(p.player_room(i) == m.player_room(i));
    }
    assert(p.hands_ok());
    assert(p.phase == Phase::PlayerTurn && p.active_hand < p.players.len() ==> !p.players[p.active_hand as int].busted);
    assert(p.phase == Phase::Dealing ==> p.players.len() == 1 && p.player_room(0) <= 21);
}

/// A fresh round: one empty hand and four cards on their way.
pub proof fn lemma_start_round_wf(m: GameModel, l: Layout)
    requires
        m.wf(),
        m.phase == Phase::Betting,
    ensures
        m.start_round(l).wf(),
{
    if m.bet > m.chips {
        lemma_message_wf(m, msg_not_enough());
    }
    if m.bet <= m.chips {
        let r = m.reset_round_hands();
        let m0 = GameModel { chips: (r.chips - r.bet) as i64, phase: Phase::Dealing, message: msg_dealing(), ..r };
        assert(m0.anim.pending() =~= Seq::<AnimEvent>::empty());
        assert(m0.players =~= seq![fresh_hand()]);
        assert(m0.player_room(0) == 0);
        assert(m0.dealer_room() == 0);
        let e1 = deal_event(m0.top_card(), l.shoe, spec_player_card_pos(l, 0, 0), DealDest::Player { hand: 0 });
        lemma_enqueued_rooms(m0.drawn(), e1);
        let m1 = m0.drawn().enqueued(e1);
        let e2 = deal_event(m1.top_card(), l.shoe, spec_dealer_card_pos(l, 0), DealDest::DealerUp);
        lemma_enqueued_rooms(m1.drawn(), e2);
        let m2 = m1.drawn().enqueued(e2);
        let e3 = deal_event(m2.top_card(), l.shoe, spec_player_card_pos(l, 0, 1), DealDest::Player { hand: 0 });
        lemma_enqueued_rooms(m2.drawn(), e3);
        let m3 = m2.drawn().enqueued(e3);
        let e4 = deal_event(m3.top_card(), l.shoe, spec_dealer_card_pos(l, 1), DealDest::DealerDown);
        lemma_enqueued_rooms(m3.drawn(), e4);
        let fin = m3.drawn().enqueued(e4);
        assert(fin == m.start_round(l));
        assert(m0.drawn().player_room(0) == 0 && m0.drawn().dealer_room() == 0);
        assert(m1.player_room(0) == 10 && m1.dealer_room() == 0);
        assert(m1.drawn().player_room(0) == 10 && m1.drawn().dealer_room() == 0);
        assert(m2.player_room(0) == 10 && m2.dealer_room() == 10);
        assert(m2.drawn().player_room(0) == 10 && m2.drawn().dealer_room() == 10);
        assert(m3.player_room(0) == 20 && m3.dealer_room() == 10);
        assert(m3.drawn().player_room(0) == 20 && m3.drawn().dealer_room() == 10);
        assert(fin.player_room(0) == 20);
        assert(fin.dealer_room() == 20);
        assert(raw_sum(fresh_hand().cards) == 0);
        assert(fin.hands_ok());
        assert(fin.wagers =~= seq![m.bet]);
        assert(forall|i: int| 0 <= i < fin.wagers.len() ==> #[trigger] fin.wagers[i] >= 0);
        assert(fin.anim.active is None);
        assert(fin.chips >= 0);
        assert(fin.phase == Phase::Dealing);
    }
}

/// A deal queued to a player hand with room for ten more points keeps the
/// invariant (outside dealing and between rounds).
pub proof fn lemma_deal_player_wf(m: GameModel, i: int, l: Layout)
    requires
        m.wf(),
        0 <= i < m.players.len(),
        m.player_room(i) + 10 <= 31,
        m.phase != Phase::Dealing,
        m.phase != Phase::Betting,
        m.phase != Phase::Shuffle,
    ensures
        m.deal_to_player(i, l).wf(),
        m.deal_to_player(i, l).player_room(i) == m.player_room(i) + 10,
        forall|j: int| j != i ==> #[trigger] m.deal_to_player(i, l).player_room(j) == m.player_room(j),
        m.deal_to_player(i, l).players == m.players,
{
    let e = deal_event(m.top_card(), l.shoe, spec_player_card_pos(l, i, m.players[i].cards.len() as int), DealDest::Player { hand: i as usize });
    lemma_enqueued_rooms(m.drawn(), e);
    lemma_hands_ok_same(m, m.drawn());
    let r = m.deal_to_player(i, l);
    assert forall|j: int| j != i implies #[trigger] r.player_room(j) == m.player_room(j) by {
        assert(r.player_room(j) == m.drawn().player_room(j));
    }
    assert(r.player_room(i) == m.drawn().player_room(i) + 10);
    assert forall|j: int| 0 <= j < r.players.len() implies #[trigger] r.player_room(j) <= 31 by {
        if j != i {
            assert(r.player_room(j) == m.player_room(j));
        }
    }
    assert(r.dealer_room() == m.drawn().dealer_room());
}

/// A deal queued to the dealer with room for ten more points keeps the
/// invariant (outside dealing and between rounds).
pub proof fn lemma_deal_dealer_wf(m: GameModel, l: Layout)
    requires
        m.wf(),
        m.dealer_room() + 10 <= 31,
        m.phase != Phase::Dealing,
        m.phase != Phase::Betting,
        m.phase != Phase::Shuffle,
    ensures
        m.deal_to_dealer(l).wf(),
{
    let e = deal_event(m.top_card(), l.shoe, spec_dealer_card_pos(l, m.dealer.cards.len() as int), DealDest::DealerUp);
    lemma_enqueued_rooms(m.drawn(), e);
    lemma_hands_ok_same(m, m.drawn());
    let r = m.deal_to_dealer(l);
    assert forall|j: int| 0 <= j < r.players.len() implies #[trigger] r.player_room(j) <= 31 by {
        assert(r.player_room(j) == m.drawn().player_room(j));
    }
}

/// Queuing an event that deals no card keeps the invariant, outside the
/// phases that must stay idle.
pub proof fn lemma_enqueue_other_wf(m: GameModel, e: AnimEvent)
    requires
        m.wf(),
        !(e is Deal),
        m.phase != Phase::Betting,
        m.phase != Phase::Shuffle,
    ensures
        m.enqueued(e).wf(),
{
    lemma_enqueued_rooms(m, e);
    let r = m.enqueued(e);
    assert forall|j: int| 0 <= j < r.players.len() implies #[trigger] r.player_room(j) <= 31 by {
        assert(r.player_room(j) == m.player_room(j));
    }
    assert(r.phase == Phase::Dealing ==> r.player_room(0) == m.player_room(0));
}

/// With nothing pending, a hand's room is its hard sum.
pub proof fn lemma_idle_rooms(m: GameModel)
    requires
        !m.anim.busy(),
    ensures
        forall|j: int| #[trigger] m.player_room(j) == raw_sum(m.players[j].cards),
        m.dealer_room() == raw_sum(m.dealer.cards),
{
    assert(m.anim.pending() =~= Seq::<AnimEvent>::empty());
}

/// Every key of the player's turn keeps the invariant.
pub proof fn lemma_player_action_wf(m: GameModel, key: char, l: Layout)
    requires
        m.wf(),
        m.money_fits(),
    ensures
        m.player_action(key, l).wf(),
{
    let idx = m.active_hand as int;
    let n = (idx + 1) as nat;
    if m.phase != Phase::PlayerTurn || m.anim.busy() || idx >= m.players.len() {
        return;
    }
    lemma_idle_rooms(m);
    let h = m.players[idx];
    lemma_small_hand(h.cards);
    assert(m.player_room(idx) == raw_sum(h.cards));
    assert(raw_sum(h.cards) <= 21);
    if key == 'h' {
        lemma_deal_player_wf(m, idx, l);
        lemma_message_wf(m.deal_to_player(idx, l), msg_hit(n));
    } else if key == 's' {
        let s1 = GameModel {
            players: m.players.update(idx, HandModel { stood: true, ..m.players[idx] }),
            message: msg_stand(n),
            ..m
        };
        assert forall|j: int| 0 <= j < s1.players.len() implies #[trigger] s1.player_room(j) == m.player_room(j) by {
        }
        assert forall|j: int| 0 <= j < s1.players.len() implies
            (#[trigger] s1.players[j]).busted == (spec_totals(s1.players[j].cards).0 > 21) by {
            if j == idx {
            }
        }
        assert forall|j: int| 0 <= j < s1.players.len() implies #[trigger] s1.player_room(j) <= 31 by {
            assert(s1.player_room(j) == m.player_room(j));
        }
        assert(s1.dealer_room() == m.dealer_room());
        assert(s1.wf());
        lemma_progress_wf(s1);
    } else if key == 'd' {
        if m.can_double(idx) {
            let add = m.wagers[idx];
            assert(sum_i64(m.wagers) >= add) by {
                lemma_sum_nonneg_ge(m.wagers, idx);
            }
            let d1 = GameModel {
                chips: (m.chips - add) as i64,
                wagers: m.wagers.update(idx, (add + add) as i64),
                players: m.players.update(idx, HandModel { doubled: true, ..m.players[idx] }),
                pending_stand_after_deal: Some(idx as usize),
                ..m
            };
            assert forall|j: int| 0 <= j < d1.players.len() implies #[trigger] d1.player_room(j) == m.player_room(j) by {
            }
            assert forall|j: int| 0 <= j < d1.players.len() implies
                (#[trigger] d1.players[j]).busted == (spec_totals(d1.players[j].cards).0 > 21) by {
            }
            assert forall|j: int| 0 <= j < d1.players.len() implies #[trigger] d1.player_room(j) <= 31 by {
                assert(d1.player_room(j) == m.player_room(j));
            }
            assert(d1.dealer_room() == m.dealer_room());
            assert forall|j: int| 0 <= j < d1.wagers.len() implies #[trigger] d1.wagers[j] >= 0 by {
            }
            assert(d1.wf());
            lemma_deal_player_wf(d1, idx, l);
            lemma_message_wf(d1.deal_to_player(idx, l), msg_double(n));
        } else {
            lemma_message_wf(m, msg_double_refused());
        }
    } else if key == 'p' {
        if m.can_split(idx) {
            lemma_split_wf(m, l);
        } else {
            lemma_message_wf(m, msg_split_refused());
        }
    }
}

/// Sums of non-negative wagers bound each wager.
pub proof fn lemma_sum_nonneg_ge(s: Seq<i64>, k: int)
    requires
        0 <= k < s.len(),
        forall|i: int| 0 <= i < s.len() ==> #[trigger] s[i] >= 0,
    ensures
        sum_i64(s) >= s[k],
        sum_i64(s) >= 0,
    decreases s.len(),
{
    lemma_sum_nonneg(s.drop_last());
    if k < s.len() - 1 {
        lemma_sum_nonneg_ge(s.drop_last(), k);
    }
}

pub proof fn lemma_sum_nonneg(s: Seq<i64>)
    requires
        forall|i: int| 0 <= i < s.len() ==> #[trigger] s[i] >= 0,
    ensures
        sum_i64(s) >= 0,
    decreases s.len(),
{
    if s.len() > 0 {
        lemma_sum_nonneg(s.drop_last());
    }
}

/// Splitting a pair keeps the invariant: each half holds one card and a
/// card on its way.
pub proof fn lemma_split_wf(m: GameModel, l: Layout)
    requires
        m.wf(),
        m.money_fits(),
        m.phase == Phase::PlayerTurn,
        !m.anim.busy(),
        (m.active_hand as int) < m.players.len(),
        m.can_split(m.active_hand as int),
    ensures
        m.player_action('p', l).wf(),
{
    let idx = m.active_hand as int;
    let n = (idx + 1) as nat;
    lemma_idle_rooms(m);
    let w = m.wagers[idx];
    let h = m.players[idx];
    let first = HandModel { cards: h.cards.drop_last(), ..h };
    let second = HandModel { cards: seq![h.cards.last()], ..fresh_hand() };
    assert(h.cards.drop_last() =~= seq![h.cards[0]]);
    lemma_one_card(h.cards[0]);
    lemma_one_card(h.cards.last());
    let ps = m.players.update(idx, first);
    ps.insert_ensures(idx + 1, second);
    m.wagers.insert_ensures(idx + 1, w);
    m.settled_blackjack.insert_ensures(idx + 1, false);
    let s1 = GameModel {
        chips: (m.chips - w) as i64,
        players: ps.insert(idx + 1, second),
        wagers: m.wagers.insert(idx + 1, w),
        settled_blackjack: m.settled_blackjack.insert(idx + 1, false),
        ..m
    };
    lemma_idle_rooms(s1);
    assert forall|j: int| 0 <= j < s1.players.len() implies #[trigger] s1.player_room(j) <= 31
        && s1.players[j].busted == (spec_totals(s1.players[j].cards).0 > 21) by {
        if j < idx {
            assert(s1.players[j] == m.players[j]);
            assert(m.player_room(j) <= 31);
        } else if j == idx {
            assert(s1.players[j] == first);
        } else if j == idx + 1 {
            assert(s1.players[j] == second);
        } else {
            assert(s1.players[j] == m.players[j - 1]);
            assert(m.player_room(j - 1) <= 31);
        }
    }
    assert forall|j: int| 0 <= j < s1.wagers.len() implies #[trigger] s1.wagers[j] >= 0 by {
        if j <= idx {
        } else if j == idx + 1 {
        } else {
            assert(s1.wagers[j] == m.wagers[j - 1]);
        }
    }
    assert(s1.players[idx] == first);
    assert(s1.wf());
    assert(s1.player_room(idx) <= 10);
    lemma_deal_player_wf(s1, idx, l);
    let s2 = s1.deal_to_player(idx, l);
    assert(s2.player_room(idx + 1) == s1.player_room(idx + 1));
    assert(s1.players[idx + 1] == second);
    assert(s2.player_room(idx + 1) <= 10);
    lemma_deal_player_wf(s2, idx + 1, l);
    lemma_message_wf(s2.deal_to_player(idx + 1, l), msg_split(n));
    assert(s2.deal_to_player(idx + 1, l).with_message(msg_split(n)) == m.player_action('p', l));
}

/// After a card lands, the deal checks restore the turn condition.
pub proof fn lemma_post_deal_checks_wf(m: GameModel)
    requires
        m.wf_core(),
        m.phase != Phase::Betting,
        m.phase != Phase::Shuffle,
    ensures
        m.post_deal_checks().wf(),
{
    match m.pending_stand_after_deal {
        Some(hi) => {
            let m1 = GameModel { pending_stand_after_deal: None, ..m };
            lemma_hands_ok_same(m, m1);
            if (hi as int) < m1.players.len() {
                let h = m1.players[hi as int];
                let m2 = GameModel {
                    players: m1.players.update(hi as int, HandModel { busted: spec_totals(h.cards).0 > 21, stood: true, ..h }),
                    ..m1
                };
                assert forall|j: int| 0 <= j < m2.players.len() implies #[trigger] m2.player_room(j) == m1.player_room(j) by {}
                assert forall|j: int| 0 <= j < m2.players.len() implies #[trigger] m2.player_room(j) <= 31 by {
                    assert(m2.player_room(j) == m1.player_room(j));
                }
                assert(m2.dealer_room() == m1.dealer_room());
                assert(m2.phase == Phase::Dealing ==> m2.player_room(0) == m1.player_room(0));
                lemma_next_live(m2.players, m2.active_hand as int);
                assert(m2.wf_core());
                lemma_progress_core(m2);
            } else {
                lemma_next_live(m1.players, m1.active_hand as int);
                lemma_progress_core(m1);
            }
        },
        None => {
            if m.phase == Phase::PlayerTurn && (m.active_hand as int) < m.players.len() {
                let i = m.active_hand as int;
                let h = m.players[i];
                if spec_totals(h.cards).0 > 21 {
                    let m2 = GameModel {
                        players: m.players.update(i, HandModel { busted: true, stood: true, ..h }),
                        message: msg_busts((i + 1) as nat),
                        ..m
                    };
                    assert forall|j: int| 0 <= j < m2.players.len() implies #[trigger] m2.player_room(j) == m.player_room(j) by {}
                    assert forall|j: int| 0 <= j < m2.players.len() implies #[trigger] m2.player_room(j) <= 31 by {
                        assert(m2.player_room(j) == m.player_room(j));
                    }
                    assert(m2.dealer_room() == m.dealer_room());
                    assert(m2.wf_core());
                    lemma_progress_core(m2);
                } else {
                    let m2 = GameModel { players: m.players.update(i, HandModel { busted: false, ..h }), ..m };
                    assert(m2.players =~= m.players);
                }
            }
        },
    }
}

/// Moving the turn on from a table that satisfies the core invariant gives
/// the full invariant.
pub proof fn lemma_progress_core(m: GameModel)
    requires
        m.wf_core(),
        m.phase != Phase::Betting,
        m.phase != Phase::Shuffle,
    ensures
        m.progress().wf(),
{
    lemma_next_live(m.players, m.active_hand as int);
    let p = m.progress();
    lemma_hands_ok_same(m, p);
    assert(p.phase == Phase::Dealing ==> p.player_room(0) == m.player_room(0));
}

/// A finished event takes effect: a dealt card replaces the ten points of
/// room its deal held, so no room grows.
pub proof fn lemma_commit_core(m: GameModel, e: AnimEvent)
    requires
        m.anim.active is None,
        1 <= m.players.len() <= 4,
        m.wagers.len() == m.players.len(),
        m.settled_blackjack.len() == m.players.len(),
        m.active_hand <= m.players.len(),
        rules_ok(m.rules),
        m.chips >= 0,
        m.bet >= 10,
        forall|i: int| 0 <= i < m.wagers.len() ==> #[trigger] m.wagers[i] >= 0,
        forall|i: int| 0 <= i < m.players.len() ==>
            raw_sum(#[trigger] m.players[i].cards) + 10 * count_to_player(seq![e] + m.anim.queue, i) <= 31,
        forall|i: int| 0 <= i < m.players.len() ==>
            (#[trigger] m.players[i]).busted == (spec_totals(m.players[i].cards).0 > 21),
        raw_sum(m.dealer.cards) + 10 * count_to_dealer(seq![e] + m.anim.queue) <= 31,
        m.phase == Phase::Dealing ==> m.players.len() == 1,
        m.phase == Phase::Dealing ==> raw_sum(m.players[0].cards) + 10 * count_to_player(seq![e] + m.anim.queue, 0) <= 21,
        m.phase != Phase::Betting,
        m.phase != Phase::Shuffle,
        m.shoe.decks == 6,
        m.shoe.cut == 78,
    ensures
        m.apply_event_commit(e).wf_core(),
{
    lemma_counts_concat(seq![e], m.anim.queue);
    lemma_counts_single(e);
    assert(m.anim.pending() == m.anim.queue);
    let c = m.apply_event_commit(e);
    assert(c.anim == m.anim);
    match e {
        AnimEvent::Deal { card, dest, .. } => {
            lemma_push_card(m.dealer.cards, card);
            match dest {
                DealDest::Player { hand } => {
                    if (hand as int) < m.players.len() {
                        let h = m.players[hand as int];
                        lemma_push_card(h.cards, card);
                        assert forall|j: int| 0 <= j < c.players.len() implies #[trigger] c.player_room(j) <= 31
                            && c.players[j].busted == (spec_totals(c.players[j].cards).0 > 21) by {
                            assert(raw_sum(m.players[j].cards) + 10 * count_to_player(seq![e] + m.anim.queue, j) <= 31);
                        }
                        assert(c.phase == Phase::Dealing ==> c.player_room(0) <= 21) by {
                            if c.phase == Phase::Dealing {
                                assert(raw_sum(m.players[0].cards) + 10 * count_to_player(seq![e] + m.anim.queue, 0) <= 21);
                            }
                        }
                        assert(c.dealer == m.dealer);
                        assert(c.dealer_room() <= 31);
                        assert(c.hands_ok());
                    } else {
                        assert(c == m);
                        assert forall|j: int| 0 <= j < c.players.len() implies #[trigger] c.player_room(j) <= 31 by {
                            assert(raw_sum(m.players[j].cards) + 10 * count_to_player(seq![e] + m.anim.queue, j) <= 31);
                        }
                        assert(c.hands_ok());
                        assert(c.phase == Phase::Dealing ==> c.player_room(0) <= 21) by {
                            if c.phase == Phase::Dealing {
                                assert(raw_sum(m.players[0].cards) + 10 * count_to_player(seq![e] + m.anim.queue, 0) <= 21);
                            }
                        }
                    }
                },
                _ => {
                    assert(c.players == m.players);
                    assert forall|j: int| 0 <= j < c.players.len() implies #[trigger] c.player_room(j) <= 31 by {
                        assert(raw_sum(m.players[j].cards) + 10 * count_to_player(seq![e] + m.anim.queue, j) <= 31);
                    }
                    assert(c.dealer_room() <= 31);
                    assert(c.hands_ok());
                    assert(c.phase == Phase::Dealing ==> c.player_room(0) <= 21) by {
                        if c.phase == Phase::Dealing {
                            assert(raw_sum(m.players[0].cards) + 10 * count_to_player(seq![e] + m.anim.queue, 0) <= 21);
                        }
                    }
                },
            }
        },
        _ => {
            assert forall|j: int| 0 <= j < c.players.len() implies #[trigger] c.player_room(j) <= 31 by {
                assert(raw_sum(m.players[j].cards) + 10 * count_to_player(seq![e] + m.anim.queue, j) <= 31);
            }
            assert(c.phase == Phase::Dealing ==> c.player_room(0) <= 21) by {
                if c.phase == Phase::Dealing {
                    assert(raw_sum(m.players[0].cards) + 10 * count_to_player(seq![e] + m.anim.queue, 0) <= 21);
                }
            }
        },
    }
}

/// Advancing the animations keeps the invariant; when an event runs out,
/// the table it takes effect on already satisfies the core invariant.
pub proof fn lemma_advance_wf(m: GameModel, dt: u32)
    requires
        m.wf(),
    ensures
        m.advance_animations(dt).wf(),
        m.advance_finishes(dt) ==> m.before_commit(dt).apply_event_commit(m.finishing_event(dt)).wf_core(),
        m.advance_finishes(dt) ==> m.phase != Phase::Betting && m.phase != Phase::Shuffle,
{
    let a1 = m.anim_started(dt);
    assert(a1.pending() =~= m.anim.pending());
    match a1.active {
        Some(act) => {
            let el = act.elapsed_ms + dt;
            let s = m.before_commit(dt);
            assert(seq![act.event] + s.anim.queue =~= m.anim.pending());
            if el >= event_duration(act.event) {
                assert forall|i: int| 0 <= i < s.players.len() implies
                    raw_sum(#[trigger] s.players[i].cards) + 10 * count_to_player(seq![act.event] + s.anim.queue, i) <= 31 by {
                    assert(m.player_room(i) <= 31);
                }
                assert(s.phase == Phase::Dealing ==> m.player_room(0) <= 21);
                lemma_commit_core(s, act.event);
                lemma_post_deal_checks_wf(s.apply_event_commit(act.event));
            } else {
                let r = GameModel { anim: AnimModel { active: Some(ActiveAnim { elapsed_ms: el as u64, ..act }), ..a1 }, ..m };
                assert(r.anim.pending() =~= m.anim.pending());
                lemma_hands_ok_same(m, r);
                assert(r.phase == Phase::Dealing ==> r.player_room(0) == m.player_room(0));
            }
        },
        None => {
            let r = GameModel { anim: a1, ..m };
            lemma_hands_ok_same(m, r);
            assert(r.phase == Phase::Dealing ==> r.player_room(0) == m.player_room(0));
        },
    }
}

/// The card that lands finds its hand with room for it.
pub proof fn lemma_commit_fits(m: GameModel, dt: u32)
    requires
        m.wf(),
        m.advance_finishes(dt),
    ensures
        m.before_commit(dt).commit_fits(m.finishing_event(dt)),
{
    let a1 = m.anim_started(dt);
    assert(a1.pending() =~= m.anim.pending());
    let e = m.finishing_event(dt);
    let s = m.before_commit(dt);
    assert(seq![e] + s.anim.queue =~= m.anim.pending());
    lemma_counts_concat(seq![e], s.anim.queue);
    lemma_counts_single(e);
    match e {
        AnimEvent::Deal { dest, .. } => match dest {
            DealDest::Player { hand } => {
                if (hand as int) < s.players.len() {
                    assert(m.player_room(hand as int) <= 31);
                    assert(count_to_player(m.anim.pending(), hand as int) >= 1);
                }
            },
            _ => {},
        },
        _ => {},
    }
}

/// A sequence of events that deals no card adds nothing to any room.
pub proof fn lemma_no_deals(s: Seq<AnimEvent>)
    requires
        forall|k: int| 0 <= k < s.len() ==> !(#[trigger] s[k] is Deal),
    ensures
        forall|i: int| #[trigger] count_to_player(s, i) == 0,
        count_to_dealer(s) == 0,
    decreases s.len(),
{
    if s.len() > 0 {
        assert forall|k: int| 0 <= k < s.drop_last().len() implies !(#[trigger] s.drop_last()[k] is Deal) by {
            assert(s.drop_last()[k] == s[k]);
        }
        lemma_no_deals(s.drop_last());
        assert(!(s[s.len() - 1] is Deal));
        assert forall|i: int| #[trigger] count_to_player(s, i) == 0 by {
            assert(count_to_player(s.drop_last(), i) == 0);
            assert(!goes_to_player(s.last(), i));
        }
    }
}

/// Appending events that deal no card keeps the invariant (outside the
/// idle phases).
pub proof fn lemma_append_other_wf(m: GameModel, evs: Seq<AnimEvent>)
    requires
        m.wf(),
        forall|k: int| 0 <= k < evs.len() ==> !(#[trigger] evs[k] is Deal),
        m.phase != Phase::Betting,
        m.phase != Phase::Shuffle,
    ensures
        m.appended(evs).wf(),
{
    let r = m.appended(evs);
    assert(r.anim.pending() =~= m.anim.pending() + evs);
    lemma_counts_concat(m.anim.pending(), evs);
    lemma_no_deals(evs);
    assert forall|j: int| #[trigger] r.player_room(j) == m.player_room(j) by {
        assert(count_to_player(r.anim.pending(), j) == count_to_player(m.anim.pending(), j) + count_to_player(evs, j));
    }
    assert forall|j: int| 0 <= j < r.players.len() implies #[trigger] r.player_room(j) <= 31 by {
        assert(r.player_room(j) == m.player_room(j));
    }
    assert(r.dealer_room() == m.dealer_room());
    assert(r.phase == Phase::Dealing ==> r.player_room(0) == m.player_room(0));
}

pub proof fn lemma_sum_take(s: Seq<i64>, n: int)
    requires
        0 <= n <= s.len(),
        forall|i: int| 0 <= i < s.len() ==> #[trigger] s[i] >= 0,
    ensures
        0 <= sum_i64(s.take(n)) <= sum_i64(s),
    decreases s.len() - n,
{
    if n < s.len() {
        lemma_sum_take(s, n + 1);
        assert(s.take(n + 1).drop_last() =~= s.take(n));
        lemma_sum_nonneg(s.take(n));
    } else {
        assert(s.take(n) =~= s);
        lemma_sum_nonneg(s);
    }
}

/// The payout pass only adds chips, at most twice the wagers it has
/// passed, and queues no deal.
pub proof fn lemma_tally(m: GameModel, l: Layout, n: int)
    requires
        0 <= n <= m.players.len(),
        m.wagers.len() == m.players.len(),
        m.settled_blackjack.len() == m.players.len(),
        forall|i: int| 0 <= i < m.wagers.len() ==> #[trigger] m.wagers[i] >= 0,
    ensures
        m.chips <= payout_tally(m, l, n).chips <= m.chips + 2 * sum_i64(m.wagers.take(n)),
        forall|k: int| 0 <= k < payout_tally(m, l, n).events.len() ==> !(#[trigger] payout_tally(m, l, n).events[k] is Deal),
        payout_tally(m, l, n).wins + payout_tally(m, l, n).pushes + payout_tally(m, l, n).losses <= n,
    decreases n,
{
    if n > 0 {
        lemma_tally(m, l, n - 1);
        assert(m.wagers.take(n).drop_last() =~= m.wagers.take(n - 1));
        assert(m.wagers.take(n).last() == m.wagers[n - 1]);
        let t = payout_tally(m, l, n - 1);
        let t2 = payout_tally(m, l, n);
        assert forall|k: int| 0 <= k < t2.events.len() implies !(#[trigger] t2.events[k] is Deal) by {
            if k < t.events.len() {
                assert(t.events[k] == t2.events[k]);
            }
        }
    }
}

/// The turn starts once the four cards are out, or a natural is checked and
/// paid; either way the invariant holds.
pub proof fn lemma_on_dealing_finished_wf(m: GameModel, l: Layout)
    requires
        m.wf(),
        m.money_fits(),
    ensures
        m.on_dealing_finished(l).wf(),
{
    if m.phase != Phase::Dealing {
    } else if m.pending_natural_resolution {
        lemma_resolve_natural_wf(m, l);
    } else if spec_is_blackjack(m.players[0].cards) {
        let m1 = GameModel { pending_natural_resolution: true, ..m };
        lemma_hands_ok_same(m, m1);
        assert(m1.phase == Phase::Dealing ==> m1.player_room(0) == m.player_room(0));
        let e = AnimEvent::FlipHole { at: spec_dealer_card_pos(l, 1), duration_ms: FLIP_DURATION_MS };
        lemma_enqueue_other_wf(m1, e);
        lemma_message_wf(m1.flip_hole(l), msg_natural_check());
    } else {
        let r = GameModel { phase: Phase::PlayerTurn, active_hand: 0, message: msg_player_turn(), ..m };
        lemma_hands_ok_same(m, r);
        let h = m.players[0];
        assert(m.player_room(0) <= 21);
        lemma_counts_bounds(h.cards);
        lemma_small_hand(h.cards);
    }
}

/// Paying (or pushing) a natural keeps the invariant.
pub proof fn lemma_resolve_natural_wf(m: GameModel, l: Layout)
    requires
        m.wf(),
        m.money_fits(),
    ensures
        m.resolve_natural_blackjack(l).wf(),
        m.resolve_natural_blackjack(l).chips >= m.chips,
{
    let m1 = GameModel { pending_natural_resolution: false, dealer_reveal: DealerReveal::Revealed, ..m };
    lemma_hands_ok_same(m, m1);
    assert(m1.phase == Phase::Dealing ==> m1.player_room(0) == m.player_room(0));
    let w = m1.wagers[0];
    lemma_sum_nonneg_ge(m.wagers, 0);
    if spec_is_blackjack(m1.dealer.cards) {
        let m2 = GameModel { chips: (m1.chips + w) as i64, message: msg_push_both(), ..m1 };
        lemma_hands_ok_same(m1, m2);
        assert(m2.phase == Phase::Dealing ==> m2.player_room(0) == m.player_room(0));
        let m3 = m2.enter_payout();
        lemma_hands_ok_same(m2, m3);
    } else {
        let bonus = (w * m1.rules.blackjack_payout_num) / (m1.rules.blackjack_payout_den as int);
        assert(0 <= w * m1.rules.blackjack_payout_num <= w * (2 * m1.rules.blackjack_payout_den)) by (nonlinear_arith)
            requires
                w >= 0,
                0 <= m1.rules.blackjack_payout_num <= 2 * m1.rules.blackjack_payout_den,
        ;
        assert(0 <= bonus <= 2 * w) by (nonlinear_arith)
            requires
                bonus == (w * m1.rules.blackjack_payout_num) / (m1.rules.blackjack_payout_den as int),
                0 <= w * m1.rules.blackjack_payout_num <= w * (2 * m1.rules.blackjack_payout_den),
                m1.rules.blackjack_payout_den >= 1,
                w >= 0,
        ;
        let rect = spec_player_hand_rect(l, 0);
        let e1 = AnimEvent::Flash { rect, duration_ms: FLASH_DURATION_MS };
        let e2 = AnimEvent::ChipDelta { amount: (w + bonus) as i64, at: chip_anchor(l, 0), duration_ms: CHIP_DURATION_MS };
        let m2 = GameModel {
            chips: (m1.chips + w + bonus) as i64,
            settled_blackjack: m1.settled_blackjack.update(0, true),
            message: msg_blackjack_pays(),
            ..m1
        };
        lemma_hands_ok_same(m1, m2);
        assert(m2.phase == Phase::Dealing ==> m2.player_room(0) == m.player_room(0));
        assert(m2.wf());
        let p2 = m2.enter_payout();
        lemma_hands_ok_same(m2, p2);
        assert(p2.wf());
        lemma_enqueue_other_wf(p2, e1);
        lemma_enqueue_other_wf(p2.enqueued(e1), e2);
        let m3 = m2.enqueued(e1).enqueued(e2);
        assert(m3.anim == m1.anim.push(e1).push(e2));
        assert(m3.enter_payout() == p2.enqueued(e1).enqueued(e2));
    }
}

/// The dealer's turn starts: the invariant holds.
pub proof fn lemma_start_dealer_turn_wf(m: GameModel, l: Layout)
    requires
        m.wf(),
        m.phase != Phase::Betting,
        m.phase != Phase::Shuffle,
    ensures
        m.start_dealer_turn(l).wf(),
{
    let m1 = GameModel { phase: Phase::DealerTurn, ..m };
    lemma_hands_ok_same(m, m1);
    if m1.dealer.cards.len() >= 2 {
        if m1.dealer_reveal == DealerReveal::Hidden {
            let e = AnimEvent::FlipHole { at: spec_dealer_card_pos(l, 1), duration_ms: FLIP_DURATION_MS };
            lemma_enqueue_other_wf(m1, e);
            lemma_message_wf(m1.flip_hole(l), msg_dealer_turn());
        } else {
            lemma_message_wf(m1, msg_dealer_turn());
        }
    }
}

/// The dealer hits or stands; either keeps the invariant.
pub proof fn lemma_update_dealer_policy_wf(m: GameModel, l: Layout)
    requires
        m.wf(),
        m.money_fits(),
    ensures
        m.update_dealer_policy(l).wf(),
{
    if m.phase != Phase::DealerTurn || m.anim.busy() {
    } else {
        let m1 = GameModel { dealer_reveal: DealerReveal::Revealed, ..m };
        lemma_hands_ok_same(m, m1);
        let (tot, soft) = spec_totals(m1.dealer.cards);
        let hit = if tot < 17 { true } else { tot == 17 && soft && m1.rules.dealer_hits_soft_17 };
        lemma_idle_rooms(m1);
        lemma_small_hand(m1.dealer.cards);
        if hit {
            assert(raw_sum(m1.dealer.cards) <= 17);
            lemma_deal_dealer_wf(m1, l);
            lemma_message_wf(m1.deal_to_dealer(l), msg_dealer_hits());
        } else {
            lemma_tally(m1, l, m1.players.len() as int);
            assert(m1.wagers.take(m1.players.len() as int) =~= m1.wagers);
            let t = payout_tally(m1, l, m1.players.len() as int);
            lemma_sum_nonneg(m1.wagers);
            let m2 = GameModel { chips: t.chips as i64, message: msg_payout(t.wins, t.pushes, t.losses), ..m1 };
            lemma_hands_ok_same(m1, m2);
            assert(m2.wf());
            lemma_append_other_wf(m2, t.events);
            let m3 = m2.appended(t.events);
            assert(m3 == m1.resolve_standard_payout(l));
            lemma_hands_ok_same(m3, m3.enter_payout());
        }
    }
}

/// The round ends in betting or shuffling; the invariant holds when no
/// animation is left.
pub proof fn lemma_finish_round_wf(m: GameModel)
    requires
        m.wf(),
        !m.anim.busy(),
    ensures
        m.finish_round().wf(),
{
    lemma_hands_ok_same(m, m.finish_round());
}

/// Moving the bet keeps the invariant.
pub proof fn lemma_adjust_bet_wf(m: GameModel, delta: i64)
    requires
        m.wf(),
        m.money_fits(),
        -10 <= delta <= 10,
    ensures
        m.adjust_bet(delta).wf(),
{
    lemma_hands_ok_same(m, m.adjust_bet(delta));
}

/// Every key but `q` and `r` keeps the invariant.
pub proof fn lemma_key_effect_wf(m: GameModel, key: KeyEvent, l: Layout)
    requires
        m.wf(),
        m.money_fits(),
    ensures
        m.key_effect(key, l).wf(),
{
    if m.phase == Phase::Betting {
        lemma_adjust_bet_wf(m, -10i64);
        lemma_adjust_bet_wf(m, 10i64);
        lemma_start_round_wf(m, l);
    } else if m.anim.busy() {
    } else if m.phase == Phase::PlayerTurn {
        match key.code {
            KeyCode::Char(c) => lemma_player_action_wf(m, ascii_lower(c), l),
            _ => {},
        }
    }
}

/// Animations and deal checks move no money.
pub proof fn lemma_advance_money(m: GameModel, dt: u32)
    ensures
        m.advance_animations(dt).chips == m.chips,
        m.advance_animations(dt).wagers == m.wagers,
        m.advance_animations(dt).bet == m.bet,
{
}

/// The first part of a frame keeps the invariant and the money.
pub proof fn lemma_frame_dealt_wf(m: GameModel, dt: u32, l: Layout)
    requires
        m.wf(),
        m.money_fits(),
    ensures
        m.frame_dealt(dt, l).wf(),
        m.frame_dealt(dt, l).phase == Phase::DealerTurn ==> m.frame_dealt(dt, l).money_fits(),
{
    let d = GameModel::clamp_dt(dt);
    let m1 = m.advance_animations(d);
    lemma_advance_wf(m, d);
    lemma_advance_money(m, d);
    if m1.phase == Phase::Dealing && !m1.anim.busy() {
        lemma_on_dealing_finished_wf(m1, l);
    }
}

/// The dealer's part of a frame keeps the invariant.
pub proof fn lemma_dealer_step_wf(m: GameModel, l: Layout)
    requires
        m.wf(),
        m.phase == Phase::DealerTurn ==> m.money_fits(),
    ensures
        m.dealer_step(l).wf(),
        m.phase == Phase::DealerTurn ==> m.dealer_sees(l).wf() && m.dealer_sees(l).money_fits(),
{
    if m.phase == Phase::DealerTurn {
        if m.dealer_reveal == DealerReveal::Hidden && !m.anim.busy() {
            lemma_start_dealer_turn_wf(m, l);
        }
        lemma_update_dealer_policy_wf(m.dealer_sees(l), l);
    }
}

/// The payout and shuffle pauses keep the invariant.
pub proof fn lemma_timer_steps_wf(m: GameModel, d: u32)
    requires
        m.wf(),
        d <= 50,
    ensures
        m.payout_step(d).wf(),
        m.payout_step(d).shuffle_timer_step(d).wf(),
{
    if m.phase == Phase::Payout {
        let t = if m.payout_timer_ms > 0 {
            GameModel { payout_timer_ms: (m.payout_timer_ms - d) as i64, ..m }
        } else {
            m
        };
        lemma_hands_ok_same(m, t);
        if t.payout_timer_ms <= 0 && !t.anim.busy() {
            lemma_finish_round_wf(t);
        }
    }
    let m4 = m.payout_step(d);
    if m4.phase == Phase::Shuffle && m4.payout_timer_ms > 0 {
        lemma_hands_ok_same(m4, m4.shuffle_timer_step(d));
    }
}

/// One frame, up to the shuffle, keeps the invariant.
pub proof fn lemma_frame_before_shuffle_wf(m: GameModel, dt: u32, l: Layout)
    requires
        m.wf(),
        m.money_fits(),
    ensures
        m.frame_before_shuffle(dt, l).wf(),
{
    lemma_frame_dealt_wf(m, dt, l);
    lemma_dealer_step_wf(m.frame_dealt(dt, l), l);
    lemma_timer_steps_wf(m.frame_dealt(dt, l).dealer_step(l), GameModel::clamp_dt(dt));
}

/// The shuffle pause over, a new shoe opens betting.
pub proof fn lemma_shuffled_wf(m: GameModel, shoe: ShoeModel, msg: Seq<char>)
    requires
        m.wf(),
        m.phase == Phase::Shuffle,
        shoe.decks == 6,
        shoe.cut == 78,
        shoe.cards.len() == 312,
    ensures
        (GameModel { shoe: shoe, phase: Phase::Betting, message: msg, ..m }).wf(),
{
    lemma_hands_ok_same(m, GameModel { shoe: shoe, phase: Phase::Betting, message: msg, ..m });
}

} // verus!
