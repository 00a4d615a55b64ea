//! Properties of the table that span its moves: where the money goes, when
//! the dealer draws, what a natural is and what it pays.

use vstd::prelude::*;
use crate::blackjack::cards::{
    Card, HandModel, Rank, ace_count, fresh_card, fresh_cards, lemma_counts_bounds, raw_sum, spec_is_blackjack,
    spec_totals, value,
};
use crate::blackjack::model::{GameModel, MIN_BET, MAX_SPLIT_HANDS, goes_to_dealer, msg_payout, msg_split_refused, payout_tally, sum_i64};
use crate::blackjack::keeps::{lemma_player_action_wf, lemma_sum_nonneg};
use crate::blackjack::table::{AnimEvent, Layout, Phase, standard_rules};

verus! {

proof fn lemma_sum_update(s: Seq<i64>, k: int, v: i64)
    requires
        0 <= k < s.len(),
    ensures
        sum_i64(s.update(k, v)) == sum_i64(s) - s[k] + v,
    decreases s.len(),
{
    if k < s.len() - 1 {
        lemma_sum_update(s.drop_last(), k, v);
        assert(s.update(k, v).drop_last() =~= s.drop_last().update(k, v));
    } else {
        assert(s.update(k, v).drop_last() =~= s.drop_last());
    }
}

proof fn lemma_sum_insert(s: Seq<i64>, k: int, v: i64)
    requires
        0 <= k <= s.len(),
    ensures
        sum_i64(s.insert(k, v)) == sum_i64(s) + v,
    decreases s.len(),
{
    if k < s.len() {
        lemma_sum_insert(s.drop_last(), k, v);
        assert(s.insert(k, v).drop_last() =~= s.drop_last().insert(k, v));
    } else {
        assert(s.insert(k, v).drop_last() =~= s);
    }
}

/// Money only moves between the chips and the wagers while the player
/// acts: hitting, standing, doubling and splitting keep the chips plus the
/// wagers the same.
pub proof fn law_player_action_keeps_stake(m: GameModel, key: char, l: Layout)
    requires
        m.wf(),
        m.money_fits(),
    ensures
        m.player_action(key, l).chips + m.player_action(key, l).total_wagers() == m.chips + m.total_wagers(),
{
    let idx = m.active_hand as int;
    if m.phase != Phase::PlayerTurn || m.anim.busy() || idx >= m.players.len() {
    } else if key == 'd' && m.can_double(idx) {
        let add = m.wagers[idx];
        lemma_sum_update(m.wagers, idx, (add + add) as i64);
        crate::blackjack::keeps::lemma_sum_nonneg_ge(m.wagers, idx);
    } else if key == 'p' && m.can_split(idx) {
        lemma_sum_insert(m.wagers, idx + 1, m.wagers[idx]);
    }
}

/// The number of cards held in some hands.
pub open spec fn cards_held(ps: Seq<HandModel>) -> int
    decreases ps.len(),
{
    if ps.len() == 0 {
        0
    } else {
        cards_held(ps.drop_last()) + ps.last().cards.len()
    }
}

proof fn lemma_cards_held_update(ps: Seq<HandModel>, k: int, h: HandModel)
    requires
        0 <= k < ps.len(),
    ensures
        cards_held(ps.update(k, h)) == cards_held(ps) - ps[k].cards.len() + h.cards.len(),
    decreases ps.len(),
{
    if k < ps.len() - 1 {
        lemma_cards_held_update(ps.drop_last(), k, h);
        assert(ps.update(k, h).drop_last() =~= ps.drop_last().update(k, h));
    } else {
        assert(ps.update(k, h).drop_last() =~= ps.drop_last());
    }
}

proof fn lemma_cards_held_insert(ps: Seq<HandModel>, k: int, h: HandModel)
    requires
        0 <= k <= ps.len(),
    ensures
        cards_held(ps.insert(k, h)) == cards_held(ps) + h.cards.len(),
    decreases ps.len(),
{
    if k < ps.len() {
        lemma_cards_held_insert(ps.drop_last(), k, h);
        assert(ps.insert(k, h).drop_last() =~= ps.drop_last().insert(k, h));
    } else {
        assert(ps.insert(k, h).drop_last() =~= ps);
    }
}

/// No card is made or lost while the player acts: a card drawn from the
/// shoe waits in the animation queue, a split moves a card to the new hand,
/// so the shoe plus the queue and the cards in the player's hands keep
/// their counts; every hand keeps its wager and settled flag, and the
/// chips stay non-negative.
pub proof fn law_player_action_keeps_cards(m: GameModel, key: char, l: Layout)
    requires
        m.wf(),
        m.money_fits(),
        m.shoe.cards.len() >= 2,
    ensures
        ({
            let r = m.player_action(key, l);
            &&& r.players.len() == r.wagers.len()
            &&& r.players.len() == r.settled_blackjack.len()
            &&& r.shoe.cards.len() + r.anim.queue.len() == m.shoe.cards.len() + m.anim.queue.len()
            &&& cards_held(r.players) == cards_held(m.players)
            &&& r.dealer == m.dealer
            &&& r.chips >= 0
        }),
{
    lemma_player_action_wf(m, key, l);
    let idx = m.active_hand as int;
    if m.phase != Phase::PlayerTurn || m.anim.busy() || idx >= m.players.len() {
    } else if key == 's' {
        let h = m.players[idx];
        lemma_cards_held_update(m.players, idx, HandModel { stood: true, ..h });
    } else if key == 'd' && m.can_double(idx) {
        let h = m.players[idx];
        lemma_cards_held_update(m.players, idx, HandModel { doubled: true, ..h });
    } else if key == 'p' && m.can_split(idx) {
        let h = m.players[idx];
        let first = HandModel { cards: h.cards.drop_last(), ..h };
        let second = HandModel { cards: seq![h.cards.last()], ..crate::blackjack::cards::fresh_hand() };
        lemma_cards_held_update(m.players, idx, first);
        lemma_cards_held_insert(m.players.update(idx, first), idx + 1, second);
    }
}

/// How a hand still standing at the payout fares, hand by hand: a hand
/// paid as a natural is skipped; a busted hand loses its wager; against a
/// busted dealer, or with a higher total, it wins and twice its wager comes
/// back; with the dealer's total exactly, it pushes and its wager comes
/// back; with a lower total it loses and nothing comes back.
pub proof fn law_payout_per_hand(m: GameModel, l: Layout, i: int)
    requires
        0 <= i < m.players.len(),
        i < m.wagers.len(),
        i < m.settled_blackjack.len(),
    ensures
        ({
            let t0 = payout_tally(m, l, i);
            let t1 = payout_tally(m, l, i + 1);
            let h = m.players[i];
            let pt = spec_totals(h.cards).0 as int;
            let dt = spec_totals(m.dealer.cards).0 as int;
            let w = m.wagers[i] as int;
            &&& m.settled_blackjack[i] ==> t1.chips == t0.chips && t1.wins == t0.wins && t1.pushes == t0.pushes
                && t1.losses == t0.losses
            &&& !m.settled_blackjack[i] && (h.busted || pt > 21) ==> t1.chips == t0.chips && t1.wins == t0.wins
                && t1.pushes == t0.pushes && t1.losses == t0.losses + 1
            &&& !m.settled_blackjack[i] && !h.busted && pt <= 21 && (dt > 21 || pt > dt) ==> t1.chips == t0.chips
                + 2 * w && t1.wins == t0.wins + 1 && t1.pushes == t0.pushes && t1.losses == t0.losses
            &&& !m.settled_blackjack[i] && !h.busted && pt <= 21 && dt <= 21 && pt == dt ==> t1.chips == t0.chips
                + w && t1.wins == t0.wins && t1.pushes == t0.pushes + 1 && t1.losses == t0.losses
            &&& !m.settled_blackjack[i] && !h.busted && pt <= 21 && dt <= 21 && pt < dt ==> t1.chips == t0.chips
                && t1.wins == t0.wins && t1.pushes == t0.pushes && t1.losses == t0.losses + 1
        }),
{
}

/// A single standing hand that ties the dealer is a push: its wager comes
/// back to the chips and the payout reads 0 win / 1 push / 0 lose.
pub proof fn law_tie_pushes(m: GameModel, l: Layout)
    requires
        m.wf(),
        m.money_fits(),
        m.players.len() == 1,
        !m.settled_blackjack[0],
        !m.players[0].busted,
        spec_totals(m.players[0].cards).0 <= 21,
        spec_totals(m.dealer.cards).0 <= 21,
        spec_totals(m.players[0].cards).0 == spec_totals(m.dealer.cards).0,
    ensures
        m.resolve_standard_payout(l).chips == m.chips + m.wagers[0],
        m.resolve_standard_payout(l).message == msg_payout(0, 1, 0),
{
    law_payout_per_hand(m, l, 0);
    assert(payout_tally(m, l, 0).chips == m.chips);
    assert(m.wagers.drop_last() =~= Seq::<i64>::empty());
    assert(sum_i64(m.wagers.drop_last()) == 0);
    assert(sum_i64(m.wagers) == m.wagers[0]);
}

/// Only a pair splits: a split is allowed only on two cards of the same
/// rank (during the player's turn, with nothing animating, room for another
/// hand and chips to match the wager); on any other hand the split key is
/// refused and leaves the hands, wagers and chips as they were.
pub proof fn law_split_needs_pair(m: GameModel, l: Layout)
    requires
        m.wf(),
    ensures
        ({
            let idx = m.active_hand as int;
            &&& 0 <= idx < m.players.len() && m.can_split(idx) ==> m.players[idx].cards.len() == 2
                && m.players[idx].cards[0].rank == m.players[idx].cards[1].rank && m.phase == Phase::PlayerTurn
                && m.players.len() < MAX_SPLIT_HANDS && m.chips >= m.wagers[idx]
            &&& m.phase == Phase::PlayerTurn && !m.anim.busy() && 0 <= idx < m.players.len() && !(
            m.players[idx].cards.len() == 2 && m.players[idx].cards[0].rank == m.players[idx].cards[1].rank) ==> {
                let r = m.player_action('p', l);
                &&& r.players == m.players
                &&& r.wagers == m.wagers
                &&& r.chips == m.chips
                &&& r.message == msg_split_refused()
            }
        }),
{
}

/// Opening a round moves the bet from the chips to the one wager.
pub proof fn law_start_round_stakes_bet(m: GameModel, l: Layout)
    requires
        m.wf(),
        m.phase == Phase::Betting,
        m.bet <= m.chips,
    ensures
        m.start_round(l).chips == m.chips - m.bet,
        m.start_round(l).wagers == seq![m.bet],
        m.start_round(l).chips + m.start_round(l).total_wagers() == m.chips,
        m.start_round(l).phase == Phase::Dealing,
{
    let r = m.start_round(l);
    assert(r.wagers =~= seq![m.bet]);
    assert(seq![m.bet].drop_last() =~= Seq::<i64>::empty());
    reveal_with_fuel(sum_i64, 2);
}

/// A bet the chips do not cover opens no round: only the message changes.
pub proof fn law_start_round_refused(m: GameModel, l: Layout)
    requires
        m.bet > m.chips,
    ensures
        m.start_round(l) == m.with_message(m.start_round(l).message),
        m.start_round(l).phase == m.phase,
{
}

/// A natural against a dealer without one pays the wager back plus the
/// bonus: three to two under the standard rules, rounded down.
pub proof fn law_natural_pays_three_to_two(m: GameModel, l: Layout)
    requires
        m.rules == standard_rules(),
        m.wagers.len() >= 1,
        m.wagers[0] >= 0,
        m.settled_blackjack.len() >= 1,
        !spec_is_blackjack(m.dealer.cards),
        m.chips + m.wagers[0] * 3 <= i64::MAX,
    ensures
        m.resolve_natural_blackjack(l).chips == m.chips + m.wagers[0] + (m.wagers[0] * 3) / 2,
        m.resolve_natural_blackjack(l).settled_blackjack[0],
        m.resolve_natural_blackjack(l).phase == Phase::Payout,
{
    let w = m.wagers[0];
    assert((w * 3) / 2 <= w * 2) by (nonlinear_arith)
        requires
            w >= 0,
    ;
}

/// When dealer and player both hold a natural, the wager comes back and
/// nothing more.
pub proof fn law_both_naturals_push(m: GameModel, l: Layout)
    requires
        m.wagers.len() >= 1,
        m.wagers[0] >= 0,
        spec_is_blackjack(m.dealer.cards),
        m.chips + m.wagers[0] <= i64::MAX,
    ensures
        m.resolve_natural_blackjack(l).chips == m.chips + m.wagers[0],
        m.resolve_natural_blackjack(l).settled_blackjack == m.settled_blackjack,
        m.resolve_natural_blackjack(l).phase == Phase::Payout,
{
}

/// The dealer draws on 16 or less, stands on 18 or more and on a hard 17,
/// and on a soft 17 draws exactly when the rules say so.
pub proof fn law_dealer_policy(m: GameModel, l: Layout)
    requires
        m.phase == Phase::DealerTurn,
        !m.anim.busy(),
    ensures
        ({
            let (tot, soft) = spec_totals(m.dealer.cards);
            let draws = tot < 17 || (tot == 17 && soft && m.rules.dealer_hits_soft_17);
            &&& draws ==> m.update_dealer_policy(l).phase == Phase::DealerTurn
                && m.update_dealer_policy(l).anim.queue.len() == 1
                && goes_to_dealer(m.update_dealer_policy(l).anim.queue[0])
                && m.update_dealer_policy(l).shoe.cards == m.shoe.cards.drop_last()
            &&& !draws ==> m.update_dealer_policy(l).phase == Phase::Payout
                && m.update_dealer_policy(l).shoe.cards == m.shoe.cards
        }),
{
}

/// The bet always stays between the minimum and what the chips allow (the
/// minimum, when the chips are fewer).
pub proof fn law_bet_stays_in_range(m: GameModel, delta: i64)
    requires
        m.bet >= MIN_BET,
    ensures
        MIN_BET <= m.adjust_bet(delta).bet,
        m.adjust_bet(delta).bet <= (if m.chips > MIN_BET { m.chips } else { MIN_BET }),
{
}

/// A natural is exactly an ace with a card worth ten.
pub proof fn law_natural_is_ace_and_ten(cards: Seq<Card>)
    requires
        cards.len() == 2,
    ensures
        spec_is_blackjack(cards) <==> (
            (cards[0].rank == Rank::A && value(cards[1].rank) == 10)
            || (cards[1].rank == Rank::A && value(cards[0].rank) == 10)
        ),
{
    reveal_with_fuel(raw_sum, 3);
    reveal_with_fuel(ace_count, 3);
    assert(cards.drop_last().drop_last() =~= Seq::<Card>::empty());
    assert(cards.drop_last() =~= seq![cards[0]]);
    assert(cards.last() == cards[1]);
    assert(seq![cards[0]].drop_last() =~= Seq::<Card>::empty());
    assert(seq![cards[0]].last() == cards[0]);
}

/// A soft total counts an ace as eleven: the hand holds an ace, and the
/// total is the hard sum plus ten, never past 21. A hard total is the hard
/// sum (capped at 255).
pub proof fn law_soft_totals(cards: Seq<Card>)
    ensures
        spec_totals(cards).1 ==> ace_count(cards) >= 1 && spec_totals(cards).0 == raw_sum(cards) + 10
            && spec_totals(cards).0 <= 21,
        !spec_totals(cards).1 ==> spec_totals(cards).0 == (if raw_sum(cards) > 255 { 255 } else { raw_sum(cards) }),
{
    lemma_counts_bounds(cards);
}

/// A fresh shoe of `decks` decks holds each of the 52 cards exactly
/// `decks` times.
pub proof fn law_fresh_shoe_counts(decks: nat, c: Card)
    ensures
        fresh_cards(decks).to_multiset().count(c) == decks,
{
    lemma_fresh_count(decks, c);
}

#[verifier::spinoff_prover]
#[verifier::rlimit(40)]
proof fn lemma_fresh_count(decks: nat, c: Card)
    ensures
        fresh_cards(decks).to_multiset().count(c) == decks,
    decreases decks,
{
    broadcast use vstd::seq_lib::group_to_multiset_ensures;
    if decks == 0 {
        assert(fresh_cards(0) =~= Seq::<Card>::empty());
    } else {
        lemma_fresh_count((decks - 1) as nat, c);
        let prev = fresh_cards((decks - 1) as nat);
        let deck = Seq::new(52, |k: int| fresh_card(k));
        assert(fresh_cards(decks) =~= prev + deck) by {
            assert forall|k: int| 0 <= k < 52 implies #[trigger] fresh_card((decks - 1) * 52 + k) == fresh_card(k) by {
                lemma_fresh_card_period((decks - 1) as int, k);
            }
        }
        vstd::seq_lib::lemma_multiset_commutative(prev, deck);
        lemma_one_deck_count(c);
    }
}

proof fn lemma_fresh_card_period(d: int, k: int)
    requires
        d >= 0,
        0 <= k < 52,
    ensures
        fresh_card(d * 52 + k) == fresh_card(k),
{
    assert((d * 52 + k) % 13 == k % 13) by (nonlinear_arith)
        requires
            d >= 0,
            0 <= k < 52,
    ;
    assert(((d * 52 + k) / 13) % 4 == (k / 13) % 4) by (nonlinear_arith)
        requires
            d >= 0,
            0 <= k < 52,
    ;
}

proof fn lemma_one_deck_count(c: Card)
    ensures
        Seq::new(52, |k: int| fresh_card(k)).to_multiset().count(c) == 1,
{
    broadcast use vstd::seq_lib::group_to_multiset_ensures;
    let deck = Seq::new(52, |k: int| fresh_card(k));
    let j = card_index(c);
    assert(0 <= j < 52);
    assert(deck[j] == c);
    assert forall|k: int| 0 <= k < 52 && k != j implies #[trigger] deck[k] != c by {
        lemma_card_index_unique(k);
    }
    lemma_count_prefix(deck, c, j, 52);
    assert(deck.take(52) =~= deck);
}

/// In a sequence whose only `c` sits at `j`, a prefix of length `n` holds
/// `c` once when it reaches past `j`, and not at all otherwise.
proof fn lemma_count_prefix(s: Seq<Card>, c: Card, j: int, n: int)
    requires
        0 <= j < s.len(),
        0 <= n <= s.len(),
        s[j] == c,
        forall|k: int| 0 <= k < s.len() && k != j ==> #[trigger] s[k] != c,
    ensures
        s.take(n).to_multiset().count(c) == (if j < n { 1nat } else { 0nat }),
    decreases n,
{
    broadcast use vstd::seq_lib::group_to_multiset_ensures;
    broadcast use vstd::multiset::group_multiset_axioms;
    if n == 0 {
        assert(s.take(0) =~= Seq::<Card>::empty());
    } else {
        lemma_count_prefix(s, c, j, n - 1);
        assert(s.take(n) =~= s.take(n - 1).push(s[n - 1]));
    }
}

spec fn suit_index(c: Card) -> int {
    match c.suit {
        crate::blackjack::cards::Suit::Spades => 0,
        crate::blackjack::cards::Suit::Hearts => 1,
        crate::blackjack::cards::Suit::Diamonds => 2,
        crate::blackjack::cards::Suit::Clubs => 3,
    }
}

spec fn rank_index(c: Card) -> int {
    match c.rank {
        Rank::A => 0,
        Rank::Two => 1,
        Rank::Three => 2,
        Rank::Four => 3,
        Rank::Five => 4,
        Rank::Six => 5,
        Rank::Seven => 6,
        Rank::Eight => 7,
        Rank::Nine => 8,
        Rank::Ten => 9,
        Rank::J => 10,
        Rank::Q => 11,
        Rank::K => 12,
    }
}

spec fn card_index(c: Card) -> int {
    suit_index(c) * 13 + rank_index(c)
}

proof fn lemma_card_index_unique(k: int)
    requires
        0 <= k < 52,
    ensures
        card_index(fresh_card(k)) == k,
{
    assert(k == (k / 13) * 13 + k % 13) by (nonlinear_arith)
        requires
            0 <= k,
    ;
    assert(0 <= k / 13 < 4) by (nonlinear_arith)
        requires
            0 <= k < 52,
    ;
}

} // verus!
