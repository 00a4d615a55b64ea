//! The blackjack table as the program runs it: every move is the model's
//! move (`model.rs`) on the table's view, and keeps the invariant.

use vstd::prelude::*;
use vstd::string::StringExecFns;
use std::collections::VecDeque;
use rand_chacha::ChaCha8Rng;
use crate::rng::chacha_seeded;
use crate::blackjack::cards::{
    Card, Hand, HandModel, Shoe, NUM_DECKS, fresh_cards, fresh_hand, hand_ok, raw_sum, spec_is_blackjack, spec_totals,
};
use crate::blackjack::keeps::{
    lemma_frame_dealt_wf, lemma_dealer_step_wf, lemma_timer_steps_wf,
    lemma_key_effect_wf, lemma_frame_before_shuffle_wf, lemma_advance_money, lemma_shuffled_wf, lemma_advance_wf, lemma_commit_fits, lemma_push_card, lemma_adjust_bet_wf, lemma_sum_nonneg_ge, lemma_sum_nonneg, lemma_sum_take, lemma_small_hand, lemma_post_deal_checks_wf,
    lemma_resolve_natural_wf, lemma_on_dealing_finished_wf, lemma_start_dealer_turn_wf, lemma_tally,
    lemma_update_dealer_policy_wf, lemma_finish_round_wf, lemma_hands_ok_same, lemma_start_round_wf, lemma_progress_wf, lemma_player_action_wf, lemma_message_wf,
    lemma_next_live,
};
use crate::blackjack::model::{
    AnimModel, GameModel, BET_STEP, DT_CLAMP_MS, msg_shuffled, MIN_BET, STARTING_CHIPS, MAX_SPLIT_HANDS, PAYOUT_DELAY_MS, SHUFFLE_DELAY_MS, deal_event,
    msg_adjust_bet, msg_dealing, msg_not_enough, next_live, payout_tally,
};
use crate::blackjack::table::{
    KeyCode, KeyEvent, KeyEventKind, ascii_lower, to_ascii_lowercase, ActiveAnim, AnimEvent, AnimState, DealDest, DealerReveal, Layout, Phase, RulesConfig, layout_ok, standard_rules,
    spec_dealer_card_pos, spec_player_card_pos, Vec2, DEAL_DURATION_MS, FLIP_DURATION_MS, FLASH_DURATION_MS,
    CHIP_DURATION_MS, PUSH_CHIP_DURATION_MS,
};
use crate::blackjack::text::{decimal, push_decimal};

verus! {

/// Everything on the table: the phase of the round, the shoe, the dealer's
/// and the player's hands with their wagers, the chips and the bet, the
/// status line, the table's generator (it shuffles each new shoe), the
/// house rules, the animation queue, and the pending decisions.
pub struct GameState {
    pub phase: Phase,
    pub shoe: Shoe,
    pub dealer: Hand,
    pub players: Vec<Hand>,
    pub wagers: Vec<i64>,
    pub settled_blackjack: Vec<bool>,
    pub active_hand: usize,
    pub chips: i64,
    pub bet: i64,
    pub message: String,
    pub rng: ChaCha8Rng,
    pub rules: RulesConfig,
    pub anim: AnimState,
    pub dealer_reveal: DealerReveal,
    pub pending_stand_after_deal: Option<usize>,
    pub pending_natural_resolution: bool,
    pub payout_timer_ms: i64,
}

impl View for GameState {
    type V = GameModel;

    open spec fn view(&self) -> GameModel {
        GameModel {
            phase: self.phase,
            shoe: self.shoe@,
            dealer: self.dealer@,
            players: self.players@.map_values(|h: Hand| h@),
            wagers: self.wagers@,
            settled_blackjack: self.settled_blackjack@,
            active_hand: self.active_hand,
            chips: self.chips,
            bet: self.bet,
            message: self.message@,
            rules: self.rules,
            anim: self.anim@,
            dealer_reveal: self.dealer_reveal,
            pending_stand_after_deal: self.pending_stand_after_deal,
            pending_natural_resolution: self.pending_natural_resolution,
            payout_timer_ms: self.payout_timer_ms,
        }
    }
}

/// A table as it opens: betting, a fresh shuffled six-deck shoe, one empty
/// hand with the minimum wager, 500 chips, the minimum bet, the standard
/// rules, no animation.
pub open spec fn is_new_game(m: GameModel) -> bool {
    &&& m.phase == Phase::Betting
    &&& m.shoe.cards.to_multiset() == fresh_cards(6).to_multiset()
    &&& m.shoe.cards.len() == 312
    &&& m.shoe.decks == 6
    &&& m.shoe.cut == 78
    &&& m.dealer == fresh_hand()
    &&& m.players == seq![fresh_hand()]
    &&& m.wagers == seq![MIN_BET]
    &&& m.settled_blackjack == seq![false]
    &&& m.active_hand == 0
    &&& m.chips == STARTING_CHIPS
    &&& m.bet == MIN_BET
    &&& m.message == msg_adjust_bet()
    &&& m.rules == standard_rules()
    &&& m.anim == AnimModel { now_ms: 0, queue: Seq::empty(), active: None }
    &&& m.dealer_reveal == DealerReveal::Hidden
    &&& m.pending_stand_after_deal is None
    &&& !m.pending_natural_resolution
    &&& m.payout_timer_ms == 0
}

proof fn lemma_new_game_wf(m: GameModel)
    requires
        is_new_game(m),
    ensures
        m.wf(),
{
    assert(m.anim.pending() =~= Seq::<AnimEvent>::empty());
    assert(raw_sum(fresh_hand().cards) == 0);
    assert(spec_totals(fresh_hand().cards).0 == 0);
    assert(m.player_room(0) == 0);
}

impl GameState {
    /// Opens a table whose shoe is shuffled by a generator seeded with `seed`.
    pub fn new(seed: u64) -> (g: GameState)
        ensures
            is_new_game(g@),
            g@.wf(),
    {
        let mut rng = chacha_seeded(seed);
        let shoe = Shoe::new(NUM_DECKS, &mut rng);
        let mut players: Vec<Hand> = Vec::new();
        players.push(Hand::new());
        let mut wagers: Vec<i64> = Vec::new();
        wagers.push(MIN_BET);
        let mut settled: Vec<bool> = Vec::new();
        settled.push(false);
        let g = GameState {
            phase: Phase::Betting,
            shoe,
            dealer: Hand::new(),
            players,
            wagers,
            settled_blackjack: settled,
            active_hand: 0,
            chips: STARTING_CHIPS,
            bet: MIN_BET,
            message: String::from_str("Adjust bet and press Enter to deal"),
            rng,
            rules: RulesConfig { dealer_hits_soft_17: true, blackjack_payout_num: 3, blackjack_payout_den: 2 },
            anim: AnimState::new(),
            dealer_reveal: DealerReveal::Hidden,
            pending_stand_after_deal: None,
            pending_natural_resolution: false,
            payout_timer_ms: 0,
        };
        assert(g@.players =~= seq![fresh_hand()]);
        assert(g@.wagers =~= seq![MIN_BET]);
        assert(g@.settled_blackjack =~= seq![false]);
        proof {
            lemma_new_game_wf(g@);
        }
        g
    }
}

/// The label under a player hand: its number, its total, and whether the
/// total is soft.
pub open spec fn spec_hand_label(idx: int, cards: Seq<Card>) -> Seq<char> {
    "H"@ + decimal((idx + 1) as nat) + ": "@ + decimal(spec_totals(cards).0 as nat)
        + (if spec_totals(cards).1 { " (soft)"@ } else { Seq::empty() })
}

impl GameState {
    /// Fresh hands for a new round, with the current bet as the one wager.
    pub fn reset_round_hands(&mut self)
        ensures
            final(self)@ == old(self)@.reset_round_hands(),
            final(self).rng == old(self).rng,
    {
        self.dealer = Hand::new();
        self.players.clear();
        self.players.push(Hand::new());
        self.wagers.clear();
        self.wagers.push(self.bet);
        self.settled_blackjack.clear();
        self.settled_blackjack.push(false);
        self.active_hand = 0;
        self.dealer_reveal = DealerReveal::Hidden;
        self.pending_stand_after_deal = None;
        self.pending_natural_resolution = false;
        assert(self@.players =~= seq![fresh_hand()]);
        assert(self@.wagers =~= seq![old(self).bet]);
        assert(self@.settled_blackjack =~= seq![false]);
        assert(self@ =~= old(self)@.reset_round_hands());
    }

    /// Whether hand `hand_idx` may double: two cards, still in play, chips
    /// to match the wager, during the player's turn with nothing animating.
    pub fn can_double(&self, hand_idx: usize) -> (b: bool)
        requires
            hand_idx < self.players@.len(),
            self.wagers@.len() == self.players@.len(),
        ensures
            b == self@.can_double(hand_idx as int),
    {
        if self.phase != Phase::PlayerTurn || self.anim.is_busy() {
            return false;
        }
        let hand = &self.players[hand_idx];
        hand.cards.len() == 2 && !hand.stood && !hand.busted && self.chips >= self.wagers[hand_idx]
    }

    /// Whether hand `hand_idx` may split: a pair, room for another hand,
    /// chips to match the wager, during the player's turn with nothing
    /// animating.
    pub fn can_split(&self, hand_idx: usize) -> (b: bool)
        requires
            hand_idx < self.players@.len(),
            hand_idx < self.wagers@.len(),
        ensures
            b == self@.can_split(hand_idx as int),
    {
        if self.phase != Phase::PlayerTurn || self.anim.is_busy() {
            return false;
        }
        if self.players.len() >= MAX_SPLIT_HANDS {
            return false;
        }
        let hand = &self.players[hand_idx];
        if hand.cards.len() != 2 || self.chips < self.wagers[hand_idx] {
            return false;
        }
        hand.cards[0].rank == hand.cards[1].rank
    }

    /// `H<n>: <total>`, with ` (soft)` after a soft total.
    pub fn hand_label(&self, idx: usize) -> (s: String)
        requires
            idx < self.players@.len(),
            idx < 1000,
            hand_ok(self.players@[idx as int].cards@),
        ensures
            s@ == spec_hand_label(idx as int, self.players@[idx as int].cards@),
    {
        let hand = &self.players[idx];
        let (tot, soft) = hand.totals();
        let mut s = String::from_str("H");
        push_decimal(&mut s, (idx + 1) as u64);
        s.append(": ");
        push_decimal(&mut s, tot as u64);
        if soft {
            s.append(" (soft)");
        } else {
            assert(s@ + Seq::<char>::empty() =~= s@);
        }
        s
    }

    /// Player, dealer face up, player, dealer face down: four cards off the
    /// top of the shoe, queued to fly in that order.
    pub fn enqueue_initial_deal(&mut self, layout: Layout)
        requires
            old(self).shoe.cards@.len() >= 4,
            layout_ok(layout),
        ensures
            final(self)@ == old(self)@.initial_deal(layout),
            final(self).rng == old(self).rng,
    {
        let c1 = self.shoe.draw();
        self.anim.enqueue(AnimEvent::Deal {
            card: c1,
            from: layout.shoe,
            to: layout.player_card_pos(0, 0),
            dest: DealDest::Player { hand: 0 },
            duration_ms: DEAL_DURATION_MS,
        });
        let c2 = self.shoe.draw();
        self.anim.enqueue(AnimEvent::Deal {
            card: c2,
            from: layout.shoe,
            to: layout.dealer_card_pos(0),
            dest: DealDest::DealerUp,
            duration_ms: DEAL_DURATION_MS,
        });
        let c3 = self.shoe.draw();
        self.anim.enqueue(AnimEvent::Deal {
            card: c3,
            from: layout.shoe,
            to: layout.player_card_pos(0, 1),
            dest: DealDest::Player { hand: 0 },
            duration_ms: DEAL_DURATION_MS,
        });
        let c4 = self.shoe.draw();
        self.anim.enqueue(AnimEvent::Deal {
            card: c4,
            from: layout.shoe,
            to: layout.dealer_card_pos(1),
            dest: DealDest::DealerDown,
            duration_ms: DEAL_DURATION_MS,
        });
        assert(self@ =~= old(self)@.initial_deal(layout));
    }

    /// The top card of the shoe, queued to the next place of hand `hand_idx`.
    pub fn enqueue_deal_to_player(&mut self, hand_idx: usize, layout: Layout)
        requires
            old(self).shoe.cards@.len() >= 1,
            hand_idx < old(self).players@.len(),
            hand_idx <= 1000,
            old(self).players@[hand_idx as int].cards@.len() <= 1000,
            layout_ok(layout),
        ensures
            final(self)@ == old(self)@.deal_to_player(hand_idx as int, layout),
            final(self).rng == old(self).rng,
    {
        let card = self.shoe.draw();
        let card_idx = self.players[hand_idx].cards.len();
        self.anim.enqueue(AnimEvent::Deal {
            card,
            from: layout.shoe,
            to: layout.player_card_pos(hand_idx, card_idx),
            dest: DealDest::Player { hand: hand_idx },
            duration_ms: DEAL_DURATION_MS,
        });
        assert(self@ =~= old(self)@.deal_to_player(hand_idx as int, layout));
    }

    /// The top card of the shoe, queued face up to the dealer's next place.
    pub fn enqueue_deal_to_dealer(&mut self, layout: Layout)
        requires
            old(self).shoe.cards@.len() >= 1,
            old(self).dealer.cards@.len() <= 1000,
            layout_ok(layout),
        ensures
            final(self)@ == old(self)@.deal_to_dealer(layout),
            final(self).rng == old(self).rng,
    {
        let card = self.shoe.draw();
        let card_idx = self.dealer.cards.len();
        self.anim.enqueue(AnimEvent::Deal {
            card,
            from: layout.shoe,
            to: layout.dealer_card_pos(card_idx),
            dest: DealDest::DealerUp,
            duration_ms: DEAL_DURATION_MS,
        });
        assert(self@ =~= old(self)@.deal_to_dealer(layout));
    }

    /// The hole card's turn, queued.
    pub fn enqueue_flip_hole(&mut self, layout: Layout)
        requires
            layout_ok(layout),
        ensures
            final(self)@ == old(self)@.flip_hole(layout),
            final(self).rng == old(self).rng,
    {
        self.anim.enqueue(AnimEvent::FlipHole { at: layout.dealer_card_pos(1), duration_ms: FLIP_DURATION_MS });
        assert(self@ =~= old(self)@.flip_hole(layout));
    }

    /// Opens a round from betting: the bet leaves the chips and four cards
    /// are dealt; a bet the chips do not cover is refused with a message.
    pub fn start_round(&mut self, layout: Layout)
        requires
            old(self)@.wf(),
            old(self).phase == Phase::Betting,
            layout_ok(layout),
        ensures
            final(self)@ == old(self)@.start_round(layout),
            final(self)@.wf(),
            final(self).rng == old(self).rng,
    {
        proof {
            lemma_start_round_wf(self@, layout);
        }
        if self.bet > self.chips {
            self.message = String::from_str("Not enough chips");
            assert(self@ =~= old(self)@.start_round(layout));
            return;
        }
        self.reset_round_hands();
        self.chips = self.chips - self.bet;
        self.phase = Phase::Dealing;
        self.message = String::from_str("Dealing...");
        self.enqueue_initial_deal(layout);
        assert(self@ =~= old(self)@.start_round(layout));
    }

    /// Moves the turn past every hand that has stood or busted; with none
    /// left, the dealer plays.
    pub fn progress_active_hand(&mut self)
        requires
            old(self).active_hand <= old(self).players@.len(),
        ensures
            final(self)@ == old(self)@.progress(),
            final(self).rng == old(self).rng,
    {
        let ghost ps = self@.players;
        let mut a = self.active_hand;
        while a < self.players.len() && (self.players[a].stood || self.players[a].busted)
            invariant
                ps == self@.players,
                old(self).active_hand <= a <= self.players@.len(),
                next_live(ps, a as int) == next_live(ps, old(self).active_hand as int),
            decreases self.players@.len() - a,
        {
            a = a + 1;
        }
        self.active_hand = a;
        if self.active_hand >= self.players.len() {
            self.phase = Phase::DealerTurn;
        }
        assert(self@ =~= old(self)@.progress());
    }
}

/// How many cards a player key draws from the shoe in this state.
pub open spec fn action_draws(m: GameModel, key: char) -> int {
    let idx = m.active_hand as int;
    if m.phase != Phase::PlayerTurn || m.anim.busy() || idx >= m.players.len() {
        0
    } else if key == 'h' {
        1
    } else if key == 'd' && m.can_double(idx) {
        1
    } else if key == 'p' && m.can_split(idx) {
        2
    } else {
        0
    }
}

impl GameState {
    /// The player's keys on the active hand: `h` hits, `s` stands, `d`
    /// doubles (when allowed), `p` splits (when allowed); ignored outside
    /// the player's turn or while cards are moving.
    pub fn handle_player_action(&mut self, key: char, layout: Layout)
        requires
            old(self)@.wf(),
            old(self)@.money_fits(),
            layout_ok(layout),
            old(self).shoe.cards@.len() >= action_draws(old(self)@, key),
        ensures
            final(self)@ == old(self)@.player_action(key, layout),
            final(self)@.wf(),
            final(self).rng == old(self).rng,
    {
        proof {
            lemma_player_action_wf(self@, key, layout);
        }
        if self.phase != Phase::PlayerTurn || self.anim.is_busy() {
            return;
        }
        let idx = self.active_hand;
        if idx >= self.players.len() {
            return;
        }
        proof {
            lemma_small_hand(self@.players[idx as int].cards);
            assert(self@.player_room(idx as int) <= 31);
            assert(self@.anim.pending() =~= Seq::<AnimEvent>::empty());
        }
        if key == 'h' {
            self.enqueue_deal_to_player(idx, layout);
            let mut msg = String::from_str("Hit hand ");
            push_decimal(&mut msg, (idx + 1) as u64);
            self.message = msg;
            assert(self@ =~~= old(self)@.player_action(key, layout));
        } else if key == 's' {
            self.players[idx].stood = true;
            let mut msg = String::from_str("Stand hand ");
            push_decimal(&mut msg, (idx + 1) as u64);
            self.message = msg;
            let ghost mid = self@;
            assert(mid.players =~~= old(self)@.players.update(
                idx as int,
                HandModel { stood: true, ..old(self)@.players[idx as int] },
            ));
            self.progress_active_hand();
            assert(self@ =~~= old(self)@.player_action(key, layout));
        } else if key == 'd' {
            if self.can_double(idx) {
                let add = self.wagers[idx];
                proof {
                    lemma_sum_nonneg_ge(self@.wagers, idx as int);
                }
                self.chips = self.chips - add;
                self.wagers.set(idx, add + add);
                self.players[idx].doubled = true;
                self.pending_stand_after_deal = Some(idx);
                let ghost mid = self@;
                assert(mid.players =~~= old(self)@.players.update(
                    idx as int,
                    HandModel { doubled: true, ..old(self)@.players[idx as int] },
                ));
                self.enqueue_deal_to_player(idx, layout);
                let mut msg = String::from_str("Double hand ");
                push_decimal(&mut msg, (idx + 1) as u64);
                self.message = msg;
                assert(self@ =~~= old(self)@.player_action(key, layout));
            } else {
                self.message = String::from_str("Double not allowed");
                assert(self@ =~~= old(self)@.player_action(key, layout));
            }
        } else if key == 'p' {
            if self.can_split(idx) {
                let w = self.wagers[idx];
                self.chips = self.chips - w;
                let mut second = Hand::new();
                let card = self.players[idx].cards.pop().unwrap();
                second.cards.push(card);
                self.players.insert(idx + 1, second);
                self.wagers.insert(idx + 1, w);
                self.settled_blackjack.insert(idx + 1, false);
                let ghost oh = old(self)@.players[idx as int];
                let ghost first = HandModel { cards: oh.cards.drop_last(), ..oh };
                let ghost sec = HandModel { cards: seq![oh.cards.last()], ..fresh_hand() };
                assert(self@.players =~~= old(self)@.players.update(idx as int, first).insert(idx as int + 1, sec));
                proof {
                    assert(oh.cards.drop_last() =~= seq![oh.cards[0]]);
                }
                self.enqueue_deal_to_player(idx, layout);
                self.enqueue_deal_to_player(idx + 1, layout);
                let mut msg = String::from_str("Split hand ");
                push_decimal(&mut msg, (idx + 1) as u64);
                self.message = msg;
                assert(self@ =~~= old(self)@.player_action(key, layout));
            } else {
                self.message = String::from_str("Split not allowed");
                assert(self@ =~~= old(self)@.player_action(key, layout));
            }
        }
    }
}

/// How many cards the dealer's policy draws in this state.
pub open spec fn dealer_draws(m: GameModel) -> int {
    if m.phase != Phase::DealerTurn || m.anim.busy() {
        0
    } else {
        let (tot, soft) = spec_totals(m.dealer.cards);
        if tot < 17 || (tot == 17 && soft && m.rules.dealer_hits_soft_17) { 1 } else { 0 }
    }
}

impl GameState {
    /// After a card lands: a doubled hand stands, busted or not; otherwise
    /// the active hand's bust is noted and a busted hand stands; then the
    /// turn moves on past finished hands.
    pub fn post_deal_checks(&mut self)
        requires
            old(self)@.wf_core(),
            old(self).phase != Phase::Betting,
            old(self).phase != Phase::Shuffle,
        ensures
            final(self)@ == old(self)@.post_deal_checks(),
            final(self)@.wf(),
            final(self).rng == old(self).rng,
    {
        proof {
            lemma_post_deal_checks_wf(self@);
        }
        match self.pending_stand_after_deal {
            Some(hand_idx) => {
                self.pending_stand_after_deal = None;
                if hand_idx < self.players.len() {
                    proof {
                        assert(old(self)@.player_room(hand_idx as int) <= 31);
                        lemma_small_hand(self@.players[hand_idx as int].cards);
                    }
                    let (tot, _) = self.players[hand_idx].totals();
                    self.players[hand_idx].busted = tot > 21;
                    self.players[hand_idx].stood = true;
                    let ghost h = old(self)@.players[hand_idx as int];
                    assert(self@.players =~~= old(self)@.players.update(
                        hand_idx as int,
                        HandModel { busted: spec_totals(h.cards).0 > 21, stood: true, ..h },
                    ));
                }
                self.progress_active_hand();
                assert(self@ =~~= old(self)@.post_deal_checks());
            },
            None => {
                if self.phase == Phase::PlayerTurn && self.active_hand < self.players.len() {
                    let i = self.active_hand;
                    proof {
                        assert(self@.player_room(i as int) <= 31);
                        lemma_small_hand(self@.players[i as int].cards);
                    }
                    let (tot, _) = self.players[i].totals();
                    self.players[i].busted = tot > 21;
                    if tot > 21 {
                        self.players[i].stood = true;
                        let mut msg = String::from_str("Hand ");
                        push_decimal(&mut msg, (i + 1) as u64);
                        msg.append(" busts");
                        self.message = msg;
                        let ghost h = old(self)@.players[i as int];
                        assert(self@.players =~~= old(self)@.players.update(
                            i as int,
                            HandModel { busted: true, stood: true, ..h },
                        ));
                        self.progress_active_hand();
                    }
                }
                assert(self@ =~~= old(self)@.post_deal_checks());
            },
        }
    }

    pub fn enter_payout(&mut self)
        ensures
            final(self)@ == old(self)@.enter_payout(),
            final(self).rng == old(self).rng,
    {
        self.phase = Phase::Payout;
        self.payout_timer_ms = PAYOUT_DELAY_MS;
        assert(self@ =~~= old(self)@.enter_payout());
    }

    /// With the hole card shown: a dealer natural pushes the player's;
    /// otherwise the player's natural is paid the wager plus its bonus
    /// (3:2 under the standard rules) and marked settled.
    pub fn resolve_natural_blackjack(&mut self, layout: Layout)
        requires
            old(self)@.wf(),
            old(self)@.money_fits(),
            layout_ok(layout),
        ensures
            final(self)@ == old(self)@.resolve_natural_blackjack(layout),
            final(self)@.wf(),
            final(self).rng == old(self).rng,
    {
        proof {
            lemma_resolve_natural_wf(self@, layout);
            lemma_sum_nonneg_ge(self@.wagers, 0);
            assert(self@.dealer_room() <= 31);
            lemma_small_hand(self@.dealer.cards);
        }
        self.pending_natural_resolution = false;
        self.dealer_reveal = DealerReveal::Revealed;
        let dealer_bj = self.dealer.is_blackjack();
        if dealer_bj {
            self.chips = self.chips + self.wagers[0];
            self.message = String::from_str("Push: both blackjack");
        } else {
            let w = self.wagers[0];
            let num = self.rules.blackjack_payout_num;
            let den = self.rules.blackjack_payout_den;
            assert(0 <= w * num <= w * 200) by (nonlinear_arith)
                requires
                    0 <= w,
                    0 <= num <= 200,
            ;
            assert(w * 200 <= 36_028_797_018_963_967 * 200) by (nonlinear_arith)
                requires
                    0 <= w <= 36_028_797_018_963_967,
            ;
            assert(w * num <= w * (2 * den)) by (nonlinear_arith)
                requires
                    0 <= w,
                    num <= 2 * den,
            ;
            let bonus = w * num / den;
            assert(0 <= bonus <= 2 * w) by (nonlinear_arith)
                requires
                    bonus == (w * num) / (den as int),
                    0 <= w * num <= w * (2 * den),
                    den >= 1,
                    w >= 0,
            ;
            self.chips = self.chips + w + bonus;
            self.settled_blackjack.set(0, true);
            self.message = String::from_str("Blackjack pays 3:2");
            let rect = layout.player_hand_rect(0);
            self.anim.enqueue(AnimEvent::Flash { rect, duration_ms: FLASH_DURATION_MS });
            self.anim.enqueue(AnimEvent::ChipDelta {
                amount: w + bonus,
                at: Vec2 { x: rect.x, y: rect.y - 1 },
                duration_ms: CHIP_DURATION_MS,
            });
        }
        self.enter_payout();
        assert(self@ =~~= old(self)@.resolve_natural_blackjack(layout));
    }

    /// Once the four cards are out: a resolution already pending is made;
    /// a player natural turns the hole card for it; otherwise the player's
    /// turn starts on the first hand.
    pub fn on_dealing_finished(&mut self, layout: Layout)
        requires
            old(self)@.wf(),
            old(self)@.money_fits(),
            layout_ok(layout),
        ensures
            final(self)@ == old(self)@.on_dealing_finished(layout),
            final(self)@.wf(),
            final(self).rng == old(self).rng,
    {
        proof {
            lemma_on_dealing_finished_wf(self@, layout);
        }
        if self.phase != Phase::Dealing {
            return;
        }
        if self.pending_natural_resolution {
            self.resolve_natural_blackjack(layout);
            return;
        }
        proof {
            assert(self@.player_room(0) <= 31);
            lemma_small_hand(self@.players[0].cards);
        }
        if self.players[0].is_blackjack() {
            self.pending_natural_resolution = true;
            self.enqueue_flip_hole(layout);
            self.message = String::from_str("Natural blackjack check");
        } else {
            self.phase = Phase::PlayerTurn;
            self.active_hand = 0;
            self.message = String::from_str("Player turn: h/s/d/p");
        }
        assert(self@ =~~= old(self)@.on_dealing_finished(layout));
    }

    /// The dealer's turn starts; with two cards out, a hidden hole card is
    /// queued to turn over.
    pub fn start_dealer_turn(&mut self, layout: Layout)
        requires
            layout_ok(layout),
        ensures
            final(self)@ == old(self)@.start_dealer_turn(layout),
            old(self)@.wf() && old(self).phase != Phase::Betting && old(self).phase != Phase::Shuffle
                ==> final(self)@.wf(),
            final(self).rng == old(self).rng,
    {
        proof {
            if self@.wf() && self.phase != Phase::Betting && self.phase != Phase::Shuffle {
                lemma_start_dealer_turn_wf(self@, layout);
            }
        }
        self.phase = Phase::DealerTurn;
        if self.dealer.cards.len() < 2 {
            assert(self@ =~~= old(self)@.start_dealer_turn(layout));
            return;
        }
        if self.dealer_reveal == DealerReveal::Hidden {
            self.enqueue_flip_hole(layout);
        }
        self.message = String::from_str("Dealer turn");
        assert(self@ =~~= old(self)@.start_dealer_turn(layout));
    }

    /// Every wager still standing is settled against the dealer: a win
    /// pays twice the wager back and flashes the hand, a push returns the
    /// wager, a loss (or a bust) keeps it; the counts go to the status line.
    pub fn resolve_standard_payout(&mut self, layout: Layout)
        requires
            old(self)@.wf(),
            old(self)@.money_fits(),
            layout_ok(layout),
        ensures
            final(self)@ == old(self)@.resolve_standard_payout(layout),
            final(self).rng == old(self).rng,
    {
        proof {
            assert(self@.dealer_room() <= 31);
            lemma_small_hand(self@.dealer.cards);
            lemma_tally(self@, layout, self@.players.len() as int);
            lemma_sum_nonneg(self@.wagers);
        }
        let (dealer_total, _) = self.dealer.totals();
        let dealer_bust = dealer_total > 21;
        let mut wins: usize = 0;
        let mut pushes: usize = 0;
        let mut losses: usize = 0;
        let ghost m = old(self)@;
        let mut i: usize = 0;
        while i < self.players.len()
            invariant
                m == old(self)@,
                m.wf(),
                m.money_fits(),
                layout_ok(layout),
                dealer_total == spec_totals(m.dealer.cards).0,
                dealer_bust == (dealer_total > 21),
                0 <= i <= m.players.len(),
                self@ == (GameModel {
                    chips: payout_tally(m, layout, i as int).chips as i64,
                    anim: AnimModel { queue: m.anim.queue + payout_tally(m, layout, i as int).events, ..m.anim },
                    ..m
                }),
                self.rng == old(self).rng,
                wins == payout_tally(m, layout, i as int).wins,
                pushes == payout_tally(m, layout, i as int).pushes,
                losses == payout_tally(m, layout, i as int).losses,
            decreases m.players.len() - i,
        {
            proof {
                lemma_tally(m, layout, i as int);
                lemma_tally(m, layout, i as int + 1);
                lemma_sum_take(m.wagers, i as int + 1);
                assert(m.player_room(i as int) <= 31);
                lemma_small_hand(m.players[i as int].cards);
            }
            if self.settled_blackjack[i] {
                i += 1;
                continue;
            }
            let (pt, _) = self.players[i].totals();
            let wager = self.wagers[i];
            if self.players[i].busted || pt > 21 {
                losses += 1;
                i += 1;
                continue;
            }
            let result: i8 = if dealer_bust {
                1
            } else if pt > dealer_total {
                1
            } else if pt < dealer_total {
                -1
            } else {
                0
            };
            let rect = layout.player_hand_rect(i);
            let at = Vec2 { x: rect.x, y: rect.y - 1 };
            if result == 1 {
                wins += 1;
                self.chips = self.chips + wager * 2;
                self.anim.enqueue(AnimEvent::Flash { rect, duration_ms: FLASH_DURATION_MS });
                self.anim.enqueue(AnimEvent::ChipDelta { amount: wager, at, duration_ms: CHIP_DURATION_MS });
            } else if result == 0 {
                pushes += 1;
                self.chips = self.chips + wager;
                self.anim.enqueue(AnimEvent::ChipDelta { amount: 0, at, duration_ms: PUSH_CHIP_DURATION_MS });
            } else {
                losses += 1;
                self.anim.enqueue(AnimEvent::ChipDelta { amount: -wager, at, duration_ms: CHIP_DURATION_MS });
            }
            i += 1;
            assert(self@.anim.queue =~= m.anim.queue + payout_tally(m, layout, i as int).events);
        }
        let mut msg = String::from_str("Payout: ");
        push_decimal(&mut msg, wins as u64);
        msg.append(" win / ");
        push_decimal(&mut msg, pushes as u64);
        msg.append(" push / ");
        push_decimal(&mut msg, losses as u64);
        msg.append(" lose");
        self.message = msg;
        assert(self@ =~~= old(self)@.resolve_standard_payout(layout));
    }

    /// With nothing moving, the dealer draws below 17 and on a soft 17 when
    /// the rules say so; otherwise the round is paid and the payout pause
    /// starts.
    pub fn update_dealer_policy(&mut self, layout: Layout)
        requires
            old(self)@.wf(),
            old(self)@.money_fits(),
            layout_ok(layout),
            old(self).shoe.cards@.len() >= dealer_draws(old(self)@),
        ensures
            final(self)@ == old(self)@.update_dealer_policy(layout),
            final(self)@.wf(),
            final(self).rng == old(self).rng,
    {
        proof {
            lemma_update_dealer_policy_wf(self@, layout);
        }
        if self.phase != Phase::DealerTurn || self.anim.is_busy() {
            return;
        }
        self.dealer_reveal = DealerReveal::Revealed;
        proof {
            assert(self@.dealer_room() <= 31);
            lemma_small_hand(self@.dealer.cards);
        }
        let (tot, soft) = self.dealer.totals();
        let hit = if tot < 17 { true } else { tot == 17 && soft && self.rules.dealer_hits_soft_17 };
        if hit {
            self.enqueue_deal_to_dealer(layout);
            self.message = String::from_str("Dealer hits");
        } else {
            proof {
                lemma_hands_ok_same(old(self)@, self@);
            }
            self.resolve_standard_payout(layout);
            self.enter_payout();
        }
        assert(self@ =~~= old(self)@.update_dealer_policy(layout));
    }

    /// After the payout pause: a shoe past its cut goes to be shuffled;
    /// otherwise betting opens with the bet capped by the chips (never
    /// below the minimum), and an empty bankroll is refilled.
    pub fn finish_round(&mut self)
        ensures
            final(self)@ == old(self)@.finish_round(),
            old(self)@.wf() && !old(self)@.anim.busy() ==> final(self)@.wf(),
            final(self).rng == old(self).rng,
    {
        proof {
            if self@.wf() && !self@.anim.busy() {
                lemma_finish_round_wf(self@);
            }
        }
        if self.shoe.needs_shuffle() {
            self.phase = Phase::Shuffle;
            self.message = String::from_str("SHUFFLING...");
            self.payout_timer_ms = SHUFFLE_DELAY_MS;
        } else {
            self.phase = Phase::Betting;
            let cap = if self.chips > MIN_BET { self.chips } else { MIN_BET };
            self.bet = if self.bet < cap { self.bet } else { cap };
            if self.chips <= 0 {
                self.chips = STARTING_CHIPS;
                self.message = String::from_str("Out of chips. Bankroll reset.");
            } else {
                self.message = String::from_str("Adjust bet and press Enter to deal");
            }
        }
        assert(self@ =~~= old(self)@.finish_round());
    }

    /// A new table from `seed`, as at start-up.
    pub fn reset_all(&mut self, seed: u64)
        ensures
            is_new_game(final(self)@),
            final(self)@.wf(),
    {
        *self = GameState::new(seed);
    }
}

/// A finished event takes effect: a dealt card joins its hand (a player
/// hand notes whether it now busts); the hole card shows; flashes and chip
/// counts change nothing.
pub fn apply_event_commit(gs: &mut GameState, event: AnimEvent)
    requires
        old(gs)@.commit_fits(event),
    ensures
        final(gs)@ == old(gs)@.apply_event_commit(event),
        final(gs).rng == old(gs).rng,
{
    match event {
        AnimEvent::Deal { card, dest, .. } => match dest {
            DealDest::Player { hand } => {
                if hand < gs.players.len() {
                    proof {
                        lemma_push_card(gs@.players[hand as int].cards, card);
                        lemma_small_hand(gs@.players[hand as int].cards.push(card));
                    }
                    gs.players[hand].cards.push(card);
                    let (tot, _) = gs.players[hand].totals();
                    gs.players[hand].busted = tot > 21;
                    let ghost h = old(gs)@.players[hand as int];
                    let ghost cards = h.cards.push(card);
                    assert(gs@.players =~~= old(gs)@.players.update(
                        hand as int,
                        HandModel { cards, busted: spec_totals(cards).0 > 21, ..h },
                    ));
                }
                assert(gs@ =~~= old(gs)@.apply_event_commit(event));
            },
            _ => {
                gs.dealer.cards.push(card);
                assert(gs@ =~~= old(gs)@.apply_event_commit(event));
            },
        },
        AnimEvent::FlipHole { .. } => {
            gs.dealer_reveal = DealerReveal::Revealed;
            assert(gs@ =~~= old(gs)@.apply_event_commit(event));
        },
        _ => {
            assert(gs@ =~~= old(gs)@.apply_event_commit(event));
        },
    }
}

/// Moves the animations on by `dt_ms`: the clock advances, an idle
/// animation takes the next queued event, and the active event, once its
/// duration is over, takes effect and the deal checks run.
pub fn advance_animations(gs: &mut GameState, dt_ms: u32)
    requires
        old(gs)@.wf(),
    ensures
        final(gs)@ == old(gs)@.advance_animations(dt_ms),
        final(gs)@.wf(),
        final(gs).rng == old(gs).rng,
{
    proof {
        lemma_advance_wf(gs@, dt_ms);
        if gs@.advance_finishes(dt_ms) {
            lemma_commit_fits(gs@, dt_ms);
        }
    }
    gs.anim.now_ms = gs.anim.now_ms.saturating_add(dt_ms as u64);
    if gs.anim.active.is_none() {
        if let Some(next) = gs.anim.queue.pop_front() {
            gs.anim.active = Some(ActiveAnim { event: next, elapsed_ms: 0 });
        }
    }
    assert(gs@.anim =~= old(gs)@.anim_started(dt_ms));
    match gs.anim.active {
        Some(act) => {
            let elapsed = act.elapsed_ms + dt_ms as u64;
            let duration = act.event.duration() as u64;
            if elapsed >= duration {
                gs.anim.active = None;
                assert(gs@ =~~= old(gs)@.before_commit(dt_ms));
                apply_event_commit(gs, act.event);
                gs.post_deal_checks();
            } else {
                gs.anim.active = Some(ActiveAnim { event: act.event, elapsed_ms: elapsed });
            }
        },
        None => {},
    }
    assert(gs@ =~~= old(gs)@.advance_animations(dt_ms));
}

/// Moves the bet by `delta`, kept between the minimum bet and the chips
/// (the minimum, when the chips are fewer).
pub fn adjust_bet(gs: &mut GameState, delta: i64)
    requires
        old(gs)@.wf(),
        old(gs)@.money_fits(),
        -10 <= delta <= 10,
    ensures
        final(gs)@ == old(gs)@.adjust_bet(delta),
        final(gs)@.wf(),
        final(gs).rng == old(gs).rng,
{
    proof {
        lemma_adjust_bet_wf(gs@, delta);
        lemma_sum_nonneg(gs@.wagers);
    }
    let max_bet = if gs.chips > MIN_BET { gs.chips } else { MIN_BET };
    let b = gs.bet + delta;
    gs.bet = if b < MIN_BET { MIN_BET } else if b > max_bet { max_bet } else { b };
    assert(gs@ =~~= old(gs)@.adjust_bet(delta));
}

/// How many cards a key draws from the shoe in this state.
pub open spec fn key_draws(m: GameModel, key: KeyEvent) -> int {
    if key.kind == KeyEventKind::Press && m.phase != Phase::Betting && !m.anim.busy() && m.phase == Phase::PlayerTurn {
        match key.code {
            KeyCode::Char(c) => if c == 'q' || c == 'r' { 0 } else { action_draws(m, ascii_lower(c)) },
            _ => 0,
        }
    } else {
        0
    }
}

/// A key press: `q` stops the program, `r` opens a new table from `seed`;
/// while betting, the arrows (or `-` and `+`) move the bet and Enter deals;
/// during the player's turn, with nothing moving, letters act on the
/// active hand. Other key events (repeats, releases) are ignored.
pub fn handle_key(gs: &mut GameState, key: KeyEvent, layout: Layout, seed: u64, running: &mut bool)
    requires
        old(gs)@.wf(),
        old(gs)@.money_fits(),
        layout_ok(layout),
        old(gs).shoe.cards@.len() >= key_draws(old(gs)@, key),
    ensures
        final(gs)@.wf(),
        key.kind != KeyEventKind::Press ==> final(gs)@ == old(gs)@ && *final(running) == *old(running),
        key.kind == KeyEventKind::Press && key.code == KeyCode::Char('q') ==> final(gs)@ == old(gs)@
            && !*final(running),
        key.kind == KeyEventKind::Press && key.code == KeyCode::Char('r') ==> is_new_game(final(gs)@)
            && *final(running) == *old(running),
        key.kind == KeyEventKind::Press && key.code != KeyCode::Char('q') && key.code != KeyCode::Char('r')
            ==> final(gs)@ == old(gs)@.key_effect(key, layout) && *final(running) == *old(running)
            && final(gs).rng == old(gs).rng,
{
    proof {
        lemma_key_effect_wf(gs@, key, layout);
    }
    if key.kind != KeyEventKind::Press {
        return;
    }
    match key.code {
        KeyCode::Char(c) => {
            if c == 'q' {
                *running = false;
                return;
            }
            if c == 'r' {
                gs.reset_all(seed);
                return;
            }
        },
        _ => {},
    }
    if gs.phase == Phase::Betting {
        match key.code {
            KeyCode::Left => adjust_bet(gs, -BET_STEP),
            KeyCode::Right => adjust_bet(gs, BET_STEP),
            KeyCode::Char(c) => {
                if c == '-' {
                    adjust_bet(gs, -BET_STEP);
                } else if c == '+' {
                    adjust_bet(gs, BET_STEP);
                }
            },
            KeyCode::Enter => gs.start_round(layout),
            KeyCode::Other => {},
        }
        return;
    }
    if gs.anim.is_busy() {
        return;
    }
    if gs.phase == Phase::PlayerTurn {
        if let KeyCode::Char(ch) = key.code {
            gs.handle_player_action(to_ascii_lowercase(ch), layout);
        }
    }
}

/// The first part of a frame: animations advance, and finished dealing
/// opens the player's turn.
fn frame_deal_step(gs: &mut GameState, dt_ms: u32, layout: Layout)
    requires
        old(gs)@.wf(),
        old(gs)@.money_fits(),
        layout_ok(layout),
    ensures
        final(gs)@ == old(gs)@.frame_dealt(dt_ms, layout),
        final(gs).rng == old(gs).rng,
{
    let ghost m = gs@;
    let dt = if dt_ms < DT_CLAMP_MS { dt_ms } else { DT_CLAMP_MS };
    advance_animations(gs, dt);
    proof {
        lemma_advance_money(m, dt);
    }
    if gs.phase == Phase::Dealing && !gs.anim.is_busy() {
        gs.on_dealing_finished(layout);
    }
}

/// The dealer's part of a frame.
fn frame_dealer_step(gs: &mut GameState, layout: Layout)
    requires
        old(gs)@.wf(),
        old(gs).phase == Phase::DealerTurn ==> old(gs)@.money_fits(),
        layout_ok(layout),
        old(gs).phase == Phase::DealerTurn ==> old(gs).shoe.cards@.len() >= dealer_draws(old(gs)@.dealer_sees(layout)),
    ensures
        final(gs)@ == old(gs)@.dealer_step(layout),
        final(gs).rng == old(gs).rng,
{
    proof {
        lemma_dealer_step_wf(gs@, layout);
    }
    if gs.phase == Phase::DealerTurn {
        if gs.dealer_reveal == DealerReveal::Hidden && !gs.anim.is_busy() {
            gs.start_dealer_turn(layout);
        }
        gs.update_dealer_policy(layout);
    }
}

/// The payout and shuffle pauses of a frame.
fn frame_timer_steps(gs: &mut GameState, d: u32)
    requires
        old(gs)@.wf(),
        d <= 50,
    ensures
        final(gs)@ == old(gs)@.payout_step(d).shuffle_timer_step(d),
        final(gs).rng == old(gs).rng,
{
    if gs.phase == Phase::Payout {
        if gs.payout_timer_ms > 0 {
            gs.payout_timer_ms = gs.payout_timer_ms - d as i64;
        }
        if gs.payout_timer_ms <= 0 && !gs.anim.is_busy() {
            gs.finish_round();
        }
    }
    assert(gs@ =~~= old(gs)@.payout_step(d));
    if gs.phase == Phase::Shuffle {
        if gs.payout_timer_ms > 0 {
            gs.payout_timer_ms = gs.payout_timer_ms - d as i64;
        }
    }
    assert(gs@ =~~= old(gs)@.payout_step(d).shuffle_timer_step(d));
}

/// One frame of the table: animations advance by `dt_ms` (at most 50 ms);
/// finished dealing opens the player's turn; the dealer turns the hole
/// card and plays; the payout pause runs out and the round ends; the
/// shuffle pause runs out and a new shoe, shuffled by the table's
/// generator, opens betting; during the player's turn, the turn moves past
/// finished hands.
pub fn frame(gs: &mut GameState, dt_ms: u32, layout: Layout)
    requires
        old(gs)@.wf(),
        old(gs)@.money_fits(),
        layout_ok(layout),
        old(gs).shoe.cards@.len() >= old(gs)@.frame_draws(dt_ms, layout),
    ensures
        final(gs)@.wf(),
        ({
            let mid = old(gs)@.frame_before_shuffle(dt_ms, layout);
            &&& mid.shuffle_due() ==> final(gs)@ == (GameModel {
                shoe: final(gs)@.shoe,
                phase: Phase::Betting,
                message: msg_shuffled(),
                ..mid
            })
            &&& mid.shuffle_due() ==> final(gs)@.shoe.cards.to_multiset() == fresh_cards(6).to_multiset()
                && final(gs)@.shoe.cards.len() == 312 && final(gs)@.shoe.decks == 6 && final(gs)@.shoe.cut == 78
            &&& !mid.shuffle_due() ==> final(gs)@ == (if mid.phase == Phase::PlayerTurn { mid.progress() } else { mid })
                && final(gs).rng == old(gs).rng
        }),
{
    let ghost m = gs@;
    proof {
        lemma_frame_before_shuffle_wf(m, dt_ms, layout);
        lemma_frame_dealt_wf(m, dt_ms, layout);
        lemma_dealer_step_wf(m.frame_dealt(dt_ms, layout), layout);
        lemma_timer_steps_wf(m.frame_dealt(dt_ms, layout).dealer_step(layout), GameModel::clamp_dt(dt_ms));
    }
    frame_deal_step(gs, dt_ms, layout);
    frame_dealer_step(gs, layout);
    let d = if dt_ms < DT_CLAMP_MS { dt_ms } else { DT_CLAMP_MS };
    frame_timer_steps(gs, d);
    let ghost mid = gs@;
    assert(mid == m.frame_before_shuffle(dt_ms, layout));
    if gs.phase == Phase::Shuffle && gs.payout_timer_ms <= 0 {
        let decks = gs.shoe.decks;
        gs.shoe = Shoe::new(decks, &mut gs.rng);
        gs.phase = Phase::Betting;
        gs.message = String::from_str("Shoe shuffled. Place bet.");
        proof {
            lemma_shuffled_wf(mid, gs@.shoe, msg_shuffled());
        }
        assert(gs@ =~~= (GameModel { shoe: gs@.shoe, phase: Phase::Betting, message: msg_shuffled(), ..mid }));
        return;
    }
    if gs.phase == Phase::PlayerTurn {
        gs.progress_active_hand();
        proof {
            lemma_progress_wf(mid);
        }
    }
}

} // verus!
