//! The mathematical model of a blackjack table and the rules of play, as
//! pure functions from one table state to the next.

use vstd::prelude::*;
use crate::blackjack::cards::{
    Card, HandModel, ShoeModel, NUM_DECKS, fresh_hand, raw_sum, spec_is_blackjack, spec_totals,
};
use crate::blackjack::table::{
    AnimEvent, AnimState, ActiveAnim, DealDest, DealerReveal, KeyCode, KeyEvent, KeyEventKind, Layout, Phase,
    RulesConfig, Vec2, ascii_lower, event_duration, rules_ok, spec_dealer_card_pos, spec_player_card_pos, spec_player_hand_rect,
    DEAL_DURATION_MS, FLIP_DURATION_MS, FLASH_DURATION_MS, CHIP_DURATION_MS, PUSH_CHIP_DURATION_MS,
};
use crate::blackjack::text::decimal;

verus! {

pub const MIN_BET: i64 = 10;
pub const BET_STEP: i64 = 10;
pub const STARTING_CHIPS: i64 = 500;
pub const MAX_SPLIT_HANDS: usize = 4;
pub const PAYOUT_DELAY_MS: i64 = 2000;
pub const SHUFFLE_DELAY_MS: i64 = 800;
/// The longest frame the table advances by at once.
pub const DT_CLAMP_MS: u32 = 50;
/// Money stays below this bound for the arithmetic of a round to be exact:
/// a 64-bit count with room for every payout of a round.
pub const MONEY_LIMIT: i64 = 36_028_797_018_963_967;

#[verifier::ext_equal]
pub struct AnimModel {
    pub now_ms: u64,
    pub queue: Seq<AnimEvent>,
    pub active: Option<ActiveAnim>,
}

impl View for AnimState {
    type V = AnimModel;

    open spec fn view(&self) -> AnimModel {
        AnimModel { now_ms: self.now_ms, queue: self.queue@, active: self.active }
    }
}

impl AnimModel {
    /// Every event not yet finished: the active one, then the queue.
    pub open spec fn pending(self) -> Seq<AnimEvent> {
        match self.active {
            Some(a) => seq![a.event] + self.queue,
            None => self.queue,
        }
    }

    pub open spec fn busy(self) -> bool {
        self.active is Some || self.queue.len() > 0
    }

    pub open spec fn push(self, e: AnimEvent) -> AnimModel {
        AnimModel { queue: self.queue.push(e), ..self }
    }
}

/// Everything on the table but the random number generator.
#[verifier::ext_equal]
pub struct GameModel {
    pub phase: Phase,
    pub shoe: ShoeModel,
    pub dealer: HandModel,
    pub players: Seq<HandModel>,
    pub wagers: Seq<i64>,
    pub settled_blackjack: Seq<bool>,
    pub active_hand: usize,
    pub chips: i64,
    pub bet: i64,
    pub message: Seq<char>,
    pub rules: RulesConfig,
    pub anim: AnimModel,
    pub dealer_reveal: DealerReveal,
    pub pending_stand_after_deal: Option<usize>,
    pub pending_natural_resolution: bool,
    pub payout_timer_ms: i64,
}

// ---------------------------------------------------------------------
// Messages.

pub open spec fn msg_adjust_bet() -> Seq<char> { "Adjust bet and press Enter to deal"@ }
pub open spec fn msg_not_enough() -> Seq<char> { "Not enough chips"@ }
pub open spec fn msg_dealing() -> Seq<char> { "Dealing..."@ }
pub open spec fn msg_hit(n: nat) -> Seq<char> { "Hit hand "@ + decimal(n) }
pub open spec fn msg_stand(n: nat) -> Seq<char> { "Stand hand "@ + decimal(n) }
pub open spec fn msg_double(n: nat) -> Seq<char> { "Double hand "@ + decimal(n) }
pub open spec fn msg_double_refused() -> Seq<char> { "Double not allowed"@ }
pub open spec fn msg_split(n: nat) -> Seq<char> { "Split hand "@ + decimal(n) }
pub open spec fn msg_split_refused() -> Seq<char> { "Split not allowed"@ }
pub open spec fn msg_busts(n: nat) -> Seq<char> { "Hand "@ + decimal(n) + " busts"@ }
pub open spec fn msg_natural_check() -> Seq<char> { "Natural blackjack check"@ }
pub open spec fn msg_player_turn() -> Seq<char> { "Player turn: h/s/d/p"@ }
pub open spec fn msg_push_both() -> Seq<char> { "Push: both blackjack"@ }
pub open spec fn msg_blackjack_pays() -> Seq<char> { "Blackjack pays 3:2"@ }
pub open spec fn msg_dealer_turn() -> Seq<char> { "Dealer turn"@ }
pub open spec fn msg_dealer_hits() -> Seq<char> { "Dealer hits"@ }
pub open spec fn msg_payout(w: nat, p: nat, l: nat) -> Seq<char> {
    "Payout: "@ + decimal(w) + " win / "@ + decimal(p) + " push / "@ + decimal(l) + " lose"@
}
pub open spec fn msg_shuffling() -> Seq<char> { "SHUFFLING..."@ }
pub open spec fn msg_bankroll_reset() -> Seq<char> { "Out of chips. Bankroll reset."@ }
pub open spec fn msg_shuffled() -> Seq<char> { "Shoe shuffled. Place bet."@ }

// ---------------------------------------------------------------------
// Counting the deals still on their way to a hand.

pub open spec fn goes_to_player(e: AnimEvent, i: int) -> bool {
    match e {
        AnimEvent::Deal { dest, .. } => match dest {
            DealDest::Player { hand } => hand == i,
            _ => false,
        },
        _ => false,
    }
}

pub open spec fn goes_to_dealer(e: AnimEvent) -> bool {
    match e {
        AnimEvent::Deal { dest, .. } => match dest {
            DealDest::Player { .. } => false,
            _ => true,
        },
        _ => false,
    }
}

pub open spec fn is_deal(e: AnimEvent) -> bool {
    e is Deal
}

pub open spec fn count_to_player(s: Seq<AnimEvent>, i: int) -> nat
    decreases s.len(),
{
    if s.len() == 0 {
        0
    } else {
        count_to_player(s.drop_last(), i) + (if goes_to_player(s.last(), i) { 1nat } else { 0nat })
    }
}

pub open spec fn count_to_dealer(s: Seq<AnimEvent>) -> nat
    decreases s.len(),
{
    if s.len() == 0 {
        0
    } else {
        count_to_dealer(s.drop_last()) + (if goes_to_dealer(s.last()) { 1nat } else { 0nat })
    }
}

pub proof fn lemma_counts_concat(a: Seq<AnimEvent>, b: Seq<AnimEvent>)
    ensures
        forall|i: int| #[trigger] count_to_player(a + b, i) == count_to_player(a, i) + count_to_player(b, i),
        count_to_dealer(a + b) == count_to_dealer(a) + count_to_dealer(b),
    decreases b.len(),
{
    if b.len() == 0 {
        assert(a + b =~= a);
    } else {
        lemma_counts_concat(a, b.drop_last());
        assert((a + b).drop_last() =~= a + b.drop_last());
        assert((a + b).last() == b.last());
        assert forall|i: int| #[trigger] count_to_player(a + b, i) == count_to_player(a, i) + count_to_player(b, i) by {
            assert(count_to_player(a + b.drop_last(), i) == count_to_player(a, i) + count_to_player(b.drop_last(), i));
        }
    }
}

pub proof fn lemma_counts_single(e: AnimEvent)
    ensures
        forall|i: int| #[trigger] count_to_player(seq![e], i) == (if goes_to_player(e, i) { 1nat } else { 0nat }),
        count_to_dealer(seq![e]) == (if goes_to_dealer(e) { 1nat } else { 0nat }),
{
    reveal_with_fuel(count_to_player, 2);
    reveal_with_fuel(count_to_dealer, 2);
    assert(seq![e].drop_last() =~= Seq::<AnimEvent>::empty());
}

// ---------------------------------------------------------------------
// The invariant of the table.

impl GameModel {
    /// The hard points a hand holds and can still receive: every deal on
    /// its way counts as the most a card can add.
    pub open spec fn player_room(self, i: int) -> int {
        raw_sum(self.players[i].cards) + 10 * count_to_player(self.anim.pending(), i)
    }

    pub open spec fn dealer_room(self) -> int {
        raw_sum(self.dealer.cards) + 10 * count_to_dealer(self.anim.pending())
    }

    pub open spec fn hands_ok(self) -> bool {
        &&& forall|i: int| 0 <= i < self.players.len() ==> #[trigger] self.player_room(i) <= 31
        &&& forall|i: int| 0 <= i < self.players.len() ==>
            (#[trigger] self.players[i]).busted == (spec_totals(self.players[i].cards).0 > 21)
        &&& self.dealer_room() <= 31
    }

    /// What holds of every reachable table but the turn condition:
    /// one to four player hands, each with its wager and its settled flag;
    /// no hand can grow past 31 hard points, counting the cards on their
    /// way; a hand is busted exactly when its total passes 21; while dealing
    /// there is one hand that cannot bust; between rounds no animation is
    /// pending and the shoe holds at least its cut.
    pub open spec fn wf_core(self) -> bool {
        &&& 1 <= self.players.len() <= MAX_SPLIT_HANDS
        &&& self.wagers.len() == self.players.len()
        &&& self.settled_blackjack.len() == self.players.len()
        &&& self.active_hand <= self.players.len()
        &&& rules_ok(self.rules)
        &&& self.chips >= 0
        &&& self.bet >= MIN_BET
        &&& forall|i: int| 0 <= i < self.wagers.len() ==> #[trigger] self.wagers[i] >= 0
        &&& self.hands_ok()
        &&& (self.anim.active matches Some(a) ==> a.elapsed_ms < event_duration(a.event))
        &&& (self.phase == Phase::Dealing ==> self.players.len() == 1 && self.player_room(0) <= 21)
        &&& ((self.phase == Phase::Betting || self.phase == Phase::Shuffle) ==> !self.anim.busy())
        &&& (self.phase == Phase::Betting ==> self.shoe.cards.len() >= self.shoe.cut)
        &&& self.shoe.decks == NUM_DECKS
        &&& self.shoe.cut == 78
    }

    /// During the player's turn the active hand is not busted.
    pub open spec fn turn_ok(self) -> bool {
        self.phase == Phase::PlayerTurn && self.active_hand < self.players.len()
            ==> !self.players[self.active_hand as int].busted
    }

    /// The invariant of every reachable table.
    pub open spec fn wf(self) -> bool {
        self.wf_core() && self.turn_ok()
    }

    pub open spec fn total_wagers(self) -> int {
        sum_i64(self.wagers)
    }

    /// Money small enough that a round's arithmetic cannot overflow.
    pub open spec fn money_fits(self) -> bool {
        self.chips + self.total_wagers() + self.bet <= MONEY_LIMIT
    }
}

pub open spec fn sum_i64(s: Seq<i64>) -> int
    decreases s.len(),
{
    if s.len() == 0 { 0 } else { sum_i64(s.drop_last()) + s.last() }
}

// ---------------------------------------------------------------------
// The moves of the table.

pub open spec fn deal_event(card: Card, from: Vec2, to: Vec2, dest: DealDest) -> AnimEvent {
    AnimEvent::Deal { card, from, to, dest, duration_ms: DEAL_DURATION_MS }
}

/// A hand that can still act: neither stood nor busted.
pub open spec fn live(h: HandModel) -> bool {
    !h.stood && !h.busted
}

/// The first hand from `from` on that can still act, or the number of
/// hands when none can.
pub open spec fn next_live(players: Seq<HandModel>, from: int) -> int
    decreases players.len() - from,
{
    if 0 <= from < players.len() && !live(players[from]) {
        next_live(players, from + 1)
    } else {
        from
    }
}

/// What the payout pass has summed over the first hands.
pub struct Tally {
    pub chips: int,
    pub events: Seq<AnimEvent>,
    pub wins: nat,
    pub pushes: nat,
    pub losses: nat,
}

/// How a standing hand of `pt` fares against the dealer: 1 wins, 0 pushes,
/// -1 loses.
pub open spec fn hand_result(pt: int, dealer_total: int, dealer_bust: bool) -> int {
    if dealer_bust {
        1
    } else if pt > dealer_total {
        1
    } else if pt < dealer_total {
        -1
    } else {
        0
    }
}

/// Where the chip count of hand `i` floats up from.
pub open spec fn chip_anchor(l: Layout, i: int) -> Vec2 {
    Vec2 { x: spec_player_hand_rect(l, i).x, y: (spec_player_hand_rect(l, i).y - 1) as i32 }
}

/// The payout pass over the first `n` hands: a hand already paid as a
/// natural is skipped; a busted hand loses its wager; otherwise a win pays
/// twice the wager back (and flashes), a push returns it, a loss keeps it.
pub open spec fn payout_tally(m: GameModel, l: Layout, n: int) -> Tally
    decreases n,
{
    if n <= 0 {
        Tally { chips: m.chips as int, events: Seq::empty(), wins: 0, pushes: 0, losses: 0 }
    } else {
        let t = payout_tally(m, l, n - 1);
        let i = n - 1;
        let h = m.players[i];
        let pt = spec_totals(h.cards).0 as int;
        let w = m.wagers[i];
        let dealer_total = spec_totals(m.dealer.cards).0 as int;
        if m.settled_blackjack[i] {
            t
        } else if h.busted || pt > 21 {
            Tally { losses: t.losses + 1, ..t }
        } else {
            let r = hand_result(pt, dealer_total, dealer_total > 21);
            if r == 1 {
                Tally {
                    wins: t.wins + 1,
                    chips: t.chips + 2 * w,
                    events: t.events.push(AnimEvent::Flash { rect: spec_player_hand_rect(l, i), duration_ms: FLASH_DURATION_MS })
                        .push(AnimEvent::ChipDelta { amount: w, at: chip_anchor(l, i), duration_ms: CHIP_DURATION_MS }),
                    ..t
                }
            } else if r == 0 {
                Tally {
                    pushes: t.pushes + 1,
                    chips: t.chips + w,
                    events: t.events.push(AnimEvent::ChipDelta { amount: 0, at: chip_anchor(l, i), duration_ms: PUSH_CHIP_DURATION_MS }),
                    ..t
                }
            } else {
                Tally {
                    losses: t.losses + 1,
                    events: t.events.push(AnimEvent::ChipDelta { amount: (-w) as i64, at: chip_anchor(l, i), duration_ms: CHIP_DURATION_MS }),
                    ..t
                }
            }
        }
    }
}

impl GameModel {
    pub open spec fn with_message(self, msg: Seq<char>) -> GameModel {
        GameModel { message: msg, ..self }
    }

    /// Fresh hands for a new round, with the current bet as the one wager.
    pub open spec fn reset_round_hands(self) -> GameModel {
        GameModel {
            dealer: fresh_hand(),
            players: seq![fresh_hand()],
            wagers: seq![self.bet],
            settled_blackjack: seq![false],
            active_hand: 0,
            dealer_reveal: DealerReveal::Hidden,
            pending_stand_after_deal: None,
            pending_natural_resolution: false,
            ..self
        }
    }

    /// The card on top of the shoe: the last of its sequence.
    pub open spec fn top_card(self) -> Card {
        self.shoe.cards.last()
    }

    pub open spec fn drawn(self) -> GameModel {
        GameModel { shoe: ShoeModel { cards: self.shoe.cards.drop_last(), ..self.shoe }, ..self }
    }

    pub open spec fn appended(self, evs: Seq<AnimEvent>) -> GameModel {
        GameModel { anim: AnimModel { queue: self.anim.queue + evs, ..self.anim }, ..self }
    }

    pub open spec fn enqueued(self, e: AnimEvent) -> GameModel {
        GameModel { anim: self.anim.push(e), ..self }
    }

    /// Draws the top card and sends it to the next place of player hand `i`.
    pub open spec fn deal_to_player(self, i: int, l: Layout) -> GameModel {
        let to = spec_player_card_pos(l, i, self.players[i].cards.len() as int);
        self.drawn().enqueued(deal_event(self.top_card(), l.shoe, to, DealDest::Player { hand: i as usize }))
    }

    /// Draws the top card and sends it face up to the dealer's next place.
    pub open spec fn deal_to_dealer(self, l: Layout) -> GameModel {
        let to = spec_dealer_card_pos(l, self.dealer.cards.len() as int);
        self.drawn().enqueued(deal_event(self.top_card(), l.shoe, to, DealDest::DealerUp))
    }

    pub open spec fn flip_hole(self, l: Layout) -> GameModel {
        self.enqueued(AnimEvent::FlipHole { at: spec_dealer_card_pos(l, 1), duration_ms: FLIP_DURATION_MS })
    }

    /// Player, dealer up, player, dealer down: four cards off the top.
    pub open spec fn initial_deal(self, l: Layout) -> GameModel {
        let m1 = self.drawn().enqueued(
            deal_event(self.top_card(), l.shoe, spec_player_card_pos(l, 0, 0), DealDest::Player { hand: 0 }),
        );
        let m2 = m1.drawn().enqueued(
            deal_event(m1.top_card(), l.shoe, spec_dealer_card_pos(l, 0), DealDest::DealerUp),
        );
        let m3 = m2.drawn().enqueued(
            deal_event(m2.top_card(), l.shoe, spec_player_card_pos(l, 0, 1), DealDest::Player { hand: 0 }),
        );
        m3.drawn().enqueued(deal_event(m3.top_card(), l.shoe, spec_dealer_card_pos(l, 1), DealDest::DealerDown))
    }

    /// Takes the bet from the chips and deals, or refuses when the chips do
    /// not cover the bet.
    pub open spec fn start_round(self, l: Layout) -> GameModel {
        if self.bet > self.chips {
            self.with_message(msg_not_enough())
        } else {
            let m = self.reset_round_hands();
            GameModel {
                chips: (m.chips - m.bet) as i64,
                phase: Phase::Dealing,
                message: msg_dealing(),
                ..m
            }.initial_deal(l)
        }
    }

    /// Moves the turn past every hand that has stood or busted; with none
    /// left, the dealer plays.
    pub open spec fn progress(self) -> GameModel {
        let a = next_live(self.players, self.active_hand as int);
        GameModel {
            active_hand: a as usize,
            phase: if a >= self.players.len() { Phase::DealerTurn } else { self.phase },
            ..self
        }
    }

    pub open spec fn can_double(self, idx: int) -> bool {
        &&& self.phase == Phase::PlayerTurn
        &&& !self.anim.busy()
        &&& self.players[idx].cards.len() == 2
        &&& !self.players[idx].stood
        &&& !self.players[idx].busted
        &&& self.chips >= self.wagers[idx]
    }

    pub open spec fn can_split(self, idx: int) -> bool {
        &&& self.phase == Phase::PlayerTurn
        &&& !self.anim.busy()
        &&& self.players.len() < MAX_SPLIT_HANDS
        &&& self.players[idx].cards.len() == 2
        &&& self.chips >= self.wagers[idx]
        &&& self.players[idx].cards[0].rank == self.players[idx].cards[1].rank
    }

    /// The player's keys on the active hand: `h` hits, `s` stands, `d`
    /// doubles the wager for exactly one more card, `p` splits a pair into
    /// two hands with a wager each.
    pub open spec fn player_action(self, key: char, l: Layout) -> GameModel {
        let idx = self.active_hand as int;
        let n = (idx + 1) as nat;
        if self.phase != Phase::PlayerTurn || self.anim.busy() || idx >= self.players.len() {
            self
        } else if key == 'h' {
            self.deal_to_player(idx, l).with_message(msg_hit(n))
        } else if key == 's' {
            GameModel {
                players: self.players.update(idx, HandModel { stood: true, ..self.players[idx] }),
                message: msg_stand(n),
                ..self
            }.progress()
        } else if key == 'd' {
            if self.can_double(idx) {
                let add = self.wagers[idx];
                GameModel {
                    chips: (self.chips - add) as i64,
                    wagers: self.wagers.update(idx, (add + add) as i64),
                    players: self.players.update(idx, HandModel { doubled: true, ..self.players[idx] }),
                    pending_stand_after_deal: Some(idx as usize),
                    ..self
                }.deal_to_player(idx, l).with_message(msg_double(n))
            } else {
                self.with_message(msg_double_refused())
            }
        } else if key == 'p' {
            if self.can_split(idx) {
                let w = self.wagers[idx];
                let h = self.players[idx];
                let first = HandModel { cards: h.cards.drop_last(), ..h };
                let second = HandModel { cards: seq![h.cards.last()], ..fresh_hand() };
                GameModel {
                    chips: (self.chips - w) as i64,
                    players: self.players.update(idx, first).insert(idx + 1, second),
                    wagers: self.wagers.insert(idx + 1, w),
                    settled_blackjack: self.settled_blackjack.insert(idx + 1, false),
                    ..self
                }.deal_to_player(idx, l).deal_to_player(idx + 1, l).with_message(msg_split(n))
            } else {
                self.with_message(msg_split_refused())
            }
        } else {
            self
        }
    }

    /// After a card lands: a doubled hand stands (busted or not); otherwise
    /// the active hand's bust is noted, and a busted hand stands.
    pub open spec fn post_deal_checks(self) -> GameModel {
        match self.pending_stand_after_deal {
            Some(hi) => {
                let m = GameModel { pending_stand_after_deal: None, ..self };
                if (hi as int) < m.players.len() {
                    let h = m.players[hi as int];
                    GameModel {
                        players: m.players.update(
                            hi as int,
                            HandModel { busted: spec_totals(h.cards).0 > 21, stood: true, ..h },
                        ),
                        ..m
                    }.progress()
                } else {
                    m.progress()
                }
            },
            None => {
                if self.phase == Phase::PlayerTurn && (self.active_hand as int) < self.players.len() {
                    let i = self.active_hand as int;
                    let h = self.players[i];
                    if spec_totals(h.cards).0 > 21 {
                        GameModel {
                            players: self.players.update(i, HandModel { busted: true, stood: true, ..h }),
                            message: msg_busts((i + 1) as nat),
                            ..self
                        }.progress()
                    } else {
                        GameModel { players: self.players.update(i, HandModel { busted: false, ..h }), ..self }
                    }
                } else {
                    self
                }
            },
        }
    }

    pub open spec fn enter_payout(self) -> GameModel {
        GameModel { phase: Phase::Payout, payout_timer_ms: PAYOUT_DELAY_MS, ..self }
    }

    /// With the hole card shown: a dealer natural pushes the player's, and
    /// otherwise the natural is paid its bonus and settled.
    pub open spec fn resolve_natural_blackjack(self, l: Layout) -> GameModel {
        let m = GameModel { pending_natural_resolution: false, dealer_reveal: DealerReveal::Revealed, ..self };
        let w = m.wagers[0];
        if spec_is_blackjack(m.dealer.cards) {
            GameModel { chips: (m.chips + w) as i64, message: msg_push_both(), ..m }.enter_payout()
        } else {
            let bonus = (w * m.rules.blackjack_payout_num) / (m.rules.blackjack_payout_den as int);
            let rect = spec_player_hand_rect(l, 0);
            GameModel {
                chips: (m.chips + w + bonus) as i64,
                settled_blackjack: m.settled_blackjack.update(0, true),
                message: msg_blackjack_pays(),
                anim: m.anim.push(AnimEvent::Flash { rect, duration_ms: FLASH_DURATION_MS }).push(
                    AnimEvent::ChipDelta { amount: (w + bonus) as i64, at: chip_anchor(l, 0), duration_ms: CHIP_DURATION_MS },
                ),
                ..m
            }.enter_payout()
        }
    }

    /// Once the four cards are out: a player natural turns the hole card
    /// (and is resolved on the next call); otherwise the player's turn
    /// starts on the first hand.
    pub open spec fn on_dealing_finished(self, l: Layout) -> GameModel {
        if self.phase != Phase::Dealing {
            self
        } else if self.pending_natural_resolution {
            self.resolve_natural_blackjack(l)
        } else if spec_is_blackjack(self.players[0].cards) {
            GameModel { pending_natural_resolution: true, ..self }.flip_hole(l).with_message(msg_natural_check())
        } else {
            GameModel { phase: Phase::PlayerTurn, active_hand: 0, message: msg_player_turn(), ..self }
        }
    }

    pub open spec fn start_dealer_turn(self, l: Layout) -> GameModel {
        let m = GameModel { phase: Phase::DealerTurn, ..self };
        if m.dealer.cards.len() < 2 {
            m
        } else if m.dealer_reveal == DealerReveal::Hidden {
            m.flip_hole(l).with_message(msg_dealer_turn())
        } else {
            m.with_message(msg_dealer_turn())
        }
    }

    /// Every wager still standing is settled against the dealer's total.
    pub open spec fn resolve_standard_payout(self, l: Layout) -> GameModel {
        let t = payout_tally(self, l, self.players.len() as int);
        GameModel { chips: t.chips as i64, message: msg_payout(t.wins, t.pushes, t.losses), ..self }.appended(t.events)
    }

    /// The dealer draws below 17, and on a soft 17 when the rules say so;
    /// otherwise the round is paid.
    pub open spec fn update_dealer_policy(self, l: Layout) -> GameModel {
        if self.phase != Phase::DealerTurn || self.anim.busy() {
            self
        } else {
            let m = GameModel { dealer_reveal: DealerReveal::Revealed, ..self };
            let (tot, soft) = spec_totals(m.dealer.cards);
            let hit = if tot < 17 { true } else { tot == 17 && soft && m.rules.dealer_hits_soft_17 };
            if hit {
                m.deal_to_dealer(l).with_message(msg_dealer_hits())
            } else {
                m.resolve_standard_payout(l).enter_payout()
            }
        }
    }

    /// After the payout pause: a shoe past its cut goes to be shuffled;
    /// otherwise betting opens, the bet capped by the chips (but never below
    /// the minimum), and an empty bankroll is refilled.
    pub open spec fn finish_round(self) -> GameModel {
        if self.shoe.cards.len() < self.shoe.cut {
            GameModel { phase: Phase::Shuffle, message: msg_shuffling(), payout_timer_ms: SHUFFLE_DELAY_MS, ..self }
        } else {
            let cap = if self.chips > MIN_BET { self.chips } else { MIN_BET };
            let bet = if self.bet < cap { self.bet } else { cap };
            if self.chips <= 0 {
                GameModel { phase: Phase::Betting, bet, chips: STARTING_CHIPS, message: msg_bankroll_reset(), ..self }
            } else {
                GameModel { phase: Phase::Betting, bet, message: msg_adjust_bet(), ..self }
            }
        }
    }
}

pub open spec fn sat_add_u64(a: u64, b: u64) -> u64 {
    if a + b > u64::MAX { u64::MAX } else { (a + b) as u64 }
}

impl GameModel {
    /// A finished event takes effect: a dealt card joins its hand, and a
    /// player hand notes whether it busts; the hole card shows.
    pub open spec fn apply_event_commit(self, e: AnimEvent) -> GameModel {
        match e {
            AnimEvent::Deal { card, dest, .. } => match dest {
                DealDest::Player { hand } => {
                    if (hand as int) < self.players.len() {
                        let h = self.players[hand as int];
                        let cards = h.cards.push(card);
                        GameModel {
                            players: self.players.update(
                                hand as int,
                                HandModel { cards, busted: spec_totals(cards).0 > 21, ..h },
                            ),
                            ..self
                        }
                    } else {
                        self
                    }
                },
                _ => GameModel { dealer: HandModel { cards: self.dealer.cards.push(card), ..self.dealer }, ..self },
            },
            AnimEvent::FlipHole { .. } => GameModel { dealer_reveal: DealerReveal::Revealed, ..self },
            _ => self,
        }
    }

    /// The clock moves by `dt`, and an idle animation takes the next
    /// queued event.
    pub open spec fn anim_started(self, dt: u32) -> AnimModel {
        let a0 = AnimModel { now_ms: sat_add_u64(self.anim.now_ms, dt as u64), ..self.anim };
        if a0.active is None && a0.queue.len() > 0 {
            AnimModel { active: Some(ActiveAnim { event: a0.queue[0], elapsed_ms: 0 }), queue: a0.queue.drop_first(), ..a0 }
        } else {
            a0
        }
    }

    /// Whether the active event runs out within `dt`.
    pub open spec fn advance_finishes(self, dt: u32) -> bool {
        match self.anim_started(dt).active {
            Some(act) => act.elapsed_ms + dt >= event_duration(act.event),
            None => false,
        }
    }

    /// The event that runs out within `dt`, when one does.
    pub open spec fn finishing_event(self, dt: u32) -> AnimEvent {
        self.anim_started(dt).active->0.event
    }

    /// A card dealt to a player hand finds it with at most 21 hard points.
    pub open spec fn commit_fits(self, e: AnimEvent) -> bool {
        match e {
            AnimEvent::Deal { dest, .. } => match dest {
                DealDest::Player { hand } => (hand as int) < self.players.len() ==> raw_sum(self.players[hand as int].cards) <= 21,
                _ => true,
            },
            _ => true,
        }
    }

    /// The table once the finishing event has left the animation.
    pub open spec fn before_commit(self, dt: u32) -> GameModel {
        GameModel { anim: AnimModel { active: None, ..self.anim_started(dt) }, ..self }
    }

    /// The clock moves by `dt`; an idle animation takes the next queued
    /// event; the active event ages by `dt` and, once its duration has
    /// passed, takes effect and is followed by the deal checks.
    pub open spec fn advance_animations(self, dt: u32) -> GameModel {
        let a1 = self.anim_started(dt);
        match a1.active {
            Some(act) => {
                if self.advance_finishes(dt) {
                    self.before_commit(dt).apply_event_commit(act.event).post_deal_checks()
                } else {
                    GameModel {
                        anim: AnimModel { active: Some(ActiveAnim { elapsed_ms: (act.elapsed_ms + dt) as u64, ..act }), ..a1 },
                        ..self
                    }
                }
            },
            None => GameModel { anim: a1, ..self },
        }
    }

    /// The bet moves by `delta`, kept between the minimum and the chips
    /// (or the minimum, when the chips are fewer).
    pub open spec fn adjust_bet(self, delta: i64) -> GameModel {
        let max_bet = if self.chips > MIN_BET { self.chips } else { MIN_BET };
        let b = self.bet + delta;
        GameModel { bet: (if b < MIN_BET { MIN_BET as int } else if b > max_bet { max_bet as int } else { b }) as i64, ..self }
    }

    /// A pressed key other than `q` and `r`: while betting, the arrows (or
    /// `-` and `+`) move the bet and Enter deals; during the player's turn,
    /// with no animation running, letters act on the active hand.
    pub open spec fn key_effect(self, key: KeyEvent, l: Layout) -> GameModel {
        if self.phase == Phase::Betting {
            match key.code {
                KeyCode::Left => self.adjust_bet(-10i64),
                KeyCode::Char(c) => if c == '-' {
                    self.adjust_bet(-10i64)
                } else if c == '+' {
                    self.adjust_bet(BET_STEP)
                } else {
                    self
                },
                KeyCode::Right => self.adjust_bet(BET_STEP),
                KeyCode::Enter => self.start_round(l),
                KeyCode::Other => self,
            }
        } else if self.anim.busy() {
            self
        } else if self.phase == Phase::PlayerTurn {
            match key.code {
                KeyCode::Char(c) => self.player_action(ascii_lower(c), l),
                _ => self,
            }
        } else {
            self
        }
    }

    /// The frame's step, clamped to 50 ms.
    pub open spec fn clamp_dt(dt: u32) -> u32 {
        if dt < DT_CLAMP_MS { dt } else { DT_CLAMP_MS }
    }

    /// The first part of a frame: animations advance, and finished dealing
    /// opens the player's turn.
    pub open spec fn frame_dealt(self, dt: u32, l: Layout) -> GameModel {
        let m1 = self.advance_animations(Self::clamp_dt(dt));
        if m1.phase == Phase::Dealing && !m1.anim.busy() { m1.on_dealing_finished(l) } else { m1 }
    }

    /// The table the dealer's policy sees: the hole card is turned first
    /// when it is still hidden and nothing moves.
    pub open spec fn dealer_sees(self, l: Layout) -> GameModel {
        if self.dealer_reveal == DealerReveal::Hidden && !self.anim.busy() { self.start_dealer_turn(l) } else { self }
    }

    pub open spec fn frame_dealer_sees(self, dt: u32, l: Layout) -> GameModel {
        self.frame_dealt(dt, l).dealer_sees(l)
    }

    /// During the dealer's turn, the dealer sees the table and plays.
    pub open spec fn dealer_step(self, l: Layout) -> GameModel {
        if self.phase == Phase::DealerTurn { self.dealer_sees(l).update_dealer_policy(l) } else { self }
    }

    /// During the payout, the pause runs down by `d`; once over, with
    /// nothing moving, the round ends.
    pub open spec fn payout_step(self, d: u32) -> GameModel {
        if self.phase == Phase::Payout {
            let t = if self.payout_timer_ms > 0 {
                GameModel { payout_timer_ms: (self.payout_timer_ms - d) as i64, ..self }
            } else {
                self
            };
            if t.payout_timer_ms <= 0 && !t.anim.busy() { t.finish_round() } else { t }
        } else {
            self
        }
    }

    /// While shuffling, the pause runs down by `d`.
    pub open spec fn shuffle_timer_step(self, d: u32) -> GameModel {
        if self.phase == Phase::Shuffle && self.payout_timer_ms > 0 {
            GameModel { payout_timer_ms: (self.payout_timer_ms - d) as i64, ..self }
        } else {
            self
        }
    }

    /// One frame of the table up to the shuffle: animations advance by
    /// `dt` (at most 50 ms); finished dealing opens the player's turn; the
    /// dealer turns the hole card and plays; the payout pause runs out and
    /// the round ends; the shuffle pause runs down.
    pub open spec fn frame_before_shuffle(self, dt: u32, l: Layout) -> GameModel {
        let d = Self::clamp_dt(dt);
        self.frame_dealt(dt, l).dealer_step(l).payout_step(d).shuffle_timer_step(d)
    }

    /// How many cards a frame draws: one when the dealer hits.
    pub open spec fn frame_draws(self, dt: u32, l: Layout) -> int {
        let a = self.frame_dealer_sees(dt, l);
        if self.frame_dealt(dt, l).phase == Phase::DealerTurn && a.phase == Phase::DealerTurn && !a.anim.busy() {
            let (tot, soft) = spec_totals(a.dealer.cards);
            if tot < 17 || (tot == 17 && soft && a.rules.dealer_hits_soft_17) { 1 } else { 0 }
        } else {
            0
        }
    }

    /// Whether the shuffle pause is over in this state.
    pub open spec fn shuffle_due(self) -> bool {
        self.phase == Phase::Shuffle && self.payout_timer_ms <= 0
    }
}

} // verus!
