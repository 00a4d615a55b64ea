use rand::SeedableRng;
use rand_chacha::ChaCha8Rng;
use terminal_toys::blackjack::cards::{card_value, is_blackjack, rank_str, suit_glyph, totals, Card, Hand, Rank, Shoe, Suit, NUM_DECKS};
use terminal_toys::blackjack::game::{adjust_bet, advance_animations, apply_event_commit, frame, handle_key, GameState};
use terminal_toys::blackjack::model::{MIN_BET, STARTING_CHIPS};
use terminal_toys::blackjack::table::{
    AnimEvent, DealDest, DealerReveal, KeyCode, KeyEvent, KeyEventKind, Layout, Phase, Vec2,
};
use terminal_toys::blackjack::text::u64_text;

fn card(rank: Rank, suit: Suit) -> Card {
    Card { rank, suit }
}

fn hand_of(cards: &[Card]) -> Hand {
    let mut h = Hand::new();
    for c in cards {
        h.cards.push(*c);
    }
    h
}

fn press(code: KeyCode) -> KeyEvent {
    KeyEvent { code, kind: KeyEventKind::Press }
}

#[test]
fn deterministic_first_20_cards() {
    let mut rng1 = ChaCha8Rng::seed_from_u64(123);
    let mut rng2 = ChaCha8Rng::seed_from_u64(123);
    let mut s1 = Shoe::new(NUM_DECKS, &mut rng1);
    let mut s2 = Shoe::new(NUM_DECKS, &mut rng2);
    let a: Vec<Card> = (0..20).map(|_| s1.draw()).collect();
    let b: Vec<Card> = (0..20).map(|_| s2.draw()).collect();
    assert_eq!(a, b);
}

#[test]
fn blackjack_detection() {
    let mut hand = Hand::new();
    hand.cards.push(Card {
        rank: Rank::A,
        suit: Suit::Spades,
    });
    hand.cards.push(Card {
        rank: Rank::K,
        suit: Suit::Hearts,
    });
    assert!(hand.is_blackjack());
}

#[test]
fn soft_total() {
    let mut hand = Hand::new();
    hand.cards.push(Card {
        rank: Rank::A,
        suit: Suit::Spades,
    });
    hand.cards.push(Card {
        rank: Rank::Six,
        suit: Suit::Hearts,
    });
    assert_eq!(hand.totals(), (17, true));
}

#[test]
fn totals_count_one_ace_as_eleven_at_most() {
    let h = hand_of(&[card(Rank::A, Suit::Spades), card(Rank::A, Suit::Hearts), card(Rank::Nine, Suit::Clubs)]);
    assert_eq!(totals(&h), (21, true));
    let h = hand_of(&[card(Rank::A, Suit::Spades), card(Rank::A, Suit::Hearts), card(Rank::K, Suit::Clubs)]);
    assert_eq!(totals(&h), (12, false));
    let h = hand_of(&[card(Rank::K, Suit::Spades), card(Rank::Q, Suit::Hearts), card(Rank::Two, Suit::Clubs)]);
    assert_eq!(totals(&h), (22, false));
    assert_eq!(totals(&Hand::new()), (0, false));
}

#[test]
fn naturals_need_exactly_two_cards() {
    let h = hand_of(&[card(Rank::Ten, Suit::Spades), card(Rank::A, Suit::Diamonds)]);
    assert!(is_blackjack(&h));
    let h = hand_of(&[card(Rank::Seven, Suit::Spades), card(Rank::Seven, Suit::Diamonds), card(Rank::Seven, Suit::Clubs)]);
    assert!(!is_blackjack(&h));
    let h = hand_of(&[card(Rank::K, Suit::Spades), card(Rank::Q, Suit::Diamonds)]);
    assert!(!is_blackjack(&h));
    let many: Vec<Card> = (0..40).map(|_| card(Rank::K, Suit::Clubs)).collect();
    assert!(!is_blackjack(&hand_of(&many)));
}

#[test]
fn card_faces() {
    assert_eq!(card_value(Rank::A), 1);
    assert_eq!(card_value(Rank::Nine), 9);
    assert_eq!(card_value(Rank::J), 10);
    assert_eq!(rank_str(Rank::Ten), "10");
    assert_eq!(rank_str(Rank::Q), "Q");
    assert_eq!(suit_glyph(Suit::Hearts), '♥');
    assert_eq!(suit_glyph(Suit::Spades), '♠');
}

#[test]
fn fresh_shoe_has_six_decks_and_a_quarter_cut() {
    let mut rng = ChaCha8Rng::seed_from_u64(7);
    let mut shoe = Shoe::new(NUM_DECKS, &mut rng);
    assert_eq!(shoe.cards.len(), 312);
    assert_eq!(shoe.cut, 78);
    assert!(!shoe.needs_shuffle());
    let aces = shoe.cards.iter().filter(|c| c.rank == Rank::A && c.suit == Suit::Spades).count();
    assert_eq!(aces, 6);
    for _ in 0..235 {
        shoe.draw();
    }
    assert!(shoe.needs_shuffle());
}

#[test]
fn decimal_text() {
    assert_eq!(u64_text(0), "0");
    assert_eq!(u64_text(7), "7");
    assert_eq!(u64_text(1234567890), "1234567890");
}

#[test]
fn layout_of_an_80_by_24_terminal() {
    let l = Layout::compute(80, 24);
    assert_eq!(l.table.w, 78);
    assert_eq!(l.table.h, 22);
    assert_eq!(l.table.x, 1);
    assert_eq!(l.table.y, 1);
    assert_eq!(l.shoe, Vec2 { x: 4, y: 10 });
    assert_eq!(l.dealer_origin, Vec2 { x: 15, y: 4 });
    assert_eq!(l.player_origin, Vec2 { x: 15, y: 13 });
    assert_eq!(l.bar_y, 21);
    assert_eq!(l.player_card_pos(1, 2), Vec2 { x: 50, y: 13 });
    assert_eq!(l.dealer_card_pos(3), Vec2 { x: 21, y: 4 });
    let tiny = Layout::compute(10, 5);
    assert_eq!(tiny.table.w, 32);
    assert_eq!(tiny.table.h, 18);
    assert_eq!(tiny.table.x, -11);
    assert_eq!(tiny.table.y, -6);
}

#[test]
fn new_table_opens_for_betting() {
    let gs = GameState::new(1);
    assert_eq!(gs.phase, Phase::Betting);
    assert_eq!(gs.chips, STARTING_CHIPS);
    assert_eq!(gs.bet, MIN_BET);
    assert_eq!(gs.message, "Adjust bet and press Enter to deal");
    assert_eq!(gs.shoe.cards.len(), 312);
}

#[test]
fn bet_moves_in_steps_and_stays_in_range() {
    let mut gs = GameState::new(1);
    adjust_bet(&mut gs, -10);
    assert_eq!(gs.bet, MIN_BET);
    for _ in 0..100 {
        adjust_bet(&mut gs, 10);
    }
    assert_eq!(gs.bet, 500);
    gs.chips = 3;
    adjust_bet(&mut gs, 10);
    assert_eq!(gs.bet, MIN_BET);
}

#[test]
fn enter_deals_four_cards_and_stakes_the_bet() {
    let mut gs = GameState::new(3);
    let layout = Layout::compute(100, 30);
    let mut running = true;
    let before: Vec<Card> = gs.shoe.cards.clone();
    handle_key(&mut gs, press(KeyCode::Enter), layout, 3, &mut running);
    assert!(running);
    assert_eq!(gs.phase, Phase::Dealing);
    assert_eq!(gs.chips, STARTING_CHIPS - MIN_BET);
    assert_eq!(gs.wagers, vec![MIN_BET]);
    assert_eq!(gs.message, "Dealing...");
    assert_eq!(gs.anim.queue.len(), 4);
    assert_eq!(gs.shoe.cards.len(), 308);
    let top = before.len() - 1;
    match gs.anim.queue[0] {
        AnimEvent::Deal { card, dest, duration_ms, .. } => {
            assert_eq!(card, before[top]);
            assert_eq!(dest, DealDest::Player { hand: 0 });
            assert_eq!(duration_ms, 280);
        }
        _ => panic!("expected a deal"),
    }
    match gs.anim.queue[3] {
        AnimEvent::Deal { card, dest, .. } => {
            assert_eq!(card, before[top - 3]);
            assert_eq!(dest, DealDest::DealerDown);
        }
        _ => panic!("expected a deal"),
    }
}

#[test]
fn a_round_plays_to_its_end() {
    let mut gs = GameState::new(11);
    let layout = Layout::compute(100, 30);
    let mut running = true;
    handle_key(&mut gs, press(KeyCode::Enter), layout, 11, &mut running);
    let mut frames = 0;
    while gs.phase != Phase::Betting && frames < 5000 {
        if gs.phase == Phase::PlayerTurn && !gs.anim.is_busy() {
            handle_key(&mut gs, press(KeyCode::Char('S')), layout, 11, &mut running);
        }
        frame(&mut gs, 16, layout);
        frames += 1;
    }
    assert_eq!(gs.phase, Phase::Betting);
    assert!(gs.dealer.cards.len() >= 2);
    assert_eq!(gs.players[0].cards.len(), 2);
    let total = gs.chips;
    assert!(total == STARTING_CHIPS - MIN_BET || total == STARTING_CHIPS || total == STARTING_CHIPS + MIN_BET
        || total == STARTING_CHIPS - MIN_BET + MIN_BET + MIN_BET * 3 / 2);
}

#[test]
fn q_stops_and_r_resets() {
    let mut gs = GameState::new(5);
    let layout = Layout::compute(100, 30);
    let mut running = true;
    adjust_bet(&mut gs, 10);
    handle_key(&mut gs, KeyEvent { code: KeyCode::Char('q'), kind: KeyEventKind::Release }, layout, 5, &mut running);
    assert!(running);
    handle_key(&mut gs, press(KeyCode::Char('r')), layout, 5, &mut running);
    assert_eq!(gs.bet, MIN_BET);
    handle_key(&mut gs, press(KeyCode::Char('q')), layout, 5, &mut running);
    assert!(!running);
}

#[test]
fn committed_deal_lands_and_flip_reveals() {
    let mut gs = GameState::new(9);
    let k = card(Rank::K, Suit::Clubs);
    apply_event_commit(&mut gs, AnimEvent::Deal {
        card: k,
        from: Vec2 { x: 0, y: 0 },
        to: Vec2 { x: 0, y: 0 },
        dest: DealDest::Player { hand: 0 },
        duration_ms: 280,
    });
    assert_eq!(gs.players[0].cards, vec![k]);
    assert!(!gs.players[0].busted);
    apply_event_commit(&mut gs, AnimEvent::FlipHole { at: Vec2 { x: 0, y: 0 }, duration_ms: 300 });
    assert!(matches!(gs.dealer_reveal, DealerReveal::Revealed));
}

#[test]
fn animations_finish_after_their_duration() {
    let mut gs = GameState::new(2);
    let layout = Layout::compute(100, 30);
    gs.start_round(layout);
    advance_animations(&mut gs, 100);
    assert!(gs.anim.active.is_some());
    assert_eq!(gs.anim.queue.len(), 3);
    assert_eq!(gs.players[0].cards.len(), 0);
    advance_animations(&mut gs, 180);
    assert!(gs.anim.active.is_none());
    assert_eq!(gs.players[0].cards.len(), 1);
}

#[test]
fn not_enough_chips_refuses_the_deal() {
    let mut gs = GameState::new(4);
    let layout = Layout::compute(100, 30);
    gs.chips = 5;
    gs.start_round(layout);
    assert_eq!(gs.phase, Phase::Betting);
    assert_eq!(gs.message, "Not enough chips");
    assert_eq!(gs.chips, 5);
}
