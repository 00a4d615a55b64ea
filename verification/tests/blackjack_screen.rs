use terminal_toys::blackjack::cards::{Card, Rank, Suit};
use terminal_toys::blackjack::game::GameState;
use terminal_toys::blackjack::overlay::{overlay_fits, render_anim_overlays};
use terminal_toys::blackjack::render::{draw_card_sprite, render_game};
use terminal_toys::blackjack::screen::{Cell, Color, FrameBuffer};
use terminal_toys::blackjack::table::{ActiveAnim, AnimEvent, DealDest, Layout, Rect, Vec2};

fn text_at(fb: &FrameBuffer, x: usize, y: usize, n: usize) -> String {
    (0..n).map(|i| fb.cells[y * fb.w as usize + x + i].ch).collect()
}

fn cell(fb: &FrameBuffer, x: usize, y: usize) -> Cell {
    fb.cells[y * fb.w as usize + x]
}

fn overlay(fb: &mut FrameBuffer, event: AnimEvent, elapsed_ms: u64) {
    let active = Some(ActiveAnim { event, elapsed_ms });
    assert!(overlay_fits(&active));
    render_anim_overlays(fb, &active, Color::DarkGreen);
}

#[test]
fn a_fresh_table_is_drawn() {
    let mut fb = FrameBuffer::new(80, 24);
    let gs = GameState::new(1);
    let layout = Layout::compute(80, 24);
    render_game(&mut fb, &gs, layout);
    assert_eq!(text_at(&fb, 68, 2, 9), "BLACKJACK");
    assert_eq!(text_at(&fb, 4, 9, 4), "SHOE");
    assert_eq!(cell(&fb, 4, 10).ch, '\u{250C}');
    assert_eq!(cell(&fb, 5, 11), Cell { ch: '\u{2593}', fg: Color::Blue, bg: Color::DarkGreen });
    assert_eq!(text_at(&fb, 15, 3, 6), "Dealer");
    assert_eq!(text_at(&fb, 15, 6, 3), "...");
    assert_eq!(text_at(&fb, 15, 12, 6), "Player");
    assert_eq!(text_at(&fb, 15, 19, 5), "H1: 0");
    assert_eq!(text_at(&fb, 3, 20, 5), "CHIPS");
    assert_eq!(text_at(&fb, 9, 20, 3), "500");
    assert_eq!(text_at(&fb, 15, 20, 3), "BET");
    assert_eq!(text_at(&fb, 19, 20, 2), "10");
    assert_eq!(text_at(&fb, 3, 21, 5), "PHASE");
    assert_eq!(text_at(&fb, 9, 21, 7), "Betting");
    assert_eq!(cell(&fb, 9, 21).fg, Color::Cyan);
    assert_eq!(text_at(&fb, 3, 22, 34), "Adjust bet and press Enter to deal");
    assert_eq!(cell(&fb, 40, 21).ch, '\u{2502}');
    assert_eq!(text_at(&fb, 42, 20, 8), "CONTROLS");
    assert_eq!(text_at(&fb, 46, 21, 9), "<- -> +/-");
    assert_eq!(text_at(&fb, 62, 21, 5), "Enter");
    assert_eq!(text_at(&fb, 47, 22, 16), "r reset   q quit");
    assert_eq!(cell(&fb, 30, 8).bg, Color::DarkGreen);
    assert_eq!(cell(&fb, 30, 21).bg, Color::Black);
    assert_eq!(cell(&fb, 0, 0).ch, ' ');
}

#[test]
fn a_card_face_shows_rank_and_suit() {
    let mut fb = FrameBuffer::new(20, 8);
    let c = Card { rank: Rank::Ten, suit: Suit::Hearts };
    draw_card_sprite(&mut fb, Vec2 { x: 1, y: 1 }, Some(c), false, true, None, Color::DarkGreen);
    assert_eq!(cell(&fb, 1, 1), Cell { ch: '\u{250C}', fg: Color::Yellow, bg: Color::DarkGreen });
    assert_eq!(cell(&fb, 9, 5).ch, '\u{2518}');
    assert_eq!(text_at(&fb, 2, 2, 2), "10");
    assert_eq!(cell(&fb, 2, 2).fg, Color::Red);
    assert_eq!(cell(&fb, 5, 3).ch, '\u{2665}');
    assert_eq!(text_at(&fb, 6, 4, 2), "10");
    assert_eq!(cell(&fb, 4, 4).ch, ' ');
}

#[test]
fn a_dealt_card_slides_from_the_shoe() {
    let card = Card { rank: Rank::A, suit: Suit::Spades };
    let deal = AnimEvent::Deal {
        card,
        from: Vec2 { x: 0, y: 0 },
        to: Vec2 { x: 20, y: 6 },
        dest: DealDest::DealerUp,
        duration_ms: 280,
    };
    let mut fb = FrameBuffer::new(40, 16);
    overlay(&mut fb, deal, 140);
    assert_eq!(cell(&fb, 10, 3).ch, '\u{250C}');
    assert_eq!(cell(&fb, 11, 4).ch, 'A');
    let mut fb = FrameBuffer::new(40, 16);
    overlay(&mut fb, deal, 70);
    assert_eq!(cell(&fb, 5, 2).ch, '\u{250C}');
    let mut fb = FrameBuffer::new(40, 16);
    overlay(&mut fb, deal, 10_000);
    assert_eq!(cell(&fb, 20, 6).ch, '\u{250C}');
}

#[test]
fn the_hole_card_turns_edge_on() {
    let flip = |e: u64| {
        let mut fb = FrameBuffer::new(30, 10);
        overlay(&mut fb, AnimEvent::FlipHole { at: Vec2 { x: 10, y: 2 }, duration_ms: 300 }, e);
        fb
    };
    let fb = flip(0);
    assert_eq!(cell(&fb, 10, 2).ch, '\u{250C}');
    assert_eq!(cell(&fb, 11, 3).ch, '\u{2593}');
    let fb = flip(150);
    assert_eq!(cell(&fb, 14, 2).ch, '\u{253C}');
    assert_eq!(cell(&fb, 14, 3).ch, '\u{2502}');
    assert_eq!(cell(&fb, 14, 6).ch, '\u{253C}');
    assert_eq!(cell(&fb, 13, 2).ch, ' ');
    assert_eq!(cell(&fb, 15, 2).ch, ' ');
    let fb = flip(100);
    assert_eq!(text_at(&fb, 13, 2, 3), "\u{253C}\u{2500}\u{253C}");
    assert_eq!(text_at(&fb, 13, 4, 3), "\u{2502} \u{2502}");
    let fb = flip(250);
    assert_eq!(cell(&fb, 11, 2).ch, '\u{253C}');
    assert_eq!(cell(&fb, 12, 2).ch, '\u{2500}');
    assert_eq!(cell(&fb, 16, 2).ch, '\u{253C}');
    assert_eq!(cell(&fb, 10, 2).ch, ' ');
}

#[test]
fn a_winning_hand_flashes() {
    let rect = Rect { x: 1, y: 1, w: 6, h: 4 };
    let mut fb = FrameBuffer::new(20, 8);
    overlay(&mut fb, AnimEvent::Flash { rect, duration_ms: 1500 }, 0);
    assert_eq!(cell(&fb, 1, 1), Cell { ch: '\u{250C}', fg: Color::Yellow, bg: Color::DarkGreen });
    assert_eq!(cell(&fb, 6, 4).ch, '\u{2518}');
    let mut fb = FrameBuffer::new(20, 8);
    overlay(&mut fb, AnimEvent::Flash { rect, duration_ms: 1500 }, 200);
    assert_eq!(cell(&fb, 1, 1).ch, ' ');
    let mut fb = FrameBuffer::new(20, 8);
    overlay(&mut fb, AnimEvent::Flash { rect, duration_ms: 1500 }, 400);
    assert_eq!(cell(&fb, 1, 1).ch, '\u{250C}');
}

#[test]
fn payouts_rise_above_the_hand() {
    let chip = |amount: i64, e: u64| {
        let mut fb = FrameBuffer::new(20, 8);
        overlay(&mut fb, AnimEvent::ChipDelta { amount, at: Vec2 { x: 5, y: 6 }, duration_ms: 1000 }, e);
        fb
    };
    let fb = chip(25, 400);
    assert_eq!(text_at(&fb, 5, 6, 3), "+25");
    assert_eq!(cell(&fb, 5, 6).fg, Color::Green);
    let fb = chip(25, 600);
    assert_eq!(text_at(&fb, 5, 5, 3), "+25");
    assert_eq!(text_at(&fb, 5, 6, 3), "   ");
    let fb = chip(-30, 100);
    assert_eq!(text_at(&fb, 5, 6, 3), "-30");
    assert_eq!(cell(&fb, 5, 6).fg, Color::Red);
    let fb = chip(0, 0);
    assert_eq!(text_at(&fb, 5, 6, 4), "PUSH");
    assert_eq!(cell(&fb, 5, 6).fg, Color::White);
    let fb = chip(7, 5000);
    assert_eq!(text_at(&fb, 5, 4, 2), "+7");
}

#[test]
fn nothing_in_flight_draws_nothing() {
    let mut fb = FrameBuffer::new(10, 4);
    let before = fb.cells.clone();
    render_anim_overlays(&mut fb, &None, Color::DarkGreen);
    assert_eq!(fb.cells, before);
    let zero = Some(ActiveAnim { event: AnimEvent::Flash { rect: Rect { x: 0, y: 0, w: 2, h: 2 }, duration_ms: 0 }, elapsed_ms: 0 });
    assert!(!overlay_fits(&zero));
}
