//! Drawing the table into a frame: the felt, the shoe, the hands with
//! their totals and wagers, the status bar, and the animation in flight.

use vstd::prelude::*;
use crate::blackjack::cards::{
    Card, Hand, Suit, card_value, lemma_counts_bounds, lemma_rank_text_len, rank_str, rank_text, spec_totals, suit_glyph,
    suit_symbol, value,
};
use crate::blackjack::game::{GameState, spec_hand_label};
use crate::blackjack::keeps::lemma_small_hand;
use crate::blackjack::model::GameModel;
use crate::blackjack::screen::{Cell, Color, FrameBuffer, coord_ok, put, put_block, put_border, put_row, put_run, put_text};
use crate::blackjack::table::{
    ActiveAnim, AnimEvent, DealerReveal, Layout, Phase, Rect, Vec2, half_toward_zero, layout_ok, spec_dealer_card_pos,
    spec_player_card_pos, CARD_H, CARD_W, CARD_GAP_X,
};
use crate::blackjack::overlay::{overlay_drawn, overlay_ok, render_anim_overlays};
use crate::blackjack::text::{decimal, lemma_u64_decimal_len, push_decimal, push_signed_decimal, signed_decimal};

verus! {

/// The three shades of a card's back, in their repeating order.
pub open spec fn back_shade(k: int) -> char {
    let m = k % 4;
    if m == 0 {
        '\u{2591}'
    } else if m == 1 {
        '\u{2592}'
    } else if m == 2 {
        '\u{2593}'
    } else {
        '\u{2592}'
    }
}

/// Hearts and diamonds are red, spades and clubs white.
pub open spec fn suit_color(s: Suit) -> Color {
    match s {
        Suit::Hearts | Suit::Diamonds => Color::Red,
        _ => Color::White,
    }
}

/// A card seen edge-on, `width` columns wide: crosses at the corners,
/// lines along the top and bottom, bars down the sides.
pub open spec fn thin_cell(dx: int, dy: int, width: int) -> char {
    let side = dx == 0 || dx == width - 1;
    if dy == 0 || dy == 4 {
        if side { '\u{253C}' } else { '\u{2500}' }
    } else {
        if side { '\u{2502}' } else { ' ' }
    }
}

/// A card's blank face.
pub open spec fn blank_face(bg: Color) -> spec_fn(int, int) -> Cell {
    |dx: int, dy: int| Cell { ch: ' ', fg: Color::White, bg }
}

/// A card's shaded back, the shade running diagonally.
pub open spec fn back_face(bg: Color) -> spec_fn(int, int) -> Cell {
    |dx: int, dy: int| Cell { ch: back_shade(dx + dy + 2), fg: Color::Blue, bg }
}

/// A card seen edge-on.
pub open spec fn edge_face(width: int, fg: Color, bg: Color) -> spec_fn(int, int) -> Cell {
    |dx: int, dy: int| Cell { ch: thin_cell(dx, dy, width), fg, bg }
}

/// The width a card is drawn at: nine columns, or the given width, at
/// least one.
pub open spec fn sprite_width(thin_width: Option<i32>) -> int {
    let t = match thin_width {
        Some(v) => v as int,
        None => 9,
    };
    if t > 1 { t } else { 1 }
}

/// A card at `pos`: full width, a box with a blank face, then either the
/// shaded back, or the rank top left and bottom right with the suit in the
/// middle (coloured by suit); narrower, the edge-on card centred on the
/// same place. A highlighted card has a yellow outline.
pub open spec fn card_sprite(
    cells: Seq<Cell>,
    w: int,
    h: int,
    pos: Vec2,
    card: Option<Card>,
    face_down: bool,
    highlight: bool,
    thin_width: Option<i32>,
    bg: Color,
) -> Seq<Cell> {
    let width = sprite_width(thin_width);
    let fg = if highlight { Color::Yellow } else { Color::White };
    if width == 9 {
        let c1 = put_border(cells, w, h, Rect { x: pos.x, y: pos.y, w: 9, h: 5 }, fg, bg);
        let c2 = put_block(c1, w, h, pos.x + 1, pos.y + 1, 7, 3, blank_face(bg));
        if face_down {
            put_block(c2, w, h, pos.x + 1, pos.y + 1, 7, 3, back_face(bg))
        } else {
            match card {
                Some(c) => {
                    let rank = rank_text(c.rank);
                    let col = suit_color(c.suit);
                    let c3 = put_text(c2, w, h, pos.x + 1, pos.y + 1, rank, col, bg, rank.len() as int);
                    let c4 = put(c3, w, h, pos.x + 4, pos.y + 2, Cell { ch: suit_symbol(c.suit), fg: col, bg });
                    put_text(c4, w, h, pos.x + 9 - 1 - rank.len() - 1, pos.y + 3, rank, col, bg, rank.len() as int)
                },
                None => c2,
            }
        }
    } else {
        let x = pos.x + half_toward_zero(9 - width);
        put_block(cells, w, h, x, pos.y as int, width, 5, edge_face(width, fg, bg))
    }
}

/// Positions and widths small enough to draw without overflow.
pub open spec fn sprite_ok(pos: Vec2, thin_width: Option<i32>) -> bool {
    &&& -0x0100_0000 <= pos.x <= 0x0100_0000
    &&& -0x0100_0000 <= pos.y <= 0x0100_0000
    &&& thin_width matches Some(t) ==> t <= 0x0100_0000
}

pub fn draw_card_sprite(
    fb: &mut FrameBuffer,
    pos: Vec2,
    card: Option<Card>,
    face_down: bool,
    highlight: bool,
    thin_width: Option<i32>,
    bg: Color,
)
    requires
        old(fb).wf(),
        sprite_ok(pos, thin_width),
    ensures
        final(fb).wf(),
        final(fb).w == old(fb).w && final(fb).h == old(fb).h,
        final(fb).cells@ == card_sprite(old(fb).cells@, old(fb).w as int, old(fb).h as int, pos, card, face_down, highlight, thin_width, bg),
{
    let ghost (w, h) = (fb.w as int, fb.h as int);
    let t = match thin_width {
        Some(v) => v,
        None => CARD_W,
    };
    let width = if t > 1 { t } else { 1 };
    let fg = if highlight { Color::Yellow } else { Color::White };
    if width == CARD_W {
        let rect = Rect { x: pos.x, y: pos.y, w: CARD_W, h: CARD_H };
        fb.rect_border(rect, fg, bg);
        let ghost c1 = fb.cells@;
        let mut y: i32 = 1;
        while y < CARD_H - 1
            invariant
                fb.wf(),
                fb.w as int == w && fb.h as int == h,
                sprite_ok(pos, thin_width),
                1 <= y <= 4,
                fb.cells@ == put_block(c1, w, h, pos.x + 1, pos.y + 1, 7, (y - 1) as int, blank_face(bg)),
            decreases 4 - y,
        {
            let mut x: i32 = 1;
            while x < CARD_W - 1
                invariant
                    fb.wf(),
                    fb.w as int == w && fb.h as int == h,
                    sprite_ok(pos, thin_width),
                    1 <= y < 4,
                    1 <= x <= 8,
                    fb.cells@ == put_row(
                        put_block(c1, w, h, pos.x + 1, pos.y + 1, 7, (y - 1) as int, blank_face(bg)),
                        w,
                        h,
                        pos.x + 1,
                        pos.y + y,
                        (x - 1) as int,
                        |dx: int| blank_face(bg)(dx, (y - 1) as int),
                    ),
                decreases 8 - x,
            {
                fb.set(pos.x + x, pos.y + y, ' ', Color::White, bg);
                x += 1;
            }
            y += 1;
        }
        if face_down {
            let ghost c2 = fb.cells@;
            let pattern: [char; 4] = ['\u{2591}', '\u{2592}', '\u{2593}', '\u{2592}'];
            let mut y: i32 = 1;
            while y < CARD_H - 1
                invariant
                    fb.wf(),
                    fb.w as int == w && fb.h as int == h,
                    sprite_ok(pos, thin_width),
                    pattern@ == seq!['\u{2591}', '\u{2592}', '\u{2593}', '\u{2592}'],
                    1 <= y <= 4,
                    fb.cells@ == put_block(c2, w, h, pos.x + 1, pos.y + 1, 7, (y - 1) as int, back_face(bg)),
                decreases 4 - y,
            {
                let mut x: i32 = 1;
                while x < CARD_W - 1
                    invariant
                        fb.wf(),
                        fb.w as int == w && fb.h as int == h,
                        sprite_ok(pos, thin_width),
                        pattern@ == seq!['\u{2591}', '\u{2592}', '\u{2593}', '\u{2592}'],
                        1 <= y < 4,
                        1 <= x <= 8,
                        fb.cells@ == put_row(
                            put_block(c2, w, h, pos.x + 1, pos.y + 1, 7, (y - 1) as int, back_face(bg)),
                            w,
                            h,
                            pos.x + 1,
                            pos.y + y,
                            (x - 1) as int,
                            |dx: int| back_face(bg)(dx, (y - 1) as int),
                        ),
                    decreases 8 - x,
                {
                    let ch = pattern[((x + y) as usize) % pattern.len()];
                    assert(ch == back_shade((x - 1) + (y - 1) + 2));
                    fb.set(pos.x + x, pos.y + y, ch, Color::Blue, bg);
                    x += 1;
                }
                y += 1;
            }
        } else if let Some(card) = card {
            let rank = rank_str(card.rank);
            let suit = suit_glyph(card.suit);
            let suit_color = match card.suit {
                Suit::Hearts | Suit::Diamonds => Color::Red,
                _ => Color::White,
            };
            proof {
                lemma_rank_text_len(card.rank);
            }
            fb.text(pos.x + 1, pos.y + 1, rank, suit_color, bg);
            fb.set(pos.x + 4, pos.y + 2, suit, suit_color, bg);
            let right_x = pos.x + CARD_W - 1 - rank.unicode_len() as i32 - 1;
            fb.text(right_x, pos.y + 3, rank, suit_color, bg);
        }
    } else {
        let x = pos.x + (CARD_W - width) / 2;
        let ghost c0 = fb.cells@;
        let mut dy: i32 = 0;
        while dy < CARD_H
            invariant
                fb.wf(),
                fb.w as int == w && fb.h as int == h,
                sprite_ok(pos, thin_width),
                1 <= width <= 0x0100_0000,
                x == pos.x + half_toward_zero(9 - width),
                0 <= dy <= 5,
                fb.cells@ == put_block(c0, w, h, x as int, pos.y as int, width as int, dy as int, edge_face(width as int, fg, bg)),
            decreases 5 - dy,
        {
            let mut dx: i32 = 0;
            while dx < width
                invariant
                    fb.wf(),
                    fb.w as int == w && fb.h as int == h,
                    sprite_ok(pos, thin_width),
                    1 <= width <= 0x0100_0000,
                    x == pos.x + half_toward_zero(9 - width),
                    0 <= dy < 5,
                    0 <= dx <= width,
                    fb.cells@ == put_row(
                        put_block(c0, w, h, x as int, pos.y as int, width as int, dy as int, edge_face(width as int, fg, bg)),
                        w,
                        h,
                        x as int,
                        pos.y + dy,
                        dx as int,
                        |k: int| edge_face(width as int, fg, bg)(k, dy as int),
                    ),
                decreases width - dx,
            {
                let ch = if dx == 0 || dx == width - 1 { '\u{2502}' } else { ' ' };
                let is_top = dy == 0;
                let is_bottom = dy == CARD_H - 1;
                let ch = if is_top || is_bottom {
                    if dx == 0 || dx == width - 1 { '\u{253C}' } else { '\u{2500}' }
                } else {
                    ch
                };
                fb.set(x + dx, pos.y + dy, ch, fg, bg);
                dx += 1;
            }
            dy += 1;
        }
    }
}

// ---------------------------------------------------------------------
// The labels of the table.

/// A hand's total, with ` (soft)` after a soft one.
pub open spec fn total_label(cards: Seq<Card>) -> Seq<char> {
    decimal(spec_totals(cards).0 as nat) + (if spec_totals(cards).1 { " (soft)"@ } else { Seq::empty() })
}

pub open spec fn phase_label(p: Phase) -> Seq<char> {
    match p {
        Phase::Betting => "Betting"@,
        Phase::Dealing => "Dealing"@,
        Phase::PlayerTurn => "PlayerTurn"@,
        Phase::DealerTurn => "DealerTurn"@,
        Phase::Payout => "Payout"@,
        Phase::Shuffle => "Shuffle"@,
    }
}

pub open spec fn phase_color(p: Phase) -> Color {
    match p {
        Phase::Betting => Color::Cyan,
        Phase::PlayerTurn => Color::Yellow,
        Phase::DealerTurn => Color::Magenta,
        Phase::Payout => Color::Green,
        Phase::Shuffle => Color::Blue,
        Phase::Dealing => Color::White,
    }
}

/// The lengths of the table's fixed labels.
pub proof fn lemma_label_lengths()
    ensures
        " (soft)"@.len() == 7,
        "BLACKJACK"@.len() == 9,
        "SHOE"@.len() == 4,
        "Dealer"@.len() == 6,
        "..."@.len() == 3,
        "Total: "@.len() == 7,
        "+?"@.len() == 2,
        "Total:"@.len() == 6,
        "Player"@.len() == 6,
        "Bet: "@.len() == 5,
        "CHIPS"@.len() == 5,
        "BET"@.len() == 3,
        "PHASE"@.len() == 5,
        "CONTROLS"@.len() == 8,
        "<- -> +/-"@.len() == 9,
        "DEAL"@.len() == 4,
        "Enter"@.len() == 5,
        "MENU"@.len() == 4,
        "r reset   q quit"@.len() == 16,
        "PLAY"@.len() == 4,
        "h hit  s stand  d double"@.len() == 24,
        "SPLIT"@.len() == 5,
        "p   r reset   q quit"@.len() == 20,
        "PUSH"@.len() == 4,
        "+"@.len() == 1,
        "H"@.len() == 1,
        ": "@.len() == 2,
        forall|p: Phase| #[trigger] phase_label(p).len() <= 10,
{
    reveal_strlit(" (soft)");
    reveal_strlit("BLACKJACK");
    reveal_strlit("SHOE");
    reveal_strlit("Dealer");
    reveal_strlit("...");
    reveal_strlit("Total: ");
    reveal_strlit("+?");
    reveal_strlit("Total:");
    reveal_strlit("Player");
    reveal_strlit("Bet: ");
    reveal_strlit("CHIPS");
    reveal_strlit("BET");
    reveal_strlit("PHASE");
    reveal_strlit("CONTROLS");
    reveal_strlit("<- -> +/-");
    reveal_strlit("DEAL");
    reveal_strlit("Enter");
    reveal_strlit("MENU");
    reveal_strlit("r reset   q quit");
    reveal_strlit("PLAY");
    reveal_strlit("h hit  s stand  d double");
    reveal_strlit("SPLIT");
    reveal_strlit("p   r reset   q quit");
    reveal_strlit("PUSH");
    reveal_strlit("+");
    reveal_strlit("H");
    reveal_strlit(": ");
    reveal_strlit("Betting");
    reveal_strlit("Dealing");
    reveal_strlit("PlayerTurn");
    reveal_strlit("DealerTurn");
    reveal_strlit("Payout");
    reveal_strlit("Shuffle");
}

pub fn phase_name(p: Phase) -> (s: &'static str)
    ensures
        s@ == phase_label(p),
{
    match p {
        Phase::Betting => "Betting",
        Phase::Dealing => "Dealing",
        Phase::PlayerTurn => "PlayerTurn",
        Phase::DealerTurn => "DealerTurn",
        Phase::Payout => "Payout",
        Phase::Shuffle => "Shuffle",
    }
}

/// Writes a hand's total (and whether it is soft) at `pos`.
pub fn draw_hand_total(fb: &mut FrameBuffer, pos: Vec2, hand: &Hand, fg: Color, bg: Color)
    requires
        old(fb).wf(),
        crate::blackjack::cards::hand_ok(hand.cards@),
        coord_ok(pos.x as int),
    ensures
        final(fb).wf(),
        final(fb).w == old(fb).w && final(fb).h == old(fb).h,
        final(fb).cells@ == put_text(old(fb).cells@, old(fb).w as int, old(fb).h as int, pos.x as int, pos.y as int,
            total_label(hand.cards@), fg, bg, total_label(hand.cards@).len() as int),
{
    let (tot, soft) = hand.totals();
    proof {
        lemma_label_lengths();
        lemma_u64_decimal_len(tot as u64);
    }
    let mut txt = String::new();
    push_decimal(&mut txt, tot as u64);
    if soft {
        txt.append(" (soft)");
    }
    assert(txt@ =~= total_label(hand.cards@));
    fb.text(pos.x, pos.y, txt.as_str(), fg, bg);
}

// ---------------------------------------------------------------------
// The table.

pub open spec fn felt() -> Color {
    Color::DarkGreen
}

/// The felt: a cleared green frame, the table's box and title, the shoe
/// (a card back) with its label, and the dealer's label.
pub open spec fn felt_drawn(cells: Seq<Cell>, w: int, h: int, l: Layout) -> Seq<Cell> {
    let bg = felt();
    let c0 = Seq::new(cells.len(), |i: int| Cell { ch: ' ', fg: Color::White, bg });
    let c1 = put_border(c0, w, h, l.table, Color::DarkGrey, bg);
    let c2 = put_text(c1, w, h, l.table.x + l.table.w - 2 - 9, l.table.y + 1, "BLACKJACK"@, Color::White, bg, 9);
    let c3 = card_sprite(c2, w, h, l.shoe, None, true, false, None, bg);
    let c4 = put_text(c3, w, h, l.shoe.x as int, l.shoe.y - 1, "SHOE"@, Color::Grey, bg, 4);
    put_text(c4, w, h, l.player_origin.x as int, l.dealer_origin.y - 1, "Dealer"@, Color::White, bg, 6)
}

/// The first `k` of the dealer's cards, the second face down while the
/// hole card is hidden.
pub open spec fn dealer_cards_drawn(cells: Seq<Cell>, w: int, h: int, l: Layout, cards: Seq<Card>, hidden: bool, k: int) -> Seq<Cell>
    decreases k,
{
    if k <= 0 {
        cells
    } else {
        card_sprite(
            dealer_cards_drawn(cells, w, h, l, cards, hidden, k - 1),
            w,
            h,
            spec_dealer_card_pos(l, k - 1),
            Some(cards[k - 1]),
            k - 1 == 1 && hidden,
            false,
            None,
            felt(),
        )
    }
}

/// The dealer's hand and its total: `...` before any card; the up card's
/// value and a question mark while the hole card is hidden; else the
/// total.
pub open spec fn dealer_drawn(cells: Seq<Cell>, w: int, h: int, m: GameModel, l: Layout) -> Seq<Cell> {
    let bg = felt();
    let hidden = m.dealer_reveal == DealerReveal::Hidden;
    let cards = m.dealer.cards;
    let c1 = dealer_cards_drawn(cells, w, h, l, cards, hidden, cards.len() as int);
    if cards.len() == 0 {
        put_text(c1, w, h, l.dealer_origin.x as int, l.dealer_origin.y + 2, "..."@, Color::Grey, bg, 3)
    } else if hidden && cards.len() >= 2 {
        let t = "Total: "@ + decimal(value(cards[0].rank) as nat) + "+?"@;
        put_text(c1, w, h, l.dealer_origin.x + 22, l.dealer_origin.y + 2, t, Color::White, bg, t.len() as int)
    } else {
        let c2 = put_text(c1, w, h, l.dealer_origin.x + 22, l.dealer_origin.y + 2, "Total:"@, Color::White, bg, 6);
        put_text(c2, w, h, l.dealer_origin.x + 29, l.dealer_origin.y + 2, total_label(cards), Color::White, bg, total_label(cards).len() as int)
    }
}

/// The first `k` cards of player hand `hand_idx`, outlined in yellow when
/// the hand is the one in play.
pub open spec fn hand_cards_drawn(cells: Seq<Cell>, w: int, h: int, l: Layout, hand_idx: int, cards: Seq<Card>, active: bool, k: int) -> Seq<Cell>
    decreases k,
{
    if k <= 0 {
        cells
    } else {
        card_sprite(
            hand_cards_drawn(cells, w, h, l, hand_idx, cards, active, k - 1),
            w,
            h,
            spec_player_card_pos(l, hand_idx, k - 1),
            Some(cards[k - 1]),
            false,
            active,
            None,
            felt(),
        )
    }
}

/// The first `k` player hands: each with its cards, its label (yellow
/// when in play) and its wager.
pub open spec fn hands_drawn(cells: Seq<Cell>, w: int, h: int, m: GameModel, l: Layout, k: int) -> Seq<Cell>
    decreases k,
{
    if k <= 0 {
        cells
    } else {
        let i = k - 1;
        let prev = hands_drawn(cells, w, h, m, l, k - 1);
        let hand = m.players[i];
        let active = m.phase == Phase::PlayerTurn && i == m.active_hand;
        let c1 = hand_cards_drawn(prev, w, h, l, i, hand.cards, active, hand.cards.len() as int);
        let lx = spec_player_card_pos(l, i, 0).x as int;
        let lab = spec_hand_label(i, hand.cards);
        let c2 = put_text(c1, w, h, lx, l.player_origin.y + 6, lab, if active { Color::Yellow } else { Color::White }, felt(), lab.len() as int);
        let bet = "Bet: "@ + signed_decimal(m.wagers[i] as int);
        put_text(c2, w, h, lx, l.player_origin.y + 7, bet, Color::White, felt(), bet.len() as int)
    }
}

/// The player's label and hands.
pub open spec fn players_drawn(cells: Seq<Cell>, w: int, h: int, m: GameModel, l: Layout) -> Seq<Cell> {
    let c1 = put_text(cells, w, h, l.player_origin.x as int, l.player_origin.y - 1, "Player"@, Color::White, felt(), 6);
    hands_drawn(c1, w, h, m, l, m.players.len() as int)
}

/// The status bar's three rows: blanked black, split in two by a bar.
pub open spec fn bar_drawn(cells: Seq<Cell>, w: int, h: int, l: Layout) -> Seq<Cell> {
    let blank = Cell { ch: ' ', fg: Color::White, bg: Color::Black };
    let split_x = l.table.x + l.table.w / 2;
    let c1 = put_run(cells, w, h, l.table.x + 1, l.bar_y - 1, blank, l.table.w - 2);
    let c2 = put_run(c1, w, h, l.table.x + 1, l.bar_y as int, blank, l.table.w - 2);
    let c3 = put_run(c2, w, h, l.table.x + 1, l.bar_y + 1, blank, l.table.w - 2);
    let bar = Cell { ch: '\u{2502}', fg: Color::DarkGrey, bg: Color::Black };
    put(put(put(c3, w, h, split_x, l.bar_y - 1, bar), w, h, split_x, l.bar_y as int, bar), w, h, split_x, l.bar_y + 1, bar)
}

/// The longest message the status bar shows.
pub open spec fn message_room(l: Layout) -> int {
    let split_x = l.table.x + l.table.w / 2;
    let left_x = l.table.x + 2;
    if split_x - left_x - 2 > 0 { split_x - left_x - 2 } else { 0 }
}

/// The left half of the status bar: chips and bet, the phase (in its
/// colour), and as much of the message as fits.
pub open spec fn status_drawn(cells: Seq<Cell>, w: int, h: int, m: GameModel, l: Layout) -> Seq<Cell> {
    let left_x = l.table.x + 2;
    let y = l.bar_y as int;
    let k = Color::Black;
    let chips = signed_decimal(m.chips as int);
    let bet = signed_decimal(m.bet as int);
    let c1 = put_text(cells, w, h, left_x, y - 1, "CHIPS"@, Color::Yellow, k, 5);
    let c2 = put_text(c1, w, h, left_x + 6, y - 1, chips, Color::White, k, chips.len() as int);
    let c3 = put_text(c2, w, h, left_x + 12, y - 1, "BET"@, Color::Yellow, k, 3);
    let c4 = put_text(c3, w, h, left_x + 16, y - 1, bet, Color::White, k, bet.len() as int);
    let c5 = put_text(c4, w, h, left_x, y, "PHASE"@, Color::Yellow, k, 5);
    let c6 = put_text(c5, w, h, left_x + 6, y, phase_label(m.phase), phase_color(m.phase), k, phase_label(m.phase).len() as int);
    let n = if message_room(l) < m.message.len() { message_room(l) } else { m.message.len() as int };
    put_text(c6, w, h, left_x, y + 1, m.message.take(n), Color::White, k, n)
}

/// The right half of the status bar: the keys of the phase.
pub open spec fn controls_drawn(cells: Seq<Cell>, w: int, h: int, m: GameModel, l: Layout) -> Seq<Cell> {
    let rx = l.table.x + l.table.w / 2 + 2;
    let y = l.bar_y as int;
    let k = Color::Black;
    let c1 = put_text(cells, w, h, rx, y - 1, "CONTROLS"@, Color::Yellow, k, 8);
    if m.phase == Phase::Betting {
        let c2 = put_text(c1, w, h, rx, y, "BET"@, Color::Cyan, k, 3);
        let c3 = put_text(c2, w, h, rx + 4, y, "<- -> +/-"@, Color::Green, k, 9);
        let c4 = put_text(c3, w, h, rx + 15, y, "DEAL"@, Color::Cyan, k, 4);
        let c5 = put_text(c4, w, h, rx + 20, y, "Enter"@, Color::Green, k, 5);
        let c6 = put_text(c5, w, h, rx, y + 1, "MENU"@, Color::Cyan, k, 4);
        put_text(c6, w, h, rx + 5, y + 1, "r reset   q quit"@, Color::White, k, 16)
    } else {
        let c2 = put_text(c1, w, h, rx, y, "PLAY"@, Color::Cyan, k, 4);
        let c3 = put_text(c2, w, h, rx + 5, y, "h hit  s stand  d double"@, Color::Green, k, 24);
        let c4 = put_text(c3, w, h, rx, y + 1, "SPLIT"@, Color::Cyan, k, 5);
        put_text(c4, w, h, rx + 6, y + 1, "p   r reset   q quit"@, Color::White, k, 20)
    }
}

/// The whole table but the animation in flight.
pub open spec fn table_drawn(cells: Seq<Cell>, w: int, h: int, m: GameModel, l: Layout) -> Seq<Cell> {
    let c1 = felt_drawn(cells, w, h, l);
    let c2 = dealer_drawn(c1, w, h, m, l);
    let c3 = players_drawn(c2, w, h, m, l);
    let c4 = bar_drawn(c3, w, h, l);
    controls_drawn(status_drawn(c4, w, h, m, l), w, h, m, l)
}

/// A table whose hands are small enough to draw: at most 31 cards in each
/// hand and four hands.
pub open spec fn drawable(m: GameModel) -> bool {
    &&& m.dealer.cards.len() <= 31
    &&& crate::blackjack::cards::hand_ok(m.dealer.cards)
    &&& m.players.len() <= 4
    &&& m.wagers.len() == m.players.len()
    &&& forall|i: int| 0 <= i < m.players.len() ==> (#[trigger] m.players[i]).cards.len() <= 31
        && crate::blackjack::cards::hand_ok(m.players[i].cards)
}

/// Every reachable table can be drawn.
pub proof fn lemma_wf_drawable(m: GameModel)
    requires
        m.wf(),
    ensures
        drawable(m),
{
    assert(m.dealer_room() <= 31);
    lemma_small_hand(m.dealer.cards);
    assert forall|i: int| 0 <= i < m.players.len() implies (#[trigger] m.players[i]).cards.len() <= 31
        && crate::blackjack::cards::hand_ok(m.players[i].cards) by {
        assert(m.player_room(i) <= 31);
        lemma_small_hand(m.players[i].cards);
    }
}

fn draw_felt(fb: &mut FrameBuffer, layout: Layout)
    requires
        old(fb).wf(),
        layout_ok(layout),
    ensures
        final(fb).wf(),
        final(fb).w == old(fb).w && final(fb).h == old(fb).h,
        final(fb).cells@ == felt_drawn(old(fb).cells@, old(fb).w as int, old(fb).h as int, layout),
{
    proof {
        lemma_label_lengths();
    }
    let table_bg = Color::DarkGreen;
    fb.clear(table_bg);
    assert(fb.cells@ =~= Seq::new(old(fb).cells@.len(), |i: int| Cell { ch: ' ', fg: Color::White, bg: table_bg }));
    fb.rect_border(layout.table, Color::DarkGrey, table_bg);
    let title = "BLACKJACK";
    let title_x = layout.table.x + layout.table.w - 2 - title.unicode_len() as i32;
    fb.text(title_x, layout.table.y + 1, title, Color::White, table_bg);
    draw_card_sprite(fb, layout.shoe, None, true, false, None, table_bg);
    fb.text(layout.shoe.x, layout.shoe.y - 1, "SHOE", Color::Grey, table_bg);
    fb.text(layout.player_origin.x, layout.dealer_origin.y - 1, "Dealer", Color::White, table_bg);
}

fn draw_dealer(fb: &mut FrameBuffer, gs: &GameState, layout: Layout)
    requires
        old(fb).wf(),
        layout_ok(layout),
        drawable(gs@),
    ensures
        final(fb).wf(),
        final(fb).w == old(fb).w && final(fb).h == old(fb).h,
        final(fb).cells@ == dealer_drawn(old(fb).cells@, old(fb).w as int, old(fb).h as int, gs@, layout),
{
    proof {
        lemma_label_lengths();
    }
    let ghost (w, h) = (fb.w as int, fb.h as int);
    let ghost c0 = fb.cells@;
    let table_bg = Color::DarkGreen;
    let hidden = gs.dealer_reveal == DealerReveal::Hidden;
    let mut i: usize = 0;
    while i < gs.dealer.cards.len()
        invariant
            fb.wf(),
            fb.w as int == w && fb.h as int == h,
            layout_ok(layout),
            drawable(gs@),
            hidden == (gs.dealer_reveal == DealerReveal::Hidden),
            table_bg == felt(),
            i <= gs.dealer.cards@.len(),
            fb.cells@ == dealer_cards_drawn(c0, w, h, layout, gs.dealer.cards@, hidden, i as int),
        decreases gs.dealer.cards@.len() - i,
    {
        let pos = layout.dealer_card_pos(i);
        let card = gs.dealer.cards[i];
        draw_card_sprite(fb, pos, Some(card), i == 1 && hidden, false, None, table_bg);
        i += 1;
    }
    if gs.dealer.cards.len() == 0 {
        fb.text(layout.dealer_origin.x, layout.dealer_origin.y + 2, "...", Color::Grey, table_bg);
    } else if hidden && gs.dealer.cards.len() >= 2 {
        let up_val = card_value(gs.dealer.cards[0].rank);
        let mut t = String::from_str("Total: ");
        push_decimal(&mut t, up_val as u64);
        t.append("+?");
        proof {
            lemma_u64_decimal_len(up_val as u64);
        }
        fb.text(layout.dealer_origin.x + 22, layout.dealer_origin.y + 2, t.as_str(), Color::White, table_bg);
    } else {
        fb.text(layout.dealer_origin.x + 22, layout.dealer_origin.y + 2, "Total:", Color::White, table_bg);
        proof {
            lemma_u64_decimal_len(spec_totals(gs.dealer.cards@).0 as u64);
        }
        draw_hand_total(fb, Vec2 { x: layout.dealer_origin.x + 29, y: layout.dealer_origin.y + 2 }, &gs.dealer, Color::White, table_bg);
    }
}

fn draw_players(fb: &mut FrameBuffer, gs: &GameState, layout: Layout)
    requires
        old(fb).wf(),
        layout_ok(layout),
        drawable(gs@),
    ensures
        final(fb).wf(),
        final(fb).w == old(fb).w && final(fb).h == old(fb).h,
        final(fb).cells@ == players_drawn(old(fb).cells@, old(fb).w as int, old(fb).h as int, gs@, layout),
{
    proof {
        lemma_label_lengths();
    }
    let ghost (w, h) = (fb.w as int, fb.h as int);
    let table_bg = Color::DarkGreen;
    fb.text(layout.player_origin.x, layout.player_origin.y - 1, "Player", Color::White, table_bg);
    let ghost c1 = fb.cells@;
    let mut hi: usize = 0;
    while hi < gs.players.len()
        invariant
            fb.wf(),
            fb.w as int == w && fb.h as int == h,
            layout_ok(layout),
            drawable(gs@),
            table_bg == felt(),
            hi <= gs.players@.len(),
            fb.cells@ == hands_drawn(c1, w, h, gs@, layout, hi as int),
        decreases gs.players@.len() - hi,
    {
        let active = gs.phase == Phase::PlayerTurn && hi == gs.active_hand;
        let hand = &gs.players[hi];
        assert(hand.cards@ == gs@.players[hi as int].cards);
        let ghost before = fb.cells@;
        let mut ci: usize = 0;
        while ci < hand.cards.len()
            invariant
                fb.wf(),
                fb.w as int == w && fb.h as int == h,
                layout_ok(layout),
                drawable(gs@),
                hi < gs.players@.len(),
                hand.cards@ == gs@.players[hi as int].cards,
                table_bg == felt(),
                ci <= hand.cards@.len(),
                fb.cells@ == hand_cards_drawn(before, w, h, layout, hi as int, hand.cards@, active, ci as int),
            decreases hand.cards@.len() - ci,
        {
            let pos = layout.player_card_pos(hi, ci);
            draw_card_sprite(fb, pos, Some(hand.cards[ci]), false, active, None, table_bg);
            ci += 1;
        }
        let label = gs.hand_label(hi);
        proof {
            lemma_label_lengths();
            lemma_u64_decimal_len((hi + 1) as u64);
            lemma_u64_decimal_len(spec_totals(hand.cards@).0 as u64);
            lemma_signed_len(gs.wagers@[hi as int]);
        }
        let lx = layout.player_card_pos(hi, 0).x;
        fb.text(lx, layout.player_origin.y + CARD_H + 1, label.as_str(), if active { Color::Yellow } else { Color::White }, table_bg);
        let mut bet = String::from_str("Bet: ");
        push_signed_decimal(&mut bet, gs.wagers[hi]);
        fb.text(lx, layout.player_origin.y + CARD_H + 2, bet.as_str(), Color::White, table_bg);
        hi += 1;
    }
}

/// A signed `i64` has at most 21 characters.
proof fn lemma_signed_len(n: i64)
    ensures
        signed_decimal(n as int).len() <= 21,
{
    if n < 0 {
        lemma_u64_decimal_len((-(n as int)) as u64);
    } else {
        lemma_u64_decimal_len(n as u64);
    }
}

fn draw_bar(fb: &mut FrameBuffer, layout: Layout)
    requires
        old(fb).wf(),
        layout_ok(layout),
    ensures
        final(fb).wf(),
        final(fb).w == old(fb).w && final(fb).h == old(fb).h,
        final(fb).cells@ == bar_drawn(old(fb).cells@, old(fb).w as int, old(fb).h as int, layout),
{
    let split_x = layout.table.x + layout.table.w / 2;
    let panel_bg = Color::Black;
    fb.hline(layout.table.x + 1, layout.bar_y - 1, layout.table.w - 2, ' ', Color::White, panel_bg);
    fb.hline(layout.table.x + 1, layout.bar_y, layout.table.w - 2, ' ', Color::White, panel_bg);
    fb.hline(layout.table.x + 1, layout.bar_y + 1, layout.table.w - 2, ' ', Color::White, panel_bg);
    fb.set(split_x, layout.bar_y - 1, '\u{2502}', Color::DarkGrey, panel_bg);
    fb.set(split_x, layout.bar_y, '\u{2502}', Color::DarkGrey, panel_bg);
    fb.set(split_x, layout.bar_y + 1, '\u{2502}', Color::DarkGrey, panel_bg);
}

fn draw_status(fb: &mut FrameBuffer, gs: &GameState, layout: Layout)
    requires
        old(fb).wf(),
        layout_ok(layout),
    ensures
        final(fb).wf(),
        final(fb).w == old(fb).w && final(fb).h == old(fb).h,
        final(fb).cells@ == status_drawn(old(fb).cells@, old(fb).w as int, old(fb).h as int, gs@, layout),
{
    proof {
        lemma_label_lengths();
        lemma_signed_len(gs.chips);
        lemma_signed_len(gs.bet);
    }
    let left_x = layout.table.x + 2;
    let split_x = layout.table.x + layout.table.w / 2;
    let panel_bg = Color::Black;
    fb.text(left_x, layout.bar_y - 1, "CHIPS", Color::Yellow, panel_bg);
    let mut chips = String::new();
    push_signed_decimal(&mut chips, gs.chips);
    fb.text(left_x + 6, layout.bar_y - 1, chips.as_str(), Color::White, panel_bg);
    fb.text(left_x + 12, layout.bar_y - 1, "BET", Color::Yellow, panel_bg);
    let mut bet = String::new();
    push_signed_decimal(&mut bet, gs.bet);
    fb.text(left_x + 16, layout.bar_y - 1, bet.as_str(), Color::White, panel_bg);
    let phase_color = match gs.phase {
        Phase::Betting => Color::Cyan,
        Phase::PlayerTurn => Color::Yellow,
        Phase::DealerTurn => Color::Magenta,
        Phase::Payout => Color::Green,
        Phase::Shuffle => Color::Blue,
        Phase::Dealing => Color::White,
    };
    fb.text(left_x, layout.bar_y, "PHASE", Color::Yellow, panel_bg);
    fb.text(left_x + 6, layout.bar_y, phase_name(gs.phase), phase_color, panel_bg);
    let room = split_x - left_x - 2;
    let msg_max: usize = if room > 0 { room as usize } else { 0 };
    let msg = gs.message.as_str();
    let len = msg.unicode_len();
    let n = if msg_max < len { msg_max } else { len };
    let short_msg = msg.substring_char(0, n);
    assert(short_msg@ =~= gs.message@.take(n as int));
    fb.text(left_x, layout.bar_y + 1, short_msg, Color::White, panel_bg);
}

fn draw_controls(fb: &mut FrameBuffer, gs: &GameState, layout: Layout)
    requires
        old(fb).wf(),
        layout_ok(layout),
    ensures
        final(fb).wf(),
        final(fb).w == old(fb).w && final(fb).h == old(fb).h,
        final(fb).cells@ == controls_drawn(old(fb).cells@, old(fb).w as int, old(fb).h as int, gs@, layout),
{
    proof {
        lemma_label_lengths();
    }
    let right_x = layout.table.x + layout.table.w / 2 + 2;
    let panel_bg = Color::Black;
    fb.text(right_x, layout.bar_y - 1, "CONTROLS", Color::Yellow, panel_bg);
    if gs.phase == Phase::Betting {
        fb.text(right_x, layout.bar_y, "BET", Color::Cyan, panel_bg);
        fb.text(right_x + 4, layout.bar_y, "<- -> +/-", Color::Green, panel_bg);
        fb.text(right_x + 15, layout.bar_y, "DEAL", Color::Cyan, panel_bg);
        fb.text(right_x + 20, layout.bar_y, "Enter", Color::Green, panel_bg);
        fb.text(right_x, layout.bar_y + 1, "MENU", Color::Cyan, panel_bg);
        fb.text(right_x + 5, layout.bar_y + 1, "r reset   q quit", Color::White, panel_bg);
    } else {
        fb.text(right_x, layout.bar_y, "PLAY", Color::Cyan, panel_bg);
        fb.text(right_x + 5, layout.bar_y, "h hit  s stand  d double", Color::Green, panel_bg);
        fb.text(right_x, layout.bar_y + 1, "SPLIT", Color::Cyan, panel_bg);
        fb.text(right_x + 6, layout.bar_y + 1, "p   r reset   q quit", Color::White, panel_bg);
    }
}

/// The whole frame: the table, then the animation in flight over it.
pub open spec fn game_drawn(cells: Seq<Cell>, w: int, h: int, m: GameModel, l: Layout) -> Seq<Cell> {
    overlay_drawn(table_drawn(cells, w, h, m, l), w, h, m.anim.active, felt())
}

/// Draws the whole table and the animation in flight into `fb`.
pub fn render_game(fb: &mut FrameBuffer, gs: &GameState, layout: Layout)
    requires
        old(fb).wf(),
        layout_ok(layout),
        drawable(gs@),
        overlay_ok(gs@.anim.active),
    ensures
        final(fb).wf(),
        final(fb).w == old(fb).w && final(fb).h == old(fb).h,
        final(fb).cells@ == game_drawn(old(fb).cells@, old(fb).w as int, old(fb).h as int, gs@, layout),
{
    draw_felt(fb, layout);
    draw_dealer(fb, gs, layout);
    draw_players(fb, gs, layout);
    draw_bar(fb, layout);
    draw_status(fb, gs, layout);
    draw_controls(fb, gs, layout);
    render_anim_overlays(fb, &gs.anim.active, Color::DarkGreen);
}

} // verus!
