//! The felt: where the shoe, the dealer and the player hands sit, and the
//! queue of animations that carries cards from the shoe to the hands.
//! Durations and clocks are integer milliseconds.

use vstd::prelude::*;
use std::collections::VecDeque;
use crate::blackjack::cards::Card;

verus! {

pub const CARD_W: i32 = 9;
pub const CARD_H: i32 = 5;
pub const CARD_GAP_X: i32 = 2;
/// Horizontal distance between two player hands.
pub const HAND_STRIDE: i32 = 31;

pub const DEAL_DURATION_MS: u32 = 280;
pub const FLIP_DURATION_MS: u32 = 300;
pub const FLASH_DURATION_MS: u32 = 1500;
pub const CHIP_DURATION_MS: u32 = 1000;
pub const PUSH_CHIP_DURATION_MS: u32 = 850;

#[derive(Clone, Copy, Debug, PartialEq, Eq, Structural)]
pub enum Phase {
    Betting,
    Dealing,
    PlayerTurn,
    DealerTurn,
    Payout,
    Shuffle,
}

/// House rules: whether the dealer draws to a soft 17, and what a natural
/// pays, as the fraction `blackjack_payout_num / blackjack_payout_den` of
/// the wager.
#[derive(Clone, Copy, Debug)]
pub struct RulesConfig {
    pub dealer_hits_soft_17: bool,
    pub blackjack_payout_num: i64,
    pub blackjack_payout_den: i64,
}

/// The rules the table plays: dealer hits soft 17, naturals pay 3:2.
pub open spec fn standard_rules() -> RulesConfig {
    RulesConfig { dealer_hits_soft_17: true, blackjack_payout_num: 3, blackjack_payout_den: 2 }
}

/// Rules whose payout fraction is a sane one: a positive denominator of at
/// most 100, and a bonus of at most twice the wager.
pub open spec fn rules_ok(r: RulesConfig) -> bool {
    1 <= r.blackjack_payout_den <= 100 && 0 <= r.blackjack_payout_num <= 2 * r.blackjack_payout_den
}

#[derive(Clone, Copy, Debug, PartialEq, Eq, Structural)]
pub struct Vec2 {
    pub x: i32,
    pub y: i32,
}

#[derive(Clone, Copy, Debug, PartialEq, Eq, Structural)]
pub struct Rect {
    pub x: i32,
    pub y: i32,
    pub w: i32,
    pub h: i32,
}

/// Where a dealt card lands.
#[derive(Clone, Copy, Debug, PartialEq, Eq, Structural)]
pub enum DealDest {
    Player { hand: usize },
    DealerUp,
    DealerDown,
}

/// One step of the table's animation: a card flying from the shoe to a
/// hand, the dealer's hole card turning over, a winning hand flashing, or
/// a chip count floating up.
#[derive(Clone, Copy, Debug)]
pub enum AnimEvent {
    Deal { card: Card, from: Vec2, to: Vec2, dest: DealDest, duration_ms: u32 },
    FlipHole { at: Vec2, duration_ms: u32 },
    Flash { rect: Rect, duration_ms: u32 },
    ChipDelta { amount: i64, at: Vec2, duration_ms: u32 },
}

pub open spec fn event_duration(e: AnimEvent) -> u32 {
    match e {
        AnimEvent::Deal { duration_ms, .. } => duration_ms,
        AnimEvent::FlipHole { duration_ms, .. } => duration_ms,
        AnimEvent::Flash { duration_ms, .. } => duration_ms,
        AnimEvent::ChipDelta { duration_ms, .. } => duration_ms,
    }
}

impl AnimEvent {
    pub fn duration(&self) -> (d: u32)
        ensures
            d == event_duration(*self),
    {
        match self {
            AnimEvent::Deal { duration_ms, .. } => *duration_ms,
            AnimEvent::FlipHole { duration_ms, .. } => *duration_ms,
            AnimEvent::Flash { duration_ms, .. } => *duration_ms,
            AnimEvent::ChipDelta { duration_ms, .. } => *duration_ms,
        }
    }
}

/// The event being played and how long it has played.
#[derive(Clone, Copy, Debug)]
pub struct ActiveAnim {
    pub event: AnimEvent,
    pub elapsed_ms: u64,
}

/// The clock, the events waiting their turn, and the one being played.
#[derive(Clone, Debug)]
pub struct AnimState {
    pub now_ms: u64,
    pub queue: VecDeque<AnimEvent>,
    pub active: Option<ActiveAnim>,
}

/// Every event not yet finished, in the order they play: the active one
/// first, then the queue.
pub open spec fn pending(anim: AnimState) -> Seq<AnimEvent> {
    match anim.active {
        Some(a) => seq![a.event] + anim.queue@,
        None => anim.queue@,
    }
}

/// The animation is busy while any event is unfinished.
pub open spec fn anim_busy(anim: AnimState) -> bool {
    anim.active is Some || anim.queue@.len() > 0
}

impl AnimState {
    pub fn new() -> (a: AnimState)
        ensures
            a.now_ms == 0,
            a.queue@ == Seq::<AnimEvent>::empty(),
            a.active is None,
    {
        AnimState { now_ms: 0, queue: VecDeque::new(), active: None }
    }

    pub fn enqueue(&mut self, event: AnimEvent)
        ensures
            final(self).queue@ == old(self).queue@.push(event),
            final(self).active == old(self).active,
            final(self).now_ms == old(self).now_ms,
    {
        self.queue.push_back(event);
    }

    pub fn is_busy(&self) -> (b: bool)
        ensures
            b == anim_busy(*self),
    {
        self.active.is_some() || self.queue.len() != 0
    }
}

/// Where things sit on a terminal of a given size.
#[derive(Clone, Copy, Debug, PartialEq, Eq, Structural)]
pub struct Layout {
    pub table: Rect,
    pub shoe: Vec2,
    pub dealer_origin: Vec2,
    pub player_origin: Vec2,
    pub bar_y: i32,
}

/// Integer division by two, rounding toward zero as Rust's `/` does.
pub open spec fn half_toward_zero(n: int) -> int {
    if n >= 0 { n / 2 } else { -((-n) / 2) }
}

pub open spec fn clamp_int(v: int, lo: int, hi: int) -> int {
    if v < lo { lo } else if v > hi { hi } else { v }
}

/// The layout of a `w` by `h` terminal: a table of 32 to 96 columns and 18
/// to 28 rows (two less than the terminal where that fits), centred; the
/// shoe at its left edge, half way down; the dealer's cards near the top,
/// the player's near the bottom; the status bar two rows above the bottom.
pub open spec fn layout_of(w: int, h: int) -> Layout {
    let tw = clamp_int(w - 2, 32, 96);
    let th = clamp_int(h - 2, 18, 28);
    let tx = half_toward_zero(w - tw);
    let ty = half_toward_zero(h - th);
    Layout {
        table: Rect { x: tx as i32, y: ty as i32, w: tw as i32, h: th as i32 },
        shoe: Vec2 { x: (tx + 3) as i32, y: (ty + th / 2 - 2) as i32 },
        dealer_origin: Vec2 { x: (tx + 14) as i32, y: (ty + 3) as i32 },
        player_origin: Vec2 { x: (tx + 14) as i32, y: (ty + th - 10) as i32 },
        bar_y: (ty + th - 2) as i32,
    }
}

/// A layout whose coordinates are small enough that card positions of any
/// hand of up to a thousand cards can be computed without overflow.
pub open spec fn layout_ok(l: Layout) -> bool {
    &&& -100_000 <= l.table.x <= 100_000
    &&& -100_000 <= l.table.y <= 100_000
    &&& 0 <= l.table.w <= 100_000
    &&& 0 <= l.table.h <= 100_000
    &&& -100_000 <= l.shoe.x <= 100_000
    &&& -100_000 <= l.shoe.y <= 100_000
    &&& -100_000 <= l.dealer_origin.x <= 100_000
    &&& -100_000 <= l.dealer_origin.y <= 100_000
    &&& -100_000 <= l.player_origin.x <= 100_000
    &&& -100_000 <= l.player_origin.y <= 100_000
    &&& -100_000 <= l.bar_y <= 100_000
}

pub open spec fn spec_dealer_card_pos(l: Layout, idx: int) -> Vec2 {
    Vec2 { x: (l.dealer_origin.x + idx * 2) as i32, y: l.dealer_origin.y }
}

pub open spec fn spec_player_card_pos(l: Layout, hand_idx: int, card_idx: int) -> Vec2 {
    Vec2 { x: (l.player_origin.x + hand_idx * 31 + card_idx * 2) as i32, y: l.player_origin.y }
}

pub open spec fn spec_player_hand_rect(l: Layout, hand_idx: int) -> Rect {
    Rect { x: (l.player_origin.x + hand_idx * 31 - 2) as i32, y: (l.player_origin.y - 1) as i32, w: 21, h: 8 }
}

fn half_i32(n: i32) -> (r: i32)
    ensures
        r == half_toward_zero(n as int),
{
    if n >= 0 { n / 2 } else if n == i32::MIN { -1073741824 } else { -((-n) / 2) }
}

impl Layout {
    pub fn compute(w: u16, h: u16) -> (l: Layout)
        ensures
            l == layout_of(w as int, h as int),
            layout_ok(l),
    {
        let term_w = w as i32;
        let term_h = h as i32;
        let mut table_w = if term_w - 2 < 96 { term_w - 2 } else { 96 };
        if table_w < 32 {
            table_w = 32;
        }
        let mut table_h = if term_h - 2 < 28 { term_h - 2 } else { 28 };
        if table_h < 18 {
            table_h = 18;
        }
        let table_x = half_i32(term_w - table_w);
        let table_y = half_i32(term_h - table_h);
        let table = Rect { x: table_x, y: table_y, w: table_w, h: table_h };
        let shoe = Vec2 { x: table.x + 3, y: table.y + table.h / 2 - CARD_H / 2 };
        let dealer_origin = Vec2 { x: table.x + 14, y: table.y + 3 };
        let player_origin = Vec2 { x: table.x + 14, y: table.y + table.h - CARD_H - 5 };
        let bar_y = table.y + table.h - 2;
        Layout { table, shoe, dealer_origin, player_origin, bar_y }
    }

    /// Where the dealer's card number `idx` lies: cards overlap, two columns apart.
    pub fn dealer_card_pos(&self, idx: usize) -> (p: Vec2)
        requires
            layout_ok(*self),
            idx <= 1000,
        ensures
            p == spec_dealer_card_pos(*self, idx as int),
    {
        Vec2 { x: self.dealer_origin.x + idx as i32 * CARD_GAP_X, y: self.dealer_origin.y }
    }

    /// Where card `card_idx` of player hand `hand_idx` lies.
    pub fn player_card_pos(&self, hand_idx: usize, card_idx: usize) -> (p: Vec2)
        requires
            layout_ok(*self),
            hand_idx <= 1000,
            card_idx <= 1000,
    ensures
            p == spec_player_card_pos(*self, hand_idx as int, card_idx as int),
    {
        let hand_stride = CARD_W + CARD_GAP_X + 20;
        Vec2 {
            x: self.player_origin.x + hand_idx as i32 * hand_stride + card_idx as i32 * CARD_GAP_X,
            y: self.player_origin.y,
        }
    }

    /// The frame drawn round player hand `hand_idx` when it wins.
    pub fn player_hand_rect(&self, hand_idx: usize) -> (r: Rect)
        requires
            layout_ok(*self),
            hand_idx <= 1000,
        ensures
            r == spec_player_hand_rect(*self, hand_idx as int),
    {
        let hand_stride = CARD_W + CARD_GAP_X + 20;
        Rect {
            x: self.player_origin.x + hand_idx as i32 * hand_stride - 2,
            y: self.player_origin.y - 1,
            w: CARD_W + 12,
            h: CARD_H + 3,
        }
    }
}

/// Whether the dealer's hole card shows.
#[derive(Clone, Copy, Debug, PartialEq, Eq, Structural)]
pub enum DealerReveal {
    Hidden,
    Revealed,
}

/// A key as the table reads it.
#[derive(Clone, Copy, Debug, PartialEq, Eq, Structural)]
pub enum KeyCode {
    Char(char),
    Left,
    Right,
    Enter,
    Other,
}

#[derive(Clone, Copy, Debug, PartialEq, Eq, Structural)]
pub enum KeyEventKind {
    Press,
    Repeat,
    Release,
}

#[derive(Clone, Copy, Debug, PartialEq, Eq, Structural)]
pub struct KeyEvent {
    pub code: KeyCode,
    pub kind: KeyEventKind,
}

/// ASCII upper case letters to lower case; every other character unchanged.
pub open spec fn ascii_lower(c: char) -> char {
    if 'A' <= c <= 'Z' { ((c as int) + 32) as char } else { c }
}

pub fn to_ascii_lowercase(c: char) -> (r: char)
    ensures
        r == ascii_lower(c),
{
    if 'A' <= c && c <= 'Z' {
        ((c as u8) + 32) as char
    } else {
        c
    }
}

} // verus!
