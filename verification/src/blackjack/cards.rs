//! Cards, hands and the shoe.

use vstd::prelude::*;
use rand_chacha::ChaCha8Rng;
use crate::rng::{chacha_seeded, shuffle_cards};

verus! {

#[derive(Clone, Copy, Debug, PartialEq, Eq, Structural)]
pub enum Suit {
    Spades,
    Hearts,
    Diamonds,
    Clubs,
}

#[derive(Clone, Copy, Debug, PartialEq, Eq, Structural, PartialOrd, Ord)]
pub enum Rank {
    A,
    Two,
    Three,
    Four,
    Five,
    Six,
    Seven,
    Eight,
    Nine,
    Ten,
    J,
    Q,
    K,
}

#[derive(Clone, Copy, Debug, PartialEq, Eq, Structural)]
pub struct Card {
    pub rank: Rank,
    pub suit: Suit,
}

/// The label printed on a card: its number, or its letter.
pub open spec fn rank_text(rank: Rank) -> Seq<char> {
    match rank {
        Rank::A => "A"@,
        Rank::Two => "2"@,
        Rank::Three => "3"@,
        Rank::Four => "4"@,
        Rank::Five => "5"@,
        Rank::Six => "6"@,
        Rank::Seven => "7"@,
        Rank::Eight => "8"@,
        Rank::Nine => "9"@,
        Rank::Ten => "10"@,
        Rank::J => "J"@,
        Rank::Q => "Q"@,
        Rank::K => "K"@,
    }
}

/// A card's label is one or two characters.
pub proof fn lemma_rank_text_len(rank: Rank)
    ensures
        1 <= rank_text(rank).len() <= 2,
{
    reveal_strlit("A");
    reveal_strlit("2");
    reveal_strlit("3");
    reveal_strlit("4");
    reveal_strlit("5");
    reveal_strlit("6");
    reveal_strlit("7");
    reveal_strlit("8");
    reveal_strlit("9");
    reveal_strlit("10");
    reveal_strlit("J");
    reveal_strlit("Q");
    reveal_strlit("K");
}

pub fn rank_str(rank: Rank) -> (s: &'static str)
    ensures
        s@ == rank_text(rank),
{
    match rank {
        Rank::A => "A",
        Rank::Two => "2",
        Rank::Three => "3",
        Rank::Four => "4",
        Rank::Five => "5",
        Rank::Six => "6",
        Rank::Seven => "7",
        Rank::Eight => "8",
        Rank::Nine => "9",
        Rank::Ten => "10",
        Rank::J => "J",
        Rank::Q => "Q",
        Rank::K => "K",
    }
}

/// The suit symbol: spade, heart, diamond, club.
pub open spec fn suit_symbol(suit: Suit) -> char {
    match suit {
        Suit::Spades => '\u{2660}',
        Suit::Hearts => '\u{2665}',
        Suit::Diamonds => '\u{2666}',
        Suit::Clubs => '\u{2663}',
    }
}

pub fn suit_glyph(suit: Suit) -> (c: char)
    ensures
        c == suit_symbol(suit),
{
    match suit {
        Suit::Spades => '\u{2660}',
        Suit::Hearts => '\u{2665}',
        Suit::Diamonds => '\u{2666}',
        Suit::Clubs => '\u{2663}',
    }
}

/// The hard value of a rank: aces count 1, faces 10.
pub open spec fn value(rank: Rank) -> int {
    match rank {
        Rank::A => 1,
        Rank::Two => 2,
        Rank::Three => 3,
        Rank::Four => 4,
        Rank::Five => 5,
        Rank::Six => 6,
        Rank::Seven => 7,
        Rank::Eight => 8,
        Rank::Nine => 9,
        _ => 10,
    }
}

pub fn card_value(rank: Rank) -> (v: u8)
    ensures
        v == value(rank),
{
    match rank {
        Rank::A => 1,
        Rank::Two => 2,
        Rank::Three => 3,
        Rank::Four => 4,
        Rank::Five => 5,
        Rank::Six => 6,
        Rank::Seven => 7,
        Rank::Eight => 8,
        Rank::Nine => 9,
        Rank::Ten | Rank::J | Rank::Q | Rank::K => 10,
    }
}

/// The sum of the hard values of some cards.
pub open spec fn raw_sum(cards: Seq<Card>) -> int
    decreases cards.len(),
{
    if cards.len() == 0 {
        0
    } else {
        raw_sum(cards.drop_last()) + value(cards.last().rank)
    }
}

/// The number of aces among some cards.
pub open spec fn ace_count(cards: Seq<Card>) -> int
    decreases cards.len(),
{
    if cards.len() == 0 {
        0
    } else {
        ace_count(cards.drop_last()) + (if cards.last().rank == Rank::A { 1int } else { 0int })
    }
}

/// The hands whose total the `u8` arithmetic can take: at most 255 aces,
/// and with an ace a hard sum of at most 245.
pub open spec fn hand_ok(cards: Seq<Card>) -> bool {
    ace_count(cards) <= 255 && (ace_count(cards) == 0 || raw_sum(cards) <= 245)
}

/// A hand's total and whether it is soft: the hard sum (kept at most 255),
/// plus 10 for one ace when that stays within 21.
pub open spec fn spec_totals(cards: Seq<Card>) -> (u8, bool) {
    let s = if raw_sum(cards) > 255 { 255 } else { raw_sum(cards) };
    if ace_count(cards) > 0 && s + 10 <= 21 {
        ((s + 10) as u8, true)
    } else {
        (s as u8, false)
    }
}

/// A blackjack: two cards worth 21.
pub open spec fn spec_is_blackjack(cards: Seq<Card>) -> bool {
    cards.len() == 2 && spec_totals(cards).0 == 21
}

pub proof fn lemma_counts_bounds(cards: Seq<Card>)
    ensures
        0 <= ace_count(cards) <= raw_sum(cards),
        ace_count(cards) <= cards.len(),
        raw_sum(cards) <= 10 * cards.len(),
        raw_sum(cards) >= cards.len(),
    decreases cards.len(),
{
    if cards.len() > 0 {
        lemma_counts_bounds(cards.drop_last());
    }
}

pub proof fn lemma_prefix_counts(cards: Seq<Card>, i: int)
    requires
        0 <= i <= cards.len(),
    ensures
        ace_count(cards.take(i)) <= ace_count(cards),
        raw_sum(cards.take(i)) <= raw_sum(cards),
    decreases cards.len() - i,
{
    if i < cards.len() {
        lemma_prefix_counts(cards, i + 1);
        assert(cards.take(i + 1).drop_last() =~= cards.take(i));
    } else {
        assert(cards.take(i) =~= cards);
    }
}

/// A hand as its cards and its three flags.
#[verifier::ext_equal]
pub struct HandModel {
    pub cards: Seq<Card>,
    pub stood: bool,
    pub doubled: bool,
    pub busted: bool,
}

impl View for Hand {
    type V = HandModel;

    open spec fn view(&self) -> HandModel {
        HandModel { cards: self.cards@, stood: self.stood, doubled: self.doubled, busted: self.busted }
    }
}

pub open spec fn fresh_hand() -> HandModel {
    HandModel { cards: Seq::empty(), stood: false, doubled: false, busted: false }
}

#[verifier::ext_equal]
pub struct ShoeModel {
    pub cards: Seq<Card>,
    pub decks: usize,
    pub cut: usize,
}

impl View for Shoe {
    type V = ShoeModel;

    open spec fn view(&self) -> ShoeModel {
        ShoeModel { cards: self.cards@, decks: self.decks, cut: self.cut }
    }
}

#[derive(Clone, Debug)]
pub struct Hand {
    pub cards: Vec<Card>,
    pub stood: bool,
    pub doubled: bool,
    pub busted: bool,
}

impl Hand {
    pub fn new() -> (h: Hand)
        ensures
            h@ == fresh_hand(),
    {
        Hand { cards: Vec::new(), stood: false, doubled: false, busted: false }
    }

    pub fn totals(&self) -> (t: (u8, bool))
        requires
            hand_ok(self.cards@),
        ensures
            t == spec_totals(self.cards@),
    {
        totals(self)
    }

    pub fn is_blackjack(&self) -> (b: bool)
        ensures
            b == spec_is_blackjack(self.cards@),
    {
        is_blackjack(self)
    }
}

pub fn totals(hand: &Hand) -> (t: (u8, bool))
    requires
        hand_ok(hand.cards@),
    ensures
        t == spec_totals(hand.cards@),
{
    let ghost cs = hand.cards@;
    let mut sum: u8 = 0;
    let mut aces: u8 = 0;
    let mut i: usize = 0;
    while i < hand.cards.len()
        invariant
            cs == hand.cards@,
            hand_ok(cs),
            i <= cs.len(),
            sum == (if raw_sum(cs.take(i as int)) > 255 { 255 } else { raw_sum(cs.take(i as int)) }),
            aces == ace_count(cs.take(i as int)),
        decreases cs.len() - i,
    {
        proof {
            assert(cs.take(i as int + 1).drop_last() =~= cs.take(i as int));
            lemma_prefix_counts(cs, i as int + 1);
            lemma_counts_bounds(cs.take(i as int));
        }
        let c = hand.cards[i];
        sum = sum.saturating_add(card_value(c.rank));
        if c.rank == Rank::A {
            aces += 1;
        }
        i += 1;
    }
    proof {
        assert(cs.take(i as int) =~= cs);
        lemma_counts_bounds(cs);
    }
    let mut best = sum;
    let mut soft = false;
    let mut k: u8 = 0;
    while k < aces
        invariant
            hand_ok(cs),
            aces == ace_count(cs),
            sum == (if raw_sum(cs) > 255 { 255 } else { raw_sum(cs) }),
            aces > 0 ==> sum as int == raw_sum(cs),
            sum >= aces,
            k <= aces,
            k == 0 ==> best == sum && !soft,
            k > 0 ==> (best, soft) == spec_totals(cs),
        decreases aces - k,
    {
        if best + 10 <= 21 {
            best += 10;
            soft = true;
        }
        k += 1;
    }
    (best, soft)
}

/// Whether a hand is a natural: two cards totalling 21.  Only a two-card
/// hand is totalled.
pub fn is_blackjack(hand: &Hand) -> (b: bool)
    ensures
        b == spec_is_blackjack(hand.cards@),
{
    if hand.cards.len() != 2 {
        return false;
    }
    proof {
        lemma_counts_bounds(hand.cards@);
    }
    hand.totals().0 == 21
}


pub const NUM_DECKS: usize = 6;
pub const PENETRATION_NUM: usize = 25;
pub const PENETRATION_DEN: usize = 100;

/// The suits in the order a fresh deck holds them.
pub open spec fn suit_at(i: int) -> Suit {
    if i == 0 { Suit::Spades } else if i == 1 { Suit::Hearts } else if i == 2 { Suit::Diamonds } else { Suit::Clubs }
}

/// The ranks in the order a fresh deck holds them (ace first).
pub open spec fn rank_at(i: int) -> Rank {
    if i == 0 { Rank::A } else if i == 1 { Rank::Two } else if i == 2 { Rank::Three } else if i == 3 { Rank::Four }
    else if i == 4 { Rank::Five } else if i == 5 { Rank::Six } else if i == 6 { Rank::Seven } else if i == 7 { Rank::Eight }
    else if i == 8 { Rank::Nine } else if i == 9 { Rank::Ten } else if i == 10 { Rank::J } else if i == 11 { Rank::Q }
    else { Rank::K }
}

/// Card `k` of `decks` fresh decks laid one after another: suit by suit,
/// rank by rank.
pub open spec fn fresh_card(k: int) -> Card {
    Card { rank: rank_at(k % 13), suit: suit_at((k / 13) % 4) }
}

/// `decks` fresh decks laid one after another.
pub open spec fn fresh_cards(decks: nat) -> Seq<Card> {
    Seq::new(decks * 52, |k: int| fresh_card(k))
}

/// The cards still to be dealt, the number of decks, and the cut card: the
/// shoe wants a shuffle once fewer than `cut` cards are left.
#[derive(Clone)]
pub struct Shoe {
    pub cards: Vec<Card>,
    pub decks: usize,
    pub cut: usize,
}

impl Shoe {
    /// `decks` fresh decks, shuffled, with the cut at a quarter of the shoe.
    pub fn new(decks: usize, rng: &mut ChaCha8Rng) -> (s: Shoe)
        requires
            decks * 52 * 25 <= usize::MAX,
        ensures
            s.cards@.to_multiset() == fresh_cards(decks as nat).to_multiset(),
            s.cards@.len() == decks * 52,
            s.decks == decks,
            s.cut == (decks * 52 * PENETRATION_NUM) as int / (PENETRATION_DEN as int),
    {
        let suits = [Suit::Spades, Suit::Hearts, Suit::Diamonds, Suit::Clubs];
        let ranks = [
            Rank::A,
            Rank::Two,
            Rank::Three,
            Rank::Four,
            Rank::Five,
            Rank::Six,
            Rank::Seven,
            Rank::Eight,
            Rank::Nine,
            Rank::Ten,
            Rank::J,
            Rank::Q,
            Rank::K,
        ];
        assert(forall|i: int| 0 <= i < 4 ==> #[trigger] suits@[i] == suit_at(i));
        assert(forall|i: int| 0 <= i < 13 ==> #[trigger] ranks@[i] == rank_at(i));
        let mut cards: Vec<Card> = Vec::new();
        let mut d: usize = 0;
        while d < decks
            invariant
                d <= decks,
                decks * 52 * 25 <= usize::MAX,
                forall|i: int| 0 <= i < 4 ==> #[trigger] suits@[i] == suit_at(i),
                forall|i: int| 0 <= i < 13 ==> #[trigger] ranks@[i] == rank_at(i),
                cards@.len() == d * 52,
                forall|k: int| 0 <= k < cards@.len() ==> #[trigger] cards@[k] == fresh_card(k),
            decreases decks - d,
        {
            let mut si: usize = 0;
            while si < 4
                invariant
                    d < decks,
                    si <= 4,
                    decks * 52 * 25 <= usize::MAX,
                    forall|i: int| 0 <= i < 4 ==> #[trigger] suits@[i] == suit_at(i),
                    forall|i: int| 0 <= i < 13 ==> #[trigger] ranks@[i] == rank_at(i),
                    cards@.len() == d * 52 + si * 13,
                    forall|k: int| 0 <= k < cards@.len() ==> #[trigger] cards@[k] == fresh_card(k),
                decreases 4 - si,
            {
                let mut ri: usize = 0;
                while ri < 13
                    invariant
                        d < decks,
                        si < 4,
                        ri <= 13,
                        decks * 52 * 25 <= usize::MAX,
                        forall|i: int| 0 <= i < 4 ==> #[trigger] suits@[i] == suit_at(i),
                        forall|i: int| 0 <= i < 13 ==> #[trigger] ranks@[i] == rank_at(i),
                        cards@.len() == d * 52 + si * 13 + ri,
                        forall|k: int| 0 <= k < cards@.len() ==> #[trigger] cards@[k] == fresh_card(k),
                    decreases 13 - ri,
                {
                    proof {
                        let k = d * 52 + si * 13 + ri;
                        assert(k % 13 == ri as int && (k / 13) % 4 == si as int) by (nonlinear_arith)
                            requires
                                k == d * 52 + si * 13 + ri,
                                0 <= ri < 13,
                                0 <= si < 4,
                                0 <= d,
                        ;
                        assert(d * 52 + si * 13 + ri < decks * 52) by (nonlinear_arith)
                            requires
                                d < decks,
                                si < 4,
                                ri < 13,
                        ;
                    }
                    cards.push(Card { rank: ranks[ri], suit: suits[si] });
                    ri += 1;
                }
                si += 1;
            }
            d += 1;
        }
        let ghost fresh = cards@;
        assert(fresh =~= fresh_cards(decks as nat));
        shuffle_cards(&mut cards, rng);
        let cut = cards.len() * PENETRATION_NUM / PENETRATION_DEN;
        Shoe { cards, decks, cut }
    }

    /// Takes the next card off the shoe.
    pub fn draw(&mut self) -> (c: Card)
        requires
            old(self).cards@.len() > 0,
        ensures
            c == old(self).cards@.last(),
            final(self).cards@ == old(self).cards@.drop_last(),
            final(self).decks == old(self).decks,
            final(self).cut == old(self).cut,
    {
        self.cards.pop().unwrap()
    }

    pub fn needs_shuffle(&self) -> (b: bool)
        ensures
            b == (self.cards@.len() < self.cut),
    {
        self.cards.len() < self.cut
    }
}

} // verus!
