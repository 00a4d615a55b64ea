//! The digital rain's glyph cache: the character shown at each screen cell
//! and how many more frames it stays before a new one is rolled.

use vstd::prelude::*;
use std::collections::HashMap;
use rand::rngs::StdRng;
use crate::rng::std_range_usize;
use crate::pixels::{cp_to_char, valid_scalar};

verus! {

/// A cell's glyph and the frames it has left.
#[derive(Clone, Copy, Debug, PartialEq, Eq, Structural)]
pub struct GlyphState {
    pub ch: char,
    pub ttl: u8,
}

/// The glyph of every cell that has one, by packed cell key.
pub struct GlyphCache {
    pub map: HashMap<u32, GlyphState>,
}

/// A cell (`x`, `y`) as one number: `x` in the high half, `y` in the low.
pub open spec fn cell_key(x: u16, y: u16) -> u32 {
    ((x as u32) * 65536 + (y as u32)) as u32
}

/// Whether the cell of a key lies inside a `w` by `h` screen.
pub open spec fn key_inside(k: u32, w: u16, h: u16) -> bool {
    k / 65536 < w && k % 65536 < h
}

/// The characters the rain is made of: katakana, digits, capitals and a
/// few symbols.
pub open spec fn rain_glyph(c: char) -> bool {
    ||| 0x30A0 <= (c as u32) <= 0x30FF
    ||| '0' <= c <= '9'
    ||| 'A' <= c <= 'Z'
    ||| c == '@' || c == '#' || c == '$' || c == '%' || c == '&' || c == '*' || c == '+' || c == '='
        || c == ':' || c == '/' || c == '<' || c == '>' || c == '-' || c == '|'
}

fn key_inside_exec(k: u32, w: u16, h: u16) -> (b: bool)
    ensures
        b == key_inside(k, w, h),
{
    let x = (k >> 16) & 0xFFFF;
    let y = k & 0xFFFF;
    assert(x == k / 65536 && y == k % 65536) by (bit_vector)
        requires
            x == (k >> 16u32) & 0xFFFFu32,
            y == k & 0xFFFFu32,
    ;
    x < w as u32 && y < h as u32
}

/// Calls `HashMap::retain` with a predicate that keeps the keys of cells
/// inside a `w` by `h` screen; std documents that exactly the entries the
/// predicate accepts remain.
#[verifier::external_body]
fn retain_inside(map: &mut HashMap<u32, GlyphState>, w: u16, h: u16)
    ensures
        final(map)@ == old(map)@.restrict(Set::new(|k: u32| key_inside(k, w, h))),
{
    map.retain(|k, _| key_inside_exec(*k, w, h))
}

/// Symbol `i` (0 to 13) of the rain's symbol set `@#$%&*+=:/<>-|`.
pub open spec fn sym_at(i: int) -> char {
    if i == 0 { '@' } else if i == 1 { '#' } else if i == 2 { '$' } else if i == 3 { '%' } else if i == 4 { '&' }
    else if i == 5 { '*' } else if i == 6 { '+' } else if i == 7 { '=' } else if i == 8 { ':' } else if i == 9 { '/' }
    else if i == 10 { '<' } else if i == 11 { '>' } else if i == 12 { '-' } else { '|' }
}

/// How many glyphs the kind chosen by `roll` (0 to 99) offers: 96 katakana
/// below 75, 10 digits below 90, 26 capitals below 98, else 14 symbols.
pub open spec fn glyph_choices(roll: int) -> int {
    if roll < 75 { 96 } else if roll < 90 { 10 } else if roll < 98 { 26 } else { 14 }
}

/// The glyph of a `roll` (0 to 99) and a `pick` among the glyphs of its
/// kind: katakana `0x30A0 + pick` below 75 (three in four), digit `pick`
/// below 90, capital `pick` below 98, else symbol `pick`.
pub open spec fn glyph_spec(roll: int, pick: int) -> char {
    if roll < 75 {
        (0x30A0 + pick) as char
    } else if roll < 90 {
        ((48 + pick) as u8) as char
    } else if roll < 98 {
        ((65 + pick) as u8) as char
    } else {
        sym_at(pick)
    }
}

/// The glyph of `roll` and `pick`, as `glyph_spec` states it.
pub fn glyph_for(roll: usize, pick: usize) -> (c: char)
    requires
        roll <= 99,
        pick < glyph_choices(roll as int),
    ensures
        c == glyph_spec(roll as int, pick as int),
        rain_glyph(c),
{
    if roll < 75 {
        let code = 0x30A0u32 + pick as u32;
        assert(valid_scalar(code));
        let c = cp_to_char(code);
        assert(c == (0x30A0 + pick) as char);
        c
    } else if roll < 90 {
        (48u8 + pick as u8) as char
    } else if roll < 98 {
        (65u8 + pick as u8) as char
    } else {
        let syms: [char; 14] = ['@', '#', '$', '%', '&', '*', '+', '=', ':', '/', '<', '>', '-', '|'];
        assert(forall|i: int| 0 <= i < 14 ==> #[trigger] syms@[i] == sym_at(i));
        syms[pick]
    }
}

/// A random rain glyph: it draws a roll in `0..=99` and then a pick among
/// the glyphs of the roll's kind, and gives `glyph_for` of the two.
pub fn rand_glyph(rng: &mut StdRng) -> (c: char)
    ensures
        rain_glyph(c),
        exists|roll: int, pick: int|
            0 <= roll <= 99 && 0 <= pick < glyph_choices(roll) && c == #[trigger] glyph_spec(roll, pick),
{
    let roll = std_range_usize(rng, 0, 99);
    let pick = if roll < 75 {
        std_range_usize(rng, 0, 95)
    } else if roll < 90 {
        std_range_usize(rng, 0, 9)
    } else if roll < 98 {
        std_range_usize(rng, 0, 25)
    } else {
        std_range_usize(rng, 0, 13)
    };
    glyph_for(roll, pick)
}

impl GlyphCache {
    pub fn new() -> (c: GlyphCache)
        ensures
            c.map@ == Map::<u32, GlyphState>::empty(),
    {
        GlyphCache { map: HashMap::new() }
    }

    pub fn key(x: u16, y: u16) -> (k: u32)
        ensures
            k == cell_key(x, y),
    {
        let k = ((x as u32) << 16) | (y as u32);
        assert(k == (x as u32) * 65536 + (y as u32)) by (bit_vector)
            requires
                k == ((x as u32) << 16u32) | (y as u32),
        ;
        k
    }

    /// The glyph of cell (`x`, `y`): while its time lasts, the cached one
    /// (a frame of its time spent); once spent (or never rolled), a new
    /// random glyph, kept for `ttl_min` frames (or a random count up to
    /// `ttl_max` when that is larger).
    pub fn get_or_roll(&mut self, x: u16, y: u16, ttl_min: u8, ttl_max: u8, rng: &mut StdRng) -> (c: char)
        ensures
            ({
                let k = cell_key(x, y);
                let old_m = old(self).map@;
                if old_m.contains_key(k) && old_m[k].ttl > 0 {
                    c == old_m[k].ch && final(self).map@ == old_m.insert(k, GlyphState { ch: c, ttl: (old_m[k].ttl - 1) as u8 })
                } else {
                    &&& rain_glyph(c)
                    &&& final(self).map@.dom() == old_m.dom().insert(k)
                    &&& final(self).map@[k].ch == c
                    &&& (if ttl_max <= ttl_min { final(self).map@[k].ttl == ttl_min } else { ttl_min <= final(self).map@[k].ttl <= ttl_max })
                    &&& forall|j: u32| j != k && old_m.contains_key(j) ==> #[trigger] final(self).map@[j] == old_m[j]
                }
            }),
    {
        let k = Self::key(x, y);
        match self.map.get(&k) {
            Some(st) => {
                if st.ttl > 0 {
                    let ch = st.ch;
                    let left = st.ttl - 1;
                    self.map.insert(k, GlyphState { ch, ttl: left });
                    return ch;
                }
            },
            None => {},
        }
        let ch = rand_glyph(rng);
        let ttl = if ttl_max <= ttl_min {
            ttl_min
        } else {
            std_range_usize(rng, ttl_min as usize, ttl_max as usize) as u8
        };
        self.map.insert(k, GlyphState { ch, ttl });
        ch
    }

    /// Forgets the glyph of cell (`x`, `y`).
    pub fn clear_cell(&mut self, x: u16, y: u16)
        ensures
            final(self).map@ == old(self).map@.remove(cell_key(x, y)),
    {
        let k = Self::key(x, y);
        self.map.remove(&k);
    }

    /// Forgets every glyph outside a `w_safe` by `h_safe` screen.
    pub fn prune_outside(&mut self, w_safe: u16, h_safe: u16)
        ensures
            final(self).map@ == old(self).map@.restrict(Set::new(|k: u32| key_inside(k, w_safe, h_safe))),
    {
        retain_inside(&mut self.map, w_safe, h_safe);
    }
}

/// A cell's key gives its coordinates back; so no two cells share a key.
pub proof fn law_cell_key_round_trip(x: u16, y: u16)
    ensures
        cell_key(x, y) / 65536 == x,
        cell_key(x, y) % 65536 == y,
{
}

} // verus!
