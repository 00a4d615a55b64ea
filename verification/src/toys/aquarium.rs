//! The aquarium's looks and its limits: five palette themes taken in
//! turn, and a tank of at most forty fish.

use vstd::prelude::*;

verus! {

pub const MAX_FISH: usize = 40;

/// A look, as indices into the terminal's 256-colour palette: the
/// background, three depths of water, plants, rocks, text, two kinds of
/// fish and the bubbles.
#[derive(Clone, Copy, Debug)]
pub struct AquaTheme {
    pub name: &'static str,
    pub bg: u8,
    pub water_low: u8,
    pub water_mid: u8,
    pub water_hi: u8,
    pub plant: u8,
    pub rock: u8,
    pub hud: u8,
    pub fish_a: u8,
    pub fish_b: u8,
    pub bubble: u8,
}

/// The looks, in the order they are taken.
pub open spec fn theme_table() -> Seq<AquaTheme> {
    seq![
        AquaTheme { name: "Mint", bg: 16, water_low: 23, water_mid: 37, water_hi: 51, plant: 41, rock: 102, hud: 159, fish_a: 229, fish_b: 215, bubble: 159 },
        AquaTheme { name: "Amber", bg: 16, water_low: 94, water_mid: 136, water_hi: 179, plant: 100, rock: 137, hud: 222, fish_a: 220, fish_b: 214, bubble: 223 },
        AquaTheme { name: "Ice", bg: 16, water_low: 19, water_mid: 33, water_hi: 45, plant: 37, rock: 103, hud: 153, fish_a: 255, fish_b: 195, bubble: 159 },
        AquaTheme { name: "Violet", bg: 16, water_low: 17, water_mid: 55, water_hi: 93, plant: 71, rock: 60, hud: 183, fish_a: 225, fish_b: 219, bubble: 189 },
        AquaTheme { name: "Mono", bg: 16, water_low: 236, water_mid: 242, water_hi: 250, plant: 244, rock: 240, hud: 252, fish_a: 254, fish_b: 253, bubble: 252 },
    ]
}

/// The looks.
pub fn themes() -> (t: [AquaTheme; 5])
    ensures
        t@ == theme_table(),
{
    let t = [
        AquaTheme { name: "Mint", bg: 16, water_low: 23, water_mid: 37, water_hi: 51, plant: 41, rock: 102, hud: 159, fish_a: 229, fish_b: 215, bubble: 159 },
        AquaTheme { name: "Amber", bg: 16, water_low: 94, water_mid: 136, water_hi: 179, plant: 100, rock: 137, hud: 222, fish_a: 220, fish_b: 214, bubble: 223 },
        AquaTheme { name: "Ice", bg: 16, water_low: 19, water_mid: 33, water_hi: 45, plant: 37, rock: 103, hud: 153, fish_a: 255, fish_b: 195, bubble: 159 },
        AquaTheme { name: "Violet", bg: 16, water_low: 17, water_mid: 55, water_hi: 93, plant: 71, rock: 60, hud: 183, fish_a: 225, fish_b: 219, bubble: 189 },
        AquaTheme { name: "Mono", bg: 16, water_low: 236, water_mid: 242, water_hi: 250, plant: 244, rock: 240, hud: 252, fish_a: 254, fish_b: 253, bubble: 252 },
    ];
    assert(t@ =~= theme_table());
    t
}

/// The look after look `ix`, round the five.
pub fn next_theme(ix: usize) -> (n: usize)
    requires
        ix < usize::MAX,
    ensures
        n == (ix + 1) % 5,
{
    (ix + 1) % 5
}

/// Whether another fish may join a tank of `n`.
pub fn can_add_fish(n: usize) -> (b: bool)
    ensures
        b == (n < MAX_FISH),
{
    n < MAX_FISH
}

/// Whether a fish may leave a tank of `n`.
pub fn can_remove_fish(n: usize) -> (b: bool)
    ensures
        b == (n > 0),
{
    n > 0
}

} // verus!
