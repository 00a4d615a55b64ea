//! The orbit toy's looks: five themes of named colours for the star, the
//! text and the fading trails.

use vstd::prelude::*;
use crate::toys::palette::Named;

verus! {

/// A look of the orbit toy.
#[derive(Clone, Copy, Debug)]
pub struct OrbitTheme {
    pub name: &'static str,
    pub star: Named,
    pub hud: Named,
    pub trail_dim: Named,
}

/// The looks, in the order they are taken.
pub open spec fn theme_table() -> Seq<OrbitTheme> {
    seq![
        OrbitTheme { name: "Mint", star: Named::Green, hud: Named::White, trail_dim: Named::DarkGreen },
        OrbitTheme { name: "Amber", star: Named::Yellow, hud: Named::White, trail_dim: Named::DarkYellow },
        OrbitTheme { name: "Ice", star: Named::Cyan, hud: Named::White, trail_dim: Named::DarkCyan },
        OrbitTheme { name: "Purple", star: Named::Magenta, hud: Named::White, trail_dim: Named::DarkMagenta },
        OrbitTheme { name: "Mono", star: Named::Grey, hud: Named::White, trail_dim: Named::DarkGrey },
    ]
}

/// The looks.
pub fn themes() -> (t: Vec<OrbitTheme>)
    ensures
        t@ == theme_table(),
{
    let t = vec![
        OrbitTheme { name: "Mint", star: Named::Green, hud: Named::White, trail_dim: Named::DarkGreen },
        OrbitTheme { name: "Amber", star: Named::Yellow, hud: Named::White, trail_dim: Named::DarkYellow },
        OrbitTheme { name: "Ice", star: Named::Cyan, hud: Named::White, trail_dim: Named::DarkCyan },
        OrbitTheme { name: "Purple", star: Named::Magenta, hud: Named::White, trail_dim: Named::DarkMagenta },
        OrbitTheme { name: "Mono", star: Named::Grey, hud: Named::White, trail_dim: Named::DarkGrey },
    ];
    assert(t@ =~= theme_table());
    t
}

} // verus!
