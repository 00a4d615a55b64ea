//! The fountain's looks: five named colour themes, chosen by name (any
//! other name gives the first) and cycled in a fixed order.

use vstd::prelude::*;

verus! {

/// A 24-bit colour.
#[derive(Clone, Copy, Debug, PartialEq, Eq, Structural)]
pub struct Rgb {
    pub r: u8,
    pub g: u8,
    pub b: u8,
}

/// A look: the background, the text, the glow of the jet, the water and
/// the stone of the basin.
#[derive(Clone, Copy, Debug)]
pub struct Theme {
    pub name: &'static str,
    pub bg: Rgb,
    pub fg: Rgb,
    pub glow: Rgb,
    pub water: Rgb,
    pub stone: Rgb,
}

pub open spec fn mint() -> Theme {
    Theme {
        name: "mint",
        bg: Rgb { r: 5, g: 7, b: 10 },
        fg: Rgb { r: 165, g: 255, b: 220 },
        glow: Rgb { r: 110, g: 230, b: 205 },
        water: Rgb { r: 40, g: 75, b: 90 },
        stone: Rgb { r: 55, g: 60, b: 68 },
    }
}

pub open spec fn amber() -> Theme {
    Theme {
        name: "amber",
        bg: Rgb { r: 7, g: 6, b: 3 },
        fg: Rgb { r: 255, g: 200, b: 120 },
        glow: Rgb { r: 255, g: 150, b: 70 },
        water: Rgb { r: 70, g: 90, b: 100 },
        stone: Rgb { r: 70, g: 60, b: 40 },
    }
}

pub open spec fn ice() -> Theme {
    Theme {
        name: "ice",
        bg: Rgb { r: 5, g: 7, b: 10 },
        fg: Rgb { r: 170, g: 220, b: 255 },
        glow: Rgb { r: 120, g: 180, b: 255 },
        water: Rgb { r: 40, g: 70, b: 110 },
        stone: Rgb { r: 60, g: 70, b: 80 },
    }
}

pub open spec fn purple() -> Theme {
    Theme {
        name: "purple",
        bg: Rgb { r: 10, g: 5, b: 15 },
        fg: Rgb { r: 210, g: 165, b: 255 },
        glow: Rgb { r: 185, g: 95, b: 255 },
        water: Rgb { r: 55, g: 60, b: 120 },
        stone: Rgb { r: 70, g: 55, b: 90 },
    }
}

pub open spec fn mono() -> Theme {
    Theme {
        name: "mono",
        bg: Rgb { r: 6, g: 6, b: 8 },
        fg: Rgb { r: 235, g: 235, b: 235 },
        glow: Rgb { r: 255, g: 255, b: 255 },
        water: Rgb { r: 70, g: 70, b: 80 },
        stone: Rgb { r: 85, g: 85, b: 90 },
    }
}

/// The theme called `name`; any other name gives mint.
pub open spec fn named(name: Seq<char>) -> Theme {
    if name == "amber"@ {
        amber()
    } else if name == "ice"@ {
        ice()
    } else if name == "purple"@ {
        purple()
    } else if name == "mono"@ {
        mono()
    } else {
        mint()
    }
}

/// The theme after the one called `name` in the order mint, amber, ice,
/// purple, mono, and round again; from an unknown name, amber.
pub open spec fn after(name: Seq<char>) -> Theme {
    if name == "mint"@ {
        amber()
    } else if name == "amber"@ {
        ice()
    } else if name == "ice"@ {
        purple()
    } else if name == "purple"@ {
        mono()
    } else if name == "mono"@ {
        mint()
    } else {
        amber()
    }
}

/// Whether two strings hold the same characters.
pub fn same_text(a: &str, b: &str) -> (r: bool)
    ensures
        r == (a@ == b@),
{
    let n = a.unicode_len();
    if n != b.unicode_len() {
        return false;
    }
    let mut i: usize = 0;
    while i < n
        invariant
            n == a@.len(),
            n == b@.len(),
            i <= n,
            forall|j: int| 0 <= j < i ==> a@[j] == b@[j],
        decreases n - i,
    {
        if a.get_char(i) != b.get_char(i) {
            return false;
        }
        i += 1;
    }
    assert(a@ =~= b@);
    true
}

/// The theme called `name`.
pub fn theme_by_name(name: &str) -> (t: Theme)
    ensures
        t == named(name@),
{
    if same_text(name, "amber") {
        Theme {
            name: "amber",
            bg: Rgb { r: 7, g: 6, b: 3 },
            fg: Rgb { r: 255, g: 200, b: 120 },
            glow: Rgb { r: 255, g: 150, b: 70 },
            water: Rgb { r: 70, g: 90, b: 100 },
            stone: Rgb { r: 70, g: 60, b: 40 },
        }
    } else if same_text(name, "ice") {
        Theme {
            name: "ice",
            bg: Rgb { r: 5, g: 7, b: 10 },
            fg: Rgb { r: 170, g: 220, b: 255 },
            glow: Rgb { r: 120, g: 180, b: 255 },
            water: Rgb { r: 40, g: 70, b: 110 },
            stone: Rgb { r: 60, g: 70, b: 80 },
        }
    } else if same_text(name, "purple") {
        Theme {
            name: "purple",
            bg: Rgb { r: 10, g: 5, b: 15 },
            fg: Rgb { r: 210, g: 165, b: 255 },
            glow: Rgb { r: 185, g: 95, b: 255 },
            water: Rgb { r: 55, g: 60, b: 120 },
            stone: Rgb { r: 70, g: 55, b: 90 },
        }
    } else if same_text(name, "mono") {
        Theme {
            name: "mono",
            bg: Rgb { r: 6, g: 6, b: 8 },
            fg: Rgb { r: 235, g: 235, b: 235 },
            glow: Rgb { r: 255, g: 255, b: 255 },
            water: Rgb { r: 70, g: 70, b: 80 },
            stone: Rgb { r: 85, g: 85, b: 90 },
        }
    } else {
        Theme {
            name: "mint",
            bg: Rgb { r: 5, g: 7, b: 10 },
            fg: Rgb { r: 165, g: 255, b: 220 },
            glow: Rgb { r: 110, g: 230, b: 205 },
            water: Rgb { r: 40, g: 75, b: 90 },
            stone: Rgb { r: 55, g: 60, b: 68 },
        }
    }
}

/// The next theme after `cur` in the cycle.
pub fn cycle_theme(cur: Theme) -> (t: Theme)
    ensures
        t == after(cur.name@),
{
    let order: [&str; 5] = ["mint", "amber", "ice", "purple", "mono"];
    proof {
        reveal_strlit("mint");
        reveal_strlit("amber");
        reveal_strlit("ice");
        reveal_strlit("purple");
        reveal_strlit("mono");
    }
    assert("mint"@ != "mono"@) by {
        assert("mint"@[1] != "mono"@[1]);
    }
    let mut idx: usize = 0;
    let mut i: usize = 0;
    let mut found = false;
    while i < 5 && !found
        invariant
            order@ == seq!["mint", "amber", "ice", "purple", "mono"],
            i <= 5,
            found ==> 1 <= i && idx == i - 1 && cur.name@ == order@[idx as int]@,
            !found ==> idx == 0,
            forall|j: int| 0 <= j < i && (!found || j < idx) ==> cur.name@ != (#[trigger] order@[j])@,
        decreases 5 - i,
    {
        if same_text(order[i], cur.name) {
            idx = i;
            found = true;
        }
        i += 1;
    }
    let next = order[(idx + 1) % 5];
    let t = theme_by_name(next);
    proof {
        assert(order@[0]@ == "mint"@ && order@[1]@ == "amber"@ && order@[2]@ == "ice"@ && order@[3]@ == "purple"@
            && order@[4]@ == "mono"@);
        if !found {
            assert(i == 5);
            assert(cur.name@ != order@[0]@ && cur.name@ != order@[1]@ && cur.name@ != order@[2]@ && cur.name@
                != order@[3]@ && cur.name@ != order@[4]@);
        }
        assert(t == named(next@));
        if idx == 0 {
            assert(next@ == "amber"@);
        } else if idx == 1 {
            assert(next@ == "ice"@);
        } else if idx == 2 {
            assert(next@ == "purple"@);
        } else if idx == 3 {
            assert(next@ == "mono"@);
        } else {
            assert(next@ == "mint"@);
        }
    }
    t
}

} // verus!
