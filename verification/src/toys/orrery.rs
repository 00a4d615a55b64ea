//! The orrery's notes on the Sun and the planets, from the centre out.

use vstd::prelude::*;

verus! {

/// What the orrery shows of a body besides its orbit.
#[derive(Clone, Copy, Debug)]
pub struct PlanetFacts {
    pub first_observed: &'static str,
    pub discovered_by: &'static str,
    pub atmosphere: &'static str,
    pub trivia: &'static str,
}

/// The notes on the Sun, the eight planets and Pluto, in that order.
pub open spec fn facts_table() -> Seq<PlanetFacts> {
    seq![
        PlanetFacts {
            first_observed: "Known to ancient observers",
            discovered_by: "N/A",
            atmosphere: "Hydrogen and helium plasma",
            trivia: "G2V star; powers the solar system.",
        },
        PlanetFacts {
            first_observed: "Known to ancient observers",
            discovered_by: "N/A",
            atmosphere: "None (trace sodium, oxygen, hydrogen)",
            trivia: "Day longer than its year; extreme temperature swings.",
        },
        PlanetFacts {
            first_observed: "Known to ancient observers",
            discovered_by: "N/A",
            atmosphere: "CO2 ~96%, N2 ~3.5%, sulfuric clouds",
            trivia: "Hottest planet; retrograde rotation.",
        },
        PlanetFacts {
            first_observed: "Known to ancient observers",
            discovered_by: "N/A",
            atmosphere: "N2 ~78%, O2 ~21%, argon + trace gases",
            trivia: "Only world with confirmed surface liquid water.",
        },
        PlanetFacts {
            first_observed: "Known to ancient observers",
            discovered_by: "N/A",
            atmosphere: "CO2 ~95%, N2 ~2.6%, argon ~1.9%",
            trivia: "Home to Olympus Mons, the largest volcano.",
        },
        PlanetFacts {
            first_observed: "Known to ancient observers",
            discovered_by: "N/A",
            atmosphere: "H2 ~90%, He ~10%, methane/ammonia traces",
            trivia: "Great Red Spot is a long-lived storm.",
        },
        PlanetFacts {
            first_observed: "Known to ancient observers",
            discovered_by: "N/A",
            atmosphere: "H2 ~96%, He ~3%, methane traces",
            trivia: "Spectacular rings; lowest density of planets.",
        },
        PlanetFacts {
            first_observed: "1781 (William Herschel)",
            discovered_by: "William Herschel",
            atmosphere: "H2 ~83%, He ~15%, methane ~2%",
            trivia: "Extreme axial tilt; rotates on its side.",
        },
        PlanetFacts {
            first_observed: "1846 (predicted; observed by Galle)",
            discovered_by: "U. Le Verrier, J. Adams; J. G. Galle",
            atmosphere: "H2 ~80%, He ~19%, methane ~1.5%",
            trivia: "Strong winds; dark spot storms appear.",
        },
        PlanetFacts {
            first_observed: "1930 (Clyde Tombaugh)",
            discovered_by: "Clyde Tombaugh",
            atmosphere: "Thin N2 with methane and CO (seasonal)",
            trivia: "Dwarf planet with a complex, icy surface.",
        },
    ]
}

/// The notes on the Sun, the eight planets and Pluto.
pub fn default_facts() -> (v: Vec<PlanetFacts>)
    ensures
        v@ == facts_table(),
        v@.len() == 10,
{
    vec![
        PlanetFacts {
            first_observed: "Known to ancient observers",
            discovered_by: "N/A",
            atmosphere: "Hydrogen and helium plasma",
            trivia: "G2V star; powers the solar system.",
        },
        PlanetFacts {
            first_observed: "Known to ancient observers",
            discovered_by: "N/A",
            atmosphere: "None (trace sodium, oxygen, hydrogen)",
            trivia: "Day longer than its year; extreme temperature swings.",
        },
        PlanetFacts {
            first_observed: "Known to ancient observers",
            discovered_by: "N/A",
            atmosphere: "CO2 ~96%, N2 ~3.5%, sulfuric clouds",
            trivia: "Hottest planet; retrograde rotation.",
        },
        PlanetFacts {
            first_observed: "Known to ancient observers",
            discovered_by: "N/A",
            atmosphere: "N2 ~78%, O2 ~21%, argon + trace gases",
            trivia: "Only world with confirmed surface liquid water.",
        },
        PlanetFacts {
            first_observed: "Known to ancient observers",
            discovered_by: "N/A",
            atmosphere: "CO2 ~95%, N2 ~2.6%, argon ~1.9%",
            trivia: "Home to Olympus Mons, the largest volcano.",
        },
        PlanetFacts {
            first_observed: "Known to ancient observers",
            discovered_by: "N/A",
            atmosphere: "H2 ~90%, He ~10%, methane/ammonia traces",
            trivia: "Great Red Spot is a long-lived storm.",
        },
        PlanetFacts {
            first_observed: "Known to ancient observers",
            discovered_by: "N/A",
            atmosphere: "H2 ~96%, He ~3%, methane traces",
            trivia: "Spectacular rings; lowest density of planets.",
        },
        PlanetFacts {
            first_observed: "1781 (William Herschel)",
            discovered_by: "William Herschel",
            atmosphere: "H2 ~83%, He ~15%, methane ~2%",
            trivia: "Extreme axial tilt; rotates on its side.",
        },
        PlanetFacts {
            first_observed: "1846 (predicted; observed by Galle)",
            discovered_by: "U. Le Verrier, J. Adams; J. G. Galle",
            atmosphere: "H2 ~80%, He ~19%, methane ~1.5%",
            trivia: "Strong winds; dark spot storms appear.",
        },
        PlanetFacts {
            first_observed: "1930 (Clyde Tombaugh)",
            discovered_by: "Clyde Tombaugh",
            atmosphere: "Thin N2 with methane and CO (seasonal)",
            trivia: "Dwarf planet with a complex, icy surface.",
        },
    ]
}

} // verus!
