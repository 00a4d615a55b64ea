use rand::rngs::StdRng;
use rand::SeedableRng;
use terminal_toys::toys::ants::{Ant, Stage};
use terminal_toys::toys::colony::{census, dig_walk, draw_jolt, ground_from, plant_patches, steer, Colony, Look, Upkeep};

/// A 5 by 3 colony, queen at (2, 1): row 0 all tunnel, row 1 tunnel but
/// for ground at (4, 1), row 2 all ground; food 3 on (1, 0) of patch 0.
fn small() -> Colony {
    let mut terrain = vec![0u8; 15];
    terrain[9] = 1;
    for i in 10..15 {
        terrain[i] = 1;
    }
    let mut food = vec![0u16; 15];
    food[1] = 3;
    let mut ids = vec![-1i16; 15];
    ids[1] = 0;
    Colony {
        w: 5,
        h: 3,
        queen: (2, 1),
        terrain,
        food,
        food_patch_id: ids,
        food_patch_remaining: vec![3],
        food_patch_active: vec![true],
        colony_food: 0,
        queen_cooldown: 0,
    }
}

fn adult(x: i32, y: i32, dir: i32, energy: i32) -> Ant {
    Ant { x, y, dir, carrying: false, age: 1000, energy, phase: Stage::Adult }
}

#[test]
fn a_fresh_colony_has_its_chamber_patches_and_brood() {
    let mut rng = StdRng::seed_from_u64(7);
    let (c, ants) = Colony::new(10, 5, &mut rng);
    assert_eq!((c.w, c.h), (40, 18));
    assert_eq!(c.queen, (20, 9));
    assert_eq!(c.terrain.len(), 40 * 18);
    // the queen's chamber of radius 6 is open
    for oy in -6i32..=6 {
        for ox in -6i32..=6 {
            if ox * ox + oy * oy <= 36 {
                let i = ((9 + oy) * 40 + 20 + ox) as usize;
                assert_eq!(c.terrain[i], 0);
            }
        }
    }
    assert!(c.terrain.iter().all(|&t| t <= 1));
    assert!(c.food_patch_remaining.len() <= 4);
    assert_eq!(c.food_patch_remaining.len(), c.food_patch_active.len());
    // 81 cells in a disc of radius 5, 375 units on each
    assert!(c.food_patch_remaining.iter().all(|&r| r == 81 * 375));
    assert!(c.food_patch_active.iter().all(|&a| a));
    for i in 0..c.food.len() {
        assert_eq!(c.food[i] > 0, c.food_patch_id[i] >= 0);
    }
    assert_eq!(c.colony_food, 0);
    assert_eq!(ants.len(), 150);
    for a in &ants {
        assert!((19..=21).contains(&a.x) && (8..=10).contains(&a.y));
        assert!((0..8).contains(&a.dir) && a.age < 500);
        assert_eq!((a.energy, a.phase, a.carrying), (420, Stage::Adult, false));
    }
}

#[test]
fn a_large_grid_keeps_its_size() {
    let mut rng = StdRng::seed_from_u64(1);
    let (c, _) = Colony::new(60, 25, &mut rng);
    assert_eq!((c.w, c.h, c.queen), (60, 25, (30, 12)));
}

#[test]
fn an_egg_ages_and_rests_on_the_queen() {
    let mut c = small();
    let egg = Ant { x: 0, y: 0, dir: 3, carrying: true, age: 0, energy: 420, phase: Stage::Egg };
    match c.upkeep_with(egg, false, 1) {
        Upkeep::Brood(b) => {
            assert_eq!((b.x, b.y, b.dir, b.carrying, b.age, b.phase), (2, 1, 4, false, 1, Stage::Egg));
        }
        _ => panic!("an egg is brood"),
    }
}

#[test]
fn brood_turns_round_the_compass() {
    let mut c = small();
    let larva = Ant { x: 2, y: 1, dir: 0, carrying: false, age: 200, energy: 420, phase: Stage::Larva };
    match c.upkeep_with(larva, false, -1) {
        Upkeep::Brood(b) => assert_eq!((b.dir, b.phase), (7, Stage::Larva)),
        _ => panic!("a larva is brood"),
    }
}

#[test]
fn a_pupa_of_age_489_becomes_an_adult() {
    let mut c = small();
    let pupa = Ant { x: 0, y: 0, dir: 0, carrying: false, age: 489, energy: 420, phase: Stage::Pupa };
    match c.upkeep_with(pupa, false, 0) {
        Upkeep::Forage(b) => assert_eq!((b.age, b.phase), (490, Stage::Adult)),
        _ => panic!("a new adult forages"),
    }
}

#[test]
fn hunger_and_age_kill_adults() {
    let mut c = small();
    assert!(matches!(c.upkeep_with(adult(0, 0, 0, 0), false, 0), Upkeep::Gone));
    let old = Ant { age: 32_490, ..adult(0, 0, 0, 50) };
    assert!(matches!(c.upkeep_with(old, false, 0), Upkeep::Gone));
    let not_yet = Ant { age: 32_489, ..adult(0, 0, 0, 50) };
    assert!(matches!(c.upkeep_with(not_yet, false, 0), Upkeep::Forage(_)));
}

#[test]
fn an_adult_off_the_grid_is_lost_between_walls_only() {
    let mut c = small();
    assert!(matches!(c.upkeep_with(adult(-1, 0, 0, 50), false, 0), Upkeep::Gone));
    assert!(matches!(c.upkeep_with(adult(-1, 0, 0, 50), true, 0), Upkeep::Forage(_)));
}

#[test]
fn food_delivered_to_the_queen_feeds_the_colony() {
    let mut c = small();
    let carrier = Ant { carrying: true, ..adult(2, 1, 0, 300) };
    match c.upkeep_with(carrier, false, 0) {
        Upkeep::Forage(b) => assert_eq!((b.carrying, b.energy), (false, 420)),
        _ => panic!("a carrier forages"),
    }
    assert_eq!(c.colony_food, 10);
}

#[test]
fn a_hungry_ant_nibbles_the_store() {
    let mut c = small();
    c.colony_food = 5;
    match c.upkeep_with(adult(2, 1, 0, 100), false, 0) {
        Upkeep::Forage(b) => assert_eq!(b.energy, 220),
        _ => panic!("forages"),
    }
    assert_eq!(c.colony_food, 4);
    // not hungry enough: nothing eaten
    match c.upkeep_with(adult(2, 1, 0, 140), false, 0) {
        Upkeep::Forage(b) => assert_eq!(b.energy, 140),
        _ => panic!("forages"),
    }
    assert_eq!(c.colony_food, 4);
}

#[test]
fn picking_up_food_counts_down_its_patch() {
    let mut c = small();
    c.food_patch_remaining = vec![1];
    match c.upkeep_with(adult(1, 0, 0, 50), false, 0) {
        Upkeep::Forage(b) => assert!(b.carrying),
        _ => panic!("forages"),
    }
    assert_eq!(c.food[1], 2);
    assert_eq!(c.food_patch_remaining, vec![0]);
    assert_eq!(c.food_patch_active, vec![false]);
    assert_eq!(c.look(&vec![0u16; 15], 1), Look::Ground);
}

#[test]
fn a_forager_walks_into_open_tunnel() {
    let mut c = small();
    let (b, lay) = c.forage_step(adult(0, 0, 0, 10), 0, false, false, false);
    assert_eq!((b.x, b.y, b.dir, b.energy, lay), (1, 0, 0, 9, true));
    // turning right by an eighth heads south-east
    let (b, _) = c.forage_step(adult(0, 0, 0, 10), 1, false, false, false);
    assert_eq!((b.x, b.y, b.dir), (1, 1, 1));
}

#[test]
fn a_forager_at_the_edge_bounces_without_scent() {
    let mut c = small();
    let (b, lay) = c.forage_step(adult(0, 0, 4, 10), 0, false, false, true);
    assert_eq!((b.x, b.y, b.dir, lay), (0, 0, 5, false));
    // with wrapping it goes round to the far column
    let (b, lay) = c.forage_step(adult(0, 0, 4, 10), 0, true, false, true);
    assert_eq!((b.x, b.y, b.dir, lay), (4, 0, 4, true));
}

#[test]
fn a_blocked_forager_digs_or_bounces() {
    let mut c = small();
    let (b, lay) = c.forage_step(adult(3, 1, 0, 20), 0, false, true, false);
    assert_eq!((b.x, b.y, b.energy, lay), (3, 1, 16, true));
    assert_eq!(c.terrain[9], 0);
    let mut c = small();
    // too tired to dig: it bounces left
    let (b, _) = c.forage_step(adult(3, 1, 0, 9), 0, false, true, false);
    assert_eq!((b.dir, b.energy), (7, 9));
    assert_eq!(c.terrain[9], 1);
}

#[test]
fn scent_is_read_and_laid_on_tunnels_only() {
    let c = small();
    assert_eq!(c.tunnel_cell(1, 1, false), Some(6));
    assert_eq!(c.tunnel_cell(4, 1, false), None);
    assert_eq!(c.tunnel_cell(5, 0, false), None);
    assert_eq!(c.tunnel_cell(5, 0, true), Some(0));
    // three cells ahead of an ant at (0, 0) facing east, turned right: (3, 3) wraps to (3, 0)
    let a = adult(0, 0, 0, 10);
    assert_eq!(c.sensor_cell(&a, 0, 3, false), Some(3));
    assert_eq!(c.sensor_cell(&a, 1, 3, false), None);
    assert_eq!(c.sensor_cell(&a, 1, 3, true), Some(3));
}

#[test]
fn steering_follows_scent_unless_jolted() {
    assert_eq!(steer(true, false, None), -1);
    assert_eq!(steer(false, true, None), 1);
    assert_eq!(steer(false, false, None), 0);
    assert_eq!(steer(true, false, Some(2)), 1);
    assert_eq!(steer(false, true, Some(0)), -1);
    assert_eq!(steer(false, true, Some(1)), 0);
    let mut rng = StdRng::seed_from_u64(3);
    for _ in 0..200 {
        if let Some(k) = draw_jolt(&mut rng) {
            assert!(k < 3);
        }
    }
}

#[test]
fn the_queen_lays_when_fed_and_rested() {
    let mut rng = StdRng::seed_from_u64(5);
    let mut c = small();
    let mut ants = Vec::new();
    c.colony_food = 30;
    c.queen_lay(&mut ants, &mut rng);
    assert_eq!((c.colony_food, c.queen_cooldown, ants.len()), (18, 25, 1));
    assert_eq!((ants[0].x, ants[0].y, ants[0].age, ants[0].phase), (2, 1, 0, Stage::Egg));
    c.queen_lay(&mut ants, &mut rng);
    assert_eq!((c.colony_food, c.queen_cooldown, ants.len()), (18, 24, 1));
    c.queen_cooldown = 0;
    c.colony_food = 11;
    c.queen_lay(&mut ants, &mut rng);
    assert_eq!((c.colony_food, c.queen_cooldown, ants.len()), (11, 0, 1));
}

#[test]
fn cells_show_queen_ants_ground_food_and_tunnel() {
    let c = small();
    let ants = vec![
        adult(0, 0, 0, 10),
        adult(3, 0, 0, 10),
        adult(3, 0, 0, 10),
        adult(3, 0, 0, 10),
        adult(3, 0, 0, 10),
        Ant { phase: Stage::Egg, ..adult(0, 0, 0, 10) },
        adult(9, 9, 0, 10),
    ];
    let occ = c.occupancy(&ants, false);
    assert_eq!((occ[0], occ[3], occ[4]), (1, 4, 0));
    assert_eq!(occ.iter().map(|&v| v as u32).sum::<u32>(), 5);
    let occ_wrapped = c.occupancy(&ants, true);
    // (9, 9) wraps to (4, 0)
    assert_eq!(occ_wrapped[4], 1);
    assert_eq!(c.look(&occ, 7), Look::Queen);
    assert_eq!(c.look(&occ, 3), Look::Swarm);
    assert_eq!(c.look(&occ, 0), Look::Ants);
    assert_eq!(c.look(&occ, 9), Look::Ground);
    assert_eq!(c.look(&occ, 1), Look::Food);
    assert_eq!(c.look(&occ, 2), Look::Tunnel);
    assert_eq!(census(&ants), (1, 0, 0, 6));
}

#[test]
fn ground_draws_become_ground() {
    assert_eq!(ground_from(&vec![true, false, false, true]), vec![1, 0, 0, 1]);
    assert!(ground_from(&Vec::new()).is_empty());
}

#[test]
fn a_straight_walk_digs_a_straight_tunnel() {
    // 12 by 5, all ground; from (5, 2) heading east (0), three steps, no turns.
    let mut t = vec![1u8; 60];
    dig_walk(&mut t, 12, 5, 5, 2, 0, &vec![0, 0, 0]);
    let dug: Vec<usize> = (0..60).filter(|&i| t[i] == 0).collect();
    assert_eq!(dug, vec![2 * 12 + 6, 2 * 12 + 7, 2 * 12 + 8]);
    // Turning by an eighth each step: heading 0 (1, 0), then 1 (1, 1), then 2 (0, 1).
    let mut t = vec![1u8; 60];
    dig_walk(&mut t, 12, 5, 5, 2, 0, &vec![0, 1, 1]);
    let dug: Vec<usize> = (0..60).filter(|&i| t[i] == 0).collect();
    assert_eq!(dug, vec![2 * 12 + 6, 3 * 12 + 7, 4 * 12 + 7]);
    // Wrapping round the right edge.
    let mut t = vec![1u8; 60];
    dig_walk(&mut t, 12, 5, 11, 0, 0, &vec![0]);
    assert_eq!(t[0], 0);
    assert_eq!(t.iter().filter(|&&c| c == 0).count(), 1);
}

#[test]
fn patches_mark_their_discs_and_clear_their_chambers() {
    let mut t = vec![1u8; 40 * 20];
    let (food, ids, rem, act) = plant_patches(&mut t, 40, 20, &vec![(10, 10, false), (13, 10, true)]);
    assert_eq!(rem.len(), 2);
    assert!(act.iter().all(|&a| a));
    // Cell (6, 10) lies only in the first disc, (14, 10) in both: the later patch owns it.
    assert_eq!(ids[10 * 40 + 6], 0);
    assert_eq!(ids[10 * 40 + 14], 1);
    assert_eq!(ids[10 * 40 + 30], -1);
    assert!(food[10 * 40 + 6] >= 375);
    assert_eq!(food[10 * 40 + 30], 0);
    // Only the second patch clears its chamber of radius 2.
    assert_eq!(t[10 * 40 + 13], 0);
    assert_eq!(t[10 * 40 + 15], 0);
    assert_eq!(t[10 * 40 + 16], 1);
    assert_eq!(t[10 * 40 + 10], 1);
}
