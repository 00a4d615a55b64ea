use terminal_toys::toys::fluid::resize_cells;
use terminal_toys::toys::aquarium::{can_add_fish, can_remove_fish, next_theme, themes as aqua_themes};
use terminal_toys::toys::orbits::themes as orbit_themes;
use terminal_toys::toys::grayscott::wrap;
use terminal_toys::toys::newton::{balls_after_add, balls_after_remove, theme};
use terminal_toys::toys::palette::Named;

#[test]
fn the_cradle_holds_two_to_nine_balls() {
    assert_eq!(balls_after_add(5), 6);
    assert_eq!(balls_after_add(8), 9);
    assert_eq!(balls_after_add(9), 9);
    assert_eq!(balls_after_remove(5), 4);
    assert_eq!(balls_after_remove(3), 2);
    assert_eq!(balls_after_remove(2), 2);
    assert_eq!(balls_after_remove(0), 2);
}

#[test]
fn cradle_looks_go_round_five() {
    assert_eq!(theme(0), (Named::Cyan, Named::White));
    assert_eq!(theme(3), (Named::Magenta, Named::White));
    assert_eq!(theme(4), (Named::White, Named::Grey));
    assert_eq!(theme(6), (Named::Green, Named::White));
}

#[test]
fn the_grid_wraps_both_ways() {
    assert_eq!(wrap(4, 3, 1, 2), 9);
    assert_eq!(wrap(4, 3, -1, 0), 3);
    assert_eq!(wrap(4, 3, 4, -1), 8);
    assert_eq!(wrap(4, 3, -9, 7), 7);
}

#[test]
fn the_fluid_grid_leaves_room_for_the_panel() {
    assert_eq!(resize_cells(80, 24), (53, 24));
    assert_eq!(resize_cells(30, 5), (12, 8));
    assert_eq!(resize_cells(39, 8), (12, 8));
    assert_eq!(resize_cells(40, 9), (13, 9));
}

#[test]
fn the_aquarium_has_five_looks_and_forty_fish() {
    let t = aqua_themes();
    let names: Vec<&str> = t.iter().map(|x| x.name).collect();
    assert_eq!(names, vec!["Mint", "Amber", "Ice", "Violet", "Mono"]);
    assert_eq!((t[1].water_mid, t[3].fish_b, t[4].bubble), (136, 219, 252));
    assert_eq!(next_theme(3), 4);
    assert_eq!(next_theme(4), 0);
    assert!(can_add_fish(39) && !can_add_fish(40));
    assert!(can_remove_fish(1) && !can_remove_fish(0));
}

#[test]
fn the_orbit_toy_has_five_looks() {
    let t = orbit_themes();
    assert_eq!(t.len(), 5);
    assert_eq!((t[0].name, t[0].star, t[0].trail_dim), ("Mint", Named::Green, Named::DarkGreen));
    assert_eq!((t[4].name, t[4].star, t[4].hud), ("Mono", Named::Grey, Named::White));
}
