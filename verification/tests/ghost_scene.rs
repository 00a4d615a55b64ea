use terminal_toys::toys::ghost_screen::{GhostCell, Ink, Screen};
use terminal_toys::toys::ghosts::{
    can_add_ghost, can_remove_ghost, cell_threshold, ink_for, theme, BrailleCanvas, LAYER_BG, LAYER_EYE,
    LAYER_FOREGROUND, LAYER_GHOST_FAR, LAYER_GHOST_NEAR, LAYER_GROUND, LAYER_MOON,
};

#[test]
fn the_night_palette() {
    let th = theme();
    assert_eq!((th.bg, th.fog_deep, th.moon, th.eye, th.hud), (16, 17, 223, 15, 153));
    assert_eq!((th.ghost_near_hi, th.ghost_far_hi, th.ground_dark), (231, 254, 59));
}

#[test]
fn brighter_cells_need_brighter_dots() {
    assert_eq!(cell_threshold(0), 48);
    assert_eq!(cell_threshold(90), 48);
    assert_eq!(cell_threshold(91), 56);
    assert_eq!(cell_threshold(130), 56);
    assert_eq!(cell_threshold(131), 68);
}

#[test]
fn layers_shade_by_brightness() {
    let th = theme();
    assert_eq!(ink_for(th, LAYER_MOON, 0), th.moon);
    assert_eq!(ink_for(th, LAYER_GHOST_NEAR, 191), th.ghost_near_hi);
    assert_eq!(ink_for(th, LAYER_GHOST_NEAR, 190), th.ghost_near_mid);
    assert_eq!(ink_for(th, LAYER_GHOST_NEAR, 132), th.ghost_near_shadow);
    assert_eq!(ink_for(th, LAYER_GHOST_FAR, 119), th.ghost_far_mid);
    assert_eq!(ink_for(th, LAYER_FOREGROUND, 118), th.foreground_dark);
    assert_eq!(ink_for(th, LAYER_GROUND, 83), th.ground_mid);
    assert_eq!(ink_for(th, LAYER_BG, 33), th.fog_deep);
    assert_eq!(ink_for(th, LAYER_BG, 107), th.fog_mid);
    assert_eq!(ink_for(th, LAYER_BG, 152), th.fog_glow);
}

#[test]
fn a_ghost_cell_is_a_full_braille_block() {
    let th = theme();
    let mut c = BrailleCanvas::new(2, 1);
    c.paint_rect(0, 0, 1, 3, 200, LAYER_GHOST_NEAR);
    let (ch, fg) = c.shade_cell(0, 0, th, false);
    assert_eq!((ch as u32, fg), (0x28FF, th.ghost_near_hi));
    // lightning paints ghosts in the moon's colour
    let (_, fg) = c.shade_cell(0, 0, th, true);
    assert_eq!(fg, th.moon);
    // the empty cell beside it: no dots; every layer weighs nothing, and
    // the last of the tied layers (the glow) colours it
    let (ch, fg) = c.shade_cell(1, 0, th, true);
    assert_eq!((ch, fg), (' ', th.glow));
}

#[test]
fn dim_sub_pixels_raise_no_dots() {
    let th = theme();
    let mut c = BrailleCanvas::new(1, 1);
    // a dim cell (mean 25): threshold 48, only the two bright sub-pixels show
    c.add_bg(0, 0, 60);
    c.add_bg(1, 3, 90);
    c.add_bg(0, 1, 40);
    c.paint_rect(1, 1, 1, 1, 10, LAYER_EYE);
    let (ch, _) = c.shade_cell(0, 0, th, false);
    assert_eq!(ch as u32, 0x2800 + 0x01 + 0x80);
}

#[test]
fn the_scene_keeps_between_six_and_eighty_ghosts() {
    assert!(can_add_ghost(79));
    assert!(!can_add_ghost(80));
    assert!(can_remove_ghost(7));
    assert!(!can_remove_ghost(6));
}

#[test]
fn the_screen_prints_everything_once_then_only_changes() {
    let mut s = Screen::new(3, 2, 16);
    assert_eq!(s.pending(), vec![0, 1, 2, 3, 4, 5]);
    s.commit();
    assert!(s.pending().is_empty());
    let cell = GhostCell { ch: 'x', fg: Ink::Palette(15), bg: Ink::Palette(16) };
    s.put(1, 1, cell);
    s.put(-1, 0, cell);
    s.put(3, 0, cell);
    assert_eq!(s.pending(), vec![4]);
    // coordinates are taken as 16-bit
    s.put(65536 + 2, 0, cell);
    assert_eq!(s.pending(), vec![2, 4]);
    s.commit();
    s.clear_back(16);
    assert_eq!(s.pending(), vec![2, 4]);
    s.resize(2, 2, 16);
    assert_eq!(s.pending(), vec![0, 1, 2, 3]);
    assert_eq!(s.back[0], GhostCell { ch: ' ', fg: Ink::Default, bg: Ink::Palette(16) });
}
