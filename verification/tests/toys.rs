use terminal_toys::pixels::{braille_bit, braille_char, braille_from_2x4, cp_to_char, pack_rgb, ramp_braille, unpack_rgb};
use terminal_toys::toys::ants::{
    carve_room, dir_vec, idx, in_bounds, pad_or_trunc, rotate_dir, try_dig, update_phase, wrap_i32, wrap_xy, Ant, Stage,
};
use terminal_toys::toys::aurora::{draw_text, Rgb};
use terminal_toys::toys::canvas::{clamp_u8, BrailleCanvas};
use terminal_toys::toys::frog::{
    bg_for_lane, fg_for_mat, themes, Rgb as FrogRgb,
    draw_car, draw_frog, draw_log, draw_rect, draw_turtle, fit_view, lane_kind_by_index, lane_of_pixel, mat_priority,
    LaneKind, Mat,
};
use terminal_toys::toys::ghosts;
use terminal_toys::toys::lander::{clamp_i32, is_on_pad, terrain_height_at, write_text_line, Terrain};
use terminal_toys::toys::maze::{choose_turn, dir_is_open, dir_step, is_wall_cell, rem_euclid4, Rng64};
use terminal_toys::toys::noise::{hash2, hash3, hash_u32, shimmer_hash};
use terminal_toys::toys::orrery::default_facts;
use terminal_toys::toys::pipes::{pick_weighted, Dir, World};
use terminal_toys::toys::matrix::{
    default_config, handle_key as rain_key, head_color, init_columns, new_column, step as rain_step, step_ready, Column, RainDraw, RainKey,
    Theme,
};
use terminal_toys::toys::rain::{glyph_for, GlyphCache};

// ---------------------------------------------------------------- pixels

#[test]
fn braille_bits_follow_the_dot_numbering() {
    assert_eq!(braille_bit(0, 0), 0x01);
    assert_eq!(braille_bit(0, 3), 0x40);
    assert_eq!(braille_bit(1, 0), 0x08);
    assert_eq!(braille_bit(1, 3), 0x80);
    assert_eq!(braille_bit(2, 0), 0);
    assert_eq!(braille_char(0), '\u{2800}');
    assert_eq!(braille_char(0xFF), '\u{28FF}');
}

#[test]
fn ramp_adds_dots_in_order() {
    assert_eq!(ramp_braille(0), '\u{2800}');
    assert_eq!(ramp_braille(1), '\u{2801}');
    assert_eq!(ramp_braille(2), '\u{2809}');
    assert_eq!(ramp_braille(8), '\u{28FF}');
    assert_eq!(ramp_braille(50), '\u{28FF}');
}

#[test]
fn braille_from_a_2x4_block() {
    let mut bits = [[false; 2]; 4];
    assert_eq!(braille_from_2x4(bits), '\u{2800}');
    bits[0][0] = true;
    bits[3][1] = true;
    assert_eq!(braille_from_2x4(bits), '\u{2881}');
    bits[1][1] = true;
    assert_eq!(braille_from_2x4(bits), '\u{2891}');
}

#[test]
fn code_points_outside_unicode_become_spaces() {
    assert_eq!(cp_to_char(0x41), 'A');
    assert_eq!(cp_to_char(0xD800), ' ');
    assert_eq!(cp_to_char(0x11_0000), ' ');
}

#[test]
fn packed_colours_round_trip() {
    assert_eq!(pack_rgb(1, 2, 3), 0x010203);
    assert_eq!(unpack_rgb(0x010203), (1, 2, 3));
    assert_eq!(unpack_rgb(pack_rgb(240, 90, 20)), (240, 90, 20));
    assert_eq!(unpack_rgb(0xFF_AB_CD_EF), (0xAB, 0xCD, 0xEF));
}

// ---------------------------------------------------------------- noise

#[test]
fn hashes_match_their_mixing_steps() {
    assert_eq!(hash_u32(0), 0);
    assert_eq!(hash_u32(1), 1753845952);
    assert_eq!(hash_u32(0xdeadbeef), 3861431939);
    assert_eq!(hash2(3, -4, 7), 3277845254);
    assert_eq!(hash3(1, 2, 3, 42), 4220885280);
    assert_eq!(hash3(-5, 0, 7, 0), 2125214012);
    assert_eq!(shimmer_hash(5, 6, 9), 36950899);
    assert_eq!(shimmer_hash(-3, 2, 1), 477836835);
}

// ---------------------------------------------------------------- maze

#[test]
fn maze_walls_follow_the_map() {
    assert!(is_wall_cell(0, 0));
    assert!(!is_wall_cell(1, 1));
    assert!(is_wall_cell(2, 2));
    assert!(is_wall_cell(9, 7));
    assert!(is_wall_cell(23, 12));
    assert!(is_wall_cell(-1, 5));
    assert!(is_wall_cell(24, 3));
    assert!(is_wall_cell(3, 24));
}

#[test]
fn maze_generator_steps_xorshift() {
    let mut r = Rng64::new(2);
    assert_eq!(r.0, 3);
    assert_eq!(r.next_u32(), 3618532066);
    assert_eq!(r.0, 100663299);
    let mut z = Rng64::new(9);
    assert!(!z.one_in(0));
    assert_eq!(z.0, 9);
}

#[test]
fn headings_step_a_cell() {
    assert_eq!(rem_euclid4(-1), 3);
    assert_eq!(dir_step(0), (1, 0));
    assert_eq!(dir_step(5), (0, 1));
    assert_eq!(dir_step(-1), (0, -1));
    assert!(dir_is_open(0, 1, 1));
    assert!(!dir_is_open(2, 1, 1));
}

#[test]
fn the_walker_keeps_to_the_right_wall() {
    let mut r = Rng64::new(5);
    assert_eq!(choose_turn(0, 1, 1, &mut r), 1);
    assert_eq!(r.0, 167772164);
    let mut r = Rng64::new(7);
    assert_eq!(choose_turn(0, 5, 1, &mut r), 0);
    assert_eq!(r.0, 7);
    let mut r = Rng64::new(11);
    assert_eq!(choose_turn(3, 22, 22, &mut r), 3);
    let mut r = Rng64::new(134);
    assert_eq!(choose_turn(0, 1, 1, &mut r), 0);
    assert_eq!(r.0, 152033595967723694);
}

// ---------------------------------------------------------------- ants

#[test]
fn ant_grid_wraps_and_turns() {
    assert_eq!(idx(10, 3, 2), 23);
    assert_eq!(wrap_i32(-1, 5), 4);
    assert_eq!(wrap_i32(12, 5), 2);
    assert_eq!(wrap_xy(10, 5, -1, 7), (9, 2));
    assert!(in_bounds(10, 5, 9, 4));
    assert!(!in_bounds(10, 5, 10, 4));
    assert!(!in_bounds(10, 5, -1, 0));
    assert_eq!(dir_vec(0), (1, 0));
    assert_eq!(dir_vec(-1), (1, -1));
    assert_eq!(dir_vec(10), (0, 1));
    assert_eq!(rotate_dir(7, 3), 2);
    assert_eq!(rotate_dir(0, -1), 7);
}

#[test]
fn labels_are_padded_or_cut() {
    assert_eq!(pad_or_trunc("abc", 5), "abc  ");
    assert_eq!(pad_or_trunc("abcdef", 3), "abc");
    assert_eq!(pad_or_trunc("", 2), "  ");
}

#[test]
fn a_room_is_carved_round_its_centre() {
    let w = 7usize;
    let h = 7usize;
    let mut t = vec![1u8; w * h];
    carve_room(&mut t, w, h, 3, 3, 1);
    for y in 0..h {
        for x in 0..w {
            let dx = x as i32 - 3;
            let dy = y as i32 - 3;
            let expect = if dx * dx + dy * dy <= 1 { 0 } else { 1 };
            assert_eq!(t[y * w + x], expect, "cell {} {}", x, y);
        }
    }
}

#[test]
fn ants_grow_up_by_age() {
    let mut a = Ant { x: 1, y: 2, dir: 3, carrying: false, age: 0, energy: 5, phase: Stage::Adult };
    update_phase(&mut a);
    assert_eq!(a.phase, Stage::Egg);
    a.age = 110;
    update_phase(&mut a);
    assert_eq!(a.phase, Stage::Larva);
    a.age = 280;
    update_phase(&mut a);
    assert_eq!(a.phase, Stage::Pupa);
    a.age = 490;
    update_phase(&mut a);
    assert_eq!(a.phase, Stage::Adult);
    assert_eq!((a.x, a.y, a.dir, a.energy), (1, 2, 3, 5));
}

#[test]
fn digging_opens_soil_ahead() {
    let w = 4usize;
    let h = 3usize;
    let mut t = vec![1u8; w * h];
    assert!(try_dig(&mut t, w, h, 1, 1, 0, false));
    assert_eq!(t[1 * w + 2], 0);
    assert!(!try_dig(&mut t, w, h, 1, 1, 0, false));
    assert!(!try_dig(&mut t, w, h, 3, 1, 0, false));
    assert!(try_dig(&mut t, w, h, 3, 1, 0, true));
    assert_eq!(t[1 * w + 0], 0);
}

// ---------------------------------------------------------------- canvases

#[test]
fn aquarium_canvas_sums_and_dots() {
    assert_eq!(clamp_u8(-5), 0);
    assert_eq!(clamp_u8(300), 255);
    let mut c = BrailleCanvas::new(2, 1);
    assert_eq!((c.sw, c.sh, c.sub.len()), (4, 4, 16));
    assert_eq!(c.sidx(1, 2), Some(9));
    assert_eq!(c.sidx(4, 0), None);
    assert_eq!(c.sidx(-1, 0), None);
    c.add(1, 2, 200);
    c.add(1, 2, 100);
    assert_eq!(c.sub[9], 255);
    c.set_max(0, 0, 40);
    c.set_max(0, 0, 10);
    assert_eq!(c.sub[0], 40);
    assert_eq!(c.sample_avg(0, 0), ((255 + 40) / 8) as u8);
    assert_eq!(c.to_braille_cell(0, 0, 50), 0x20);
    assert_eq!(c.to_braille_cell(0, 0, 30), 0x21);
    assert_eq!(c.to_braille_cell(1, 0, 1), 0);
    c.clear();
    assert!(c.sub.iter().all(|v| *v == 0));
    c.resize(3, 2);
    assert_eq!((c.sw, c.sh, c.sub.len()), (6, 8, 48));
}

#[test]
fn ghost_strokes_keep_the_stronger() {
    let mut c = ghosts::BrailleCanvas::new(1, 1);
    c.set_if_stronger(0, 0, 100, ghosts::LAYER_MOON);
    assert_eq!((c.val[0], c.layer[0]), (100, ghosts::LAYER_MOON));
    c.set_if_stronger(0, 0, 90, ghosts::LAYER_GLOW);
    assert_eq!((c.val[0], c.layer[0]), (100, ghosts::LAYER_MOON));
    c.set_if_stronger(0, 0, 100, ghosts::LAYER_GLOW);
    assert_eq!((c.val[0], c.layer[0]), (100, ghosts::LAYER_GLOW));
    c.set_if_stronger(5, 5, 255, ghosts::LAYER_GLOW);
    assert_eq!(c.val.iter().filter(|v| **v != 0).count(), 1);
}

#[test]
fn ghosts_blend_into_the_ground() {
    let mut c = ghosts::BrailleCanvas::new(1, 1);
    c.paint_rect(0, 0, 1, 0, 100, ghosts::LAYER_GROUND);
    assert_eq!((c.val[0], c.layer[0]), (100, ghosts::LAYER_GROUND));
    assert_eq!((c.val[1], c.layer[1]), (100, ghosts::LAYER_GROUND));
    assert_eq!(c.val[2], 0);
    c.set_if_stronger(0, 0, 200, ghosts::LAYER_GHOST_NEAR);
    assert_eq!((c.val[0], c.layer[0]), (155, ghosts::LAYER_GHOST_NEAR));
    c.set_if_stronger(1, 0, 20, ghosts::LAYER_GHOST_FAR);
    assert_eq!((c.val[1], c.layer[1]), (100, ghosts::LAYER_GROUND));
    c.set_if_stronger(1, 0, 250, ghosts::LAYER_FOREGROUND);
    assert_eq!((c.val[1], c.layer[1]), (250, ghosts::LAYER_FOREGROUND));
}

#[test]
fn ghost_rectangles_clip_and_order_corners() {
    let mut c = ghosts::BrailleCanvas::new(2, 1);
    c.draw_rect(5, 2, -3, 1, 70, ghosts::LAYER_FOREGROUND);
    for y in 0..4i32 {
        for x in 0..4i32 {
            let i = (y * 4 + x) as usize;
            let inside = (1..=2).contains(&y);
            assert_eq!(c.val[i], if inside { 70 } else { 0 }, "sub-pixel {} {}", x, y);
        }
    }
    c.add_bg(0, 1, 250);
    assert_eq!((c.val[4], c.layer[4]), (255, ghosts::LAYER_BG));
}

#[test]
fn ghost_cells_pick_their_heaviest_layer() {
    let mut c = ghosts::BrailleCanvas::new(1, 1);
    assert_eq!(c.dominant_layer(0, 0, 0), 7);
    c.paint_rect(0, 0, 0, 3, 50, ghosts::LAYER_MOON);
    c.paint_rect(1, 0, 1, 0, 120, ghosts::LAYER_EYE);
    assert_eq!(c.dominant_layer(0, 0, 10), ghosts::LAYER_MOON);
    assert_eq!(c.dominant_layer(0, 0, 60), ghosts::LAYER_EYE);
    assert_eq!(c.sample_avg(0, 0), ((50 * 4 + 120) / 8) as u8);
    assert_eq!(c.to_braille_cell(0, 0, 60), 0x08);
    c.clear();
    assert!(c.layer.iter().all(|l| *l == ghosts::LAYER_BG));
}

#[test]
fn aurora_text_stops_at_the_edge() {
    let w = 5usize;
    let h = 2usize;
    let blank = Rgb { r: 0, g: 0, b: 0 };
    let white = Rgb { r: 255, g: 255, b: 255 };
    let mut chars = vec![' '; w * h];
    let mut rgbs = vec![blank; w * h];
    draw_text(&mut chars, &mut rgbs, w, h, 3, 1, "abc", white);
    assert_eq!(chars.iter().collect::<String>(), "        ab");
    assert_eq!(rgbs[8], white);
    assert_eq!(rgbs[7], blank);
    draw_text(&mut chars, &mut rgbs, w, h, 0, 2, "zz", white);
    assert_eq!(chars.iter().collect::<String>(), "        ab");
}

#[test]
fn the_orrery_knows_ten_bodies() {
    let f = default_facts();
    assert_eq!(f.len(), 10);
    assert_eq!(f[3].trivia, "Only world with confirmed surface liquid water.");
    assert_eq!(f[7].discovered_by, "William Herschel");
    assert_eq!(f[9].first_observed, "1930 (Clyde Tombaugh)");
}

// ---------------------------------------------------------------- lander

#[test]
fn terrain_wraps_round_and_finds_the_pad() {
    let t = Terrain { h: vec![5, 6, 7, 8], pad_x0: 1, pad_x1: 3, pad_y: 6 };
    assert_eq!(terrain_height_at(&t, 0), 5);
    assert_eq!(terrain_height_at(&t, -1), 8);
    assert_eq!(terrain_height_at(&t, 9), 6);
    assert!(is_on_pad(&t, 2));
    assert!(!is_on_pad(&t, 3));
    assert!(is_on_pad(&t, -3));
    assert_eq!(clamp_i32(5, 0, 3), 3);
    assert_eq!(clamp_i32(-5, 0, 3), 0);
}

#[test]
fn text_lines_leave_the_last_column() {
    let mut buf = vec![b'.'; 12];
    write_text_line(&mut buf, 4, 1, "hello");
    assert_eq!(&buf, b"....hel.....");
    write_text_line(&mut buf, 4, 3, "x");
    assert_eq!(&buf, b"....hel.....");
}

// ---------------------------------------------------------------- frogger

#[test]
fn frogger_view_and_lanes() {
    assert!(fit_view(39, 30).is_none());
    assert!(fit_view(80, 9).is_none());
    let v = fit_view(80, 24).unwrap();
    assert_eq!((v.play_y, v.play_h, v.px_w, v.px_h, v.lane_top), (2, 21, 160, 84, 4));
    assert_eq!(lane_of_pixel(&v, 15), None);
    assert_eq!(lane_of_pixel(&v, 16), Some(0));
    assert_eq!(lane_of_pixel(&v, 16 + 4 * 12 + 3), Some(12));
    assert_eq!(lane_of_pixel(&v, 16 + 4 * 13), None);
    let small = fit_view(40, 10).unwrap();
    assert_eq!(small.lane_top, -3);
    assert_eq!(lane_of_pixel(&small, 0), Some(3));
    assert_eq!(lane_kind_by_index(0), LaneKind::Homes);
    assert_eq!(lane_kind_by_index(3), LaneKind::Water);
    assert_eq!(lane_kind_by_index(6), LaneKind::Safe);
    assert_eq!(lane_kind_by_index(11), LaneKind::Road);
    assert_eq!(lane_kind_by_index(12), LaneKind::Start);
    assert_eq!(lane_kind_by_index(-4), LaneKind::Start);
}

#[test]
fn sprites_paint_by_priority() {
    assert!(mat_priority(Mat::Frog) > mat_priority(Mat::Car));
    let w = 12;
    let h = 4;
    let mut buf = vec![Mat::Empty; (w * h) as usize];
    draw_rect(&mut buf, w, h, -2, -1, 4, 2, Mat::Log);
    assert_eq!(buf[0], Mat::Log);
    assert_eq!(buf[1], Mat::Log);
    assert_eq!(buf[2], Mat::Empty);
    assert_eq!(buf[w as usize], Mat::Empty);
    draw_rect(&mut buf, w, h, 0, 0, 1, 1, Mat::Mark);
    assert_eq!(buf[0], Mat::Log);
    draw_frog(&mut buf, w, h, 10, 2);
    assert_eq!(buf[(2 * w + 10) as usize], Mat::Frog);
    assert_eq!(buf[(2 * w + 11) as usize], Mat::Frog);
    assert_eq!(buf[(3 * w + 10) as usize], Mat::Frog);
    assert_eq!(buf[(3 * w + 11) as usize], Mat::Frog);
}

#[test]
fn cars_logs_and_turtles() {
    let w = 16;
    let h = 3;
    let mut buf = vec![Mat::Empty; (w * h) as usize];
    draw_car(&mut buf, w, h, 0, 0, 10);
    assert_eq!(buf[0], Mat::Car);
    assert_eq!(buf[(w + 2) as usize], Mat::Car);
    assert_eq!(buf[(2 * w + 9) as usize], Mat::Car);
    let mut buf = vec![Mat::Empty; (w * h) as usize];
    draw_log(&mut buf, w, h, 1, 0, 5);
    assert_eq!(buf[1], Mat::Log);
    assert_eq!(buf[2], Mat::Log);
    assert_eq!(buf[(w + 5) as usize], Mat::Log);
    let mut buf = vec![Mat::Empty; (w * h) as usize];
    draw_turtle(&mut buf, w, h, 0, 0, 8, false);
    assert_eq!(buf[2], Mat::Mark);
    assert_eq!(buf.iter().filter(|m| **m == Mat::Mark).count(), 1);
    let mut buf = vec![Mat::Empty; (w * h) as usize];
    draw_turtle(&mut buf, w, h, 0, 0, 8, true);
    assert_eq!(buf[0], Mat::Turtle);
    assert_eq!(buf[1], Mat::Turtle);
    assert_eq!(buf[7], Mat::Turtle);
    assert_eq!(buf[8], Mat::Empty);
    assert_eq!(buf[(w + 1) as usize], Mat::Turtle);
}

// ---------------------------------------------------------------- pipes

#[test]
fn pipe_directions() {
    assert_eq!(Dir::all().len(), 6);
    assert_eq!(Dir::Xp.opposite(), Dir::Xm);
    assert_eq!(Dir::Zm.opposite(), Dir::Zp);
    assert_eq!(Dir::Ym.delta(), (0, -1, 0));
    assert_eq!(Dir::Zp.axis(), 2);
    assert_eq!(Dir::Yp.idx(), 2);
}

#[test]
fn edge_keys_are_undirected() {
    let w = World::new(1, 8, 8, 8);
    assert_eq!(w.head, (4, 4, 4));
    assert_eq!(w.edge_key((1, 2, 3), Dir::Xp), 3147777);
    assert_eq!(w.edge_key((2, 2, 3), Dir::Xm), 3147777);
    assert_eq!(w.edge_key((1, 2, 3), Dir::Yp), w.edge_key((1, 3, 3), Dir::Ym));
    assert!(w.in_bounds((7, 0, 0)));
    assert!(!w.in_bounds((8, 0, 0)));
}

#[test]
fn weighted_picks_walk_the_weights() {
    let c = vec![(Dir::Xp, 400u32), (Dir::Yp, 100u32), (Dir::Zp, 120u32)];
    assert_eq!(pick_weighted(&c, 0), Dir::Xp);
    assert_eq!(pick_weighted(&c, 399), Dir::Xp);
    assert_eq!(pick_weighted(&c, 400), Dir::Yp);
    assert_eq!(pick_weighted(&c, 500), Dir::Zp);
    assert_eq!(pick_weighted(&c, 10_000), Dir::Zp);
}

#[test]
fn pipes_never_reuse_an_edge() {
    let mut w = World::new(7, 4, 4, 4);
    let mut seen = std::collections::HashSet::new();
    for _ in 0..200 {
        match w.step() {
            Some((from, to, d)) => {
                let k = w.edge_key(from, d);
                assert!(seen.insert(k), "edge reused");
                assert!(w.in_bounds(to));
                assert_eq!(w.head, to);
            }
            None => break,
        }
    }
    w.cycle_palette();
    assert_eq!(w.current_color(), (70, 220, 120));
    w.reset();
    assert_eq!(w.head, (2, 2, 2));
    assert!(w.occupied_edges.is_empty());
}

// ---------------------------------------------------------------- rain

#[test]
fn rain_cache_keys_and_pruning() {
    assert_eq!(GlyphCache::key(3, 4), (3 << 16) | 4);
    let mut c = GlyphCache::new();
    let mut rng = <rand::rngs::StdRng as rand::SeedableRng>::seed_from_u64(5);
    let a = c.get_or_roll(1, 1, 2, 2, &mut rng);
    assert_eq!(c.map.get(&GlyphCache::key(1, 1)).unwrap().ttl, 2);
    assert_eq!(c.get_or_roll(1, 1, 2, 2, &mut rng), a);
    assert_eq!(c.map.get(&GlyphCache::key(1, 1)).unwrap().ttl, 1);
    c.get_or_roll(9, 9, 0, 0, &mut rng);
    c.prune_outside(5, 5);
    assert!(c.map.contains_key(&GlyphCache::key(1, 1)));
    assert!(!c.map.contains_key(&GlyphCache::key(9, 9)));
    c.clear_cell(1, 1);
    assert!(c.map.is_empty());
}

// ---------------------------------------------------------------- frogger looks

#[test]
fn frogger_has_three_looks() {
    let t = themes();
    assert_eq!(t.len(), 3);
    assert_eq!(t[0].name, "Mint CRT");
    assert_eq!(t[1].name, "Amber Terminal");
    assert_eq!(t[2].name, "JoshNet Purple");
    assert_eq!(bg_for_lane(t[0], LaneKind::Water), FrogRgb { r: 7, g: 12, b: 20 });
    assert_eq!(bg_for_lane(t[0], LaneKind::Homes), t[0].homes_bg);
    assert_eq!(fg_for_mat(t[0], Mat::Frog), FrogRgb { r: 180, g: 255, b: 120 });
    assert_eq!(fg_for_mat(t[2], Mat::Mark), t[2].accent_fg);
    assert_eq!(fg_for_mat(t[1], Mat::Empty), t[1].hud_fg);
}

// ---------------------------------------------------------------- digital rain

fn std_rng(seed: u64) -> rand::rngs::StdRng {
    <rand::rngs::StdRng as rand::SeedableRng>::seed_from_u64(seed)
}

fn is_rain_glyph(c: char) -> bool {
    ('\u{30A0}'..='\u{30FF}').contains(&c) || c.is_ascii_digit() || c.is_ascii_uppercase() || "@#$%&*+=:/<>-|".contains(c)
}

fn skeleton(ops: &[RainDraw]) -> Vec<(u8, u16, u16, i32, i32)> {
    ops.iter()
        .map(|o| match *o {
            RainDraw::Erase { x, y } => (0, x, y, 0, 0),
            RainDraw::Head { x, y, ch } => {
                assert!(is_rain_glyph(ch));
                (1, x, y, 0, 0)
            }
            RainDraw::Tail { x, y, ch, i, max_i } => {
                assert!(is_rain_glyph(ch));
                (2, x, y, i, max_i)
            }
        })
        .collect()
}

#[test]
fn columns_start_above_the_screen() {
    let mut rng = std_rng(3);
    for _ in 0..50 {
        let c = new_column(4, 40, &mut rng);
        assert_eq!(c.x, 4);
        assert!((-40..=0).contains(&c.head_y));
        assert!((1..=2).contains(&c.speed));
        assert!((10..=30).contains(&c.length));
        assert_eq!(c.tick_accum, 0);
    }
    let cfg = default_config();
    assert!(init_columns(0, 10, &mut rng, &cfg).is_empty());
    let cols = init_columns(30, 20, &mut rng, &cfg);
    assert!(!cols.is_empty());
    assert!(cols.len() <= 60);
    assert!(cols.iter().all(|c| c.x < 29));
    assert!(cols.windows(2).all(|p| p[0].x <= p[1].x));
}

#[test]
fn a_column_falls_a_row_and_draws_its_tail() {
    let mut cfg = default_config();
    cfg.shimmer = false;
    let mut cache = GlyphCache::new();
    let mut rng = std_rng(1);
    let mut cols = vec![Column { x: 2, head_y: 3, speed: 1, length: 10, tick_accum: 0 }];
    let ops = rain_step(&mut cols, 10, 12, &mut rng, &cfg, &mut cache);
    assert_eq!(
        skeleton(&ops),
        vec![(1, 2, 4, 0, 0), (2, 2, 3, 1, 26), (2, 2, 2, 2, 26), (2, 2, 1, 3, 26), (2, 2, 0, 4, 26)]
    );
    assert_eq!(cols[0], Column { x: 2, head_y: 4, speed: 1, length: 10, tick_accum: 0 });
}

#[test]
fn a_fast_column_falls_two_rows() {
    let mut cfg = default_config();
    cfg.shimmer = false;
    cfg.tail_draw = 2;
    let mut cache = GlyphCache::new();
    let mut rng = std_rng(1);
    let mut cols = vec![Column { x: 0, head_y: 0, speed: 2, length: 10, tick_accum: 0 }, Column { x: 9, head_y: 0, speed: 2, length: 10, tick_accum: 0 }];
    let ops = rain_step(&mut cols, 10, 12, &mut rng, &cfg, &mut cache);
    assert_eq!(
        skeleton(&ops),
        vec![(1, 0, 1, 0, 0), (2, 0, 0, 1, 4), (1, 0, 2, 0, 0), (2, 0, 1, 1, 4), (2, 0, 0, 2, 4)]
    );
    assert_eq!(cols[0].head_y, 2);
    assert_eq!(cols[1], Column { x: 9, head_y: 0, speed: 2, length: 10, tick_accum: 0 });
}

#[test]
fn a_column_off_the_bottom_starts_again() {
    let mut cfg = default_config();
    cfg.shimmer = false;
    let mut cache = GlyphCache::new();
    let mut rng = std_rng(9);
    let mut cols = vec![Column { x: 1, head_y: 30, speed: 1, length: 10, tick_accum: 0 }];
    let ops = rain_step(&mut cols, 10, 12, &mut rng, &cfg, &mut cache);
    let expect: Vec<(u8, u16, u16, i32, i32)> = (21..=26).map(|i| (2, 1, (31 - i) as u16, i, 26)).collect();
    assert_eq!(skeleton(&ops), expect);
    let c = cols[0];
    assert!((-11..=-1).contains(&c.head_y));
    assert!((1..=2).contains(&c.speed));
    assert!((10..=30).contains(&c.length));
}

#[test]
fn an_erased_row_forgets_its_glyph() {
    let mut cfg = default_config();
    cfg.shimmer = false;
    let mut cache = GlyphCache::new();
    let mut rng = std_rng(2);
    let mut cols = vec![Column { x: 3, head_y: 10, speed: 1, length: 10, tick_accum: 0 }];
    cache.get_or_roll(3, 1, 9, 9, &mut rng);
    let ops = rain_step(&mut cols, 10, 30, &mut rng, &cfg, &mut cache);
    assert_eq!(ops[0], RainDraw::Erase { x: 3, y: 1 });
    assert_eq!(ops[1], RainDraw::Head { x: 3, y: 11, ch: match ops[1] { RainDraw::Head { ch, .. } => ch, _ => ' ' } });
}

#[test]
fn shimmer_stays_on_screen() {
    let cfg = default_config();
    let mut cache = GlyphCache::new();
    let mut rng = std_rng(4);
    let mut cols = init_columns(20, 15, &mut rng, &cfg);
    for _ in 0..100 {
        let ops = rain_step(&mut cols, 20, 15, &mut rng, &cfg, &mut cache);
        for (kind, x, y, i, max_i) in skeleton(&ops) {
            assert!(x < 19 && y < 14);
            if kind == 2 {
                assert!(1 <= i && i <= max_i);
            }
        }
        assert!(cols.iter().all(|c| c.tick_accum == 0 && (1..=2).contains(&c.speed)));
    }
}

#[test]
fn rain_keys_tune_the_settings() {
    let mut cfg = default_config();
    assert_eq!(rain_key(RainKey::Char('+'), &mut cfg).quit, false);
    assert_eq!(cfg.frame_ms, 35);
    cfg.frame_ms = 12;
    rain_key(RainKey::Char('='), &mut cfg);
    assert_eq!(cfg.frame_ms, 10);
    cfg.frame_ms = 118;
    rain_key(RainKey::Char('-'), &mut cfg);
    assert_eq!(cfg.frame_ms, 120);
    cfg.density_pct = 95;
    assert!(rain_key(RainKey::Char(']'), &mut cfg).reinit);
    assert_eq!(cfg.density_pct, 98);
    cfg.density_pct = 8;
    rain_key(RainKey::Char('['), &mut cfg);
    assert_eq!(cfg.density_pct, 5);
    rain_key(RainKey::Char('c'), &mut cfg);
    assert_eq!(cfg.theme, Theme::Purple);
    assert_eq!(Theme::Ice.next(), Theme::Green);
    let o = rain_key(RainKey::Char('r'), &mut cfg);
    assert!(o.reseed && o.reinit && !o.quit);
    assert!(rain_key(RainKey::Esc, &mut cfg).quit);
    assert!(rain_key(RainKey::Char('q'), &mut cfg).quit);
    let before = cfg;
    let o = rain_key(RainKey::Char('z'), &mut cfg);
    assert!(!o.quit && !o.reinit && !o.reseed);
    assert_eq!(cfg, before);
    assert_eq!(head_color(Theme::Amber), (255, 235, 180));
}

#[test]
fn one_row_screens_cannot_restart_columns() {
    let falling = vec![Column { x: 0, head_y: 0, speed: 1, length: 10, tick_accum: 0 }];
    assert!(step_ready(&falling, 10, 12));
    assert!(step_ready(&falling, 10, 1));
    let leaving = vec![Column { x: 0, head_y: 20, speed: 1, length: 10, tick_accum: 0 }];
    assert!(!step_ready(&leaving, 10, 1));
    assert!(step_ready(&leaving, 1, 1));
    assert!(step_ready(&leaving, 10, 2));
}

#[test]
fn column_density_and_doubles_at_their_limits() {
    let mut rng = std_rng(8);
    let mut cfg = default_config();
    cfg.density_pct = 100;
    cfg.double_enabled = true;
    cfg.double_pct = 100;
    let cols = init_columns(12, 20, &mut rng, &cfg);
    assert_eq!(cols.len(), 22);
    for x in 0..11u16 {
        assert!(cols.iter().any(|c| c.x == x));
    }
    assert_eq!(cols[20].x, 10);
    assert_eq!(cols[21].x, 10);
    cfg.double_enabled = false;
    let cols = init_columns(12, 20, &mut rng, &cfg);
    let xs: Vec<u16> = cols.iter().map(|c| c.x).collect();
    assert_eq!(xs, (0..11u16).collect::<Vec<u16>>());
    cfg.density_pct = 0;
    assert!(init_columns(12, 20, &mut rng, &cfg).is_empty());
}

#[test]
fn a_roll_and_a_pick_name_the_glyph() {
    assert_eq!(glyph_for(0, 0), '\u{30A0}');
    assert_eq!(glyph_for(74, 95), '\u{30FF}');
    assert_eq!(glyph_for(75, 0), '0');
    assert_eq!(glyph_for(89, 9), '9');
    assert_eq!(glyph_for(90, 0), 'A');
    assert_eq!(glyph_for(97, 25), 'Z');
    assert_eq!(glyph_for(98, 0), '@');
    assert_eq!(glyph_for(99, 13), '|');
    assert_eq!(glyph_for(99, 9), '/');
}
