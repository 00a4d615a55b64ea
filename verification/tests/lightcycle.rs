use terminal_toys::lightcycle::ai::flood_score;
use terminal_toys::lightcycle::input::{InputAction, InputEvent, InputState, Key};
use terminal_toys::lightcycle::sim::{
    compute_playfield, initial_dir_for_spawn, Coord, Dir, Grid, Round, RoundOutcome, SimConfig, WALL_CELL,
};
use terminal_toys::lightcycle::render::{CellVisual, RenderConfig, Renderer, Shade};
use terminal_toys::lightcycle::util::splitmix64;
use terminal_toys::lightcycle::walls::{point_valid_for_wall, rect_is_valid};

fn config(cycles: usize, screensaver: bool) -> SimConfig {
    SimConfig {
        cycles,
        margin: 1,
        no_reverse: true,
        strict_sim: true,
        allow_reverse_if_only_safe: true,
        screensaver,
    }
}

#[test]
fn headings_and_offsets() {
    assert_eq!(Dir::Up.delta(), (0, -1));
    assert_eq!(Dir::Right.delta(), (1, 0));
    assert_eq!(Dir::Left.opposite(), Dir::Right);
    assert_eq!(Dir::Down.opposite(), Dir::Up);
    assert_eq!(Dir::all().len(), 4);
    let c = Coord { x: 3, y: 4 };
    assert_eq!(c.offset(Dir::Up), Coord { x: 3, y: 3 });
    assert_eq!(c.offset(Dir::Left).offset(Dir::Right), c);
}

#[test]
fn grid_reads_walls_outside() {
    let mut g = Grid::new(4, 3);
    assert_eq!(g.cells.len(), 12);
    assert_eq!(g.get(Coord { x: 1, y: 1 }), 0);
    assert_eq!(g.get(Coord { x: -1, y: 1 }), WALL_CELL);
    assert_eq!(g.get(Coord { x: 4, y: 0 }), WALL_CELL);
    g.set(Coord { x: 2, y: 1 }, 7);
    assert_eq!(g.cells[6], 7);
    assert_eq!(g.get(Coord { x: 2, y: 1 }), 7);
    g.set(Coord { x: 9, y: 9 }, 7);
    assert_eq!(g.cells.iter().filter(|v| **v != 0).count(), 1);
    assert!(g.in_bounds(Coord { x: 3, y: 2 }));
    assert!(!g.in_bounds(Coord { x: 3, y: 3 }));
    assert_eq!(Grid::new(-2, 5).cells.len(), 0);
}

#[test]
fn the_playfield_leaves_room_for_the_hud() {
    let p = compute_playfield(80, 24, 1).unwrap();
    assert_eq!((p.x, p.y, p.width, p.height), (1, 2, 78, 21));
    assert_eq!(p.to_terminal(Coord { x: 0, y: 0 }), Coord { x: 1, y: 2 });
    assert!(compute_playfield(13, 9, 0).is_some());
    assert!(compute_playfield(11, 30, 0).is_none());
    assert!(compute_playfield(40, 8, 0).is_none());
    assert!(compute_playfield(20, 20, 5).is_none());
}

#[test]
fn spawns_head_away_from_the_centre() {
    assert_eq!(initial_dir_for_spawn(Coord { x: 18, y: 5 }, 20, 10), Dir::Right);
    assert_eq!(initial_dir_for_spawn(Coord { x: 1, y: 5 }, 20, 10), Dir::Left);
    assert_eq!(initial_dir_for_spawn(Coord { x: 10, y: 9 }, 20, 10), Dir::Down);
    assert_eq!(initial_dir_for_spawn(Coord { x: 10, y: 5 }, 20, 10), Dir::Up);
}

#[test]
fn seeds_are_mixed() {
    assert_eq!(splitmix64(0), 0xE220A8397B1DCDAF);
    assert_ne!(splitmix64(1), splitmix64(2));
}

#[test]
fn a_new_round_places_every_cycle_apart() {
    let r = Round::new(&config(4, false), 80, 24, 42).unwrap();
    assert_eq!(r.cycles.len(), 4);
    assert!(r.cycles[0].is_player);
    assert_eq!(r.cycles[0].wall_charges, 3);
    assert!(r.cycles[1..].iter().all(|c| !c.is_player && c.wall_charges == 0));
    assert!(r.grid.cells.iter().all(|v| *v == 0));
    for (i, a) in r.cycles.iter().enumerate() {
        assert_eq!(a.id as usize, i + 1);
        assert!(a.alive);
        assert!(r.grid.in_bounds(a.pos));
        for b in &r.cycles[i + 1..] {
            let dx = a.pos.x - b.pos.x;
            let dy = a.pos.y - b.pos.y;
            assert!(dx * dx + dy * dy >= 16);
        }
    }
    assert_eq!(r.alive_count(), 4);
    assert_eq!(r.ai_alive_count(), 3);
    assert!(r.player_alive());
    assert!(Round::new(&config(2, false), 10, 10, 1).is_none());
}

#[test]
fn rounds_are_deterministic_per_seed() {
    let a = Round::new(&config(3, true), 60, 20, 7).unwrap();
    let b = Round::new(&config(3, true), 60, 20, 7).unwrap();
    let pa: Vec<Coord> = a.cycles.iter().map(|c| c.pos).collect();
    let pb: Vec<Coord> = b.cycles.iter().map(|c| c.pos).collect();
    assert_eq!(pa, pb);
}

#[test]
fn a_tick_moves_every_survivor_and_leaves_a_trail() {
    let mut r = Round::new(&config(3, false), 80, 24, 9).unwrap();
    let before: Vec<Coord> = r.cycles.iter().map(|c| c.pos).collect();
    let res = r.tick();
    for (i, c) in r.cycles.iter().enumerate() {
        if c.alive {
            assert_eq!(c.prev_pos, before[i]);
            assert_eq!(c.pos, before[i].offset(c.dir));
            assert_eq!(r.grid.get(before[i]), c.id);
        }
    }
    if res.outcome.is_none() {
        assert!(r.player_alive());
        assert!(r.ai_alive_count() > 0);
    }
}

#[test]
fn a_screensaver_round_ends_in_victory() {
    let mut r = Round::new(&config(2, true), 30, 14, 3).unwrap();
    let mut alive = r.alive_count();
    let mut outcome = None;
    for _ in 0..2000 {
        let res = r.tick();
        assert!(r.alive_count() <= alive);
        alive = r.alive_count();
        if res.outcome.is_some() {
            outcome = res.outcome;
            break;
        }
    }
    assert_eq!(outcome, Some(RoundOutcome::Victory));
    assert_eq!(r.ai_alive_count(), 0);
}

#[test]
fn the_player_steers_and_drops_walls() {
    let mut r = Round::new(&config(2, false), 80, 24, 5).unwrap();
    r.set_player_start_dir(Dir::Left);
    assert_eq!(r.cycles[0].dir, Dir::Left);
    r.queue_player_dir(Some(Dir::Up));
    assert_eq!(r.cycles[0].pending_dir, Some(Dir::Up));
    r.queue_drop_wall();
    assert!(r.cycles[0].drop_wall_pending);
    let pos = r.cycles[0].pos;
    r.tick();
    assert_eq!(r.cycles[0].dir, Dir::Up);
    assert_eq!(r.cycles[0].wall_charges, 2);
    assert!(!r.cycles[0].drop_wall_pending);
    assert_eq!(r.grid.get(pos.offset(Dir::Left)), WALL_CELL);
    let mut s = Round::new(&config(2, true), 80, 24, 5).unwrap();
    let d = s.cycles[0].dir;
    s.queue_player_dir(Some(d.opposite()));
    assert_eq!(s.cycles[0].pending_dir, None);
}

#[test]
fn flood_fill_counts_the_free_region() {
    let mut r = Round::new(&config(2, true), 80, 24, 11).unwrap();
    for c in r.cycles.iter_mut() {
        c.alive = false;
    }
    assert_eq!(flood_score(&r, Coord { x: 5, y: 5 }, 50), 50);
    assert_eq!(flood_score(&r, Coord { x: -1, y: 5 }, 50), -10_000);
    for x in 0..4 {
        r.grid.set(Coord { x, y: 1 }, WALL_CELL);
    }
    r.grid.set(Coord { x: 3, y: 0 }, WALL_CELL);
    assert_eq!(flood_score(&r, Coord { x: 0, y: 0 }, 50), 3);
    assert_eq!(flood_score(&r, Coord { x: 1, y: 0 }, 2), 2);
}

#[test]
fn keys_become_actions_and_headings() {
    let mut s = InputState::default();
    s.handle_event(InputEvent::Key { key: Key::Char('w'), ctrl: false, press: true });
    s.handle_event(InputEvent::Key { key: Key::Left, ctrl: false, press: true });
    s.handle_event(InputEvent::Key { key: Key::Char('q'), ctrl: false, press: true });
    s.handle_event(InputEvent::Key { key: Key::Char('c'), ctrl: true, press: true });
    s.handle_event(InputEvent::Key { key: Key::Char('e'), ctrl: false, press: false });
    s.handle_event(InputEvent::Resize);
    assert_eq!(s.actions, vec![InputAction::Quit, InputAction::Quit]);
    assert!(s.resized);
    assert_eq!(s.take_buffered_dir(), Some(Dir::Left));
    assert_eq!(s.take_buffered_dir(), None);
    s.clear_frame_flags();
    assert!(s.actions.is_empty());
    assert!(!s.resized);
}

#[test]
fn walls_keep_clear_of_spawns_and_trails() {
    let mut g = Grid::new(20, 10);
    let spawns = vec![Coord { x: 2, y: 2 }];
    assert!(rect_is_valid(&g, &spawns, 10, 4, 3, 2, 1, 4));
    assert!(!rect_is_valid(&g, &spawns, 4, 2, 2, 2, 1, 4));
    g.set(Coord { x: 14, y: 6 }, 3);
    assert!(!rect_is_valid(&g, &spawns, 10, 4, 3, 2, 1, 4));
    assert!(rect_is_valid(&g, &spawns, 10, 4, 3, 2, 0, 4));
    assert!(point_valid_for_wall(&g, &spawns, Coord { x: 10, y: 5 }, 4));
    assert!(!point_valid_for_wall(&g, &spawns, Coord { x: 0, y: 5 }, 4));
    assert!(!point_valid_for_wall(&g, &spawns, Coord { x: 5, y: 4 }, 4));
    assert!(point_valid_for_wall(&g, &spawns, Coord { x: 7, y: 4 }, 4));
}

fn row(frame: &[CellVisual], w: usize, y: usize) -> String {
    frame[y * w..(y + 1) * w].iter().map(|c| c.ch).collect()
}

#[test]
fn a_small_terminal_gets_a_note() {
    let r = Renderer::new(40, 5, false);
    assert_eq!(r.prev.len(), 200);
    assert!(r.prev.iter().all(|c| *c == CellVisual::default()));
    let f = r.draw(None, true, RenderConfig { no_color: false, glow: false }, None, false);
    assert_eq!(row(&f, 40, 2), "    Terminal too small for playfield    ");
    assert_eq!(f[2 * 40 + 4].fg, Some(Shade::Ansi(220)));
    assert_eq!(row(&f, 40, 1), " ".repeat(40));
}

#[test]
fn the_arena_is_boxed_and_its_heads_drawn() {
    let round = Round::new(&config(2, true), 30, 14, 3).unwrap();
    let r = Renderer::new(30, 14, true);
    let cfg = RenderConfig { no_color: false, glow: false };
    let f = r.draw(Some(&round), true, cfg, None, false);
    let at = |x: usize, y: usize| f[y * 30 + x];
    assert_eq!(at(0, 1).ch, '\u{250C}');
    assert_eq!(at(29, 1).ch, '\u{2510}');
    assert_eq!(at(0, 13).ch, '\u{2514}');
    assert_eq!(at(29, 13).ch, '\u{2518}');
    assert_eq!(at(5, 1).ch, '\u{2500}');
    assert_eq!(at(0, 5).ch, '\u{2502}');
    assert_eq!(at(5, 1).fg, Some(Shade::Rgb { r: 120, g: 140, b: 175 }));
    for c in &round.cycles {
        let t = round.playfield.to_terminal(c.pos);
        let v = at(t.x as usize, t.y as usize);
        assert_eq!(v.ch, '\u{25CF}');
    }
    let head0 = round.playfield.to_terminal(round.cycles[0].pos);
    assert_eq!(at(head0.x as usize, head0.y as usize).fg, Some(Shade::Rgb { r: 0, g: 240, b: 255 }));
    assert_eq!(row(&f, 30, 0), " ".repeat(30));
}

#[test]
fn trails_walls_and_glow() {
    let mut round = Round::new(&config(2, true), 30, 14, 3).unwrap();
    let before: Vec<Coord> = round.cycles.iter().map(|c| c.pos).collect();
    round.tick();
    round.grid.set(Coord { x: 0, y: 0 }, WALL_CELL);
    let r = Renderer::new(30, 14, false);
    let plain = RenderConfig { no_color: false, glow: false };
    let f = r.draw(Some(&round), true, plain, None, false);
    assert_eq!(f[2 * 30 + 1].ch, '\u{2593}');
    assert_eq!(f[2 * 30 + 1].fg, Some(Shade::Ansi(240)));
    let hidden = r.draw(Some(&round), false, plain, None, false);
    assert_eq!(hidden[2 * 30 + 1], CellVisual::default());
    for (i, c) in round.cycles.iter().enumerate() {
        if c.alive {
            let t = round.playfield.to_terminal(before[i]);
            assert_eq!(f[t.y as usize * 30 + t.x as usize].ch, '\u{2588}');
        }
    }
    let glow = r.draw(Some(&round), true, RenderConfig { no_color: true, glow: true }, None, false);
    assert!(glow.iter().any(|c| c.ch == '\u{00B7}'));
    assert!(glow.iter().all(|c| c.fg.is_none()));
}

#[test]
fn banners_and_prompts_are_centred() {
    let round = Round::new(&config(2, false), 30, 14, 3).unwrap();
    let r = Renderer::new(30, 14, true);
    let cfg = RenderConfig { no_color: false, glow: false };
    let f = r.draw(Some(&round), true, cfg, Some(RoundOutcome::Victory), true);
    assert_eq!(row(&f, 30, 7).chars().skip(11).take(7).collect::<String>(), "VICTORY");
    assert_eq!(f[7 * 30 + 11].fg, Some(Shade::Rgb { r: 255, g: 230, b: 120 }));
    assert_eq!(row(&f, 30, 3), "Press WASD or Arrow Key to sta");
    let mut f = f;
    r.draw_hud(&mut f, "FPS:60.0 Speed:12", cfg);
    assert_eq!(row(&f, 30, 0).chars().take(17).collect::<String>(), "FPS:60.0 Speed:12");
    assert_eq!(f[0].fg, Some(Shade::Rgb { r: 170, g: 190, b: 220 }));
    let mut r2 = Renderer::new(3, 3, false);
    r2.resize(4, 2);
    assert_eq!((r2.width, r2.height, r2.prev.len()), (4, 2, 8));
}

#[test]
fn a_single_cycle_always_finds_a_spawn() {
    for seed in 0..20u64 {
        let r = Round::new(&config(1, false), 14, 11, seed).unwrap();
        assert_eq!(r.cycles.len(), 1);
        assert!(r.cycles[0].is_player);
    }
    let mut rng = <rand::rngs::SmallRng as rand::SeedableRng>::seed_from_u64(5);
    let spawns = terminal_toys::lightcycle::sim::generate_spawns(12, 8, 1, &mut rng);
    assert_eq!(spawns.len(), 1);
    let one = terminal_toys::lightcycle::sim::generate_spawns(12, 8, 0, &mut rng);
    assert_eq!(one.len(), 1);
    let wide = terminal_toys::lightcycle::sim::generate_spawns(40000, 10, 3, &mut rng);
    assert!(!wide.is_empty() && wide.len() <= 3);
    assert!(wide.iter().all(|c| 1 <= c.x && c.x <= 39998 && 1 <= c.y && c.y <= 8));
}

#[test]
fn the_ai_takes_the_roomiest_heading_without_jitter() {
    let round = Round::new(&config(2, true), 40, 20, 3).unwrap();
    let hs = terminal_toys::lightcycle::ai::ai_headings(&round, 1);
    assert!(!hs.is_empty());
    let c = round.cycles[1];
    let w = round.grid.width;
    let h = round.grid.height;
    let cap = ((w * h) / 5).clamp(200, 600) as usize;
    let zero = vec![0i32; hs.len()];
    let d = terminal_toys::lightcycle::ai::choose_dir_with(&round, 1, &zero);
    let score = |e: Dir| terminal_toys::lightcycle::ai::flood_score(&round, c.pos.offset(e), cap) + if e == c.dir { 10 } else { 0 };
    let best = hs.iter().map(|&e| score(e)).max().unwrap();
    assert_eq!(score(d), best);
    let first_best = *hs.iter().find(|&&e| score(e) == best).unwrap();
    assert_eq!(d, first_best);
    // Jitter in -8..=8 can only choose among headings within 16 of the best.
    let mut jitter = vec![-8i32; hs.len()];
    for k in 0..hs.len() {
        jitter[k] = 8;
        let e = terminal_toys::lightcycle::ai::choose_dir_with(&round, 1, &jitter);
        assert!(score(e) + 16 >= best);
        jitter[k] = -8;
    }
}

#[test]
fn spawns_are_taken_greedily_in_order() {
    let mut cands = vec![Coord { x: 5, y: 5 }, Coord { x: 6, y: 5 }, Coord { x: 10, y: 5 }, Coord { x: 10, y: 9 }];
    while cands.len() < 24 {
        cands.push(Coord { x: 5, y: 6 });
    }
    let s = terminal_toys::lightcycle::sim::pick_spawns(20, 12, &cands, 2);
    assert_eq!(s, vec![Coord { x: 5, y: 5 }, Coord { x: 10, y: 5 }]);
    let s = terminal_toys::lightcycle::sim::pick_spawns(20, 12, &cands, 5);
    assert_eq!(s, vec![Coord { x: 5, y: 5 }, Coord { x: 10, y: 5 }, Coord { x: 10, y: 9 }]);
    let s = terminal_toys::lightcycle::sim::pick_spawns(20, 12, &cands, 0);
    assert_eq!(s, vec![Coord { x: 5, y: 5 }]);
}
