use terminal_toys::toys::frog::{fit_view, themes, Mat, Rgb};
use terminal_toys::toys::frog_game::{field_cell, paint_homes, paint_marks, Frame, FrameCell, HomeClaim, Progress};

// 40 by 20 terminal: a field of 80 by 68 sub-pixels, the lanes from braille
// row 2, so the homes lane covers sub-pixel rows 8 to 11.

#[test]
fn a_run_starts_with_five_lives() {
    let p = Progress::new();
    assert_eq!((p.score, p.lives, p.level, p.paused, p.game_over), (0, 5, 1, false, false));
    assert_eq!(p.homes, [false; 5]);
    assert_eq!(p.best_lane, 12);
}

#[test]
fn the_fifth_lost_life_ends_the_run() {
    let mut p = Progress::new();
    p.best_lane = 3;
    for left in (1..5).rev() {
        assert!(p.lose_life());
        assert_eq!((p.lives, p.game_over, p.best_lane), (left, false, 12));
        p.best_lane = 3;
    }
    assert!(!p.lose_life());
    assert_eq!((p.lives, p.game_over, p.best_lane), (0, true, 3));
}

#[test]
fn climbing_scores_each_new_lane_once() {
    let v = fit_view(40, 20).unwrap();
    let mut p = Progress::new();
    // lane 11 is braille row 13, sub-pixel rows 52 to 55
    p.score_progress(&v, 53);
    assert_eq!((p.best_lane, p.score), (11, 10));
    p.score_progress(&v, 55);
    assert_eq!((p.best_lane, p.score), (11, 10));
    p.score_progress(&v, 48);
    assert_eq!((p.best_lane, p.score), (10, 20));
    // off the lanes: nothing
    p.score_progress(&v, 2);
    assert_eq!((p.best_lane, p.score), (10, 20));
}

#[test]
fn homes_are_claimed_from_the_top_of_the_homes_lane() {
    let v = fit_view(40, 20).unwrap();
    let mut p = Progress::new();
    p.best_lane = 0;
    // not the homes lane
    assert_eq!(p.claim_home(&v, 12, 2), HomeClaim::NotHome);
    // the bottom row of the homes lane is too low
    assert_eq!(p.claim_home(&v, 11, 2), HomeClaim::NotHome);
    assert_eq!(p.claim_home(&v, 9, 2), HomeClaim::Filled);
    assert_eq!(p.homes, [false, false, true, false, false]);
    assert_eq!((p.score, p.best_lane), (50, 12));
    // a taken home, or none at all, costs a life
    assert_eq!(p.claim_home(&v, 9, 2), HomeClaim::Lost);
    assert_eq!((p.lives, p.homes[2]), (4, true));
    assert_eq!(p.claim_home(&v, 8, 5), HomeClaim::Lost);
    assert_eq!(p.claim_home(&v, 8, -1), HomeClaim::Lost);
    assert_eq!(p.lives, 2);
}

#[test]
fn the_last_home_clears_the_level() {
    let v = fit_view(40, 20).unwrap();
    let mut p = Progress::new();
    p.homes = [true, true, false, true, true];
    p.score = 1000;
    assert_eq!(p.claim_home(&v, 10, 2), HomeClaim::Cleared);
    assert_eq!((p.level, p.score, p.homes), (2, 1300, [false; 5]));
    let mut q = Progress::new();
    q.next_level();
    assert_eq!((q.level, q.score), (2, 250));
    q.reset_run();
    assert_eq!((q.level, q.score, q.lives), (1, 0, 5));
}

#[test]
fn roads_are_dashed_and_grass_speckled() {
    let v = fit_view(40, 20).unwrap();
    assert_eq!((v.px_w, v.px_h, v.lane_top), (80, 68, 2));
    let mut buf = vec![Mat::Empty; 80 * 68];
    paint_marks(&mut buf, &v);
    let at = |x: usize, y: usize| buf[y * 80 + x];
    // first road lane (7): sub-pixel rows 36 to 39, dashes on row 38 at tens with an odd tens digit
    for x in 0..80 {
        let want = if (x % 10 == 0 || x % 10 == 1) && (x / 10) % 2 == 1 { Mat::Mark } else { Mat::Empty };
        assert_eq!(at(x, 38), want);
    }
    // second road lane (8): the dashes shift by ten
    assert_eq!(at(0, 42), Mat::Mark);
    assert_eq!(at(10, 42), Mat::Empty);
    // the safe strip (lane 6): a dot every seventeen on row 33
    for x in 0..80 {
        assert_eq!(at(x, 33), if x % 17 == 0 { Mat::Mark } else { Mat::Empty });
    }
    // above the lanes counts as safe ground
    assert_eq!(at(34, 5), Mat::Mark);
    // water is left to the ripples
    for y in 12..28 {
        for x in 0..80 {
            assert_eq!(at(x, y), Mat::Empty);
        }
    }
    // seven grass rows of five dots, five road rows of eight dash pixels
    assert_eq!(buf.iter().filter(|&&m| m == Mat::Mark).count(), 7 * 5 + 5 * 8);
}

#[test]
fn homes_show_filled_and_open() {
    let v = fit_view(40, 20).unwrap();
    let mut buf = vec![Mat::Empty; 80 * 68];
    paint_homes(&mut buf, &v, &[true, false, false, false, false]);
    let at = |x: usize, y: usize| buf[y * 80 + x];
    // slot width 16: slot 0 centred at 8, its block from x 6, rows 9 and 10
    for x in 6..10 {
        assert_eq!(at(x, 9), Mat::Home);
        assert_eq!(at(x, 10), Mat::Home);
    }
    // slot 1 centred at 24: an outline from x 22
    for x in 22..26 {
        assert_eq!(at(x, 9), Mat::Mark);
    }
    assert_eq!((at(22, 10), at(23, 10), at(24, 10), at(25, 10)), (Mat::Mark, Mat::Empty, Mat::Empty, Mat::Mark));
}

#[test]
fn a_cell_packs_its_sub_pixels_into_braille() {
    let v = fit_view(40, 20).unwrap();
    let theme = themes()[0];
    let mut buf = vec![Mat::Empty; 80 * 68];
    // cell (3, 9) covers sub-pixels x 6..8, y 36..40 (the first road lane)
    buf[36 * 80 + 6] = Mat::Mark;
    buf[39 * 80 + 7] = Mat::Car;
    let (ch, fg, bg) = field_cell(&buf, &v, theme, 3, 9);
    assert_eq!(ch as u32, 0x2800 + 0x01 + 0x80);
    assert_eq!(fg, theme.car_fg);
    assert_eq!(bg, theme.road_bg);
    let (ch, fg, bg) = field_cell(&buf, &v, theme, 0, 0);
    assert_eq!((ch, fg, bg), (' ', theme.hud_fg, theme.safe_bg));
    // the homes lane
    let (_, _, bg) = field_cell(&buf, &v, theme, 0, 2);
    assert_eq!(bg, theme.homes_bg);
}

#[test]
fn the_frame_redraws_only_what_changed() {
    let white = Rgb { r: 255, g: 255, b: 255 };
    let black = Rgb { r: 0, g: 0, b: 0 };
    let red = Rgb { r: 200, g: 0, b: 0 };
    let mut f = Frame::new(4, 2);
    assert_eq!(f.cur.len(), 8);
    assert!(f.dirty().is_empty());
    f.put(1, 1, 'x', red, black);
    f.put(4, 0, 'y', red, black);
    assert_eq!(f.dirty(), vec![5]);
    f.put_str(2, 0, "abc", red, black);
    assert_eq!(f.cur[2], FrameCell { ch: 'a', fg: red, bg: black });
    assert_eq!(f.cur[3], FrameCell { ch: 'b', fg: red, bg: black });
    assert_eq!(f.dirty(), vec![2, 3, 5]);
    f.commit();
    assert!(f.dirty().is_empty());
    f.clear_to(white, black);
    assert_eq!(f.dirty(), vec![2, 3, 5]);
    f.resize(2, 2);
    assert_eq!((f.w, f.h, f.cur.len(), f.prev.len()), (2, 2, 4, 4));
}
