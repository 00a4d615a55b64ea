use terminal_toys::toys::orrery_panel::{box_draw, color_to_rgb, put_cell, write_str, OCell, Tone};
use terminal_toys::toys::palette::Named;

fn blank_grid(w: u16, h: u16) -> Vec<OCell> {
    let c = OCell { ch: ' ', fg: Tone::Named(Named::White), bg: Tone::Named(Named::Black) };
    vec![c; (w as usize) * (h as usize)]
}

fn row_text(buf: &[OCell], w: u16, y: u16) -> String {
    let start = (y as usize) * (w as usize);
    buf[start..start + w as usize].iter().map(|c| c.ch).collect()
}

#[test]
fn named_tones_have_their_panel_colours() {
    assert_eq!(color_to_rgb(Tone::Named(Named::Grey)), (170, 170, 170));
    assert_eq!(color_to_rgb(Tone::Named(Named::DarkGrey)), (110, 110, 110));
    assert_eq!(color_to_rgb(Tone::Named(Named::Yellow)), (255, 220, 90));
    assert_eq!(color_to_rgb(Tone::Named(Named::Cyan)), (80, 210, 255));
    assert_eq!(color_to_rgb(Tone::Named(Named::Red)), (255, 90, 80));
    assert_eq!(color_to_rgb(Tone::Named(Named::Blue)), (90, 140, 255));
    assert_eq!(color_to_rgb(Tone::Named(Named::Black)), (200, 200, 200));
    assert_eq!(color_to_rgb(Tone::Rgb(1, 2, 3)), (1, 2, 3));
}

#[test]
fn a_cell_off_the_grid_is_not_written() {
    let mut buf = blank_grid(4, 3);
    let star = OCell { ch: '*', fg: Tone::Named(Named::Yellow), bg: Tone::Named(Named::Black) };
    put_cell(&mut buf, 4, 3, 4, 1, star);
    put_cell(&mut buf, 4, 3, 0, 3, star);
    assert!(buf.iter().all(|c| c.ch == ' '));
    put_cell(&mut buf, 4, 3, 3, 2, star);
    assert_eq!(buf[11], star);
    assert_eq!(row_text(&buf, 4, 2), "   *");
}

#[test]
fn a_string_stops_at_the_right_edge() {
    let mut buf = blank_grid(6, 2);
    let fg = Tone::Rgb(9, 8, 7);
    let bg = Tone::Named(Named::Black);
    write_str(&mut buf, 6, 2, 3, 1, "orrery", fg, bg);
    assert_eq!(row_text(&buf, 6, 0), "      ");
    assert_eq!(row_text(&buf, 6, 1), "   orr");
    assert_eq!(buf[10].fg, fg);
    write_str(&mut buf, 6, 2, 0, 2, "below", fg, bg);
    write_str(&mut buf, 6, 2, 9, 0, "right", fg, bg);
    assert_eq!(row_text(&buf, 6, 0), "      ");
    write_str(&mut buf, 6, 2, 1, 0, "20°C", fg, bg);
    assert_eq!(row_text(&buf, 6, 0), " 20°C ");
}

#[test]
fn a_box_outlines_its_cells() {
    let mut buf = blank_grid(5, 4);
    let fg = Tone::Named(Named::Grey);
    let bg = Tone::Named(Named::Black);
    box_draw(&mut buf, 5, 4, 0, 0, 5, 4, fg, bg);
    assert_eq!(row_text(&buf, 5, 0), "┌───┐");
    assert_eq!(row_text(&buf, 5, 1), "│   │");
    assert_eq!(row_text(&buf, 5, 2), "│   │");
    assert_eq!(row_text(&buf, 5, 3), "└───┘");
    assert_eq!(buf[0].fg, fg);
}

#[test]
fn a_box_past_the_edge_is_clipped() {
    let mut buf = blank_grid(5, 4);
    let fg = Tone::Named(Named::Grey);
    let bg = Tone::Named(Named::Black);
    box_draw(&mut buf, 5, 4, 3, 1, 4, 2, fg, bg);
    assert_eq!(row_text(&buf, 5, 0), "     ");
    assert_eq!(row_text(&buf, 5, 1), "   ┌─");
    assert_eq!(row_text(&buf, 5, 2), "   └─");
    assert_eq!(row_text(&buf, 5, 3), "     ");
}

#[test]
fn a_box_under_two_cells_draws_nothing() {
    let mut buf = blank_grid(5, 4);
    let fg = Tone::Named(Named::Grey);
    let bg = Tone::Named(Named::Black);
    box_draw(&mut buf, 5, 4, 1, 1, 1, 3, fg, bg);
    box_draw(&mut buf, 5, 4, 1, 1, 3, 0, fg, bg);
    assert!(buf.iter().all(|c| c.ch == ' '));
    box_draw(&mut buf, 5, 4, 1, 1, 2, 2, fg, bg);
    assert_eq!(row_text(&buf, 5, 1), " ┌┐  ");
    assert_eq!(row_text(&buf, 5, 2), " └┘  ");
}
