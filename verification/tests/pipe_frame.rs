use terminal_toys::toys::pipe_frame::Cells;

#[test]
fn cells_take_the_brightest_colour_of_their_dots() {
    let mut c = Cells::new(2, 1);
    assert_eq!((c.glyphs.clone(), c.cell_rgb.clone()), (vec![' ', ' '], vec![0, 0]));
    // sub-pixel buffer 4 wide, 4 high
    let mut buf = vec![0u32; 16];
    buf[0] = 0xFF0000; // (0, 0) red
    buf[3 * 4 + 1] = 0x00FF00; // (1, 3) green, brighter
    buf[4 + 2] = 0x0000FF; // (2, 1) blue
    buf[4 + 3] = 0x000001; // (3, 1) dimmer blue
    c.pack(&buf);
    assert_eq!(c.glyphs[0] as u32, 0x2800 + 0x01 + 0x80);
    assert_eq!(c.cell_rgb[0], 0x00FF00);
    assert_eq!(c.glyphs[1] as u32, 0x2800 + 0x02 + 0x10);
    assert_eq!(c.cell_rgb[1], 0x0000FF);
    // of two equally bright dots the first colour wins
    let mut buf2 = vec![0u32; 16];
    buf2[0] = 0x010000; // luma 3
    buf2[1] = 0x000003; // luma 3
    c.pack(&buf2);
    assert_eq!(c.cell_rgb[0], 0x010000);
    assert_eq!((c.glyphs[1], c.cell_rgb[1]), (' ', 0));
}

#[test]
fn text_stops_at_the_right_edge() {
    let mut c = Cells::new(4, 2);
    c.put_text(1, 1, "abcdef", 7);
    assert_eq!(c.glyphs, vec![' ', ' ', ' ', ' ', ' ', 'a', 'b', 'c']);
    assert_eq!(c.cell_rgb, vec![0, 0, 0, 0, 0, 7, 7, 7]);
    c.put_text(0, 2, "zz", 9);
    c.put_text(5, 0, "zz", 9);
    assert_eq!(c.glyphs, vec![' ', ' ', ' ', ' ', ' ', 'a', 'b', 'c']);
}
