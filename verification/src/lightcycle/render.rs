//! The arena as terminal cells: trails and walls, glow round the heads,
//! the heads, the border, the banner and the start prompt, and the HUD row.
//! What a frame holds is computed here; putting it on the terminal is the
//! caller's.

use vstd::prelude::*;
use super::sim::{Coord, Cycle, GridModel, Playfield, Round, RoundOutcome, WALL_CELL};

verus! {

/// A terminal colour: a 24-bit one, or one of the 256 indexed colours.
#[derive(Clone, Copy, Debug, PartialEq, Eq, Structural)]
pub enum Shade {
    Rgb { r: u8, g: u8, b: u8 },
    Ansi(u8),
}

/// What one terminal cell shows; no colour means the terminal's own.
#[derive(Clone, Copy, Debug, PartialEq, Eq, Structural)]
pub struct CellVisual {
    pub ch: char,
    pub fg: Option<Shade>,
    pub bg: Option<Shade>,
}

pub open spec fn blank() -> CellVisual {
    CellVisual { ch: ' ', fg: None, bg: None }
}

impl Default for CellVisual {
    fn default() -> (c: CellVisual)
        ensures
            c == blank(),
    {
        CellVisual { ch: ' ', fg: None, bg: None }
    }
}

/// Whether to draw in colour, and whether to draw glow round the heads.
#[derive(Clone, Copy, Debug, PartialEq, Eq, Structural)]
pub struct RenderConfig {
    pub no_color: bool,
    pub glow: bool,
}

/// A terminal of `width` by `height` cells, the frame last put on it, and
/// whether it shows 24-bit colour.
#[derive(Clone, Debug)]
pub struct Renderer {
    pub width: u16,
    pub height: u16,
    pub prev: Vec<CellVisual>,
    pub truecolor: bool,
}

// ---------------------------------------------------------------------
// Colours.

pub open spec fn pick_shade(tc: bool, r: u8, g: u8, b: u8, ansi: u8) -> Shade {
    if tc { Shade::Rgb { r, g, b } } else { Shade::Ansi(ansi) }
}

pub open spec fn fixed_color(tc: bool, cfg: RenderConfig, r: u8, g: u8, b: u8, ansi: u8) -> Option<Shade> {
    if cfg.no_color { None } else { Some(pick_shade(tc, r, g, b, ansi)) }
}

pub open spec fn wall_color(tc: bool, cfg: RenderConfig) -> Option<Shade> {
    fixed_color(tc, cfg, 70, 80, 100, 240)
}

pub open spec fn hud_color(tc: bool, cfg: RenderConfig) -> Option<Shade> {
    fixed_color(tc, cfg, 170, 190, 220, 153)
}

pub open spec fn banner_color(tc: bool, cfg: RenderConfig) -> Option<Shade> {
    fixed_color(tc, cfg, 255, 230, 120, 220)
}

pub open spec fn border_color(tc: bool, cfg: RenderConfig) -> Option<Shade> {
    fixed_color(tc, cfg, 120, 140, 175, 110)
}

/// The trail colours of the cycles after the first, in turn.
pub open spec fn trail_shade(tc: bool, k: int) -> Shade {
    if k == 0 {
        pick_shade(tc, 255, 140, 40, 208)
    } else if k == 1 {
        pick_shade(tc, 255, 60, 190, 201)
    } else if k == 2 {
        pick_shade(tc, 80, 230, 120, 83)
    } else if k == 3 {
        pick_shade(tc, 165, 110, 255, 141)
    } else {
        pick_shade(tc, 80, 170, 255, 75)
    }
}

/// The glow colours of the AI cycles, in turn.
pub open spec fn glow_shade(tc: bool, k: int) -> Shade {
    if k == 0 {
        pick_shade(tc, 150, 100, 40, 130)
    } else if k == 1 {
        pick_shade(tc, 140, 70, 140, 90)
    } else if k == 2 {
        pick_shade(tc, 70, 150, 70, 71)
    } else if k == 3 {
        pick_shade(tc, 95, 80, 150, 98)
    } else {
        pick_shade(tc, 70, 110, 160, 67)
    }
}

/// Cycle `idx`'s colour: cyan for the first, then five colours in turn.
pub open spec fn cycle_color(idx: int, tc: bool, cfg: RenderConfig) -> Option<Shade> {
    if cfg.no_color {
        None
    } else if idx == 0 {
        Some(pick_shade(tc, 0, 240, 255, 51))
    } else {
        Some(trail_shade(tc, (idx - 1) % 5))
    }
}

/// A head: the player's bright cyan, an AI's its cycle colour.
pub open spec fn head_color(idx: int, is_player: bool, tc: bool, cfg: RenderConfig) -> Option<Shade> {
    if !cfg.no_color && is_player { Some(pick_shade(tc, 100, 255, 255, 51)) } else { cycle_color(idx, tc, cfg) }
}

/// The glow round a head: dim cyan round the player's, five dim colours
/// in turn round the others.
pub open spec fn glow_color(idx: int, is_player: bool, tc: bool, cfg: RenderConfig) -> Option<Shade> {
    if cfg.no_color {
        None
    } else if is_player {
        Some(pick_shade(tc, 70, 170, 170, 44))
    } else {
        Some(glow_shade(tc, idx % 5))
    }
}

fn shade(tc: bool, r: u8, g: u8, b: u8, ansi: u8) -> (s: Shade)
    ensures
        s == pick_shade(tc, r, g, b, ansi),
{
    if tc { Shade::Rgb { r, g, b } } else { Shade::Ansi(ansi) }
}

fn fixed(tc: bool, cfg: RenderConfig, r: u8, g: u8, b: u8, ansi: u8) -> (s: Option<Shade>)
    ensures
        s == fixed_color(tc, cfg, r, g, b, ansi),
{
    if cfg.no_color { None } else { Some(shade(tc, r, g, b, ansi)) }
}

fn cycle_color_exec(idx: usize, tc: bool, cfg: RenderConfig) -> (s: Option<Shade>)
    ensures
        s == cycle_color(idx as int, tc, cfg),
{
    if cfg.no_color {
        return None;
    }
    if idx == 0 {
        return Some(shade(tc, 0, 240, 255, 51));
    }
    let k = (idx - 1) % 5;
    let s = if k == 0 {
        shade(tc, 255, 140, 40, 208)
    } else if k == 1 {
        shade(tc, 255, 60, 190, 201)
    } else if k == 2 {
        shade(tc, 80, 230, 120, 83)
    } else if k == 3 {
        shade(tc, 165, 110, 255, 141)
    } else {
        shade(tc, 80, 170, 255, 75)
    };
    Some(s)
}

fn head_color_exec(idx: usize, is_player: bool, tc: bool, cfg: RenderConfig) -> (s: Option<Shade>)
    ensures
        s == head_color(idx as int, is_player, tc, cfg),
{
    let base = cycle_color_exec(idx, tc, cfg);
    if cfg.no_color {
        return base;
    }
    if is_player {
        return Some(shade(tc, 100, 255, 255, 51));
    }
    base
}

fn glow_color_exec(idx: usize, is_player: bool, tc: bool, cfg: RenderConfig) -> (s: Option<Shade>)
    ensures
        s == glow_color(idx as int, is_player, tc, cfg),
{
    if cfg.no_color {
        return None;
    }
    if is_player {
        return Some(shade(tc, 70, 170, 170, 44));
    }
    let k = idx % 5;
    let s = if k == 0 {
        shade(tc, 150, 100, 40, 130)
    } else if k == 1 {
        shade(tc, 140, 70, 140, 90)
    } else if k == 2 {
        shade(tc, 70, 150, 70, 71)
    } else if k == 3 {
        shade(tc, 95, 80, 150, 98)
    } else {
        shade(tc, 70, 110, 160, 67)
    };
    Some(s)
}

// ---------------------------------------------------------------------
// Frames.

/// A frame of `w` by `h` blank cells.
pub open spec fn blank_frame(w: int, h: int) -> Seq<CellVisual> {
    Seq::new((w * h) as nat, |i: int| blank())
}

pub open spec fn on_term(w: int, h: int, c: Coord) -> bool {
    0 <= c.x < w && 0 <= c.y < h
}

/// The frame with `v` at `c`, when `c` is on the terminal.
pub open spec fn put_at(f: Seq<CellVisual>, w: int, h: int, c: Coord, v: CellVisual) -> Seq<CellVisual> {
    if on_term(w, h, c) { f.update(c.y * w + c.x, v) } else { f }
}

/// How an arena cell looks: a wall (when walls are shown), a trail in its
/// cycle's colour, or nothing.
pub open spec fn grid_visual(cell: u16, show_walls: bool, tc: bool, cfg: RenderConfig) -> CellVisual {
    if cell == WALL_CELL {
        if show_walls { CellVisual { ch: '\u{2593}', fg: wall_color(tc, cfg), bg: None } } else { blank() }
    } else if cell != 0 {
        CellVisual { ch: '\u{2588}', fg: cycle_color(cell - 1, tc, cfg), bg: None }
    } else {
        blank()
    }
}

/// The arena cell under frame cell `i`, if it is one.
pub open spec fn under(i: int, w: int, g: GridModel, pf: Playfield) -> Option<Coord> {
    let gx = i % w - pf.x;
    let gy = i / w - pf.y;
    if 0 <= gx < g.width && 0 <= gy < g.height { Some(Coord { x: gx as i32, y: gy as i32 }) } else { None }
}

/// The frame with every arena cell drawn at its terminal cell.
pub open spec fn cells_drawn(f: Seq<CellVisual>, w: int, g: GridModel, pf: Playfield, show: bool, tc: bool, cfg: RenderConfig) -> Seq<CellVisual> {
    Seq::new(f.len(), |i: int| match under(i, w, g, pf) {
        Some(c) => grid_visual(g.at(c), show, tc, cfg),
        None => f[i],
    })
}

/// The eight neighbours of a head, in the order they glow.
pub open spec fn glow_offset(j: int) -> (int, int) {
    if j == 0 {
        (-1, 0)
    } else if j == 1 {
        (1, 0)
    } else if j == 2 {
        (0, -1)
    } else if j == 3 {
        (0, 1)
    } else if j == 4 {
        (-1, -1)
    } else if j == 5 {
        (-1, 1)
    } else if j == 6 {
        (1, -1)
    } else {
        (1, 1)
    }
}

pub open spec fn terminal_of(pf: Playfield, c: Coord) -> Coord {
    Coord { x: (c.x + pf.x) as i32, y: (c.y + pf.y) as i32 }
}

/// The glow of the first `j` neighbours of cycle `c`: a dot on each free
/// arena cell whose terminal cell is still blank.
pub open spec fn glow_around(f: Seq<CellVisual>, w: int, h: int, g: GridModel, pf: Playfield, c: Cycle, dot: CellVisual, j: int) -> Seq<CellVisual>
    decreases j,
{
    if j <= 0 {
        f
    } else {
        let prev = glow_around(f, w, h, g, pf, c, dot, j - 1);
        let p = Coord { x: (c.pos.x + glow_offset(j - 1).0) as i32, y: (c.pos.y + glow_offset(j - 1).1) as i32 };
        let t = terminal_of(pf, p);
        if g.at(p) == 0 && on_term(w, h, t) && prev[t.y * w + t.x].ch == ' ' {
            prev.update(t.y * w + t.x, dot)
        } else {
            prev
        }
    }
}

/// The glow round the first `k` cycles' heads, living ones only.
pub open spec fn glow_drawn(f: Seq<CellVisual>, w: int, h: int, g: GridModel, pf: Playfield, cs: Seq<Cycle>, tc: bool, cfg: RenderConfig, k: int) -> Seq<CellVisual>
    decreases k,
{
    if k <= 0 {
        f
    } else {
        let prev = glow_drawn(f, w, h, g, pf, cs, tc, cfg, k - 1);
        let c = cs[k - 1];
        if c.alive {
            let dot = CellVisual { ch: '\u{00B7}', fg: glow_color(c.color_idx as int, c.is_player, tc, cfg), bg: None };
            glow_around(prev, w, h, g, pf, c, dot, 8)
        } else {
            prev
        }
    }
}

/// The heads of the first `k` cycles, living ones only.
pub open spec fn heads_drawn(f: Seq<CellVisual>, w: int, h: int, pf: Playfield, cs: Seq<Cycle>, tc: bool, cfg: RenderConfig, k: int) -> Seq<CellVisual>
    decreases k,
{
    if k <= 0 {
        f
    } else {
        let prev = heads_drawn(f, w, h, pf, cs, tc, cfg, k - 1);
        let c = cs[k - 1];
        if c.alive {
            put_at(prev, w, h, terminal_of(pf, c.pos), CellVisual {
                ch: '\u{25CF}',
                fg: head_color(c.color_idx as int, c.is_player, tc, cfg),
                bg: None,
            })
        } else {
            prev
        }
    }
}

/// The arena: its cells, then the glow (when asked for), then the heads.
pub open spec fn playfield_drawn(f: Seq<CellVisual>, w: int, h: int, r: Round, show: bool, tc: bool, cfg: RenderConfig) -> Seq<CellVisual> {
    let g = r.grid@;
    let f1 = cells_drawn(f, w, g, r.playfield, show, tc, cfg);
    let f2 = if cfg.glow { glow_drawn(f1, w, h, g, r.playfield, r.cycles@, tc, cfg, r.cycles@.len() as int) } else { f1 };
    heads_drawn(f2, w, h, r.playfield, r.cycles@, tc, cfg, r.cycles@.len() as int)
}

/// The top and bottom lines of the border, column by column, for the
/// first `k` columns from `left`.
pub open spec fn border_rows(f: Seq<CellVisual>, w: int, h: int, left: int, top: int, bottom: int, v: CellVisual, k: int) -> Seq<CellVisual>
    decreases k,
{
    if k <= 0 {
        f
    } else {
        let prev = border_rows(f, w, h, left, top, bottom, v, k - 1);
        let x = left + k - 1;
        put_at(put_at(prev, w, h, Coord { x: x as i32, y: top as i32 }, v), w, h, Coord { x: x as i32, y: bottom as i32 }, v)
    }
}

/// The left and right sides of the border, row by row, for the first `k`
/// rows from `top`.
pub open spec fn border_sides(f: Seq<CellVisual>, w: int, h: int, left: int, right: int, top: int, v: CellVisual, k: int) -> Seq<CellVisual>
    decreases k,
{
    if k <= 0 {
        f
    } else {
        let prev = border_sides(f, w, h, left, right, top, v, k - 1);
        let y = top + k - 1;
        put_at(put_at(prev, w, h, Coord { x: left as i32, y: y as i32 }, v), w, h, Coord { x: right as i32, y: y as i32 }, v)
    }
}

/// The light-line box one cell outside the arena.
pub open spec fn border_drawn(f: Seq<CellVisual>, w: int, h: int, pf: Playfield, tc: bool, cfg: RenderConfig) -> Seq<CellVisual> {
    let left = pf.x - 1;
    let right = pf.x + pf.width;
    let top = pf.y - 1;
    let bottom = pf.y + pf.height;
    let fg = border_color(tc, cfg);
    let f1 = border_rows(f, w, h, left, top, bottom, CellVisual { ch: '\u{2500}', fg, bg: None }, right - left + 1);
    let f2 = border_sides(f1, w, h, left, right, top, CellVisual { ch: '\u{2502}', fg, bg: None }, bottom - top + 1);
    let f3 = put_at(f2, w, h, Coord { x: left as i32, y: top as i32 }, CellVisual { ch: '\u{250C}', fg, bg: None });
    let f4 = put_at(f3, w, h, Coord { x: right as i32, y: top as i32 }, CellVisual { ch: '\u{2510}', fg, bg: None });
    let f5 = put_at(f4, w, h, Coord { x: left as i32, y: bottom as i32 }, CellVisual { ch: '\u{2514}', fg, bg: None });
    put_at(f5, w, h, Coord { x: right as i32, y: bottom as i32 }, CellVisual { ch: '\u{2518}', fg, bg: None })
}

/// Where a text of `len` characters starts to be centred on a row `w` wide.
pub open spec fn centre_x(w: int, len: int) -> int {
    if w >= len { (w - len) / 2 } else { 0 }
}

/// Cell `k` of the frame after writing `text` in `fg` on row `y` from
/// column `x0`, as far as the row reaches; nothing on a row below the frame.
pub open spec fn text_cell(f: Seq<CellVisual>, w: int, h: int, x0: int, y: int, text: Seq<char>, fg: Option<Shade>, k: int) -> CellVisual {
    let n = if w - x0 < text.len() { w - x0 } else { text.len() as int };
    if y < h && y * w + x0 <= k < y * w + x0 + n {
        CellVisual { ch: text[k - (y * w + x0)], fg, bg: None }
    } else {
        f[k]
    }
}

/// The frame after writing `text` in `fg` on row `y` from column `x0`.
pub open spec fn text_drawn(f: Seq<CellVisual>, w: int, h: int, x0: int, y: int, text: Seq<char>, fg: Option<Shade>) -> Seq<CellVisual> {
    Seq::new(f.len(), |k: int| text_cell(f, w, h, x0, y, text, fg, k))
}

/// The frame with `text` centred on row `y` in the banner colour.
pub open spec fn centred(f: Seq<CellVisual>, w: int, h: int, y: int, text: Seq<char>, tc: bool, cfg: RenderConfig) -> Seq<CellVisual> {
    text_drawn(f, w, h, centre_x(w, text.len() as int), y, text, banner_color(tc, cfg))
}

pub open spec fn banner_text(o: RoundOutcome) -> Seq<char> {
    match o {
        RoundOutcome::Victory => "VICTORY"@,
        RoundOutcome::Defeat => "DEFEAT"@,
    }
}

pub open spec fn at_least_one(v: int) -> int {
    if v >= 1 { v } else { 1 }
}

/// A whole frame but the HUD: the arena with its border, the banner and
/// the start prompt; without an arena, a note that the terminal is too
/// small.
pub open spec fn frame_drawn(
    w: int,
    h: int,
    tc: bool,
    round: Option<Round>,
    show: bool,
    cfg: RenderConfig,
    banner: Option<RoundOutcome>,
    waiting: bool,
) -> Seq<CellVisual> {
    let f0 = blank_frame(w, h);
    match round {
        Some(r) => {
            let f1 = border_drawn(playfield_drawn(f0, w, h, r, show, tc, cfg), w, h, r.playfield, tc, cfg);
            let f2 = match banner {
                Some(o) => centred(f1, w, h, at_least_one(r.playfield.y + r.playfield.height / 2), banner_text(o), tc, cfg),
                None => f1,
            };
            if waiting { centred(f2, w, h, at_least_one(r.playfield.y + 1), "Press WASD or Arrow Key to start"@, tc, cfg) } else { f2 }
        },
        None => centred(f0, w, h, h / 2, "Terminal too small for playfield"@, tc, cfg),
    }
}

/// A round the renderer can draw without overflow: a well-formed round
/// whose arena and offsets are those of a terminal.
pub open spec fn drawable(r: Round) -> bool {
    &&& r.wf()
    &&& 0 <= r.playfield.x <= 65535
    &&& 0 <= r.playfield.y <= 65535
    &&& 1 <= r.playfield.width <= 65535
    &&& 1 <= r.playfield.height <= 65535
    &&& r.playfield.x + r.playfield.width <= 65535
    &&& r.playfield.y + r.playfield.height <= 65535
    &&& 0 <= r.grid.width <= 65535
    &&& 0 <= r.grid.height <= 65535
}

/// Frame cell `i` of the arena's cells drawn up to arena cell (`cx`, `cy`),
/// row by row.
pub open spec fn partial_cell(f0: Seq<CellVisual>, i: int, w: int, g: GridModel, pf: Playfield, show: bool, tc: bool, cfg: RenderConfig, cy: int, cx: int) -> CellVisual {
    match under(i, w, g, pf) {
        Some(c) => if c.y < cy || (c.y == cy && c.x < cx) { grid_visual(g.at(c), show, tc, cfg) } else { f0[i] },
        None => f0[i],
    }
}

/// Frame cell `i` of a frame `w` wide and `h` high has its column and row
/// on the frame.
proof fn lemma_cell_place(i: int, w: int, h: int)
    requires
        0 <= i < w * h,
        w > 0,
    ensures
        i == w * (i / w) + i % w,
        0 <= i % w < w,
        0 <= i / w < h,
{
    vstd::arithmetic::div_mod::lemma_fundamental_div_mod(i, w);
    assert(0 <= i / w < h) by (nonlinear_arith)
        requires
            0 <= i < w * h,
            i == w * (i / w) + i % w,
            0 <= i % w < w,
            w > 0,
    {
        if i / w >= h {
            assert(w * (i / w) >= w * h);
        }
        if i / w < 0 {
            assert(w * (i / w) <= -w);
        }
    }
}

/// Sub-cell `j` of a row-major array `w` wide is at column `j % w` and row
/// `j / w`.
proof fn lemma_split_index(x: int, y: int, w: int)
    requires
        0 <= x < w,
        0 <= y,
    ensures
        (y * w + x) % w == x,
        (y * w + x) / w == y,
{
    vstd::arithmetic::div_mod::lemma_fundamental_div_mod_converse(y * w + x, w, y, x);
}

fn grid_visual_exec(cell: u16, show_walls: bool, tc: bool, cfg: RenderConfig) -> (v: CellVisual)
    ensures
        v == grid_visual(cell, show_walls, tc, cfg),
{
    if cell == WALL_CELL {
        if show_walls {
            CellVisual { ch: '\u{2593}', fg: fixed(tc, cfg, 70, 80, 100, 240), bg: None }
        } else {
            CellVisual { ch: ' ', fg: None, bg: None }
        }
    } else if cell != 0 {
        CellVisual { ch: '\u{2588}', fg: cycle_color_exec((cell - 1) as usize, tc, cfg), bg: None }
    } else {
        CellVisual { ch: ' ', fg: None, bg: None }
    }
}

fn blank_vec(n: usize) -> (v: Vec<CellVisual>)
    ensures
        v@ == Seq::new(n as nat, |i: int| blank()),
{
    let mut v: Vec<CellVisual> = Vec::new();
    let mut i: usize = 0;
    while i < n
        invariant
            i <= n,
            v@ == Seq::new(i as nat, |k: int| blank()),
        decreases n - i,
    {
        v.push(CellVisual { ch: ' ', fg: None, bg: None });
        i += 1;
        assert(v@ =~= Seq::new(i as nat, |k: int| blank()));
    }
    v
}

impl Renderer {
    /// The last frame has a cell for every terminal cell.
    pub open spec fn wf(&self) -> bool {
        self.prev@.len() == self.width * self.height
    }

    /// A renderer for a `width` by `height` terminal, with nothing drawn
    /// yet; `truecolor` says whether the terminal shows 24-bit colour.
    pub fn new(width: u16, height: u16, truecolor: bool) -> (r: Renderer)
        ensures
            r.wf(),
            r.width == width && r.height == height,
            r.truecolor == truecolor,
            r.prev@ == blank_frame(width as int, height as int),
    {
        assert(width as usize * height as usize <= 65535 * 65535) by (nonlinear_arith)
            requires
                width <= 65535,
                height <= 65535,
        ;
        let n = width as usize * height as usize;
        let prev = blank_vec(n);
        Renderer { width, height, prev, truecolor }
    }

    /// A new terminal size, with nothing drawn on it yet.
    pub fn resize(&mut self, width: u16, height: u16)
        ensures
            final(self).wf(),
            final(self).width == width && final(self).height == height,
            final(self).truecolor == old(self).truecolor,
            final(self).prev@ == blank_frame(width as int, height as int),
    {
        self.width = width;
        self.height = height;
        assert(width as usize * height as usize <= 65535 * 65535) by (nonlinear_arith)
            requires
                width <= 65535,
                height <= 65535,
        ;
        self.prev = blank_vec(width as usize * height as usize);
    }

    fn in_term(&self, c: Coord) -> (b: bool)
        ensures
            b == on_term(self.width as int, self.height as int, c),
    {
        c.x >= 0 && c.y >= 0 && c.x < self.width as i32 && c.y < self.height as i32
    }

    fn term_idx(&self, c: Coord) -> (i: usize)
        requires
            on_term(self.width as int, self.height as int, c),
        ensures
            i == c.y * self.width + c.x,
            i < self.width * self.height,
    {
        assert(c.y * self.width + c.x < self.width * self.height) by (nonlinear_arith)
            requires
                0 <= c.x < self.width,
                0 <= c.y < self.height,
        ;
        assert(c.y * self.width <= 65535 * 65535) by (nonlinear_arith)
            requires
                0 <= c.y < self.height,
                self.width <= 65535,
                self.height <= 65535,
        ;
        c.y as usize * self.width as usize + c.x as usize
    }

    fn put_if_in_term(&self, frame: &mut Vec<CellVisual>, c: Coord, ch: char, fg: Option<Shade>)
        requires
            old(frame)@.len() == self.width * self.height,
        ensures
            final(frame)@.len() == old(frame)@.len(),
            final(frame)@ == put_at(old(frame)@, self.width as int, self.height as int, c, CellVisual { ch, fg, bg: None }),
    {
        if !self.in_term(c) {
            return;
        }
        let idx = self.term_idx(c);
        frame.set(idx, CellVisual { ch, fg, bg: None });
    }

    /// Every arena cell at its terminal cell.
    #[verifier::rlimit(40)]
    fn draw_cells(&self, frame: &mut Vec<CellVisual>, round: &Round, show_walls: bool, cfg: RenderConfig)
        requires
            old(frame)@.len() == self.width * self.height,
            drawable(*round),
        ensures
            final(frame)@.len() == old(frame)@.len(),
            final(frame)@ == cells_drawn(old(frame)@, self.width as int, round.grid@, round.playfield, show_walls, self.truecolor, cfg),
    {
        let ghost f0 = frame@;
        let ghost w = self.width as int;
        let ghost h = self.height as int;
        let ghost g = round.grid@;
        let ghost pf = round.playfield;
        let ghost tc = self.truecolor;
        if self.width == 0 {
            assert(f0.len() == 0);
            assert(frame@ =~= cells_drawn(f0, w, g, pf, show_walls, tc, cfg));
            return;
        }
        let mut y: i32 = 0;
        while y < round.grid.height
            invariant
                frame@.len() == w * h,
                f0.len() == w * h,
                w == self.width && h == self.height && w > 0,
                g == round.grid@ && pf == round.playfield && tc == self.truecolor,
                drawable(*round),
                0 <= y <= round.grid.height,
                forall|i: int| 0 <= i < f0.len() ==> #[trigger] frame@[i] == partial_cell(f0, i, w, g, pf, show_walls, tc, cfg, y as int, 0),
            decreases round.grid.height - y,
        {
            let mut x: i32 = 0;
            while x < round.grid.width
                invariant
                    frame@.len() == w * h,
                    f0.len() == w * h,
                    w == self.width && h == self.height && w > 0,
                    g == round.grid@ && pf == round.playfield && tc == self.truecolor,
                    drawable(*round),
                    0 <= y < round.grid.height,
                    0 <= x <= round.grid.width,
                    forall|i: int| 0 <= i < f0.len() ==> #[trigger] frame@[i] == partial_cell(f0, i, w, g, pf, show_walls, tc, cfg, y as int, x as int),
                decreases round.grid.width - x,
            {
                let t = round.playfield.to_terminal(Coord { x, y });
                let ghost before = frame@;
                if self.in_term(t) {
                    let idx = self.term_idx(t);
                    let cell = round.grid.get(Coord { x, y });
                    let v = grid_visual_exec(cell, show_walls, self.truecolor, cfg);
                    frame.set(idx, v);
                    proof {
                        lemma_split_index(t.x as int, t.y as int, w);
                    }
                }
                proof {
                    assert forall|i: int| 0 <= i < f0.len() implies #[trigger] frame@[i] == partial_cell(f0, i, w, g, pf, show_walls, tc, cfg, y as int, x + 1) by {
                        lemma_cell_place(i, w, h);
                        assert(before[i] == partial_cell(f0, i, w, g, pf, show_walls, tc, cfg, y as int, x as int));
                        if i % w - pf.x == x && i / w - pf.y == y {
                            assert(i == t.y * w + t.x) by (nonlinear_arith)
                                requires
                                    i == w * (i / w) + i % w,
                                    t.x == x + pf.x,
                                    t.y == y + pf.y,
                                    i % w - pf.x == x,
                                    i / w - pf.y == y,
                            ;
                        }
                    }
                }
                x += 1;
            }
            proof {
                assert forall|i: int| 0 <= i < f0.len() implies #[trigger] frame@[i] == partial_cell(f0, i, w, g, pf, show_walls, tc, cfg, y + 1, 0) by {
                    lemma_cell_place(i, w, h);
                    assert(frame@[i] == partial_cell(f0, i, w, g, pf, show_walls, tc, cfg, y as int, x as int));
                }
            }
            y += 1;
        }
        proof {
            assert forall|i: int| 0 <= i < f0.len() implies #[trigger] frame@[i] == cells_drawn(f0, w, g, pf, show_walls, tc, cfg)[i] by {
                assert(frame@[i] == partial_cell(f0, i, w, g, pf, show_walls, tc, cfg, y as int, 0));
            }
            assert(frame@ =~= cells_drawn(f0, w, g, pf, show_walls, tc, cfg));
        }
    }

    /// A dot on each free neighbour of a living head whose cell is still blank.
    fn draw_glow(&self, frame: &mut Vec<CellVisual>, round: &Round, cfg: RenderConfig)
        requires
            old(frame)@.len() == self.width * self.height,
            drawable(*round),
        ensures
            final(frame)@.len() == old(frame)@.len(),
            final(frame)@ == glow_drawn(old(frame)@, self.width as int, self.height as int, round.grid@, round.playfield,
                round.cycles@, self.truecolor, cfg, round.cycles@.len() as int),
    {
        let ghost f0 = frame@;
        let ghost w = self.width as int;
        let ghost h = self.height as int;
        let offsets: [(i32, i32); 8] = [(-1, 0), (1, 0), (0, -1), (0, 1), (-1, -1), (-1, 1), (1, -1), (1, 1)];
        let mut i: usize = 0;
        while i < round.cycles.len()
            invariant
                frame@.len() == w * h,
                w == self.width && h == self.height,
                drawable(*round),
                offsets@ == seq![(-1i32, 0i32), (1i32, 0i32), (0i32, -1i32), (0i32, 1i32), (-1i32, -1i32), (-1i32, 1i32), (1i32, -1i32), (1i32, 1i32)],
                i <= round.cycles@.len(),
                frame@ == glow_drawn(f0, w, h, round.grid@, round.playfield, round.cycles@, self.truecolor, cfg, i as int),
            decreases round.cycles@.len() - i,
        {
            let c = round.cycles[i];
            if c.alive {
                assert(round.grid@.in_bounds(round.cycles@[i as int].pos));
                let dot = CellVisual { ch: '\u{00B7}', fg: glow_color_exec(c.color_idx, c.is_player, self.truecolor, cfg), bg: None };
                let ghost start = frame@;
                let mut j: usize = 0;
                while j < 8
                    invariant
                        frame@.len() == w * h,
                        w == self.width && h == self.height,
                        drawable(*round),
                        offsets@ == seq![(-1i32, 0i32), (1i32, 0i32), (0i32, -1i32), (0i32, 1i32), (-1i32, -1i32), (-1i32, 1i32), (1i32, -1i32), (1i32, 1i32)],
                        round.grid@.in_bounds(c.pos),
                        j <= 8,
                        frame@ == glow_around(start, w, h, round.grid@, round.playfield, c, dot, j as int),
                    decreases 8 - j,
                {
                    let (dx, dy) = offsets[j];
                    assert(dx as int == glow_offset(j as int).0 && dy as int == glow_offset(j as int).1);
                    let p = Coord { x: c.pos.x + dx, y: c.pos.y + dy };
                    if round.grid.get(p) == 0 {
                        let t = round.playfield.to_terminal(p);
                        if self.in_term(t) {
                            let k = self.term_idx(t);
                            if frame[k].ch == ' ' {
                                frame.set(k, dot);
                            }
                        }
                    }
                    j += 1;
                }
            }
            i += 1;
        }
    }

    /// A dot for each living head, later cycles over earlier ones.
    fn draw_heads(&self, frame: &mut Vec<CellVisual>, round: &Round, cfg: RenderConfig)
        requires
            old(frame)@.len() == self.width * self.height,
            drawable(*round),
        ensures
            final(frame)@.len() == old(frame)@.len(),
            final(frame)@ == heads_drawn(old(frame)@, self.width as int, self.height as int, round.playfield, round.cycles@,
                self.truecolor, cfg, round.cycles@.len() as int),
    {
        let ghost f0 = frame@;
        let ghost w = self.width as int;
        let ghost h = self.height as int;
        let mut i: usize = 0;
        while i < round.cycles.len()
            invariant
                frame@.len() == w * h,
                w == self.width && h == self.height,
                drawable(*round),
                i <= round.cycles@.len(),
                frame@ == heads_drawn(f0, w, h, round.playfield, round.cycles@, self.truecolor, cfg, i as int),
            decreases round.cycles@.len() - i,
        {
            let c = round.cycles[i];
            if c.alive {
                assert(round.grid@.in_bounds(round.cycles@[i as int].pos));
                let t = round.playfield.to_terminal(c.pos);
                let fg = head_color_exec(c.color_idx, c.is_player, self.truecolor, cfg);
                self.put_if_in_term(frame, t, '\u{25CF}', fg);
            }
            i += 1;
        }
    }

    /// The arena: cells, glow when asked for, heads.
    fn draw_playfield(&self, frame: &mut Vec<CellVisual>, round: &Round, show_walls: bool, cfg: RenderConfig)
        requires
            old(frame)@.len() == self.width * self.height,
            drawable(*round),
        ensures
            final(frame)@.len() == old(frame)@.len(),
            final(frame)@ == playfield_drawn(old(frame)@, self.width as int, self.height as int, *round, show_walls, self.truecolor, cfg),
    {
        self.draw_cells(frame, round, show_walls, cfg);
        if cfg.glow {
            self.draw_glow(frame, round, cfg);
        }
        self.draw_heads(frame, round, cfg);
    }

    /// The box one cell outside the arena.
    fn draw_border(&self, frame: &mut Vec<CellVisual>, round: &Round, cfg: RenderConfig)
        requires
            old(frame)@.len() == self.width * self.height,
            drawable(*round),
        ensures
            final(frame)@.len() == old(frame)@.len(),
            final(frame)@ == border_drawn(old(frame)@, self.width as int, self.height as int, round.playfield, self.truecolor, cfg),
    {
        let ghost f0 = frame@;
        let ghost w = self.width as int;
        let ghost h = self.height as int;
        let pf = round.playfield;
        let left = pf.x - 1;
        let right = pf.x + pf.width;
        let top = pf.y - 1;
        let bottom = pf.y + pf.height;
        let border = fixed(self.truecolor, cfg, 120, 140, 175, 110);
        let mut x = left;
        while x <= right
            invariant
                frame@.len() == w * h,
                w == self.width && h == self.height,
                -1 <= left <= x <= right + 1,
                right <= 65535,
                left == pf.x - 1 && right == pf.x + pf.width && top == pf.y - 1 && bottom == pf.y + pf.height,
                frame@ == border_rows(f0, w, h, left as int, top as int, bottom as int, CellVisual { ch: '\u{2500}', fg: border, bg: None }, x - left),
            decreases right + 1 - x,
        {
            self.put_if_in_term(frame, Coord { x, y: top }, '\u{2500}', border);
            self.put_if_in_term(frame, Coord { x, y: bottom }, '\u{2500}', border);
            x += 1;
        }
        let ghost f1 = frame@;
        let mut y = top;
        while y <= bottom
            invariant
                frame@.len() == w * h,
                w == self.width && h == self.height,
                -1 <= top <= y <= bottom + 1,
                bottom <= 65535,
                left == pf.x - 1 && right == pf.x + pf.width && top == pf.y - 1 && bottom == pf.y + pf.height,
                frame@ == border_sides(f1, w, h, left as int, right as int, top as int, CellVisual { ch: '\u{2502}', fg: border, bg: None }, y - top),
            decreases bottom + 1 - y,
        {
            self.put_if_in_term(frame, Coord { x: left, y }, '\u{2502}', border);
            self.put_if_in_term(frame, Coord { x: right, y }, '\u{2502}', border);
            y += 1;
        }
        self.put_if_in_term(frame, Coord { x: left, y: top }, '\u{250C}', border);
        self.put_if_in_term(frame, Coord { x: right, y: top }, '\u{2510}', border);
        self.put_if_in_term(frame, Coord { x: left, y: bottom }, '\u{2514}', border);
        self.put_if_in_term(frame, Coord { x: right, y: bottom }, '\u{2518}', border);
    }

    /// Writes `text` in `fg` on row `y` from column `x0`, as far as the row
    /// reaches; a row below the frame is left alone.
    fn draw_text_at(&self, frame: &mut Vec<CellVisual>, x0: u16, y: u16, text: &str, fg: Option<Shade>)
        requires
            old(frame)@.len() == self.width * self.height,
            x0 <= self.width,
        ensures
            final(frame)@.len() == old(frame)@.len(),
            final(frame)@ == text_drawn(old(frame)@, self.width as int, self.height as int, x0 as int, y as int, text@, fg),
    {
        let ghost f0 = frame@;
        let ghost w = self.width as int;
        let ghost h = self.height as int;
        if y >= self.height {
            assert(frame@ =~= text_drawn(f0, w, h, x0 as int, y as int, text@, fg));
            return;
        }
        let n = text.unicode_len();
        let ghost base = y * w + x0;
        let mut k: usize = 0;
        while k < n
            invariant_except_break
                frame@.len() == w * h,
                f0.len() == w * h,
                w == self.width && h == self.height,
                y < h,
                x0 <= w,
                n == text@.len(),
                base == y * w + x0,
                k <= n,
                x0 + k <= w,
                forall|i: int| 0 <= i < f0.len() ==> #[trigger] frame@[i] == if base <= i < base + k {
                    CellVisual { ch: text@[i - base], fg, bg: None } } else { f0[i] },
            ensures
                frame@.len() == w * h,
                f0.len() == w * h,
                y < h,
                base == y * w + x0,
                k == (if w - x0 < n { w - x0 } else { n as int }),
                forall|i: int| 0 <= i < f0.len() ==> #[trigger] frame@[i] == if base <= i < base + k {
                    CellVisual { ch: text@[i - base], fg, bg: None } } else { f0[i] },
            decreases n - k,
        {
            if x0 as usize + k >= self.width as usize {
                break;
            }
            let idx = self.term_idx(Coord { x: (x0 as usize + k) as i32, y: y as i32 });
            assert(idx == base + k);
            let ch = text.get_char(k);
            assert(ch == text@[k as int]);
            let ghost before = frame@;
            frame.set(idx, CellVisual { ch, fg, bg: None });
            proof {
                assert forall|i: int| 0 <= i < f0.len() implies #[trigger] frame@[i] == if base <= i < base + k + 1 {
                    CellVisual { ch: text@[i - base], fg, bg: None } } else { f0[i] } by {
                    if i != idx {
                        assert(frame@[i] == before[i]);
                    }
                }
            }
            k += 1;
        }
        assert(frame@ =~= text_drawn(f0, w, h, x0 as int, y as int, text@, fg));
    }

    /// Writes `text` centred on row `y` in the banner colour.
    fn draw_centered_text(&self, frame: &mut Vec<CellVisual>, y: u16, text: &str, cfg: RenderConfig)
        requires
            old(frame)@.len() == self.width * self.height,
            text@.len() <= 65535,
        ensures
            final(frame)@.len() == old(frame)@.len(),
            final(frame)@ == centred(old(frame)@, self.width as int, self.height as int, y as int, text@, self.truecolor, cfg),
    {
        let len = text.unicode_len() as i32;
        let d = self.width as i32 - len;
        let x0 = if d > 0 { d / 2 } else { 0 };
        assert(x0 == centre_x(self.width as int, len as int));
        let fg = fixed(self.truecolor, cfg, 255, 230, 120, 220);
        self.draw_text_at(frame, x0 as u16, y, text, fg);
    }

    /// The round's outcome across the middle of the arena.
    fn draw_banner(&self, frame: &mut Vec<CellVisual>, round: &Round, outcome: RoundOutcome, cfg: RenderConfig)
        requires
            old(frame)@.len() == self.width * self.height,
            drawable(*round),
        ensures
            final(frame)@.len() == old(frame)@.len(),
            final(frame)@ == centred(old(frame)@, self.width as int, self.height as int,
                at_least_one(round.playfield.y + round.playfield.height / 2), banner_text(outcome), self.truecolor, cfg),
    {
        proof {
            reveal_strlit("VICTORY");
            reveal_strlit("DEFEAT");
        }
        let text = match outcome {
            RoundOutcome::Victory => "VICTORY",
            RoundOutcome::Defeat => "DEFEAT",
        };
        let mid = round.playfield.y + round.playfield.height / 2;
        let y = if mid > 1 { mid } else { 1 };
        self.draw_centered_text(frame, y as u16, text, cfg);
    }

    /// The prompt that waits for the first steering key.
    fn draw_start_prompt(&self, frame: &mut Vec<CellVisual>, round: &Round, cfg: RenderConfig)
        requires
            old(frame)@.len() == self.width * self.height,
            drawable(*round),
        ensures
            final(frame)@.len() == old(frame)@.len(),
            final(frame)@ == centred(old(frame)@, self.width as int, self.height as int, at_least_one(round.playfield.y + 1),
                "Press WASD or Arrow Key to start"@, self.truecolor, cfg),
    {
        proof {
            reveal_strlit("Press WASD or Arrow Key to start");
        }
        let text = "Press WASD or Arrow Key to start";
        let below = round.playfield.y + 1;
        let y = if below > 1 { below } else { 1 };
        self.draw_centered_text(frame, y as u16, text, cfg);
    }

    /// A frame for the terminal, all but the HUD row's text: the arena, its
    /// border, the outcome banner and the start prompt, or without an arena a
    /// note that the terminal is too small.
    pub fn draw(
        &self,
        round: Option<&Round>,
        show_walls: bool,
        cfg: RenderConfig,
        banner: Option<RoundOutcome>,
        waiting_for_start: bool,
    ) -> (frame: Vec<CellVisual>)
        requires
            round matches Some(r) ==> drawable(*r),
        ensures
            frame@ == frame_drawn(self.width as int, self.height as int, self.truecolor,
                match round { Some(r) => Some(*r), None => None }, show_walls, cfg, banner, waiting_for_start),
    {
        assert(self.width as usize * self.height as usize <= 65535 * 65535) by (nonlinear_arith)
            requires
                self.width <= 65535,
                self.height <= 65535,
        ;
        let mut frame = blank_vec(self.width as usize * self.height as usize);
        assert(frame@ =~= blank_frame(self.width as int, self.height as int));
        match round {
            Some(r) => {
                self.draw_playfield(&mut frame, r, show_walls, cfg);
                self.draw_border(&mut frame, r, cfg);
                if let Some(outcome) = banner {
                    self.draw_banner(&mut frame, r, outcome, cfg);
                }
                if waiting_for_start {
                    self.draw_start_prompt(&mut frame, r, cfg);
                }
            },
            None => {
                proof {
                    reveal_strlit("Terminal too small for playfield");
                }
                self.draw_centered_text(&mut frame, self.height / 2, "Terminal too small for playfield", cfg);
            },
        }
        frame
    }

    /// The HUD row: `text` from the top-left corner, cut at the right edge,
    /// in the HUD colour.
    pub fn draw_hud(&self, frame: &mut Vec<CellVisual>, text: &str, cfg: RenderConfig)
        requires
            old(frame)@.len() == self.width * self.height,
            self.height > 0 || self.width == 0,
        ensures
            final(frame)@.len() == old(frame)@.len(),
            final(frame)@ == text_drawn(old(frame)@, self.width as int, self.height as int, 0, 0, text@, hud_color(self.truecolor, cfg)),
    {
        let fg = fixed(self.truecolor, cfg, 170, 190, 220, 153);
        self.draw_text_at(frame, 0, 0, text, fg);
    }
}

} // verus!
