//! The screen of the ghost scene: character cells in palette colours, as
//! shown and as being drawn, and the cells a frame has to print.

use vstd::prelude::*;

verus! {

/// A colour of the screen: the terminal's own, or a palette index.
#[derive(Clone, Copy, Debug, PartialEq, Eq, Structural)]
pub enum Ink {
    Default,
    Palette(u8),
}

/// A character cell of the screen.
#[derive(Clone, Copy, Debug, PartialEq, Eq, Structural)]
pub struct GhostCell {
    pub ch: char,
    pub fg: Ink,
    pub bg: Ink,
}

/// A blank cell on `bg`, in the terminal's own foreground.
pub open spec fn blank_on(bg: u8) -> GhostCell {
    GhostCell { ch: ' ', fg: Ink::Default, bg: Ink::Palette(bg) }
}

/// The screen as shown (`front`) and as being drawn (`back`); after a
/// resize everything is shown again.
pub struct Screen {
    pub w: u16,
    pub h: u16,
    pub front: Vec<GhostCell>,
    pub back: Vec<GhostCell>,
    pub full_redraw: bool,
}

fn blanks(n: usize, bg: u8) -> (v: Vec<GhostCell>)
    ensures
        v@ == Seq::new(n as nat, |i: int| blank_on(bg)),
{
    let mut v: Vec<GhostCell> = Vec::new();
    while v.len() < n
        invariant
            v@.len() <= n,
            forall|j: int| 0 <= j < v@.len() ==> #[trigger] v@[j] == blank_on(bg),
        decreases n - v@.len(),
    {
        v.push(GhostCell { ch: ' ', fg: Ink::Default, bg: Ink::Palette(bg) });
    }
    assert(v@ =~= Seq::new(n as nat, |i: int| blank_on(bg)));
    v
}

impl Screen {
    pub open spec fn wf(&self) -> bool {
        &&& self.front@.len() == self.w * self.h
        &&& self.back@.len() == self.w * self.h
    }

    /// A `w` by `h` screen, blank on `bg`, to be shown in full.
    pub fn new(w: u16, h: u16, bg: u8) -> (s: Screen)
        ensures
            s.wf(),
            s.w == w && s.h == h,
            s.full_redraw,
            s.front@ == Seq::new((w * h) as nat, |i: int| blank_on(bg)),
            s.back@ == Seq::new((w * h) as nat, |i: int| blank_on(bg)),
    {
        assert(w as usize * h as usize <= 65535 * 65535) by (nonlinear_arith)
            requires
                w <= 65535,
                h <= 65535,
        ;
        let n = w as usize * h as usize;
        Screen { w, h, front: blanks(n, bg), back: blanks(n, bg), full_redraw: true }
    }

    /// A new size, blank on `bg`, to be shown in full.
    pub fn resize(&mut self, w: u16, h: u16, bg: u8)
        ensures
            final(self).wf(),
            final(self).w == w && final(self).h == h,
            final(self).full_redraw,
            final(self).front@ == Seq::new((w * h) as nat, |i: int| blank_on(bg)),
            final(self).back@ == Seq::new((w * h) as nat, |i: int| blank_on(bg)),
    {
        *self = Screen::new(w, h, bg);
    }

    /// Every cell being drawn blank on `bg`.
    pub fn clear_back(&mut self, bg: u8)
        requires
            old(self).wf(),
        ensures
            final(self).wf(),
            final(self).w == old(self).w && final(self).h == old(self).h,
            final(self).full_redraw == old(self).full_redraw,
            final(self).front@ == old(self).front@,
            final(self).back@ == Seq::new(old(self).back@.len(), |i: int| blank_on(bg)),
    {
        let mut i: usize = 0;
        while i < self.back.len()
            invariant
                self.wf(),
                self.w == old(self).w && self.h == old(self).h,
                self.full_redraw == old(self).full_redraw,
                self.front@ == old(self).front@,
                i <= self.back@.len(),
                forall|j: int| 0 <= j < i ==> #[trigger] self.back@[j] == blank_on(bg),
            decreases self.back@.len() - i,
        {
            self.back.set(i, GhostCell { ch: ' ', fg: Ink::Default, bg: Ink::Palette(bg) });
            i += 1;
        }
        assert(self.back@ =~= Seq::new(old(self).back@.len(), |i: int| blank_on(bg)));
    }

    /// Draws `cell` at (`x`, `y`): nothing at a negative coordinate;
    /// otherwise the coordinates are taken as 16-bit, and the cell is drawn
    /// when they fall on the screen.
    pub fn put(&mut self, x: i32, y: i32, cell: GhostCell)
        requires
            old(self).wf(),
        ensures
            final(self).wf(),
            final(self).w == old(self).w && final(self).h == old(self).h,
            final(self).full_redraw == old(self).full_redraw,
            final(self).front@ == old(self).front@,
            final(self).back@ == if x < 0 || y < 0 || (x as u16) >= old(self).w || (y as u16) >= old(self).h {
                old(self).back@
            } else {
                old(self).back@.update((y as u16) * old(self).w + (x as u16), cell)
            },
    {
        if x < 0 || y < 0 {
            return;
        }
        let xu = x as u16;
        let yu = y as u16;
        if xu >= self.w || yu >= self.h {
            return;
        }
        assert(0 <= yu * self.w + xu < self.w * self.h <= 65535 * 65535) by (nonlinear_arith)
            requires
                xu < self.w,
                yu < self.h,
                self.w <= 65535,
                self.h <= 65535,
        ;
        let i = yu as usize * self.w as usize + xu as usize;
        self.back.set(i, cell);
    }

    /// Whether cell `i` is to be printed: every cell after a resize, else
    /// one whose drawing differs from what is shown.
    pub open spec fn to_print(&self, i: int) -> bool {
        self.full_redraw || self.back@[i] != self.front@[i]
    }

    /// The cells to print, in order.
    pub fn pending(&self) -> (d: Vec<usize>)
        requires
            self.wf(),
        ensures
            forall|j: int| 0 <= j < d@.len() ==> #[trigger] d@[j] < self.back@.len() && self.to_print(d@[j] as int),
            forall|j: int, k: int| 0 <= j < k < d@.len() ==> #[trigger] d@[j] < #[trigger] d@[k],
            forall|i: int| 0 <= i < self.back@.len() && #[trigger] self.to_print(i) ==> d@.contains(i as usize),
    {
        let mut d: Vec<usize> = Vec::new();
        let mut i: usize = 0;
        while i < self.back.len()
            invariant
                self.wf(),
                i <= self.back@.len(),
                forall|j: int| 0 <= j < d@.len() ==> #[trigger] d@[j] < i && self.to_print(d@[j] as int),
                forall|j: int, k: int| 0 <= j < k < d@.len() ==> #[trigger] d@[j] < #[trigger] d@[k],
                forall|m: int| 0 <= m < i && #[trigger] self.to_print(m) ==> d@.contains(m as usize),
            decreases self.back@.len() - i,
        {
            if self.full_redraw || self.back[i] != self.front[i] {
                let ghost d0 = d@;
                d.push(i);
                assert forall|m: int| 0 <= m < i + 1 && #[trigger] self.to_print(m) implies d@.contains(m as usize) by {
                    if m < i {
                        assert(d0.contains(m as usize));
                        let k = choose|k: int| 0 <= k < d0.len() && d0[k] == m as usize;
                        assert(d@[k] == m as usize);
                    } else {
                        assert(d@[d0.len() as int] == i);
                    }
                }
            }
            i += 1;
        }
        d
    }

    /// What was drawn is now shown.
    pub fn commit(&mut self)
        requires
            old(self).wf(),
        ensures
            final(self).wf(),
            final(self).w == old(self).w && final(self).h == old(self).h,
            !final(self).full_redraw,
            final(self).back@ == old(self).back@,
            final(self).front@ == old(self).back@,
    {
        let mut i: usize = 0;
        while i < self.back.len()
            invariant
                self.wf(),
                self.w == old(self).w && self.h == old(self).h,
                self.back@ == old(self).back@,
                i <= self.back@.len(),
                forall|j: int| 0 <= j < i ==> #[trigger] self.front@[j] == self.back@[j],
            decreases self.back@.len() - i,
        {
            let c = self.back[i];
            self.front.set(i, c);
            i += 1;
        }
        self.full_redraw = false;
        assert(self.front@ =~= self.back@);
    }
}

} // verus!
