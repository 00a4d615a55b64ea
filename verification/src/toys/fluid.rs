//! The fluid toy's layout: the grid beside its side panel.

use vstd::prelude::*;

verus! {

pub const PANEL_W: usize = 26;

/// The fluid grid for a `term_w` by `term_h` terminal: the columns left of
/// the panel and a spacer (at least 12), and the rows (at least 8).
pub fn resize_cells(term_w: u16, term_h: u16) -> (r: (usize, usize))
    ensures
        r.0 == if term_w as int - (PANEL_W + 1) > 12 { term_w as int - (PANEL_W + 1) } else { 12 },
        r.1 == if term_h > 8 { term_h as int } else { 8 },
{
    let w = term_w as usize;
    let h = term_h as usize;
    let rest = if w > PANEL_W + 1 { w - (PANEL_W + 1) } else { 0 };
    let cell_w = if rest > 12 { rest } else { 12 };
    let cell_h = if h > 8 { h } else { 8 };
    (cell_w, cell_h)
}

} // verus!
