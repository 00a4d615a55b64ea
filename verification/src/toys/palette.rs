//! The terminal's sixteen named colours, as the toys that use them name
//! them.

use vstd::prelude::*;

verus! {

/// A named terminal colour, or the terminal's own.
#[derive(Clone, Copy, Debug, PartialEq, Eq, Structural)]
pub enum Named {
    Reset,
    Black,
    White,
    Grey,
    DarkGrey,
    Red,
    DarkRed,
    Green,
    DarkGreen,
    Yellow,
    DarkYellow,
    Blue,
    DarkBlue,
    Magenta,
    DarkMagenta,
    Cyan,
    DarkCyan,
}

} // verus!
