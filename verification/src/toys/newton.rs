//! Newton's cradle, apart from its swinging: how many balls hang, and the
//! colours it is drawn in.

use vstd::prelude::*;
use crate::toys::palette::Named;

verus! {

pub const MIN_BALLS: usize = 2;
pub const MAX_BALLS: usize = 9;

/// The number of balls after adding one to `n`: one more, up to nine.
pub fn balls_after_add(n: usize) -> (m: usize)
    requires
        n < usize::MAX,
    ensures
        m == if n + 1 < MAX_BALLS { n + 1 } else { MAX_BALLS as int },
{
    let m = n + 1;
    if m < MAX_BALLS { m } else { MAX_BALLS }
}

/// The number of balls after taking one from `n`: one fewer, down to two.
pub fn balls_after_remove(n: usize) -> (m: usize)
    ensures
        m == if n >= 1 && n - 1 > MIN_BALLS { n - 1 } else { MIN_BALLS as int },
{
    let m = if n >= 1 { n - 1 } else { 0 };
    if m > MIN_BALLS { m } else { MIN_BALLS }
}

/// The main and accent colours of look `t`, five looks round.
pub open spec fn look(t: int) -> (Named, Named) {
    let k = t % 5;
    if k == 0 {
        (Named::Cyan, Named::White)
    } else if k == 1 {
        (Named::Green, Named::White)
    } else if k == 2 {
        (Named::Yellow, Named::White)
    } else if k == 3 {
        (Named::Magenta, Named::White)
    } else {
        (Named::White, Named::Grey)
    }
}

/// The main and accent colours of look `t`.
pub fn theme(t: usize) -> (c: (Named, Named))
    ensures
        c == look(t as int),
{
    match t % 5 {
        0 => (Named::Cyan, Named::White),
        1 => (Named::Green, Named::White),
        2 => (Named::Yellow, Named::White),
        3 => (Named::Magenta, Named::White),
        _ => (Named::White, Named::Grey),
    }
}

} // verus!
