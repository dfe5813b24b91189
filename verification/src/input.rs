//! Turning held keys into a direction.

use vstd::prelude::*;

verus! {

/// A direction on the grid of the eight neighbours, or none: each component
/// is -1, 0 or 1, with y growing downwards.
#[derive(Clone, Copy, Debug, PartialEq, Eq)]
pub struct Heading {
    pub x: i8,
    pub y: i8,
}

/// One step towards, one step away, or none when both or neither is asked.
pub open spec fn pull(towards: bool, away: bool) -> int {
    (if towards { 1int } else { 0int }) - (if away { 1int } else { 0int })
}

/// The direction asked for by the keys that are held: opposite keys cancel.
pub fn heading(up: bool, left: bool, down: bool, right: bool) -> (dir: Heading)
    ensures
        dir.x == pull(right, left),
        dir.y == pull(down, up),
{
    let mut dir = Heading { x: 0, y: 0 };
    if up {
        dir.y = dir.y - 1;
    }
    if left {
        dir.x = dir.x - 1;
    }
    if down {
        dir.y = dir.y + 1;
    }
    if right {
        dir.x = dir.x + 1;
    }
    dir
}

} // verus!
