//! Following the pointer: on a click, every player entity jumps to it.

use vstd::prelude::*;
use crate::components::{Body, Point, Position, PreviousPosition};
use crate::selection::{changed_all, changed_next, changed_none, changed_upto, picked_distinct, picked_members};
use crate::store::{
    bodies, enumerated, follower_handles, follower_ids, is_follower, order, position_of,
    set_position, set_previous,
};

verus! {

/// The body after a click at `target`: a player entity with a position and a
/// remembered place remembers its position and jumps to `target`, any other
/// stays as it is.
pub open spec fn led(b: Body, target: Point) -> Body {
    if is_follower(b) {
        Body { previous: b.position, position: Some(target), ..b }
    } else {
        b
    }
}

/// The bodies after a click at `target`.
pub open spec fn jumped(m: Map<u64, Body>, target: Point) -> Map<u64, Body> {
    m.map_values(|b: Body| led(b, target))
}

/// Handles the pointer for one tick: when the button was `pressed`, every
/// player entity that has a position and a remembered place remembers its
/// position and jumps to `pointer`. Without a press nothing changes.
pub fn mouse_movement(world: &mut hecs::World, pointer: Position, pressed: bool)
    ensures
        bodies(*final(world)) == if pressed {
            jumped(bodies(*old(world)), pointer@)
        } else {
            bodies(*old(world))
        },
        order(*final(world)) == order(*old(world)),
{
    if !pressed {
        return ;
    }
    let followers = follower_handles(world);
    let ghost m0 = bodies(*world);
    let ghost o = order(*world);
    let ghost ids = follower_ids(m0, o);
    let ghost change = |b: Body| led(b, pointer@);
    proof {
        picked_members(o, |id: u64| is_follower(m0[id]));
        picked_distinct(o, |id: u64| is_follower(m0[id]));
        changed_none(m0, ids, change);
    }
    let mut k: usize = 0;
    while k < followers.len()
        invariant
            k <= followers.len(),
            followers@ == ids,
            ids.no_duplicates(),
            forall|id: u64| #[trigger] ids.contains(id) <==> (o.contains(id) && is_follower(m0[id])),
            enumerated(m0, o),
            change == |b: Body| led(b, pointer@),
            order(*world) == o,
            bodies(*world) == changed_upto(m0, ids, k as int, change),
        decreases followers.len() - k,
    {
        let id: u64 = followers[k];
        proof {
            assert(ids.contains(ids[k as int]));
            changed_next(m0, ids, k as int, change);
        }
        let at: Position = position_of(world, id).unwrap();
        set_previous(world, id, PreviousPosition { x: at.x, y: at.y });
        set_position(world, id, pointer);
        assert(bodies(*world) =~= changed_upto(m0, ids, k + 1, change));
        k += 1;
    }
    proof {
        changed_all(m0, ids, change);
    }
}

} // verus!
