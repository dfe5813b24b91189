//! The frame driver: one tick moves the entities, follows the pointer and
//! then runs the collision stage a fixed number of times.

use vstd::prelude::*;
use crate::collision::{collision, has_room};
use crate::components::{Body, Point, Position};
use crate::movement::{can_move, moved, movement, movement_ready};
use crate::pointer::{jumped, mouse_movement};
use crate::store::{bodies, order};
use crate::sweep::{collided, roomy, roomy_for_fewer};

verus! {

/// How often the collision stage runs in one tick. One pass undoes each
/// overlap once; repeating it lets a correction reach the neighbours of the
/// entity that was corrected.
pub const ITERATIONS: u32 = 8;

/// The bodies after `count` passes of the collision stage.
pub open spec fn passes(m: Map<u64, Body>, o: Seq<u64>, count: nat) -> Map<u64, Body>
    decreases count,
{
    if count == 0 {
        m
    } else {
        passes(collided(m, o), o, (count - 1) as nat)
    }
}

/// What a tick's passes ask of the bodies: room for all of them.
pub open spec fn settle_ready(m: Map<u64, Body>, o: Seq<u64>) -> bool {
    roomy(m, o, ITERATIONS as int)
}

/// The bodies after movement for `dt` ticks of time and, if there was a click,
/// the jump to it.
pub open spec fn after_input(m: Map<u64, Body>, dt: int, click: Option<Point>) -> Map<u64, Body> {
    match click {
        Some(target) => jumped(moved(m, dt), target),
        None => moved(m, dt),
    }
}

/// The bodies after one whole tick.
pub open spec fn stepped(
    m: Map<u64, Body>,
    o: Seq<u64>,
    dt: int,
    click: Option<Point>,
) -> Map<u64, Body> {
    passes(after_input(m, dt, click), o, ITERATIONS as nat)
}

/// What a tick asks of the bodies: every destination is representable, and
/// once moved the bodies leave room for the passes.
pub open spec fn step_ready(m: Map<u64, Body>, o: Seq<u64>, dt: int, click: Option<Point>) -> bool {
    movement_ready(m, dt) && settle_ready(after_input(m, dt, click), o)
}

/// The point of a click, if there was one.
pub open spec fn click_view(click: Option<Position>) -> Option<Point> {
    match click {
        Some(p) => Some(p@),
        None => None,
    }
}

/// Whether a tick's passes of the collision stage may run on this world.
pub fn can_settle(world: &mut hecs::World) -> (ok: bool)
    ensures
        bodies(*final(world)) == bodies(*old(world)),
        order(*final(world)) == order(*old(world)),
        ok == settle_ready(bodies(*old(world)), order(*old(world))),
{
    has_room(world, ITERATIONS)
}

/// Runs the collision stage [`ITERATIONS`] times.
pub fn settle(world: &mut hecs::World)
    requires
        settle_ready(bodies(*old(world)), order(*old(world))),
    ensures
        bodies(*final(world)) == passes(
            bodies(*old(world)),
            order(*old(world)),
            ITERATIONS as nat,
        ),
        order(*final(world)) == order(*old(world)),
{
    let ghost m0 = bodies(*world);
    let ghost o = order(*world);
    let mut done: u32 = 0;
    while done < ITERATIONS
        invariant
            done <= ITERATIONS,
            order(*world) == o,
            roomy(bodies(*world), o, ITERATIONS - done),
            passes(bodies(*world), o, (ITERATIONS - done) as nat) == passes(
                m0,
                o,
                ITERATIONS as nat,
            ),
        decreases ITERATIONS - done,
    {
        proof {
            roomy_for_fewer(bodies(*world), o, ITERATIONS - done, 1);
        }
        collision(world);
        done += 1;
    }
}

/// Runs one tick: the movement stage for `delta_time` ticks of time, the jump
/// to `click` if there was one, and then the passes of the collision stage.
pub fn step(world: &mut hecs::World, delta_time: u32, click: Option<Position>)
    requires
        step_ready(
            bodies(*old(world)),
            order(*old(world)),
            delta_time as int,
            click_view(click),
        ),
    ensures
        bodies(*final(world)) == stepped(
            bodies(*old(world)),
            order(*old(world)),
            delta_time as int,
            click_view(click),
        ),
        order(*final(world)) == order(*old(world)),
{
    movement(world, delta_time);
    match click {
        Some(target) => mouse_movement(world, target, true),
        None => {},
    }
    settle(world);
}

/// Runs one tick if the world allows it, and says whether it did.
///
/// When the movement stage may not run, nothing changes. When it may but the
/// moved bodies leave no room for the passes, the world is left moved and
/// not settled.
pub fn try_step(world: &mut hecs::World, delta_time: u32, click: Option<Position>) -> (ok: bool)
    ensures
        ok == step_ready(
            bodies(*old(world)),
            order(*old(world)),
            delta_time as int,
            click_view(click),
        ),
        order(*final(world)) == order(*old(world)),
        bodies(*final(world)) == if ok {
            stepped(bodies(*old(world)), order(*old(world)), delta_time as int, click_view(click))
        } else if movement_ready(bodies(*old(world)), delta_time as int) {
            after_input(bodies(*old(world)), delta_time as int, click_view(click))
        } else {
            bodies(*old(world))
        },
{
    if !can_move(world, delta_time) {
        return false;
    }
    movement(world, delta_time);
    match click {
        Some(target) => mouse_movement(world, target, true),
        None => {},
    }
    if !can_settle(world) {
        return false;
    }
    settle(world);
    true
}

} // verus!
