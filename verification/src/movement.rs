//! The movement stage: every movable entity remembers where it is and then
//! advances by its velocity times the elapsed time.

use vstd::prelude::*;
use crate::components::{Body, Point, Position, PreviousPosition};
use crate::selection::{
    changed_all, changed_next, changed_none, changed_upto, picked_distinct, picked_members,
};
use crate::store::{
    bodies, enumerated, is_movable, movable_ids, movables_of, moving_bodies, moving_views, order,
    set_position, set_previous, MovingBody,
};

verus! {

/// Both coordinates fit a stored coordinate.
pub open spec fn representable(p: Point) -> bool {
    i64::MIN <= p.x <= i64::MAX && i64::MIN <= p.y <= i64::MAX
}

/// Where an entity at `p` with velocity `v` is after `dt` ticks of time.
pub open spec fn destination(p: Point, v: Point, dt: int) -> Point {
    Point { x: p.x + v.x * dt, y: p.y + v.y * dt }
}

/// The body after `dt` ticks of time: a movable one remembers its position
/// and advances, any other stays as it is.
pub open spec fn advanced(b: Body, dt: int) -> Body {
    if is_movable(b) {
        Body {
            previous: b.position,
            position: Some(destination(b.position->0, b.velocity->0, dt)),
            ..b
        }
    } else {
        b
    }
}

/// The bodies after the movement stage has run for `dt` ticks of time.
pub open spec fn moved(m: Map<u64, Body>, dt: int) -> Map<u64, Body> {
    m.map_values(|b: Body| advanced(b, dt))
}

/// What the movement stage asks of the bodies: the destination of every
/// movable entity is representable.
pub open spec fn movement_ready(m: Map<u64, Body>, dt: int) -> bool {
    forall|id: u64|
        m.dom().contains(id) && is_movable(#[trigger] m[id]) ==> representable(
            destination(m[id].position->0, m[id].velocity->0, dt),
        )
}

/// A velocity times an elapsed time stays far inside the widest integers.
proof fn product_fits(v: i64, dt: u32)
    ensures
        -0x8000_0000_0000_0000_0000_0000 <= v * dt <= 0x8000_0000_0000_0000_0000_0000,
{
    assert(-0x8000_0000_0000_0000 * 0x1_0000_0000 <= v * dt <= 0x8000_0000_0000_0000
        * 0x1_0000_0000) by (nonlinear_arith)
        requires
            -0x8000_0000_0000_0000 <= v <= 0x8000_0000_0000_0000,
            0 <= dt <= 0x1_0000_0000,
    ;
}

/// One coordinate of a destination, if it is representable.
fn advance(from: i64, speed: i64, delta_time: u32) -> (to: Option<i64>)
    ensures
        match to {
            Some(at) => at == from + speed * delta_time,
            None => !(i64::MIN <= from + speed * delta_time <= i64::MAX),
        },
{
    proof {
        product_fits(speed, delta_time);
    }
    let travelled: i128 = speed as i128 * delta_time as i128;
    let to: i128 = from as i128 + travelled;
    if i64::MIN as i128 <= to && to <= i64::MAX as i128 {
        Some(to as i64)
    } else {
        None
    }
}

/// Runs the movement stage for `delta_time` ticks of time.
///
/// Every entity that has a position, a velocity and a remembered place first
/// remembers its position and then advances by its velocity times
/// `delta_time`. No other entity changes.
pub fn movement(world: &mut hecs::World, delta_time: u32)
    requires
        movement_ready(bodies(*old(world)), delta_time as int),
    ensures
        bodies(*final(world)) == moved(bodies(*old(world)), delta_time as int),
        order(*final(world)) == order(*old(world)),
        enumerated(bodies(*final(world)), order(*final(world))),
{
    let movers = moving_bodies(world);
    let ghost m0 = bodies(*world);
    let ghost o = order(*world);
    let ghost ids = movable_ids(m0, o);
    let ghost dt = delta_time as int;
    let ghost change = |b: Body| advanced(b, dt);
    proof {
        picked_members(o, |id: u64| is_movable(m0[id]));
        picked_distinct(o, |id: u64| is_movable(m0[id]));
        assert(moving_views(movers@).len() == movers@.len());
        assert(movables_of(m0, o).len() == ids.len());
        changed_none(m0, ids, change);
    }
    let mut k: usize = 0;
    while k < movers.len()
        invariant
            k <= movers.len(),
            ids.len() == movers.len(),
            moving_views(movers@) == movables_of(m0, o),
            ids == movable_ids(m0, o),
            ids.no_duplicates(),
            forall|id: u64| #[trigger] ids.contains(id) <==> (o.contains(id) && is_movable(m0[id])),
            enumerated(m0, o),
            movement_ready(m0, dt),
            dt == delta_time as int,
            change == |b: Body| advanced(b, dt),
            order(*world) == o,
            bodies(*world) == changed_upto(m0, ids, k as int, change),
        decreases movers.len() - k,
    {
        let body: MovingBody = movers[k];
        proof {
            assert(body@ == movables_of(m0, o)[k as int]);
            assert(ids.contains(ids[k as int]));
            changed_next(m0, ids, k as int, change);
        }
        let to = Position {
            x: advance(body.position.x, body.velocity.x, delta_time).unwrap(),
            y: advance(body.position.y, body.velocity.y, delta_time).unwrap(),
        };
        set_previous(world, body.id, PreviousPosition { x: body.position.x, y: body.position.y });
        set_position(world, body.id, to);
        assert(bodies(*world) =~= changed_upto(m0, ids, k + 1, change));
        k += 1;
    }
    proof {
        changed_all(m0, ids, change);
        assert(bodies(*world).dom() =~= m0.dom());
    }
}

/// Whether the movement stage may run on this world for `delta_time` ticks of
/// time.
pub fn can_move(world: &mut hecs::World, delta_time: u32) -> (ok: bool)
    ensures
        bodies(*final(world)) == bodies(*old(world)),
        order(*final(world)) == order(*old(world)),
        ok == movement_ready(bodies(*old(world)), delta_time as int),
{
    let movers = moving_bodies(world);
    let ghost m = bodies(*world);
    let ghost o = order(*world);
    let ghost ids = movable_ids(m, o);
    let ghost dt = delta_time as int;
    proof {
        picked_members(o, |id: u64| is_movable(m[id]));
        assert(moving_views(movers@).len() == movers@.len());
        assert(movables_of(m, o).len() == ids.len());
    }
    let mut k: usize = 0;
    while k < movers.len()
        invariant
            k <= movers.len(),
            ids.len() == movers.len(),
            ids == movable_ids(m, o),
            moving_views(movers@) == movables_of(m, o),
            forall|id: u64| #[trigger] ids.contains(id) <==> (o.contains(id) && is_movable(m[id])),
            enumerated(m, o),
            dt == delta_time as int,
            bodies(*world) == m,
            order(*world) == o,
            m == bodies(*old(world)),
            o == order(*old(world)),
            forall|l: int|
                0 <= l < k ==> representable(
                    destination(
                        m[#[trigger] ids[l]].position->0,
                        m[ids[l]].velocity->0,
                        dt,
                    ),
                ),
        decreases movers.len() - k,
    {
        let body: MovingBody = movers[k];
        proof {
            assert(body@ == movables_of(m, o)[k as int]);
            assert(ids.contains(ids[k as int]));
        }
        if advance(body.position.x, body.velocity.x, delta_time).is_none() || advance(
            body.position.y,
            body.velocity.y,
            delta_time,
        ).is_none() {
            return false;
        }
        k += 1;
    }
    proof {
        assert forall|id: u64| m.dom().contains(id) && is_movable(#[trigger] m[id]) implies representable(
            destination(m[id].position->0, m[id].velocity->0, dt),
        ) by {
            assert(ids.contains(id));
            let l = choose|l: int| 0 <= l < ids.len() && ids[l] == id;
            assert(ids[l] == id);
        }
    }
    true
}

} // verus!
