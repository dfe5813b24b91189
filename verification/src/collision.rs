//! The collision stage: one pass that pushes dynamic entities out of static
//! ones and splits overlapping dynamic entities apart.

use vstd::prelude::*;
use crate::components::{Position, COORD_LIMIT, SIZE_LIMIT};
use crate::geometry::Rect;
use crate::resolve::{push_out, split_apart, DynamicBody, StaticBody};
use crate::store::{
    bodies, dynamic_bodies, dynamic_views, dynamics_of, enumerated, order, position_of,
    set_position, static_bodies, static_views, statics_of,
};
use crate::sweep::{
    after_pairs, after_walls, after_walls_within, apart, arranged, arranged_nowhere,
    arranged_reach, collided, collided_arranged, collided_keeps_still, collided_roomy,
    collision_ready,
    dynamics_listed, listed, pair_keeps_reach, pass_growth, reach, roomy, sized, slack, sweep,
    turn, turn_keeps_reach,
};

verus! {

/// Runs one pass of the collision stage.
///
/// The static and the dynamic entities are snapshotted first. Then every
/// dynamic entity has its turn, in query order: the box it occupies when the
/// turn begins is tested against every static entity and against every later
/// dynamic entity, and each overlap is undone along one axis, chosen from the
/// places the entities remembered. An entity without a velocity is never
/// moved.
pub fn collision(world: &mut hecs::World)
    requires
        collision_ready(bodies(*old(world)), order(*old(world))),
    ensures
        bodies(*final(world)) == collided(bodies(*old(world)), order(*old(world))),
        order(*final(world)) == order(*old(world)),
        enumerated(bodies(*final(world)), order(*final(world))),
        bodies(*final(world)).dom() == bodies(*old(world)).dom(),
        forall|id: u64|
            bodies(*old(world)).dom().contains(id) && bodies(*old(world))[id].velocity is None
                ==> #[trigger] bodies(*final(world))[id] == bodies(*old(world))[id],
        statics_of(bodies(*final(world)), order(*final(world))) == statics_of(
            bodies(*old(world)),
            order(*old(world)),
        ),
        dynamics_of(bodies(*final(world)), order(*final(world))) == dynamics_of(
            bodies(*old(world)),
            order(*old(world)),
        ),
        forall|count: int|
            count >= 1 && roomy(bodies(*old(world)), order(*old(world)), count) ==> roomy(
                bodies(*final(world)),
                order(*final(world)),
                count - 1,
            ),
{
    let walls = static_bodies(world);
    let dynamics = dynamic_bodies(world);
    let n = dynamics.len();
    let ghost m0 = bodies(*world);
    let ghost o = order(*world);
    let ghost ws = statics_of(m0, o);
    let ghost ds = dynamics_of(m0, o);
    let ghost bound = COORD_LIMIT - pass_growth(n as int);
    proof {
        assert(ds.len() == n);
        dynamics_listed(m0, o);
        arranged_reach(m0, o, bound);
        collided_keeps_still(m0, o);
        assert forall|count: int| count >= 1 && roomy(m0, o, count) implies roomy(
            collided(m0, o),
            o,
            count - 1,
        ) by {
            collided_roomy(m0, o, count);
        }
        collided_arranged(m0, o, bound);
    }
    let mut i: usize = 0;
    while i < n
        invariant
            i <= n,
            n == dynamics.len(),
            static_views(walls@) == ws,
            dynamic_views(dynamics@) == ds,
            order(*world) == o,
            bound == COORD_LIMIT - pass_growth(n as int),
            apart(ds),
            sized(ds),
            forall|k: int| 0 <= k < ws.len() ==> (#[trigger] ws[k]).fits(bound),
            forall|k: int| 0 <= k < ds.len() ==> (#[trigger] ds[k]).fits(),
            reach(bodies(*world), ds, i as int, i + 1, bound),
            sweep(bodies(*world), ws, ds, i as int) == sweep(m0, ws, ds, 0),
        decreases n - i,
    {
        let me: DynamicBody = dynamics[i];
        let ghost before = bodies(*world);
        assert(me@ == ds[i as int]);
        assert(slack(i as int, i as int, i + 1, n as int) == i);
        let origin: Position = position_of(world, me.id).unwrap();
        let area = Rect::centered(origin, me.collider);

        let mut p: Position = origin;
        let mut k: usize = 0;
        while k < walls.len()
            invariant
                k <= walls.len(),
                static_views(walls@) == ws,
                area.edges_fit(),
                me@ == ds[i as int],
                me@.fits(),
                bound <= COORD_LIMIT,
                forall|k: int| 0 <= k < ws.len() ==> (#[trigger] ws[k]).fits(bound),
                p@ == after_walls(origin@, area@, me@, ws.take(k as int)),
            decreases walls.len() - k,
        {
            let wall: StaticBody = walls[k];
            assert(wall@ == ws[k as int]);
            proof {
                let upto = ws.take(k + 1);
                assert(upto.drop_last() =~= ws.take(k as int));
                assert(upto.last() == ws[k as int]);
            }
            p = push_out(p, area, &me, &wall);
            k += 1;
        }
        proof {
            assert(ws.take(walls.len() as int) =~= ws);
            assert forall|k: int| 0 <= k < ws.len() implies (#[trigger] ws[k]).fits(
                bound + i * SIZE_LIMIT,
            ) by {}
            after_walls_within(origin@, area@, me@, ws, bound + i * SIZE_LIMIT);
        }
        let ghost clear = p@;

        let mut j: usize = i + 1;
        while j < n
            invariant
                i < j <= n,
                n == dynamics.len(),
                dynamic_views(dynamics@) == ds,
                order(*world) == o,
                bound == COORD_LIMIT - pass_growth(n as int),
                apart(ds),
                sized(ds),
                area.edges_fit(),
                me@ == ds[i as int],
                reach(bodies(*world), ds, i as int, j as int, bound),
                p@.within(bound + (j + 1) * SIZE_LIMIT),
                after_pairs(bodies(*world), p@, area@, ds, i as int, j as int) == after_pairs(
                    before,
                    clear,
                    area@,
                    ds,
                    i as int,
                    i + 1,
                ),
            decreases n - j,
        {
            let other: DynamicBody = dynamics[j];
            assert(other@ == ds[j as int]);
            assert(slack(j as int, i as int, j as int, n as int) == i);
            let q: Position = position_of(world, other.id).unwrap();
            proof {
                pair_keeps_reach(bodies(*world), p@, area@, ds, i as int, j as int, bound);
            }
            let moved = split_apart(p, area, &me, q, &other);
            set_position(world, other.id, moved.1);
            p = moved.0;
            j += 1;
        }
        set_position(world, me.id, p);
        proof {
            assert(bodies(*world) == turn(before, ws, ds, i as int));
            turn_keeps_reach(before, ws, ds, i as int, bound);
        }
        i += 1;
    }
}

/// Whether the snapshotted entities are arranged within `bound`.
fn fits_all(
    world: &mut hecs::World,
    walls: &Vec<StaticBody>,
    dynamics: &Vec<DynamicBody>,
    bound: i64,
) -> (ok: bool)
    requires
        enumerated(bodies(*old(world)), order(*old(world))),
        static_views(walls@) == statics_of(bodies(*old(world)), order(*old(world))),
        dynamic_views(dynamics@) == dynamics_of(bodies(*old(world)), order(*old(world))),
    ensures
        bodies(*final(world)) == bodies(*old(world)),
        order(*final(world)) == order(*old(world)),
        ok == arranged(bodies(*old(world)), order(*old(world)), bound as int),
{
    let ghost m = bodies(*world);
    let ghost o = order(*world);
    let ghost ws = statics_of(m, o);
    let ghost ds = dynamics_of(m, o);
    proof {
        dynamics_listed(m, o);
    }
    let mut k: usize = 0;
    while k < walls.len()
        invariant
            k <= walls.len(),
            static_views(walls@) == ws,
            ws == statics_of(m, o),
            bodies(*world) == m,
            order(*world) == o,
            m == bodies(*old(world)),
            o == order(*old(world)),
            forall|l: int| 0 <= l < k ==> (#[trigger] ws[l]).fits(bound as int),
        decreases walls.len() - k,
    {
        let wall: StaticBody = walls[k];
        assert(wall@ == ws[k as int]);
        if !wall.collider.is_valid() || !wall.position.is_within(bound) {
            return false;
        }
        k += 1;
    }
    let mut j: usize = 0;
    while j < dynamics.len()
        invariant
            j <= dynamics.len(),
            walls.len() == ws.len(),
            dynamic_views(dynamics@) == ds,
            ws == statics_of(m, o),
            ds == dynamics_of(m, o),
            bodies(*world) == m,
            order(*world) == o,
            m == bodies(*old(world)),
            o == order(*old(world)),
            listed(m, ds),
            forall|l: int| 0 <= l < ws.len() ==> (#[trigger] ws[l]).fits(bound as int),
            forall|l: int|
                0 <= l < j ==> {
                    let d = #[trigger] ds[l];
                    &&& d.fits()
                    &&& m[d.id].position matches Some(p) && p.within(bound as int)
                },
        decreases dynamics.len() - j,
    {
        let body: DynamicBody = dynamics[j];
        assert(body@ == ds[j as int]);
        if !body.collider.is_valid() || !body.previous.is_within(COORD_LIMIT) {
            return false;
        }
        match position_of(world, body.id) {
            Some(p) => {
                if !p.is_within(bound) {
                    return false;
                }
            },
            None => {
                return false;
            },
        }
        j += 1;
    }
    true
}

/// The bound that leaves room for `count` passes over `n` dynamic entities,
/// or some negative number when that bound is negative.
fn room(n: usize, count: u32) -> (bound: i64)
    ensures
        ({
            let left = COORD_LIMIT - count * pass_growth(n as int);
            if left >= 0 {
                bound == left
            } else {
                bound < 0
            }
        }),
{
    assert(count * pass_growth(n as int) == count * (n + 2) * SIZE_LIMIT) by (nonlinear_arith);
    assert(0 <= count * (n + 2) <= 0x1_0000_0000 * (0x1_0000_0000_0000_0000 + 2))
        by (nonlinear_arith)
        requires
            0 <= count <= 0x1_0000_0000,
            0 <= n <= 0x1_0000_0000_0000_0000,
    ;
    let sizes: i128 = count as i128 * (n as i128 + 2);
    let growth: i128 = sizes * SIZE_LIMIT as i128;
    let left: i128 = COORD_LIMIT as i128 - growth;
    if left < 0 {
        -1
    } else {
        left as i64
    }
}

/// Whether the world leaves room for `count` passes of the collision stage.
pub fn has_room(world: &mut hecs::World, count: u32) -> (ok: bool)
    ensures
        bodies(*final(world)) == bodies(*old(world)),
        order(*final(world)) == order(*old(world)),
        ok == roomy(bodies(*old(world)), order(*old(world)), count as int),
{
    let walls = static_bodies(world);
    let dynamics = dynamic_bodies(world);
    assert(dynamic_views(dynamics@).len() == dynamics.len());
    let bound = room(dynamics.len(), count);
    proof {
        let left = COORD_LIMIT - count * pass_growth(dynamics.len() as int);
        if left < 0 {
            arranged_nowhere(bodies(*world), order(*world), left, bound as int);
        }
    }
    fits_all(world, &walls, &dynamics, bound)
}

/// Whether the collision stage may run on this world.
pub fn can_collide(world: &mut hecs::World) -> (ok: bool)
    ensures
        bodies(*final(world)) == bodies(*old(world)),
        order(*final(world)) == order(*old(world)),
        ok == collision_ready(bodies(*old(world)), order(*old(world))),
{
    has_room(world, 1)
}

} // verus!
