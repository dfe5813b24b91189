//! What holds of the stages, whatever the bodies are.

use vstd::prelude::*;
use crate::components::{Body, Point, ENTITY_SIZE};
use crate::geometry::{
    depth_x, depth_y, dynamic_axis, far_half, near_half, overlapping, overlapping_by_depth,
    region, static_axis, Axis, Region,
};
use crate::movement::moved;
use crate::resolve::{pushed_out, split, DynamicShape};
use crate::store::{dynamics_of, enumerated, is_dynamic, is_movable, placed, statics_of};
use crate::sweep::{
    after_pairs, after_walls, collided, dynamics_listed, moved_only, names, selection_kept, sweep,
    sweep_moved_only, turn,
};

verus! {

/// Movement is exact: a movable entity ends at its position plus its velocity
/// times the elapsed time and remembers the position it left; every other
/// entity is untouched, and none comes or goes.
pub proof fn movement_is_exact(m: Map<u64, Body>, dt: int, id: u64)
    requires
        m.dom().contains(id),
    ensures
        moved(m, dt).dom() == m.dom(),
        is_movable(m[id]) ==> moved(m, dt)[id].position == Some(
            Point {
                x: m[id].position->0.x + m[id].velocity->0.x * dt,
                y: m[id].position->0.y + m[id].velocity->0.y * dt,
            },
        ),
        is_movable(m[id]) ==> moved(m, dt)[id].previous == m[id].position,
        is_movable(m[id]) ==> moved(m, dt)[id].velocity == m[id].velocity,
        is_movable(m[id]) ==> moved(m, dt)[id].collider == m[id].collider,
        !is_movable(m[id]) ==> moved(m, dt)[id] == m[id],
{
    assert(moved(m, dt).dom() =~= m.dom());
}

/// The axis against a static entity depends on the remembered place and the
/// obstacle's centre only through their difference: moving both by the same
/// amount changes nothing, and so does mirroring them.
pub proof fn static_axis_by_difference(previous_x: int, centre_x: int, shift: int, size: int)
    ensures
        static_axis((previous_x + shift) - (centre_x + shift), size) == static_axis(
            previous_x - centre_x,
            size,
        ),
        static_axis(centre_x - previous_x, size) == static_axis(previous_x - centre_x, size),
{
}

/// The axis between two dynamic entities depends on their remembered places
/// only through their difference: moving both by the same amount changes
/// nothing, and so does taking them in the other order.
pub proof fn dynamic_axis_by_difference(first_x: int, second_x: int, shift: int, size: int)
    ensures
        dynamic_axis((first_x + shift) - (second_x + shift), size) == dynamic_axis(
            first_x - second_x,
            size,
        ),
        dynamic_axis(second_x - first_x, size) == dynamic_axis(first_x - second_x, size),
{
}

/// Two overlapping dynamic entities move along one axis only, in opposite
/// directions, and between them by the whole depth of the overlap along that
/// axis: the first by half of it rounded down, the second by the rest. When
/// the depth is even both move by exactly half of it.
pub proof fn split_is_symmetric(
    p: Point,
    area: Region,
    first: DynamicShape,
    q: Point,
    second: DynamicShape,
)
    requires
        overlapping(area, region(q, second.collider)),
    ensures
        ({
            let other = region(q, second.collider);
            let moved = split(p, area, first, q, second);
            match dynamic_axis(first.previous.x - second.previous.x, ENTITY_SIZE as int) {
                Axis::Vertical => {
                    let depth = depth_y(area, other);
                    let up = first.previous.y < second.previous.y;
                    &&& depth > 0
                    &&& moved.0.x == p.x && moved.1.x == q.x
                    &&& moved.0.y - p.y == if up { -near_half(depth) } else { near_half(depth) }
                    &&& moved.1.y - q.y == if up { far_half(depth) } else { -far_half(depth) }
                    &&& near_half(depth) + far_half(depth) == depth
                    &&& depth % 2 == 0 ==> near_half(depth) == depth / 2 && far_half(depth)
                        == depth / 2
                },
                Axis::Horizontal => {
                    let depth = depth_x(area, other);
                    let left = first.previous.x < second.previous.x;
                    &&& depth > 0
                    &&& moved.0.y == p.y && moved.1.y == q.y
                    &&& moved.0.x - p.x == if left { -near_half(depth) } else { near_half(depth) }
                    &&& moved.1.x - q.x == if left { far_half(depth) } else { -far_half(depth) }
                    &&& near_half(depth) + far_half(depth) == depth
                    &&& depth % 2 == 0 ==> near_half(depth) == depth / 2 && far_half(depth)
                        == depth / 2
                },
            }
        }),
{
    overlapping_by_depth(area, region(q, second.collider));
}

/// Along y, the boxes lie as the entities remember: the box of the entity
/// that the split sends towards smaller coordinates begins and ends no later
/// than the other.
pub open spec fn stacked_as_remembered(
    area: Region,
    first: DynamicShape,
    other: Region,
    second: DynamicShape,
) -> bool {
    if first.previous.y < second.previous.y {
        area.top <= other.top && area.bottom() <= other.bottom()
    } else {
        other.top <= area.top && other.bottom() <= area.bottom()
    }
}

/// Along x, the first box lies as the entities remember.
pub open spec fn abreast_as_remembered(
    area: Region,
    first: DynamicShape,
    other: Region,
    second: DynamicShape,
) -> bool {
    if first.previous.x < second.previous.x {
        area.left <= other.left && area.right() <= other.right()
    } else {
        other.left <= area.left && other.right() <= area.right()
    }
}

/// Two overlapping dynamic entities that lie along the chosen axis as they
/// remember no longer reach into each other along that axis once they have
/// been split: their boxes touch. When they lie otherwise, the split leaves
/// them reaching into each other.
pub proof fn split_separates(p: Point, first: DynamicShape, q: Point, second: DynamicShape)
    requires
        overlapping(region(p, first.collider), region(q, second.collider)),
    ensures
        ({
            let area = region(p, first.collider);
            let other = region(q, second.collider);
            let moved = split(p, area, first, q, second);
            let area_after = region(moved.0, first.collider);
            let other_after = region(moved.1, second.collider);
            match dynamic_axis(first.previous.x - second.previous.x, ENTITY_SIZE as int) {
                Axis::Vertical => {
                    &&& stacked_as_remembered(area, first, other, second) ==> depth_y(
                        area_after,
                        other_after,
                    ) == 0
                    &&& !stacked_as_remembered(area, first, other, second) ==> depth_y(
                        area_after,
                        other_after,
                    ) > 0
                    &&& depth_x(area_after, other_after) == depth_x(area, other)
                },
                Axis::Horizontal => {
                    &&& abreast_as_remembered(area, first, other, second) ==> depth_x(
                        area_after,
                        other_after,
                    ) == 0
                    &&& !abreast_as_remembered(area, first, other, second) ==> depth_x(
                        area_after,
                        other_after,
                    ) > 0
                    &&& depth_y(area_after, other_after) == depth_y(area, other)
                },
            }
        }),
{
    overlapping_by_depth(region(p, first.collider), region(q, second.collider));
}

/// A dynamic entity that has been pushed out of a wall does not overlap it
/// where it now stands.
pub proof fn pushed_out_is_clear(
    p: Point,
    previous: Point,
    size: crate::components::Extent,
    wall: crate::resolve::StaticShape,
)
    ensures
        !overlapping(
            region(pushed_out(p, region(p, size), previous, size, wall), size),
            wall.area(),
        ),
{
    let area = region(p, size);
    let after = region(pushed_out(p, area, previous, size, wall), size);
    overlapping_by_depth(area, wall.area());
    overlapping_by_depth(after, wall.area());
}

/// With one dynamic and one static entity, a pass separates them and a second
/// pass changes nothing.
pub proof fn second_pass_is_idle(m: Map<u64, Body>, o: Seq<u64>)
    requires
        enumerated(m, o),
        dynamics_of(m, o).len() == 1,
        statics_of(m, o).len() == 1,
        m[dynamics_of(m, o)[0].id].position is Some,
    ensures
        collided(collided(m, o), o) == collided(m, o),
        ({
            let me = dynamics_of(m, o)[0];
            let wall = statics_of(m, o)[0];
            let after = collided(m, o);
            &&& statics_of(after, o) == statics_of(m, o)
            &&& !overlapping(region(after[me.id].position->0, me.collider), wall.area())
        }),
{
    let walls = statics_of(m, o);
    let dynamics = dynamics_of(m, o);
    let me = dynamics[0];
    let wall = walls[0];
    let after = collided(m, o);
    dynamics_listed(m, o);
    sweep_moved_only(m, walls, dynamics, 0);
    selection_kept(m, after, o, dynamics);

    let start = m[me.id].position->0;
    let area = region(start, me.collider);
    let clear = after_walls(start, area, me, walls);
    one_wall(start, area, me, walls);
    assert(after_pairs(m, clear, area, dynamics, 0, 1) == (m, clear));
    assert(turn(m, walls, dynamics, 0) == placed(m, me.id, clear));
    assert(sweep(turn(m, walls, dynamics, 0), walls, dynamics, 1) == turn(m, walls, dynamics, 0));
    assert(after == placed(m, me.id, clear));
    pushed_out_is_clear(start, me.previous, me.collider, wall);

    let area_after = region(clear, me.collider);
    one_wall(clear, area_after, me, walls);
    assert(after_walls(clear, area_after, me, walls) == clear);
    assert(after_pairs(after, clear, area_after, dynamics, 0, 1) == (after, clear));
    assert(turn(after, walls, dynamics, 0) == placed(after, me.id, clear));
    assert(placed(after, me.id, clear) =~= after);
    assert(sweep(turn(after, walls, dynamics, 0), walls, dynamics, 1) == turn(
        after,
        walls,
        dynamics,
        0,
    ));
}

/// With two dynamic entities and no static one, a pass is one split: the
/// second entity in query order is put where the split leaves it, then the
/// first.
pub proof fn pass_over_two_movers(m: Map<u64, Body>, o: Seq<u64>)
    requires
        enumerated(m, o),
        dynamics_of(m, o).len() == 2,
        statics_of(m, o).len() == 0,
    ensures
        ({
            let first = dynamics_of(m, o)[0];
            let second = dynamics_of(m, o)[1];
            let p = m[first.id].position->0;
            let q = m[second.id].position->0;
            let parted = split(p, region(p, first.collider), first, q, second);
            collided(m, o) == placed(placed(m, second.id, parted.1), first.id, parted.0)
        }),
{
    let walls = statics_of(m, o);
    let dynamics = dynamics_of(m, o);
    let first = dynamics[0];
    let second = dynamics[1];
    let p = m[first.id].position->0;
    let q = m[second.id].position->0;
    let area = region(p, first.collider);
    let parted = split(p, area, first, q, second);
    dynamics_listed(m, o);
    assert(after_walls(p, area, first, walls) == p);
    let other_placed = placed(m, second.id, parted.1);
    assert(after_pairs(other_placed, parted.0, area, dynamics, 0, 2) == (other_placed, parted.0));
    assert(after_pairs(m, p, area, dynamics, 0, 1) == (other_placed, parted.0));
    let one = turn(m, walls, dynamics, 0);
    assert(one == placed(other_placed, first.id, parted.0));

    let r = one[second.id].position->0;
    let second_area = region(r, second.collider);
    assert(after_walls(r, second_area, second, walls) == r);
    assert(after_pairs(one, r, second_area, dynamics, 1, 2) == (one, r));
    assert(turn(one, walls, dynamics, 1) == placed(one, second.id, r));
    assert(placed(one, second.id, r) =~= one);
    assert(sweep(one, walls, dynamics, 2) == one);
    assert(sweep(one, walls, dynamics, 1) == one);
    assert(sweep(m, walls, dynamics, 0) == one);
}

/// A pass changes nothing but positions, and only those of dynamic entities:
/// no entity comes or goes, and every velocity, collider and remembered place
/// stays as it was.
pub proof fn pass_moves_dynamic_positions_only(m: Map<u64, Body>, o: Seq<u64>)
    requires
        enumerated(m, o),
    ensures
        moved_only(m, collided(m, o), dynamics_of(m, o)),
        forall|id: u64| names(dynamics_of(m, o), id) ==> m.dom().contains(id) && is_dynamic(m[id]),
{
    dynamics_listed(m, o);
    sweep_moved_only(m, statics_of(m, o), dynamics_of(m, o), 0);
    let dynamics = dynamics_of(m, o);
    assert forall|id: u64| names(dynamics, id) implies m.dom().contains(id) && is_dynamic(
        m[id],
    ) by {
        let k = choose|k: int| 0 <= k < dynamics.len() && (#[trigger] dynamics[k]).id == id;
        assert(is_dynamic(m[dynamics[k].id]));
    }
}

/// Against a single wall, an entity is pushed out once.
proof fn one_wall(
    p: Point,
    area: Region,
    me: DynamicShape,
    walls: Seq<crate::resolve::StaticShape>,
)
    requires
        walls.len() == 1,
    ensures
        after_walls(p, area, me, walls) == pushed_out(p, area, me.previous, me.collider, walls[0]),
{
    assert(walls.drop_last().len() == 0);
    assert(after_walls(p, area, me, walls.drop_last()) == p);
    assert(walls.last() == walls[0]);
}

} // verus!
