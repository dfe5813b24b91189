//! One pass of the collision stage as a function on bodies, and what holds of
//! it.

use vstd::prelude::*;
use crate::components::{Body, Point, COORD_LIMIT, SIZE_LIMIT};
use crate::geometry::{region, Region};
use crate::resolve::{
    pushed_out, pushed_out_within, split, split_within, DynamicShape, StaticShape,
};
use crate::selection::{picked_alike, picked_distinct, picked_members};
use crate::store::{
    dynamic_ids, dynamic_shape, dynamics_of, enumerated, is_dynamic, is_static, placed,
    static_ids, static_shape, statics_of,
};

verus! {

/// Where a dynamic entity stands after it has been pushed out of each wall in
/// turn. `area` is the box it occupied when its turn began.
pub open spec fn after_walls(
    p: Point,
    area: Region,
    me: DynamicShape,
    walls: Seq<StaticShape>,
) -> Point
    decreases walls.len(),
{
    if walls.len() == 0 {
        p
    } else {
        pushed_out(
            after_walls(p, area, me, walls.drop_last()),
            area,
            me.previous,
            me.collider,
            walls.last(),
        )
    }
}

/// The bodies, and the place of the `i`-th dynamic entity, after that entity
/// has been split from each dynamic entity from the `j`-th on. The place of
/// the `i`-th is carried along and not yet stored.
pub open spec fn after_pairs(
    m: Map<u64, Body>,
    p: Point,
    area: Region,
    dynamics: Seq<DynamicShape>,
    i: int,
    j: int,
) -> (Map<u64, Body>, Point)
    decreases dynamics.len() - j,
{
    if 0 <= i < j < dynamics.len() {
        let other = dynamics[j];
        let moved = split(p, area, dynamics[i], m[other.id].position->0, other);
        after_pairs(placed(m, other.id, moved.1), moved.0, area, dynamics, i, j + 1)
    } else {
        (m, p)
    }
}

/// The bodies after the turn of the `i`-th dynamic entity: it is pushed out of
/// every wall, then split from every later dynamic entity, then stored.
pub open spec fn turn(
    m: Map<u64, Body>,
    walls: Seq<StaticShape>,
    dynamics: Seq<DynamicShape>,
    i: int,
) -> Map<u64, Body> {
    let me = dynamics[i];
    let start = m[me.id].position->0;
    let area = region(start, me.collider);
    let clear = after_walls(start, area, me, walls);
    let rest = after_pairs(m, clear, area, dynamics, i, i + 1);
    placed(rest.0, me.id, rest.1)
}

/// The bodies after every dynamic entity from the `i`-th on has had its turn.
pub open spec fn sweep(
    m: Map<u64, Body>,
    walls: Seq<StaticShape>,
    dynamics: Seq<DynamicShape>,
    i: int,
) -> Map<u64, Body>
    decreases dynamics.len() - i,
{
    if 0 <= i < dynamics.len() {
        sweep(turn(m, walls, dynamics, i), walls, dynamics, i + 1)
    } else {
        m
    }
}

/// The bodies after one pass of the collision stage over bodies `m` that a
/// query walks in the order `o`.
pub open spec fn collided(m: Map<u64, Body>, o: Seq<u64>) -> Map<u64, Body> {
    sweep(m, statics_of(m, o), dynamics_of(m, o), 0)
}

/// How much further from the origin a pass may leave an entity when there are
/// `n` dynamic entities.
pub open spec fn pass_growth(n: int) -> int {
    (n + 2) * SIZE_LIMIT
}

/// Every static and every dynamic entity has a valid collider, every dynamic
/// entity has a position and a representable remembered place, and the
/// positions of both kinds lie within `bound`.
pub open spec fn arranged(m: Map<u64, Body>, o: Seq<u64>, bound: int) -> bool {
    let walls = statics_of(m, o);
    let dynamics = dynamics_of(m, o);
    &&& forall|k: int| 0 <= k < walls.len() ==> (#[trigger] walls[k]).fits(bound)
    &&& forall|k: int|
        0 <= k < dynamics.len() ==> {
            let d = #[trigger] dynamics[k];
            &&& d.fits()
            &&& m[d.id].position matches Some(p) && p.within(bound)
        }
}

/// The bodies are arranged within a bound that leaves room for `count` passes:
/// however the passes move the entities, none leaves the plane.
pub open spec fn roomy(m: Map<u64, Body>, o: Seq<u64>, count: int) -> bool {
    arranged(m, o, COORD_LIMIT - count * pass_growth(dynamics_of(m, o).len() as int))
}

/// What the collision stage asks of the bodies: room for one pass.
pub open spec fn collision_ready(m: Map<u64, Body>, o: Seq<u64>) -> bool {
    roomy(m, o, 1)
}

/// The shapes stand for stored dynamic entities of `m`.
pub open spec fn listed(m: Map<u64, Body>, dynamics: Seq<DynamicShape>) -> bool {
    forall|k: int|
        0 <= k < dynamics.len() ==> {
            let d = #[trigger] dynamics[k];
            &&& m.dom().contains(d.id)
            &&& is_dynamic(m[d.id])
            &&& d == dynamic_shape(d.id, m[d.id])
        }
}

/// Some shape in the list stands for the entity `id`.
pub open spec fn names(dynamics: Seq<DynamicShape>, id: u64) -> bool {
    exists|k: int| 0 <= k < dynamics.len() && (#[trigger] dynamics[k]).id == id
}

/// The two bodies differ at most in where they are.
pub open spec fn same_but_place(a: Body, b: Body) -> bool {
    &&& a.previous == b.previous
    &&& a.velocity == b.velocity
    &&& a.collider == b.collider
    &&& a.player == b.player
    &&& (a.position is Some <==> b.position is Some)
}

/// From `m` to `after` no entity came or went, none changed but in its
/// position, and none changed at all that the list does not name.
pub open spec fn moved_only(
    m: Map<u64, Body>,
    after: Map<u64, Body>,
    dynamics: Seq<DynamicShape>,
) -> bool {
    &&& after.dom() == m.dom()
    &&& forall|id: u64|
        m.dom().contains(id) ==> {
            &&& same_but_place(m[id], #[trigger] after[id])
            &&& !names(dynamics, id) ==> after[id] == m[id]
        }
}

/// How many collider sizes beyond the bound the `k`-th dynamic entity may be
/// while the `i`-th has its turn and has been split from those before the
/// `j`-th: those before `i` have had their turn, those between `i` and `j`
/// have been split from `i` as well as from every earlier entity.
pub open spec fn slack(k: int, i: int, j: int, n: int) -> int {
    if k < i {
        n + 1
    } else if i < k < j {
        i + 1
    } else {
        i
    }
}

/// Every listed entity is stored, has a position, and that position is within
/// the bound widened by its slack.
pub open spec fn reach(
    m: Map<u64, Body>,
    dynamics: Seq<DynamicShape>,
    i: int,
    j: int,
    bound: int,
) -> bool {
    forall|k: int|
        0 <= k < dynamics.len() ==> {
            let d = #[trigger] dynamics[k];
            &&& m.dom().contains(d.id)
            &&& m[d.id].position matches Some(p) && p.within(
                bound + slack(k, i, j, dynamics.len() as int) * SIZE_LIMIT,
            )
        }
}

/// The colliders of all the shapes are valid.
pub open spec fn sized(dynamics: Seq<DynamicShape>) -> bool {
    forall|k: int| 0 <= k < dynamics.len() ==> (#[trigger] dynamics[k]).collider.valid()
}

/// The ids of all the shapes differ.
pub open spec fn apart(dynamics: Seq<DynamicShape>) -> bool {
    forall|k: int, l: int|
        0 <= k < dynamics.len() && 0 <= l < dynamics.len() && k != l ==> (
        #[trigger] dynamics[k]).id != (#[trigger] dynamics[l]).id
}

/// The dynamic entities of enumerated bodies are listed by their shapes, each
/// once.
pub proof fn dynamics_listed(m: Map<u64, Body>, o: Seq<u64>)
    requires
        enumerated(m, o),
    ensures
        listed(m, dynamics_of(m, o)),
        apart(dynamics_of(m, o)),
{
    let pred = |id: u64| is_dynamic(m[id]);
    let ids = dynamic_ids(m, o);
    picked_members(o, pred);
    picked_distinct(o, pred);
    let dynamics = dynamics_of(m, o);
    assert forall|k: int| 0 <= k < dynamics.len() implies {
        let d = #[trigger] dynamics[k];
        &&& m.dom().contains(d.id)
        &&& is_dynamic(m[d.id])
        &&& d == dynamic_shape(d.id, m[d.id])
    } by {
        assert(ids.contains(ids[k]));
        assert(o.contains(ids[k]));
    }
}

/// Placing an entity moves only that entity.
pub proof fn placed_moved_only(
    m: Map<u64, Body>,
    dynamics: Seq<DynamicShape>,
    k: int,
    p: Point,
)
    requires
        0 <= k < dynamics.len(),
    ensures
        moved_only(m, placed(m, dynamics[k].id, p), dynamics),
{
    let after = placed(m, dynamics[k].id, p);
    assert(after.dom() =~= m.dom());
    assert(names(dynamics, dynamics[k].id));
}

/// Moving only listed entities twice is moving only listed entities.
pub proof fn moved_only_twice(
    a: Map<u64, Body>,
    b: Map<u64, Body>,
    c: Map<u64, Body>,
    dynamics: Seq<DynamicShape>,
)
    requires
        moved_only(a, b, dynamics),
        moved_only(b, c, dynamics),
    ensures
        moved_only(a, c, dynamics),
{
    assert forall|id: u64| a.dom().contains(id) implies {
        &&& same_but_place(a[id], #[trigger] c[id])
        &&& !names(dynamics, id) ==> c[id] == a[id]
    } by {
        assert(same_but_place(a[id], b[id]));
        assert(same_but_place(b[id], c[id]));
    }
}

/// Splitting an entity from the later ones moves only listed entities.
pub proof fn after_pairs_moved_only(
    m: Map<u64, Body>,
    p: Point,
    area: Region,
    dynamics: Seq<DynamicShape>,
    i: int,
    j: int,
)
    ensures
        moved_only(m, after_pairs(m, p, area, dynamics, i, j).0, dynamics),
    decreases dynamics.len() - j,
{
    if 0 <= i < j < dynamics.len() {
        let other = dynamics[j];
        let moved = split(p, area, dynamics[i], m[other.id].position->0, other);
        let next = placed(m, other.id, moved.1);
        placed_moved_only(m, dynamics, j, moved.1);
        after_pairs_moved_only(next, moved.0, area, dynamics, i, j + 1);
        moved_only_twice(m, next, after_pairs(next, moved.0, area, dynamics, i, j + 1).0, dynamics);
    }
}

/// A turn moves only listed entities.
pub proof fn turn_moved_only(
    m: Map<u64, Body>,
    walls: Seq<StaticShape>,
    dynamics: Seq<DynamicShape>,
    i: int,
)
    requires
        0 <= i < dynamics.len(),
    ensures
        moved_only(m, turn(m, walls, dynamics, i), dynamics),
{
    let me = dynamics[i];
    let start = m[me.id].position->0;
    let area = region(start, me.collider);
    let clear = after_walls(start, area, me, walls);
    let rest = after_pairs(m, clear, area, dynamics, i, i + 1);
    after_pairs_moved_only(m, clear, area, dynamics, i, i + 1);
    placed_moved_only(rest.0, dynamics, i, rest.1);
    moved_only_twice(m, rest.0, placed(rest.0, me.id, rest.1), dynamics);
}

/// The turns from the `i`-th on move only listed entities.
pub proof fn sweep_moved_only(
    m: Map<u64, Body>,
    walls: Seq<StaticShape>,
    dynamics: Seq<DynamicShape>,
    i: int,
)
    ensures
        moved_only(m, sweep(m, walls, dynamics, i), dynamics),
    decreases dynamics.len() - i,
{
    if 0 <= i < dynamics.len() {
        let next = turn(m, walls, dynamics, i);
        turn_moved_only(m, walls, dynamics, i);
        sweep_moved_only(next, walls, dynamics, i + 1);
        moved_only_twice(m, next, sweep(next, walls, dynamics, i + 1), dynamics);
    }
}

/// Bodies of which only listed dynamic entities have moved are walked in the
/// same order and have the same static and dynamic entities.
pub proof fn selection_kept(
    m: Map<u64, Body>,
    after: Map<u64, Body>,
    o: Seq<u64>,
    dynamics: Seq<DynamicShape>,
)
    requires
        enumerated(m, o),
        listed(m, dynamics),
        moved_only(m, after, dynamics),
    ensures
        enumerated(after, o),
        statics_of(after, o) == statics_of(m, o),
        dynamics_of(after, o) == dynamics_of(m, o),
{
    let was_static = |id: u64| is_static(m[id]);
    let is_static_now = |id: u64| is_static(after[id]);
    let was_dynamic = |id: u64| is_dynamic(m[id]);
    let is_dynamic_now = |id: u64| is_dynamic(after[id]);
    assert forall|id: u64| o.contains(id) && m[id].velocity is None implies after[id] == m[id] by {
        if names(dynamics, id) {
            let k = choose|k: int| 0 <= k < dynamics.len() && (#[trigger] dynamics[k]).id == id;
            assert(is_dynamic(m[dynamics[k].id]));
        }
    }
    assert forall|id: u64| o.contains(id) implies was_static(id) == is_static_now(id) by {
        assert(same_but_place(m[id], after[id]));
    }
    assert forall|id: u64| o.contains(id) implies was_dynamic(id) == is_dynamic_now(id) by {
        assert(same_but_place(m[id], after[id]));
    }
    picked_alike(o, was_static, is_static_now);
    picked_alike(o, was_dynamic, is_dynamic_now);
    picked_members(o, was_static);
    picked_members(o, was_dynamic);
    let walls = static_ids(m, o);
    assert forall|k: int| 0 <= k < walls.len() implies static_shape(after[walls[k]])
        == static_shape(m[walls[k]]) by {
        assert(walls.contains(walls[k]));
    }
    assert(statics_of(after, o) =~= statics_of(m, o));
    let movers = dynamic_ids(m, o);
    assert forall|k: int| 0 <= k < movers.len() implies dynamic_shape(movers[k], after[movers[k]])
        == dynamic_shape(movers[k], m[movers[k]]) by {
        assert(movers.contains(movers[k]));
        assert(same_but_place(m[movers[k]], after[movers[k]]));
    }
    assert(dynamics_of(after, o) =~= dynamics_of(m, o));
}

/// Pushing an entity out of walls within a bound leaves it within two
/// collider sizes of that bound, or where it was.
pub proof fn after_walls_within(
    p: Point,
    area: Region,
    me: DynamicShape,
    walls: Seq<StaticShape>,
    bound: int,
)
    requires
        me.collider.valid(),
        forall|k: int| 0 <= k < walls.len() ==> (#[trigger] walls[k]).fits(bound),
        p.within(bound + 2 * SIZE_LIMIT),
    ensures
        after_walls(p, area, me, walls).within(bound + 2 * SIZE_LIMIT),
    decreases walls.len(),
{
    if walls.len() > 0 {
        let front = walls.drop_last();
        assert forall|k: int| 0 <= k < front.len() implies (#[trigger] front[k]).fits(bound) by {
            assert(front[k] == walls[k]);
        }
        after_walls_within(p, area, me, front, bound);
        assert(walls.last() == walls[walls.len() - 1]);
        pushed_out_within(
            after_walls(p, area, me, front),
            area,
            me.previous,
            me.collider,
            walls.last(),
            bound,
        );
    }
}

/// Splitting the `i`-th entity from the `j`-th keeps every entity in reach.
pub proof fn pair_keeps_reach(
    m: Map<u64, Body>,
    p: Point,
    area: Region,
    dynamics: Seq<DynamicShape>,
    i: int,
    j: int,
    bound: int,
)
    requires
        0 <= i < j < dynamics.len(),
        apart(dynamics),
        sized(dynamics),
        reach(m, dynamics, i, j, bound),
        p.within(bound + (j + 1) * SIZE_LIMIT),
    ensures
        ({
            let other = dynamics[j];
            let moved = split(p, area, dynamics[i], m[other.id].position->0, other);
            &&& reach(placed(m, other.id, moved.1), dynamics, i, j + 1, bound)
            &&& moved.0.within(bound + (j + 2) * SIZE_LIMIT)
        }),
{
    let n = dynamics.len() as int;
    let other = dynamics[j];
    let q = m[other.id].position->0;
    let moved = split(p, area, dynamics[i], q, other);
    let after = placed(m, other.id, moved.1);
    assert(slack(j, i, j, n) == i);
    split_within(
        p,
        area,
        dynamics[i],
        q,
        other,
        bound + (j + 1) * SIZE_LIMIT,
        bound + i * SIZE_LIMIT,
    );
    assert forall|k: int| 0 <= k < dynamics.len() implies {
        let d = #[trigger] dynamics[k];
        &&& after.dom().contains(d.id)
        &&& after[d.id].position matches Some(r) && r.within(
            bound + slack(k, i, j + 1, n) * SIZE_LIMIT,
        )
    } by {
        if k == j {
            assert(slack(j, i, j + 1, n) == i + 1);
        } else {
            assert(dynamics[k].id != dynamics[j].id);
            assert(slack(k, i, j + 1, n) == slack(k, i, j, n));
        }
    }
}

/// Splitting the `i`-th entity from all later ones keeps every entity in
/// reach.
pub proof fn after_pairs_keeps_reach(
    m: Map<u64, Body>,
    p: Point,
    area: Region,
    dynamics: Seq<DynamicShape>,
    i: int,
    j: int,
    bound: int,
)
    requires
        0 <= i < j <= dynamics.len(),
        apart(dynamics),
        sized(dynamics),
        reach(m, dynamics, i, j, bound),
        p.within(bound + (j + 1) * SIZE_LIMIT),
    ensures
        reach(
            after_pairs(m, p, area, dynamics, i, j).0,
            dynamics,
            i,
            dynamics.len() as int,
            bound,
        ),
        after_pairs(m, p, area, dynamics, i, j).1.within(
            bound + (dynamics.len() + 1) * SIZE_LIMIT,
        ),
    decreases dynamics.len() - j,
{
    if j < dynamics.len() {
        let other = dynamics[j];
        let moved = split(p, area, dynamics[i], m[other.id].position->0, other);
        pair_keeps_reach(m, p, area, dynamics, i, j, bound);
        after_pairs_keeps_reach(
            placed(m, other.id, moved.1),
            moved.0,
            area,
            dynamics,
            i,
            j + 1,
            bound,
        );
    }
}

/// A turn keeps every entity in reach.
pub proof fn turn_keeps_reach(
    m: Map<u64, Body>,
    walls: Seq<StaticShape>,
    dynamics: Seq<DynamicShape>,
    i: int,
    bound: int,
)
    requires
        0 <= i < dynamics.len(),
        apart(dynamics),
        sized(dynamics),
        forall|k: int| 0 <= k < walls.len() ==> (#[trigger] walls[k]).fits(bound),
        reach(m, dynamics, i, i + 1, bound),
    ensures
        reach(turn(m, walls, dynamics, i), dynamics, i + 1, i + 2, bound),
{
    let n = dynamics.len() as int;
    let me = dynamics[i];
    let start = m[me.id].position->0;
    let area = region(start, me.collider);
    let clear = after_walls(start, area, me, walls);
    assert(slack(i, i, i + 1, n) == i);
    assert forall|k: int| 0 <= k < walls.len() implies (#[trigger] walls[k]).fits(
        bound + i * SIZE_LIMIT,
    ) by {}
    after_walls_within(start, area, me, walls, bound + i * SIZE_LIMIT);
    let rest = after_pairs(m, clear, area, dynamics, i, i + 1);
    after_pairs_keeps_reach(m, clear, area, dynamics, i, i + 1, bound);
    let after = placed(rest.0, me.id, rest.1);
    assert forall|k: int| 0 <= k < dynamics.len() implies {
        let d = #[trigger] dynamics[k];
        &&& after.dom().contains(d.id)
        &&& after[d.id].position matches Some(r) && r.within(
            bound + slack(k, i + 1, i + 2, n) * SIZE_LIMIT,
        )
    } by {
        if k == i {
            assert(slack(i, i + 1, i + 2, n) == n + 1);
        } else {
            assert(dynamics[k].id != dynamics[i].id);
            assert(slack(k, i + 1, i + 2, n) == slack(k, i, n, n));
        }
    }
}

/// The turns from the `i`-th on leave every entity within the bound widened
/// by one more collider size than there are dynamic entities.
pub proof fn sweep_keeps_reach(
    m: Map<u64, Body>,
    walls: Seq<StaticShape>,
    dynamics: Seq<DynamicShape>,
    i: int,
    bound: int,
)
    requires
        0 <= i <= dynamics.len(),
        apart(dynamics),
        sized(dynamics),
        forall|k: int| 0 <= k < walls.len() ==> (#[trigger] walls[k]).fits(bound),
        reach(m, dynamics, i, i + 1, bound),
    ensures
        reach(
            sweep(m, walls, dynamics, i),
            dynamics,
            dynamics.len() as int,
            dynamics.len() as int + 1,
            bound,
        ),
    decreases dynamics.len() - i,
{
    if i < dynamics.len() {
        turn_keeps_reach(m, walls, dynamics, i, bound);
        sweep_keeps_reach(turn(m, walls, dynamics, i), walls, dynamics, i + 1, bound);
    }
}

/// Arranged bodies have their dynamic entities in reach before any turn.
pub proof fn arranged_reach(m: Map<u64, Body>, o: Seq<u64>, bound: int)
    requires
        enumerated(m, o),
        arranged(m, o, bound),
    ensures
        reach(m, dynamics_of(m, o), 0, 1, bound),
        sized(dynamics_of(m, o)),
{
    dynamics_listed(m, o);
}

/// Bodies arranged within a bound are arranged within any wider one.
pub proof fn arranged_wider(m: Map<u64, Body>, o: Seq<u64>, bound: int, wider: int)
    requires
        arranged(m, o, bound),
        bound <= wider,
    ensures
        arranged(m, o, wider),
{
}

/// No position lies within a negative bound, so bodies are arranged within
/// one negative bound exactly when they are within any other.
pub proof fn arranged_nowhere(m: Map<u64, Body>, o: Seq<u64>, bound: int, other: int)
    requires
        bound < 0,
        other < 0,
    ensures
        arranged(m, o, bound) == arranged(m, o, other),
        arranged(m, o, bound) == (statics_of(m, o).len() == 0 && dynamics_of(m, o).len() == 0),
{
    let walls = statics_of(m, o);
    let dynamics = dynamics_of(m, o);
    if walls.len() > 0 {
        assert(!walls[0].fits(bound));
        assert(!walls[0].fits(other));
    }
    if dynamics.len() > 0 {
        let d = dynamics[0];
        assert(!(m[d.id].position matches Some(p) && p.within(bound)));
        assert(!(m[d.id].position matches Some(p) && p.within(other)));
    }
}

/// Room for some passes is room for fewer.
pub proof fn roomy_for_fewer(m: Map<u64, Body>, o: Seq<u64>, count: int, fewer: int)
    requires
        roomy(m, o, count),
        0 <= fewer <= count,
    ensures
        roomy(m, o, fewer),
{
    let growth = pass_growth(dynamics_of(m, o).len() as int);
    assert(fewer * growth <= count * growth) by (nonlinear_arith)
        requires
            fewer <= count,
            growth >= 0,
    ;
    arranged_wider(m, o, COORD_LIMIT - count * growth, COORD_LIMIT - fewer * growth);
}

/// A pass uses up the room for one pass.
pub proof fn collided_roomy(m: Map<u64, Body>, o: Seq<u64>, count: int)
    requires
        enumerated(m, o),
        count >= 1,
        roomy(m, o, count),
    ensures
        roomy(collided(m, o), o, count - 1),
{
    let n = dynamics_of(m, o).len() as int;
    collided_arranged(m, o, COORD_LIMIT - count * pass_growth(n));
    assert(COORD_LIMIT - count * pass_growth(n) + pass_growth(n) == COORD_LIMIT - (count - 1)
        * pass_growth(n)) by (nonlinear_arith);
}

/// A pass keeps the order and the kinds of the entities, and leaves bodies
/// arranged within a bound arranged within that bound widened by the growth
/// of one pass.
pub proof fn collided_arranged(m: Map<u64, Body>, o: Seq<u64>, bound: int)
    requires
        enumerated(m, o),
        arranged(m, o, bound),
    ensures
        enumerated(collided(m, o), o),
        statics_of(collided(m, o), o) == statics_of(m, o),
        dynamics_of(collided(m, o), o) == dynamics_of(m, o),
        arranged(collided(m, o), o, bound + pass_growth(dynamics_of(m, o).len() as int)),
{
    let walls = statics_of(m, o);
    let dynamics = dynamics_of(m, o);
    let n = dynamics.len() as int;
    let after = collided(m, o);
    dynamics_listed(m, o);
    arranged_reach(m, o, bound);
    sweep_moved_only(m, walls, dynamics, 0);
    selection_kept(m, after, o, dynamics);
    sweep_keeps_reach(m, walls, dynamics, 0, bound);
    assert forall|k: int| 0 <= k < dynamics.len() implies {
        let d = #[trigger] dynamics[k];
        &&& d.fits()
        &&& after[d.id].position matches Some(p) && p.within(bound + pass_growth(n))
    } by {
        assert(slack(k, n, n + 1, n) == n + 1);
    }
}

/// A pass leaves every entity without a velocity exactly as it was.
pub proof fn collided_keeps_still(m: Map<u64, Body>, o: Seq<u64>)
    requires
        enumerated(m, o),
    ensures
        collided(m, o).dom() == m.dom(),
        forall|id: u64|
            m.dom().contains(id) && m[id].velocity is None ==> #[trigger] collided(m, o)[id]
                == m[id],
{
    let dynamics = dynamics_of(m, o);
    dynamics_listed(m, o);
    sweep_moved_only(m, statics_of(m, o), dynamics, 0);
    let after = collided(m, o);
    assert forall|id: u64| m.dom().contains(id) && m[id].velocity is None implies #[trigger] after[id]
        == m[id] by {
        if names(dynamics, id) {
            let k = choose|k: int| 0 <= k < dynamics.len() && (#[trigger] dynamics[k]).id == id;
            assert(is_dynamic(m[dynamics[k].id]));
        }
    }
}

} // verus!
