//! The component store: a `hecs::World`, read and written through a handful
//! of accessors whose contracts are taken on trust.
//!
//! Verified code never looks inside the world. It reasons about two names,
//! [`bodies`] and [`order`], and about what the accessors promise of them.
//!
//! Every accessor borrows the world exclusively and hands out copies, never
//! references: while one runs no borrow of a component can be alive, and two
//! entities can be changed one after the other without aliasing.

use vstd::prelude::*;
use crate::components::{
    Body, Collider, Player, Point, Position, PreviousPosition, Velocity,
};
use crate::resolve::{DynamicBody, DynamicShape, StaticBody, StaticShape};

verus! {

/// `hecs::World`, carried through verified code as an opaque value.
#[verifier::external_type_specification]
#[verifier::external_body]
pub struct ExWorld(hecs::World);

/// The entities stored in a world, keyed by the bits of their handle
/// (`Entity::to_bits`), each with those of its components that this crate
/// defines.
pub uninterp spec fn bodies(world: hecs::World) -> Map<u64, Body>;

/// The handles of the stored entities in the order in which a query walks
/// them: archetype by archetype, and row by row within each.
pub uninterp spec fn order(world: hecs::World) -> Seq<u64>;

/// A query walks every stored entity exactly once.
pub open spec fn enumerated(m: Map<u64, Body>, o: Seq<u64>) -> bool {
    &&& o.no_duplicates()
    &&& forall|id: u64| o.contains(id) <==> m.dom().contains(id)
}

/// An obstacle: it has a place and a box, and no velocity.
pub open spec fn is_static(b: Body) -> bool {
    b.position is Some && b.collider is Some && b.velocity is None
}

/// A body that the collision stage may move: it has a box, a velocity and a
/// remembered place.
pub open spec fn is_dynamic(b: Body) -> bool {
    b.collider is Some && b.previous is Some && b.velocity is Some
}

/// A body that the movement stage advances.
pub open spec fn is_movable(b: Body) -> bool {
    b.position is Some && b.velocity is Some && b.previous is Some
}

/// A body that jumps to the pointer.
pub open spec fn is_follower(b: Body) -> bool {
    b.player && b.position is Some && b.previous is Some
}

/// A static body as the collision stage sees it.
pub open spec fn static_shape(b: Body) -> StaticShape {
    StaticShape { position: b.position->0, collider: b.collider->0 }
}

/// A dynamic body as the collision stage sees it.
pub open spec fn dynamic_shape(id: u64, b: Body) -> DynamicShape {
    DynamicShape { id, collider: b.collider->0, previous: b.previous->0 }
}

/// A movable entity as the movement stage sees it.
pub struct MovingShape {
    pub id: u64,
    pub position: Point,
    pub velocity: Point,
}

/// A snapshot of a movable entity.
#[derive(Clone, Copy, Debug, PartialEq, Eq)]
pub struct MovingBody {
    pub id: u64,
    pub position: Position,
    pub velocity: Velocity,
}

impl View for MovingBody {
    type V = MovingShape;

    open spec fn view(&self) -> MovingShape {
        MovingShape { id: self.id, position: self.position@, velocity: self.velocity@ }
    }
}

/// A movable body as the movement stage sees it.
pub open spec fn moving_shape(id: u64, b: Body) -> MovingShape {
    MovingShape { id, position: b.position->0, velocity: b.velocity->0 }
}

/// The handles of the static entities, in query order.
pub open spec fn static_ids(m: Map<u64, Body>, o: Seq<u64>) -> Seq<u64> {
    o.filter(|id: u64| is_static(m[id]))
}

/// The handles of the dynamic entities, in query order.
pub open spec fn dynamic_ids(m: Map<u64, Body>, o: Seq<u64>) -> Seq<u64> {
    o.filter(|id: u64| is_dynamic(m[id]))
}

/// The handles of the movable entities, in query order.
pub open spec fn movable_ids(m: Map<u64, Body>, o: Seq<u64>) -> Seq<u64> {
    o.filter(|id: u64| is_movable(m[id]))
}

/// The handles of the entities that jump to the pointer, in query order.
pub open spec fn follower_ids(m: Map<u64, Body>, o: Seq<u64>) -> Seq<u64> {
    o.filter(|id: u64| is_follower(m[id]))
}

/// The static entities, in query order.
pub open spec fn statics_of(m: Map<u64, Body>, o: Seq<u64>) -> Seq<StaticShape> {
    static_ids(m, o).map_values(|id: u64| static_shape(m[id]))
}

/// The dynamic entities, in query order.
pub open spec fn dynamics_of(m: Map<u64, Body>, o: Seq<u64>) -> Seq<DynamicShape> {
    dynamic_ids(m, o).map_values(|id: u64| dynamic_shape(id, m[id]))
}

/// The movable entities, in query order.
pub open spec fn movables_of(m: Map<u64, Body>, o: Seq<u64>) -> Seq<MovingShape> {
    movable_ids(m, o).map_values(|id: u64| moving_shape(id, m[id]))
}

/// The shapes of a sequence of snapshots.
pub open spec fn static_views(v: Seq<StaticBody>) -> Seq<StaticShape> {
    v.map_values(|b: StaticBody| b@)
}

/// The shapes of a sequence of snapshots.
pub open spec fn dynamic_views(v: Seq<DynamicBody>) -> Seq<DynamicShape> {
    v.map_values(|b: DynamicBody| b@)
}

/// The shapes of a sequence of snapshots.
pub open spec fn moving_views(v: Seq<MovingBody>) -> Seq<MovingShape> {
    v.map_values(|b: MovingBody| b@)
}

/// The bodies after the entity `id`, if it is stored and has a position, has
/// been put at `p`.
pub open spec fn placed(m: Map<u64, Body>, id: u64, p: Point) -> Map<u64, Body> {
    if m.dom().contains(id) && m[id].position is Some {
        m.insert(id, m[id].at(p))
    } else {
        m
    }
}

/// The bodies after the entity `id`, if it is stored and has a remembered
/// place, has been made to remember `p`.
pub open spec fn remembered(m: Map<u64, Body>, id: u64, p: Point) -> Map<u64, Body> {
    if m.dom().contains(id) && m[id].previous is Some {
        m.insert(id, m[id].since(p))
    } else {
        m
    }
}

/// `World::query_mut` for `(&Position, &Collider)`, narrowed by
/// `QueryMut::without` to the entities that have no `Velocity`, and walked to
/// its end. The contract claims that the world is left as it was, that a
/// query walks every stored entity once, and that the snapshots are those of
/// the static entities in query order.
#[verifier::external_body]
pub(crate) fn static_bodies(world: &mut hecs::World) -> (r: Vec<StaticBody>)
    ensures
        bodies(*final(world)) == bodies(*old(world)),
        order(*final(world)) == order(*old(world)),
        enumerated(bodies(*final(world)), order(*final(world))),
        static_views(r@) == statics_of(bodies(*old(world)), order(*old(world))),
{
    let mut found: Vec<StaticBody> = Vec::new();
    for (position, collider) in world.query_mut::<(&Position, &Collider)>().without::<&Velocity>() {
        found.push(StaticBody { position: *position, collider: *collider });
    }
    found
}

/// `World::query_mut` for `(Entity, &Collider, &PreviousPosition)`, narrowed
/// by `QueryMut::with` to the entities that have a `Velocity`, and walked to
/// its end; each handle is turned into its bits by `Entity::to_bits`. The
/// contract claims that the world is left as it was, that a query walks every
/// stored entity once, and that the snapshots are those of the dynamic
/// entities in query order.
#[verifier::external_body]
pub(crate) fn dynamic_bodies(world: &mut hecs::World) -> (r: Vec<DynamicBody>)
    ensures
        bodies(*final(world)) == bodies(*old(world)),
        order(*final(world)) == order(*old(world)),
        enumerated(bodies(*final(world)), order(*final(world))),
        dynamic_views(r@) == dynamics_of(bodies(*old(world)), order(*old(world))),
{
    let mut found: Vec<DynamicBody> = Vec::new();
    for (entity, collider, previous) in
        world.query_mut::<(hecs::Entity, &Collider, &PreviousPosition)>().with::<&Velocity>()
    {
        found.push(DynamicBody { id: entity.to_bits().get(), collider: *collider, previous: *previous });
    }
    found
}

/// `World::query_mut` for `(Entity, &Position, &Velocity)`, narrowed by
/// `QueryMut::with` to the entities that have a `PreviousPosition`, and walked
/// to its end. The contract claims that the world is left as it was, that a
/// query walks every stored entity once, and that the snapshots are those of
/// the movable entities in query order.
#[verifier::external_body]
pub(crate) fn moving_bodies(world: &mut hecs::World) -> (r: Vec<MovingBody>)
    ensures
        bodies(*final(world)) == bodies(*old(world)),
        order(*final(world)) == order(*old(world)),
        enumerated(bodies(*final(world)), order(*final(world))),
        moving_views(r@) == movables_of(bodies(*old(world)), order(*old(world))),
{
    let mut found: Vec<MovingBody> = Vec::new();
    for (entity, position, velocity) in
        world.query_mut::<(hecs::Entity, &Position, &Velocity)>().with::<&PreviousPosition>()
    {
        found.push(MovingBody { id: entity.to_bits().get(), position: *position, velocity: *velocity });
    }
    found
}

/// `World::query_mut` for `Entity`, narrowed by `QueryMut::with` to the
/// entities that have a `Position`, a `PreviousPosition` and the `Player`
/// mark, and walked to its end. The contract claims that the world is left as
/// it was, that a query walks every stored entity once, and that the handles
/// are those of the entities that jump to the pointer, in query order.
#[verifier::external_body]
pub(crate) fn follower_handles(world: &mut hecs::World) -> (r: Vec<u64>)
    ensures
        bodies(*final(world)) == bodies(*old(world)),
        order(*final(world)) == order(*old(world)),
        enumerated(bodies(*final(world)), order(*final(world))),
        r@ == follower_ids(bodies(*old(world)), order(*old(world))),
{
    let mut found: Vec<u64> = Vec::new();
    for entity in world
        .query_mut::<hecs::Entity>()
        .with::<(&Position, &PreviousPosition, &Player)>()
    {
        found.push(entity.to_bits().get());
    }
    found
}

/// `World::query_one_mut` for `&Position`, on the handle that
/// `Entity::from_bits` makes of `id`. The contract claims that the world is
/// left as it was and that the result is the position of the entity `id`,
/// or nothing when no such entity is stored or it has no position.
#[verifier::external_body]
pub(crate) fn position_of(world: &mut hecs::World, id: u64) -> (r: Option<Position>)
    ensures
        bodies(*final(world)) == bodies(*old(world)),
        order(*final(world)) == order(*old(world)),
        match r {
            Some(p) => bodies(*old(world)).dom().contains(id)
                && bodies(*old(world))[id].position == Some(p@),
            None => !bodies(*old(world)).dom().contains(id)
                || bodies(*old(world))[id].position is None,
        },
{
    match hecs::Entity::from_bits(id) {
        Some(entity) => match world.query_one_mut::<&Position>(entity) {
            Ok(position) => Some(*position),
            Err(_) => None,
        },
        None => None,
    }
}

/// `World::query_one_mut` for `&mut Position`, on the handle that
/// `Entity::from_bits` makes of `id`, followed by a store through the
/// reference it gives. The contract claims that the entity `id`, if it is
/// stored and has a position, is now at `p`, and that nothing else changed.
#[verifier::external_body]
pub(crate) fn set_position(world: &mut hecs::World, id: u64, p: Position)
    ensures
        bodies(*final(world)) == placed(bodies(*old(world)), id, p@),
        order(*final(world)) == order(*old(world)),
{
    if let Some(entity) = hecs::Entity::from_bits(id) {
        if let Ok(position) = world.query_one_mut::<&mut Position>(entity) {
            *position = p;
        }
    }
}

/// `World::query_one_mut` for `&mut PreviousPosition`, on the handle that
/// `Entity::from_bits` makes of `id`, followed by a store through the
/// reference it gives. The contract claims that the entity `id`, if it is
/// stored and has a remembered place, now remembers `p`, and that nothing
/// else changed.
#[verifier::external_body]
pub(crate) fn set_previous(world: &mut hecs::World, id: u64, p: PreviousPosition)
    ensures
        bodies(*final(world)) == remembered(bodies(*old(world)), id, p@),
        order(*final(world)) == order(*old(world)),
{
    if let Some(entity) = hecs::Entity::from_bits(id) {
        if let Ok(previous) = world.query_one_mut::<&mut PreviousPosition>(entity) {
            *previous = p;
        }
    }
}

} // verus!
