//! The components an entity may carry and their mathematical views.
//!
//! Coordinates are fixed-point: one whole unit of length is [`UNIT`] steps,
//! and every stored number counts steps. Contracts speak of the views,
//! whose fields are unbounded integers.

use vstd::prelude::*;

verus! {

/// Number of coordinate steps in one whole unit of length.
pub const UNIT: i64 = 10_000;

/// The nominal edge length of an entity, in steps. The resolution axis of a
/// collision is chosen by comparing distances against it.
pub const ENTITY_SIZE: i64 = 640_000;

/// The gap, in steps, left between a dynamic entity and the static box it was
/// pushed out of.
pub const EPSILON: i64 = 1;

/// Largest magnitude a coordinate may have.
pub const COORD_LIMIT: i64 = 1_152_921_504_606_846_976;

/// Largest width or height of a collider.
pub const SIZE_LIMIT: i64 = 1_073_741_824;

/// A point or a displacement of the plane.
pub struct Point {
    pub x: int,
    pub y: int,
}

/// A width and a height.
pub struct Extent {
    pub w: int,
    pub h: int,
}

impl Point {
    /// Both coordinates lie within `bound` of the origin.
    pub open spec fn within(self, bound: int) -> bool {
        -bound <= self.x <= bound && -bound <= self.y <= bound
    }
}

impl Extent {
    /// Both extents are positive and no larger than [`SIZE_LIMIT`].
    pub open spec fn valid(self) -> bool {
        1 <= self.w <= SIZE_LIMIT && 1 <= self.h <= SIZE_LIMIT
    }
}

/// Where an entity is: the centre of its box.
#[derive(Clone, Copy, Debug, PartialEq, Eq)]
pub struct Position {
    pub x: i64,
    pub y: i64,
}

/// Where an entity was before it last moved.
#[derive(Clone, Copy, Debug, PartialEq, Eq)]
pub struct PreviousPosition {
    pub x: i64,
    pub y: i64,
}

/// Steps travelled per tick of time. An entity without one never moves.
#[derive(Clone, Copy, Debug, PartialEq, Eq)]
pub struct Velocity {
    pub x: i64,
    pub y: i64,
}

/// The extent of an entity's axis-aligned box, centred on its position.
#[derive(Clone, Copy, Debug, PartialEq, Eq)]
pub struct Collider {
    pub w: i64,
    pub h: i64,
}

/// Marks the entities that follow the pointer.
#[derive(Clone, Copy, Debug, PartialEq, Eq)]
pub struct Player;

impl View for Position {
    type V = Point;

    open spec fn view(&self) -> Point {
        Point { x: self.x as int, y: self.y as int }
    }
}

impl View for PreviousPosition {
    type V = Point;

    open spec fn view(&self) -> Point {
        Point { x: self.x as int, y: self.y as int }
    }
}

impl View for Velocity {
    type V = Point;

    open spec fn view(&self) -> Point {
        Point { x: self.x as int, y: self.y as int }
    }
}

impl View for Collider {
    type V = Extent;

    open spec fn view(&self) -> Extent {
        Extent { w: self.w as int, h: self.h as int }
    }
}

impl Collider {
    /// Whether both extents are positive and no larger than the limit.
    pub fn is_valid(&self) -> (ok: bool)
        ensures
            ok == self@.valid(),
    {
        1 <= self.w && self.w <= SIZE_LIMIT && 1 <= self.h && self.h <= SIZE_LIMIT
    }
}

impl Position {
    /// Whether both coordinates lie within `bound` of the origin.
    pub fn is_within(&self, bound: i64) -> (ok: bool)
        ensures
            ok == self@.within(bound as int),
    {
        bound >= 0 && -bound <= self.x && self.x <= bound && -bound <= self.y && self.y <= bound
    }
}

impl PreviousPosition {
    /// Whether both coordinates lie within `bound` of the origin.
    pub fn is_within(&self, bound: i64) -> (ok: bool)
        ensures
            ok == self@.within(bound as int),
    {
        bound >= 0 && -bound <= self.x && self.x <= bound && -bound <= self.y && self.y <= bound
    }
}

/// What one entity carries, as contracts see it.
pub struct Body {
    pub position: Option<Point>,
    pub previous: Option<Point>,
    pub velocity: Option<Point>,
    pub collider: Option<Extent>,
    pub player: bool,
}

impl Body {
    /// The same entity at another place.
    pub open spec fn at(self, p: Point) -> Body {
        Body { position: Some(p), ..self }
    }

    /// The same entity with another remembered place.
    pub open spec fn since(self, p: Point) -> Body {
        Body { previous: Some(p), ..self }
    }
}

} // verus!
