//! Undoing one overlap: a dynamic entity against a static one, and two
//! dynamic entities against each other.

use vstd::prelude::*;
use crate::components::{
    Collider, Extent, Point, Position, PreviousPosition, COORD_LIMIT, ENTITY_SIZE, EPSILON,
    SIZE_LIMIT,
};
use crate::geometry::{
    choose_dynamic_axis, choose_static_axis, depth_x, depth_y, dynamic_axis, far_half, near_half,
    overlapping, overlapping_by_depth, region, static_axis, Axis, Rect, Region,
};

verus! {

/// A static entity as the collision stage sees it.
pub struct StaticShape {
    pub position: Point,
    pub collider: Extent,
}

/// A dynamic entity as the collision stage sees it. Its position is not part
/// of it: that is read from the store whenever it is needed.
pub struct DynamicShape {
    pub id: u64,
    pub collider: Extent,
    pub previous: Point,
}

/// A snapshot of a static entity.
#[derive(Clone, Copy, Debug, PartialEq, Eq)]
pub struct StaticBody {
    pub position: Position,
    pub collider: Collider,
}

/// A snapshot of a dynamic entity, without its position.
#[derive(Clone, Copy, Debug, PartialEq, Eq)]
pub struct DynamicBody {
    pub id: u64,
    pub collider: Collider,
    pub previous: PreviousPosition,
}

impl View for StaticBody {
    type V = StaticShape;

    open spec fn view(&self) -> StaticShape {
        StaticShape { position: self.position@, collider: self.collider@ }
    }
}

impl View for DynamicBody {
    type V = DynamicShape;

    open spec fn view(&self) -> DynamicShape {
        DynamicShape { id: self.id, collider: self.collider@, previous: self.previous@ }
    }
}

impl StaticShape {
    /// The collider is valid and the position within `bound`.
    pub open spec fn fits(self, bound: int) -> bool {
        self.collider.valid() && self.position.within(bound)
    }

    /// The box the entity occupies.
    pub open spec fn area(self) -> Region {
        region(self.position, self.collider)
    }
}

impl DynamicShape {
    /// The collider is valid and the previous position representable.
    pub open spec fn fits(self) -> bool {
        self.collider.valid() && self.previous.within(COORD_LIMIT as int)
    }
}

/// Where a dynamic entity at `p` stands once it has been pushed out of the
/// static entity `wall`.
///
/// `area` is the box the entity occupied when its turn began, `previous` its
/// place before it last moved and `size` its collider. Nothing changes unless
/// `area` overlaps the wall. Otherwise one coordinate of `p` is replaced, so
/// that the entity's box ends [`EPSILON`] short of the wall: above or below
/// it when the axis is vertical, according to whether the entity used to be
/// above the wall's top edge; left or right of it when the axis is
/// horizontal, according to whether it used to be left of the wall's left
/// edge.
pub open spec fn pushed_out(
    p: Point,
    area: Region,
    previous: Point,
    size: Extent,
    wall: StaticShape,
) -> Point {
    let obstacle = wall.area();
    if overlapping(area, obstacle) {
        match static_axis(previous.x - wall.position.x, ENTITY_SIZE as int) {
            Axis::Vertical => if previous.y < obstacle.top {
                Point { x: p.x, y: obstacle.top - EPSILON - far_half(size.h) }
            } else {
                Point { x: p.x, y: obstacle.bottom() + EPSILON + near_half(size.h) }
            },
            Axis::Horizontal => if previous.x < obstacle.left {
                Point { x: obstacle.left - EPSILON - far_half(size.w), y: p.y }
            } else {
                Point { x: obstacle.right() + EPSILON + near_half(size.w), y: p.y }
            },
        }
    } else {
        p
    }
}

/// Where two dynamic entities at `p` and `q` stand once their overlap has
/// been shared out between them.
///
/// `area` is the box the first occupied when its turn began; the second
/// occupies the box of its collider around `q`. Nothing changes unless the two
/// boxes overlap. Otherwise both move along one axis, in opposite directions,
/// the first by half the depth of the overlap along that axis, rounded down,
/// the second by the rest. The entity that used to have the smaller coordinate
/// on that axis moves towards smaller coordinates; when both used to have the
/// same, the second does.
pub open spec fn split(
    p: Point,
    area: Region,
    first: DynamicShape,
    q: Point,
    second: DynamicShape,
) -> (Point, Point) {
    let other = region(q, second.collider);
    if overlapping(area, other) {
        let dx = depth_x(area, other);
        let dy = depth_y(area, other);
        match dynamic_axis(first.previous.x - second.previous.x, ENTITY_SIZE as int) {
            Axis::Vertical => if first.previous.y < second.previous.y {
                (Point { x: p.x, y: p.y - near_half(dy) }, Point { x: q.x, y: q.y + far_half(dy) })
            } else {
                (Point { x: p.x, y: p.y + near_half(dy) }, Point { x: q.x, y: q.y - far_half(dy) })
            },
            Axis::Horizontal => if first.previous.x < second.previous.x {
                (Point { x: p.x - near_half(dx), y: p.y }, Point { x: q.x + far_half(dx), y: q.y })
            } else {
                (Point { x: p.x + near_half(dx), y: p.y }, Point { x: q.x - far_half(dx), y: q.y })
            },
        }
    } else {
        (p, q)
    }
}

/// A push out of a wall leaves the entity where it was or puts it next to the
/// wall, so it stays within two collider sizes of the wider of the two bounds.
pub proof fn pushed_out_within(
    p: Point,
    area: Region,
    previous: Point,
    size: Extent,
    wall: StaticShape,
    bound: int,
)
    requires
        size.valid(),
        wall.fits(bound),
        p.within(bound + 2 * SIZE_LIMIT),
    ensures
        pushed_out(p, area, previous, size, wall).within(bound + 2 * SIZE_LIMIT),
{
}

/// A split moves neither entity further than the smaller collider extent.
pub proof fn split_within(
    p: Point,
    area: Region,
    first: DynamicShape,
    q: Point,
    second: DynamicShape,
    bound_p: int,
    bound_q: int,
)
    requires
        second.collider.valid(),
        p.within(bound_p),
        q.within(bound_q),
    ensures
        split(p, area, first, q, second).0.within(bound_p + SIZE_LIMIT),
        split(p, area, first, q, second).1.within(bound_q + SIZE_LIMIT),
{
    overlapping_by_depth(area, region(q, second.collider));
}

/// Pushes a dynamic entity at `p` out of `wall`, if the box it occupied when
/// its turn began overlaps the wall.
pub fn push_out(p: Position, area: Rect, body: &DynamicBody, wall: &StaticBody) -> (r: Position)
    requires
        area.edges_fit(),
        body@.fits(),
        wall@.fits(COORD_LIMIT as int),
    ensures
        r@ == pushed_out(p@, area@, body.previous@, body.collider@, wall@),
{
    let obstacle = Rect::centered(wall.position, wall.collider);
    if area.overlaps(obstacle) {
        match choose_static_axis(body.previous.x, wall.position.x, ENTITY_SIZE) {
            Axis::Vertical => {
                if body.previous.y < obstacle.top() {
                    let half: i64 = body.collider.h - body.collider.h / 2;
                    Position { x: p.x, y: obstacle.top() - EPSILON - half }
                } else {
                    let half: i64 = body.collider.h / 2;
                    Position { x: p.x, y: obstacle.bottom() + EPSILON + half }
                }
            },
            Axis::Horizontal => {
                if body.previous.x < obstacle.left() {
                    let half: i64 = body.collider.w - body.collider.w / 2;
                    Position { x: obstacle.left() - EPSILON - half, y: p.y }
                } else {
                    let half: i64 = body.collider.w / 2;
                    Position { x: obstacle.right() + EPSILON + half, y: p.y }
                }
            },
        }
    } else {
        p
    }
}

/// Shares the overlap of two dynamic entities out between them, if the box
/// the first occupied when its turn began overlaps the second's.
pub fn split_apart(
    p: Position,
    area: Rect,
    first: &DynamicBody,
    q: Position,
    second: &DynamicBody,
) -> (r: (Position, Position))
    requires
        area.edges_fit(),
        second.collider@.valid(),
        p@.within(i64::MAX - SIZE_LIMIT),
        q@.within(COORD_LIMIT as int),
    ensures
        r.0@ == split(p@, area@, first@, q@, second@).0,
        r.1@ == split(p@, area@, first@, q@, second@).1,
{
    let other = Rect::centered(q, second.collider);
    proof {
        overlapping_by_depth(area@, other@);
    }
    match area.intersect(other) {
        Some(common) => {
            if common.w != 0 && common.h != 0 {
                match choose_dynamic_axis(first.previous.x, second.previous.x, ENTITY_SIZE) {
                    Axis::Vertical => {
                        let near: i64 = common.h / 2;
                        let far: i64 = common.h - near;
                        if first.previous.y < second.previous.y {
                            (Position { x: p.x, y: p.y - near }, Position { x: q.x, y: q.y + far })
                        } else {
                            (Position { x: p.x, y: p.y + near }, Position { x: q.x, y: q.y - far })
                        }
                    },
                    Axis::Horizontal => {
                        let near: i64 = common.w / 2;
                        let far: i64 = common.w - near;
                        if first.previous.x < second.previous.x {
                            (Position { x: p.x - near, y: p.y }, Position { x: q.x + far, y: q.y })
                        } else {
                            (Position { x: p.x + near, y: p.y }, Position { x: q.x - far, y: q.y })
                        }
                    },
                }
            } else {
                (p, q)
            }
        },
        None => (p, q),
    }
}

} // verus!
