//! Axis-aligned boxes, their intersection, and the choice of the axis along
//! which an overlap is undone.

use vstd::prelude::*;
use crate::components::{Collider, Extent, Point, Position, COORD_LIMIT, UNIT};

verus! {

/// An axis-aligned box: its top-left corner, its width going right and its
/// height going down.
pub struct Region {
    pub left: int,
    pub top: int,
    pub w: int,
    pub h: int,
}

impl Region {
    /// The x coordinate of the right edge.
    pub open spec fn right(self) -> int {
        self.left + self.w
    }

    /// The y coordinate of the bottom edge.
    pub open spec fn bottom(self) -> int {
        self.top + self.h
    }
}

/// Distance from the centre of an extent to its left or top edge.
pub open spec fn near_half(extent: int) -> int {
    extent / 2
}

/// Distance from the centre of an extent to its right or bottom edge.
pub open spec fn far_half(extent: int) -> int {
    extent - extent / 2
}

/// The box of the given size centred on `centre`.
pub open spec fn region(centre: Point, size: Extent) -> Region {
    Region {
        left: centre.x - near_half(size.w),
        top: centre.y - near_half(size.h),
        w: size.w,
        h: size.h,
    }
}

/// The larger of two numbers.
pub open spec fn max_of(a: int, b: int) -> int {
    if a >= b { a } else { b }
}

/// The smaller of two numbers.
pub open spec fn min_of(a: int, b: int) -> int {
    if a <= b { a } else { b }
}

/// The box common to `a` and `b`, if their edges at least touch. Touching
/// boxes share a box of zero width or height.
pub open spec fn intersection(a: Region, b: Region) -> Option<Region> {
    let left = max_of(a.left, b.left);
    let top = max_of(a.top, b.top);
    let right = min_of(a.right(), b.right());
    let bottom = min_of(a.bottom(), b.bottom());
    if right < left || bottom < top {
        None
    } else {
        Some(Region { left, top, w: right - left, h: bottom - top })
    }
}

/// How far `a` and `b` reach into each other along x; positive exactly when
/// their horizontal ranges share more than an edge.
pub open spec fn depth_x(a: Region, b: Region) -> int {
    min_of(a.right(), b.right()) - max_of(a.left, b.left)
}

/// How far `a` and `b` reach into each other along y.
pub open spec fn depth_y(a: Region, b: Region) -> int {
    min_of(a.bottom(), b.bottom()) - max_of(a.top, b.top)
}

/// The boxes share an area of nonzero width and nonzero height.
pub open spec fn overlapping(a: Region, b: Region) -> bool {
    match intersection(a, b) {
        Some(c) => c.w != 0 && c.h != 0,
        None => false,
    }
}

/// Two boxes overlap exactly when they reach into each other along both axes.
pub proof fn overlapping_by_depth(a: Region, b: Region)
    ensures
        overlapping(a, b) <==> (depth_x(a, b) > 0 && depth_y(a, b) > 0),
        overlapping(a, b) ==> intersection(a, b) == Some(
            Region {
                left: max_of(a.left, b.left),
                top: max_of(a.top, b.top),
                w: depth_x(a, b),
                h: depth_y(a, b),
            },
        ),
{
}

/// An axis-aligned box on machine integers.
#[derive(Clone, Copy, Debug, PartialEq, Eq)]
pub struct Rect {
    pub x: i64,
    pub y: i64,
    pub w: i64,
    pub h: i64,
}

impl View for Rect {
    type V = Region;

    open spec fn view(&self) -> Region {
        Region { left: self.x as int, top: self.y as int, w: self.w as int, h: self.h as int }
    }
}

impl Rect {
    /// The right and bottom edges are representable.
    pub open spec fn edges_fit(&self) -> bool {
        i64::MIN <= self.x + self.w <= i64::MAX && i64::MIN <= self.y + self.h <= i64::MAX
    }

    /// The box of the given size centred on `centre`.
    pub fn centered(centre: Position, size: Collider) -> (r: Rect)
        requires
            centre@.within(COORD_LIMIT as int),
            size@.valid(),
        ensures
            r@ == region(centre@, size@),
            r.edges_fit(),
    {
        Rect { x: centre.x - size.w / 2, y: centre.y - size.h / 2, w: size.w, h: size.h }
    }

    /// The x coordinate of the left edge.
    pub fn left(&self) -> (r: i64)
        ensures
            r == self@.left,
    {
        self.x
    }

    /// The y coordinate of the top edge.
    pub fn top(&self) -> (r: i64)
        ensures
            r == self@.top,
    {
        self.y
    }

    /// The x coordinate of the right edge.
    pub fn right(&self) -> (r: i64)
        requires
            self.edges_fit(),
        ensures
            r == self@.right(),
    {
        self.x + self.w
    }

    /// The y coordinate of the bottom edge.
    pub fn bottom(&self) -> (r: i64)
        requires
            self.edges_fit(),
        ensures
            r == self@.bottom(),
    {
        self.y + self.h
    }

    /// The box common to both, if their edges at least touch.
    pub fn intersect(&self, other: Rect) -> (r: Option<Rect>)
        requires
            self.edges_fit(),
            other.edges_fit(),
        ensures
            match r {
                Some(c) => intersection(self@, other@) == Some(c@),
                None => intersection(self@, other@) is None,
            },
    {
        let left: i64 = if self.x >= other.x { self.x } else { other.x };
        let top: i64 = if self.y >= other.y { self.y } else { other.y };
        let right: i64 = if self.right() <= other.right() { self.right() } else { other.right() };
        let bottom: i64 = if self.bottom() <= other.bottom() { self.bottom() } else { other.bottom() };
        if right < left || bottom < top {
            None
        } else {
            Some(Rect { x: left, y: top, w: right - left, h: bottom - top })
        }
    }

    /// Whether the two boxes share an area of nonzero width and height.
    pub fn overlaps(&self, other: Rect) -> (r: bool)
        requires
            self.edges_fit(),
            other.edges_fit(),
        ensures
            r == overlapping(self@, other@),
    {
        match self.intersect(other) {
            Some(c) => c.w != 0 && c.h != 0,
            None => false,
        }
    }
}

/// The axis along which an overlap is undone.
#[derive(Clone, Copy, Debug, PartialEq, Eq)]
pub enum Axis {
    /// The entity is moved up or down.
    Vertical,
    /// The entity is moved left or right.
    Horizontal,
}

/// The distance of a number from zero.
pub open spec fn magnitude(v: int) -> int {
    if v < 0 { -v } else { v }
}

/// A nonnegative length rounded to the nearest whole unit, halves upwards.
pub open spec fn rounded(v: int) -> int {
    (v + UNIT / 2) / (UNIT as int) * UNIT
}

/// The axis for a dynamic entity against a static one: vertical when the
/// entity used to be horizontally nearer to the obstacle's centre than `size`.
pub open spec fn static_axis(delta_x: int, size: int) -> Axis {
    if magnitude(delta_x) < size { Axis::Vertical } else { Axis::Horizontal }
}

/// The axis for two dynamic entities: vertical when their former horizontal
/// distance, rounded to whole units, is less than `size`.
pub open spec fn dynamic_axis(delta_x: int, size: int) -> Axis {
    if rounded(magnitude(delta_x)) < size { Axis::Vertical } else { Axis::Horizontal }
}

/// Chooses the axis for a dynamic entity that used to be at `previous_x`
/// against a static one centred at `centre_x`.
pub fn choose_static_axis(previous_x: i64, centre_x: i64, size: i64) -> (axis: Axis)
    ensures
        axis == static_axis(previous_x - centre_x, size as int),
{
    let delta: i128 = previous_x as i128 - centre_x as i128;
    let distance: i128 = if delta < 0 { -delta } else { delta };
    if distance < size as i128 { Axis::Vertical } else { Axis::Horizontal }
}

/// Chooses the axis for two dynamic entities that used to be at
/// `previous_x` and `other_previous_x`.
pub fn choose_dynamic_axis(previous_x: i64, other_previous_x: i64, size: i64) -> (axis: Axis)
    ensures
        axis == dynamic_axis(previous_x - other_previous_x, size as int),
{
    let delta: i128 = previous_x as i128 - other_previous_x as i128;
    let distance: i128 = if delta < 0 { -delta } else { delta };
    let whole: i128 = (distance + (UNIT / 2) as i128) / (UNIT as i128) * (UNIT as i128);
    if whole < size as i128 { Axis::Vertical } else { Axis::Horizontal }
}

} // verus!
