//! Points and rectangles on the screen.
use crate::binary32::Binary32;
use vstd::prelude::*;

verus! {

/// A position, in points, to the right of and below the origin.
#[derive(Clone, Copy, Debug, PartialEq, Eq, Structural)]
pub struct Pos2 {
    /// How far to the right.
    pub x: Binary32,
    /// How far down.
    pub y: Binary32,
}

/// A displacement or a size.
#[derive(Clone, Copy, Debug, PartialEq, Eq, Structural)]
pub struct Vec2 {
    /// How far to the right.
    pub x: Binary32,
    /// How far down.
    pub y: Binary32,
}

/// A rectangle, with its corners included.
#[derive(Clone, Copy, Debug, PartialEq, Eq, Structural)]
pub struct Rect {
    /// The left top corner.
    pub min: Pos2,
    /// The right bottom corner.
    pub max: Pos2,
}

impl Vec2 {
    /// The squared length, rounded after each operation.
    pub open spec fn squared_length(self) -> Binary32 {
        self.x.product(self.x).sum(self.y.product(self.y))
    }

    /// The same extent in both directions.
    #[verifier::allow_in_spec]
    pub fn splat(extent: Binary32) -> (size: Vec2)
        returns
            (Vec2 { x: extent, y: extent }),
    {
        Vec2 { x: extent, y: extent }
    }

    /// The squared length.
    pub fn length_sq(self) -> (result: Binary32)
        ensures
            result == self.squared_length(),
    {
        self.x.times(self.x).plus(self.y.times(self.y))
    }
}

impl Pos2 {
    /// The position after a displacement.
    pub open spec fn moved(self, by: Vec2) -> Pos2 {
        Pos2 { x: self.x.sum(by.x), y: self.y.sum(by.y) }
    }

    /// The position before a displacement.
    pub open spec fn moved_back(self, by: Vec2) -> Pos2 {
        Pos2 { x: self.x.difference(by.x), y: self.y.difference(by.y) }
    }

    /// `self + by`.
    pub fn plus(self, by: Vec2) -> (result: Pos2)
        ensures
            result == self.moved(by),
    {
        Pos2 { x: self.x.plus(by.x), y: self.y.plus(by.y) }
    }

    /// `self - by`.
    pub fn minus(self, by: Vec2) -> (result: Pos2)
        ensures
            result == self.moved_back(by),
    {
        Pos2 { x: self.x.minus(by.x), y: self.y.minus(by.y) }
    }
}

impl Rect {
    /// The rectangle of a size whose left top corner is `min`.
    pub open spec fn sized(min: Pos2, size: Vec2) -> Rect {
        Rect { min, max: min.moved(size) }
    }

    /// The position lies in the rectangle or on its border.
    pub open spec fn covers(self, position: Pos2) -> bool {
        &&& self.min.x.no_more_than(position.x)
        &&& position.x.no_more_than(self.max.x)
        &&& self.min.y.no_more_than(position.y)
        &&& position.y.no_more_than(self.max.y)
    }

    /// The rectangle of a size whose left top corner is `min`.
    pub fn from_min_size(min: Pos2, size: Vec2) -> (rect: Rect)
        ensures
            rect == Rect::sized(min, size),
    {
        Rect { min, max: min.plus(size) }
    }

    /// Whether the position lies in the rectangle or on its border.
    pub fn contains(self, position: Pos2) -> (result: bool)
        ensures
            result == self.covers(position),
    {
        self.min.x.at_most(position.x) && position.x.at_most(self.max.x) && self.min.y.at_most(
            position.y,
        ) && position.y.at_most(self.max.y)
    }
}

/// A position is in a rectangle if and only if both its coordinates are between
/// those of the corners, the corners included; nothing is where a coordinate is no
/// number.
pub proof fn law_covers(rect: Rect, position: Pos2)
    ensures
        rect.covers(position) <==> {
            &&& !rect.min.x.is_nan() && !rect.min.y.is_nan()
            &&& !rect.max.x.is_nan() && !rect.max.y.is_nan()
            &&& !position.x.is_nan() && !position.y.is_nan()
            &&& rect.min.x.value() <= position.x.value() <= rect.max.x.value()
            &&& rect.min.y.value() <= position.y.value() <= rect.max.y.value()
        },
{
}

/// A position is moved in each direction on its own, there by the sum and back by
/// the difference.
pub proof fn law_moving(position: Pos2, by: Vec2)
    ensures
        position.moved(by).x == position.x.sum(by.x),
        position.moved(by).y == position.y.sum(by.y),
        position.moved_back(by).x == position.x.difference(by.x),
        position.moved_back(by).y == position.y.difference(by.y),
{
}

/// A rectangle of a size reaches from its corner as far as the size says.
pub proof fn law_sized(min: Pos2, size: Vec2)
    ensures
        Rect::sized(min, size).min == min,
        Rect::sized(min, size).max.x == min.x.sum(size.x),
        Rect::sized(min, size).max.y == min.y.sum(size.y),
{
}

/// The squared length is the sum of the squares, each of them rounded, and so
/// does not depend on which way the displacement points.
pub proof fn law_squared_length(x: Binary32, y: Binary32)
    ensures
        (Vec2 { x, y }).squared_length() == x.product(x).sum(y.product(y)),
        (Vec2 { x: x.negated(), y }).squared_length() == (Vec2 { x, y }).squared_length(),
        (Vec2 { x, y: y.negated() }).squared_length() == (Vec2 { x, y }).squared_length(),
{
    crate::binary32::law_negation(x);
    crate::binary32::law_negation(y);
}

} // verus!
