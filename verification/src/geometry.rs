//! Points, sizes and rectangles in logical coordinates.
use vstd::prelude::*;

use crate::scalar::Scalar;

verus! {

/// A location, or a vector between two locations.
#[derive(Clone, Copy, PartialEq, Eq, Debug)]
pub struct Point<N> {
    pub x: N,
    pub y: N,
}

/// The extent of a rectangle.
#[derive(Clone, Copy, PartialEq, Eq, Debug)]
pub struct Size<N> {
    pub w: N,
    pub h: N,
}

/// A rectangle given by its top-left corner and its extent.
#[derive(Clone, Copy, PartialEq, Eq, Debug)]
pub struct Rectangle<N> {
    pub loc: Point<N>,
    pub size: Size<N>,
}

impl<N: Scalar> Point<N> {
    pub open spec fn spec_zero() -> Self {
        Point { x: N::spec_of_int(0), y: N::spec_of_int(0) }
    }

    pub open spec fn spec_add(self, rhs: Self) -> Self {
        Point { x: self.x + rhs.x, y: self.y + rhs.y }
    }

    pub open spec fn spec_sub(self, rhs: Self) -> Self {
        Point { x: self.x - rhs.x, y: self.y - rhs.y }
    }

    /// Numeric equality of both coordinates.
    pub open spec fn spec_same(self, rhs: Self) -> bool {
        self.x.spec_same(rhs.x) && self.y.spec_same(rhs.y)
    }

    pub fn zero() -> (r: Self)
        ensures
            r == Self::spec_zero(),
    {
        Point { x: N::of_int(0), y: N::of_int(0) }
    }

    pub fn add(self, rhs: Self) -> (r: Self)
        ensures
            r == self + rhs,
    {
        Point { x: self.x.add(rhs.x), y: self.y.add(rhs.y) }
    }

    pub fn sub(self, rhs: Self) -> (r: Self)
        ensures
            r == self - rhs,
    {
        Point { x: self.x.sub(rhs.x), y: self.y.sub(rhs.y) }
    }

    pub fn same(self, rhs: Self) -> (r: bool)
        ensures
            r == self.spec_same(rhs),
    {
        self.x.same(rhs.x) && self.y.same(rhs.y)
    }

    /// The point moved to the nearest physical pixel.
    pub open spec fn rounded(self, scale: N) -> Self {
        Point {
            x: crate::scalar::rounded_in_physical(scale, self.x),
            y: crate::scalar::rounded_in_physical(scale, self.y),
        }
    }

    /// Moves the point to the nearest physical pixel.
    pub fn round_in_physical(self, scale: N) -> (r: Self)
        ensures
            r == self.rounded(scale),
    {
        Point {
            x: crate::scalar::round_logical_in_physical(scale, self.x),
            y: crate::scalar::round_logical_in_physical(scale, self.y),
        }
    }
}

impl<N: Scalar> Size<N> {
    pub open spec fn spec_zero() -> Self {
        Size { w: N::spec_of_int(0), h: N::spec_of_int(0) }
    }

    pub open spec fn spec_add(self, rhs: Self) -> Self {
        Size { w: self.w + rhs.w, h: self.h + rhs.h }
    }

    /// Numeric equality of both spans.
    pub open spec fn spec_same(self, rhs: Self) -> bool {
        self.w.spec_same(rhs.w) && self.h.spec_same(rhs.h)
    }

    pub fn zero() -> (r: Self)
        ensures
            r == Self::spec_zero(),
    {
        Size { w: N::of_int(0), h: N::of_int(0) }
    }

    pub fn add(self, rhs: Self) -> (r: Self)
        ensures
            r == self + rhs,
    {
        Size { w: self.w.add(rhs.w), h: self.h.add(rhs.h) }
    }

    pub fn same(self, rhs: Self) -> (r: bool)
        ensures
            r == self.spec_same(rhs),
    {
        self.w.same(rhs.w) && self.h.same(rhs.h)
    }

    /// The vector from the origin that spans this size.
    pub fn to_point(self) -> (r: Point<N>)
        ensures
            r == (Point { x: self.w, y: self.h }),
    {
        Point { x: self.w, y: self.h }
    }
}

/// The greater of two coordinates; the second one where neither is greater.
pub open spec fn greater<N: Scalar>(a: N, b: N) -> N {
    if b < a {
        a
    } else {
        b
    }
}

/// The lesser of two coordinates; the second one where neither is less.
pub open spec fn lesser<N: Scalar>(a: N, b: N) -> N {
    if a < b {
        a
    } else {
        b
    }
}

fn pick_greater<N: Scalar>(a: N, b: N) -> (r: N)
    ensures
        r == greater(a, b),
{
    if b.lt(a) {
        a
    } else {
        b
    }
}

fn pick_lesser<N: Scalar>(a: N, b: N) -> (r: N)
    ensures
        r == lesser(a, b),
{
    if a.lt(b) {
        a
    } else {
        b
    }
}

impl<N: Scalar> Rectangle<N> {
    pub open spec fn spec_zero() -> Self {
        Rectangle { loc: Point::spec_zero(), size: Size::spec_zero() }
    }

    /// Numeric equality of all four numbers.
    pub open spec fn spec_same(self, rhs: Self) -> bool {
        self.loc.spec_same(rhs.loc) && self.size.spec_same(rhs.size)
    }

    /// The start edges belong to the rectangle, the end edges do not.
    pub open spec fn spec_contains(self, point: Point<N>) -> bool {
        &&& self.loc.x <= point.x
        &&& point.x < self.loc.x + self.size.w
        &&& self.loc.y <= point.y
        &&& point.y < self.loc.y + self.size.h
    }

    /// Whether the two rectangles share more than an edge.
    pub open spec fn spec_overlaps(self, other: Self) -> bool {
        &&& self.loc.x < other.loc.x + other.size.w
        &&& other.loc.x < self.loc.x + self.size.w
        &&& self.loc.y < other.loc.y + other.size.h
        &&& other.loc.y < self.loc.y + self.size.h
    }

    /// The area that the two rectangles share, if they overlap.
    pub open spec fn spec_intersection(self, other: Self) -> Option<Self> {
        if self.spec_overlaps(other) {
            let start = Point {
                x: greater(self.loc.x, other.loc.x),
                y: greater(self.loc.y, other.loc.y),
            };
            let end = Point {
                x: lesser(self.loc.x + self.size.w, other.loc.x + other.size.w),
                y: lesser(self.loc.y + self.size.h, other.loc.y + other.size.h),
            };
            Some(Rectangle { loc: start, size: Size { w: end.x - start.x, h: end.y - start.y } })
        } else {
            None
        }
    }

    pub fn new(loc: Point<N>, size: Size<N>) -> (r: Self)
        ensures
            r == (Rectangle { loc, size }),
    {
        Rectangle { loc, size }
    }

    pub fn zero() -> (r: Self)
        ensures
            r == Self::spec_zero(),
    {
        Rectangle { loc: Point::zero(), size: Size::zero() }
    }

    pub fn same(self, rhs: Self) -> (r: bool)
        ensures
            r == self.spec_same(rhs),
    {
        self.loc.same(rhs.loc) && self.size.same(rhs.size)
    }

    pub fn contains(self, point: Point<N>) -> (r: bool)
        ensures
            r == self.spec_contains(point),
    {
        self.loc.x.le(point.x) && point.x.lt(self.loc.x.add(self.size.w)) && self.loc.y.le(point.y)
            && point.y.lt(self.loc.y.add(self.size.h))
    }

    pub fn overlaps(self, other: Self) -> (r: bool)
        ensures
            r == self.spec_overlaps(other),
    {
        self.loc.x.lt(other.loc.x.add(other.size.w)) && other.loc.x.lt(self.loc.x.add(self.size.w))
            && self.loc.y.lt(other.loc.y.add(other.size.h)) && other.loc.y.lt(
            self.loc.y.add(self.size.h),
        )
    }

    pub fn intersection(self, other: Self) -> (r: Option<Self>)
        ensures
            r == self.spec_intersection(other),
    {
        if !self.overlaps(other) {
            return None;
        }
        let start = Point {
            x: pick_greater(self.loc.x, other.loc.x),
            y: pick_greater(self.loc.y, other.loc.y),
        };
        let end = Point {
            x: pick_lesser(self.loc.x.add(self.size.w), other.loc.x.add(other.size.w)),
            y: pick_lesser(self.loc.y.add(self.size.h), other.loc.y.add(other.size.h)),
        };
        Some(Rectangle { loc: start, size: Size { w: end.x.sub(start.x), h: end.y.sub(start.y) } })
    }
}

} // verus!
