//! The two axes of a layout and how they map to the screen.
//!
//! A layout works in a space of its own, whose first coordinate runs along the main axis and whose
//! second coordinate runs along the cross axis. An [`AxisMap`] carries values between that space
//! and the screen.
use vstd::prelude::*;

use crate::geometry::{Point, Rectangle, Size};
use crate::scalar::Scalar;

verus! {

/// The screen direction along which sections follow each other.
#[derive(Clone, Copy, PartialEq, Eq, Structural, Debug)]
pub enum MainAxis {
    Horizontal,
    Vertical,
}

impl Default for MainAxis {
    fn default() -> (r: Self)
        ensures
            r == MainAxis::Horizontal,
    {
        MainAxis::Horizontal
    }
}

/// A direction of the screen, whatever the layout.
#[derive(Clone, Copy, PartialEq, Eq, Structural, Debug)]
pub enum PhysicalAxis {
    Width,
    Height,
}

/// The edges of a window that a resize moves.
#[derive(Clone, Copy, PartialEq, Eq, Structural, Debug)]
pub struct ResizeEdge {
    pub top: bool,
    pub bottom: bool,
    pub left: bool,
    pub right: bool,
}

impl ResizeEdge {
    /// No edge at all.
    pub fn empty() -> (r: Self)
        ensures
            r == (ResizeEdge { top: false, bottom: false, left: false, right: false }),
    {
        ResizeEdge { top: false, bottom: false, left: false, right: false }
    }
}

/// The map between the screen and the space of a layout with a given main axis.
#[derive(Clone, Copy, PartialEq, Eq, Structural, Debug)]
pub struct AxisMap {
    pub main_axis: MainAxis,
}

impl AxisMap {
    /// The main axis that the map was made for.
    pub open spec fn axis(self) -> MainAxis {
        self.main_axis
    }

    pub open spec fn swaps(self) -> bool {
        self.axis() == MainAxis::Vertical
    }

    pub open spec fn spec_point<N>(self, point: Point<N>) -> Point<N> {
        if self.swaps() {
            Point { x: point.y, y: point.x }
        } else {
            point
        }
    }

    pub open spec fn spec_size<N>(self, size: Size<N>) -> Size<N> {
        if self.swaps() {
            Size { w: size.h, h: size.w }
        } else {
            size
        }
    }

    pub open spec fn spec_rect<N>(self, rect: Rectangle<N>) -> Rectangle<N> {
        Rectangle { loc: self.spec_point(rect.loc), size: self.spec_size(rect.size) }
    }

    pub open spec fn spec_edges(self, edges: ResizeEdge) -> ResizeEdge {
        if self.swaps() {
            ResizeEdge {
                top: edges.left,
                bottom: edges.right,
                left: edges.top,
                right: edges.bottom,
            }
        } else {
            edges
        }
    }

    pub fn new(main_axis: MainAxis) -> (r: Self)
        ensures
            r == (AxisMap { main_axis }),
    {
        AxisMap { main_axis }
    }

    pub fn main_axis(self) -> (r: MainAxis)
        ensures
            r == self.axis(),
    {
        self.main_axis
    }

    pub fn is_vertical(self) -> (r: bool)
        ensures
            r == self.swaps(),
    {
        self.main_axis == MainAxis::Vertical
    }

    /// From the screen into the layout.
    pub fn point_in<N>(self, point: Point<N>) -> (r: Point<N>)
        ensures
            r == self.spec_point(point),
    {
        if self.is_vertical() {
            Point { x: point.y, y: point.x }
        } else {
            point
        }
    }

    /// From the layout onto the screen.
    pub fn point_out<N>(self, point: Point<N>) -> (r: Point<N>)
        ensures
            r == self.spec_point(point),
    {
        self.point_in(point)
    }

    /// From the screen into the layout.
    pub fn size_in<N>(self, size: Size<N>) -> (r: Size<N>)
        ensures
            r == self.spec_size(size),
    {
        if self.is_vertical() {
            Size { w: size.h, h: size.w }
        } else {
            size
        }
    }

    /// From the layout onto the screen.
    pub fn size_out<N>(self, size: Size<N>) -> (r: Size<N>)
        ensures
            r == self.spec_size(size),
    {
        self.size_in(size)
    }

    /// From the screen into the layout.
    pub fn rect_in<N>(self, rect: Rectangle<N>) -> (r: Rectangle<N>)
        ensures
            r == self.spec_rect(rect),
    {
        Rectangle { loc: self.point_in(rect.loc), size: self.size_in(rect.size) }
    }

    /// From the layout onto the screen.
    pub fn rect_out<N>(self, rect: Rectangle<N>) -> (r: Rectangle<N>)
        ensures
            r == self.spec_rect(rect),
    {
        self.rect_in(rect)
    }

    /// The screen point with the given layout coordinates.
    pub fn point_from_main_cross<N>(self, main: N, cross: N) -> (r: Point<N>)
        ensures
            r == self.spec_point(Point { x: main, y: cross }),
    {
        self.point_out(Point { x: main, y: cross })
    }

    /// The screen size with the given layout spans.
    pub fn size_from_main_cross<N>(self, main: N, cross: N) -> (r: Size<N>)
        ensures
            r == self.spec_size(Size { w: main, h: cross }),
    {
        self.size_out(Size { w: main, h: cross })
    }

    /// The screen vector of a given length along the main axis.
    pub fn main_vec<N: Scalar>(self, main: N) -> (r: Point<N>)
        ensures
            r == self.spec_point(Point { x: main, y: N::spec_of_int(0) }),
    {
        self.point_from_main_cross(main, N::of_int(0))
    }

    /// From edges on the screen to edges in the layout.
    pub fn resize_edges_in(self, edges: ResizeEdge) -> (r: ResizeEdge)
        ensures
            r == self.spec_edges(edges),
    {
        if !self.is_vertical() {
            return edges;
        }
        let mut mapped = ResizeEdge::empty();
        if edges.left {
            mapped.top = true;
        }
        if edges.right {
            mapped.bottom = true;
        }
        if edges.top {
            mapped.left = true;
        }
        if edges.bottom {
            mapped.right = true;
        }
        mapped
    }

    /// From edges in the layout to edges on the screen.
    pub fn resize_edges_out(self, edges: ResizeEdge) -> (r: ResizeEdge)
        ensures
            r == self.spec_edges(edges),
    {
        self.resize_edges_in(edges)
    }
}

/// Going into the layout and back out again changes nothing, in either order.
pub proof fn law_axis_map_is_an_involution<N>(
    map: AxisMap,
    point: Point<N>,
    size: Size<N>,
    rect: Rectangle<N>,
    edges: ResizeEdge,
)
    ensures
        map.spec_point(map.spec_point(point)) == point,
        map.spec_size(map.spec_size(size)) == size,
        map.spec_rect(map.spec_rect(rect)) == rect,
        map.spec_edges(map.spec_edges(edges)) == edges,
{
}

} // verus!
