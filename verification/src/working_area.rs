//! The part of the screen that windows are arranged in.
use vstd::prelude::*;

use crate::config::{Border, Struts, WholeSize};
use crate::geometry::{Point, Rectangle, Size};
use crate::scalar::{ceil_logical_in_physical, num, raised_in_physical, Pixels, Scalar};

verus! {

/// The area inside of the struts, before it is moved to a physical pixel.
pub open spec fn inside_struts<N: Scalar>(
    parent_area: Rectangle<N>,
    struts: Struts<N>,
) -> Rectangle<N> {
    Rectangle {
        loc: Point { x: parent_area.loc.x + struts.left, y: parent_area.loc.y + struts.top },
        size: Size {
            w: num::<N>(0).spec_max(parent_area.size.w - struts.left - struts.right),
            h: num::<N>(0).spec_max(parent_area.size.h - struts.top - struts.bottom),
        },
    }
}

/// The area inside of the struts, shrunk at its start to begin at a physical pixel.
pub open spec fn working_area<N: Scalar>(
    parent_area: Rectangle<N>,
    scale: N,
    struts: Struts<N>,
) -> Rectangle<N> {
    let inside = inside_struts(parent_area, struts);
    let loc = Point {
        x: raised_in_physical(scale, inside.loc.x),
        y: raised_in_physical(scale, inside.loc.y),
    };
    Rectangle {
        loc,
        size: Size {
            w: inside.size.w - inside.size.w.spec_min(loc.x - inside.loc.x),
            h: inside.size.h - inside.size.h.spec_min(loc.y - inside.loc.y),
        },
    }
}

/// Takes the struts off an area and moves its start up to a physical pixel.
pub fn compute_working_area<N: Scalar>(
    parent_area: Rectangle<N>,
    scale: N,
    struts: Struts<N>,
) -> (r: Rectangle<N>)
    ensures
        r == working_area(parent_area, scale, struts),
{
    let zero = N::of_int(0);
    let width = zero.max(parent_area.size.w.sub(struts.left).sub(struts.right));
    let x = parent_area.loc.x.add(struts.left);
    let height = zero.max(parent_area.size.h.sub(struts.top).sub(struts.bottom));
    let y = parent_area.loc.y.add(struts.top);

    let loc = Point {
        x: ceil_logical_in_physical(scale, x),
        y: ceil_logical_in_physical(scale, y),
    };
    let width_diff = width.min(loc.x.sub(x));
    let height_diff = height.min(loc.y.sub(y));
    Rectangle::new(loc, Size { w: width.sub(width_diff), h: height.sub(height_diff) })
}

pub open spec fn toplevel_bound<N: Scalar>(
    border: Border<N>,
    span: N,
    extra: N,
    gaps: N,
) -> i32 {
    let border = if border.off {
        num::<N>(0)
    } else {
        border.width * num::<N>(2)
    };
    (span - gaps * num::<N>(2) - extra - border).spec_max(num::<N>(1)).spec_floor().spec_to_i32()
}

/// The largest size that a window in the working area can have.
pub open spec fn toplevel_bounds<N: Scalar>(
    border: Border<N>,
    working_area_size: Size<N>,
    extra_size: Size<N>,
    gaps: N,
) -> WholeSize {
    WholeSize {
        w: toplevel_bound(border, working_area_size.w, extra_size.w, gaps),
        h: toplevel_bound(border, working_area_size.h, extra_size.h, gaps),
    }
}

/// Computes the largest size that a window in the working area can have.
pub fn compute_toplevel_bounds<N: Scalar>(
    border_config: Border<N>,
    working_area_size: Size<N>,
    extra_size: Size<N>,
    gaps: N,
) -> (r: WholeSize)
    ensures
        r == toplevel_bounds(border_config, working_area_size, extra_size, gaps),
{
    let two = N::of_int(2);
    let one = N::of_int(1);
    let border = if border_config.off {
        N::of_int(0)
    } else {
        border_config.width.mul(two)
    };
    let w = working_area_size.w.sub(gaps.mul(two)).sub(extra_size.w).sub(border).max(one);
    let h = working_area_size.h.sub(gaps.mul(two)).sub(extra_size.h).sub(border).max(one);
    WholeSize { w: w.floor().to_i32(), h: h.floor().to_i32() }
}

/// The working area starts at a physical pixel: moving its location up to one changes nothing.
/// Stated for whole pixels at a whole scale, small enough that no product leaves their range.
pub proof fn law_working_area_starts_at_physical_pixel(
    parent_area: Rectangle<Pixels>,
    scale: Pixels,
    struts: Struts<Pixels>,
)
    requires
        0 < scale.value <= 0x1_0000,
        -0x1_0000_0000 <= parent_area.loc.x.value <= 0x1_0000_0000,
        -0x1_0000_0000 <= parent_area.loc.y.value <= 0x1_0000_0000,
        -0x1_0000_0000 <= struts.left.value <= 0x1_0000_0000,
        -0x1_0000_0000 <= struts.top.value <= 0x1_0000_0000,
    ensures
        ({
            let loc = working_area(parent_area, scale, struts).loc;
            raised_in_physical(scale, loc.x) == loc.x && raised_in_physical(scale, loc.y) == loc.y
        }),
{
    lemma_raised_is_fixed(scale, parent_area.loc.x.spec_add(struts.left));
    lemma_raised_is_fixed(scale, parent_area.loc.y.spec_add(struts.top));
}

/// Whole pixels at a whole scale already lie on physical pixels.
proof fn lemma_raised_is_fixed(scale: Pixels, at: Pixels)
    requires
        0 < scale.value <= 0x1_0000,
        -0x2_0000_0000 <= at.value <= 0x2_0000_0000,
    ensures
        raised_in_physical(scale, at) == at,
{
    let a = at.value as int;
    let s = scale.value as int;
    assert(-0x4_0000_0000_0000 <= a * s <= 0x4_0000_0000_0000) by (nonlinear_arith)
        requires
            0 < s <= 0x1_0000,
            -0x2_0000_0000 <= a <= 0x2_0000_0000,
    ;
    assert((a * s) / s == a) by (nonlinear_arith)
        requires
            0 < s,
    ;
}

} // verus!
