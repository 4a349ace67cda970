//! What is left of the screen for windows.
use vstd::prelude::*;

use crate::config::{Border, Struts};
use crate::exact::{exact, rounds};
use crate::geometry::Rectangle;
use crate::scalar::{num, raised_in_physical, Scalar};
use crate::working_area::{inside_struts, toplevel_bound, working_area};

verus! {

/// A position moved up to a physical pixel is moved by less than one.
proof fn lemma_raised<N: Scalar>(value: spec_fn(N) -> real, scale: N, at: N)
    requires
        exact(value),
        rounds(value),
        value(scale) > 0 as real,
    ensures
        value(raised_in_physical(scale, at)) >= value(at),
        (value(raised_in_physical(scale, at)) - value(at)) * value(scale) < 1 as real,
        ({
            let pixels = value(raised_in_physical(scale, at)) * value(scale);
            pixels == pixels.floor() as real
        }),
{
    let (a, s) = (value(at), value(scale));
    let physical = at.spec_mul(scale);
    let raised = physical.spec_ceil();
    let up = value(raised);
    let whole = up.floor();
    assert(value(physical) == a * s);
    assert(up == whole as real && a * s <= up && up < a * s + 1 as real);
    assert(value(raised.spec_div(scale)) == up / s);
    assert(up / s >= a && (up / s - a) * s < 1 as real && (up / s) * s == up) by (nonlinear_arith)
        requires
            s > 0 as real,
            a * s <= up,
            up < a * s + 1 as real,
    ;
}

/// One axis of the working area: it starts at the first physical pixel inside of the strut, and ends
/// where the strut on the other side starts.
proof fn lemma_inside<N: Scalar>(
    value: spec_fn(N) -> real,
    scale: N,
    start: N,
    span: N,
    before: N,
    after: N,
)
    requires
        exact(value),
        rounds(value),
        value(scale) > 0 as real,
    ensures
        ({
            let from = start.spec_add(before);
            let left = num::<N>(0).spec_max(span.spec_sub(before).spec_sub(after));
            let at = raised_in_physical(scale, from);
            let kept = left.spec_sub(left.spec_min(at.spec_sub(from)));
            let end = value(start) + value(span) - value(after);
            &&& value(at) >= value(start) + value(before)
            &&& (value(at) - (value(start) + value(before))) * value(scale) < 1 as real
            &&& value(kept) >= 0 as real
            &&& value(at) <= end ==> value(at) + value(kept) == end
            &&& value(at) > end ==> value(kept) == 0 as real
        }),
{
    let from = start.spec_add(before);
    lemma_raised(value, scale, from);
    let left = num::<N>(0).spec_max(span.spec_sub(before).spec_sub(after));
    let at = raised_in_physical(scale, from);
    assert(value(num::<N>(0)) == 0 as real);
    assert(value(span.spec_sub(before).spec_sub(after)) == value(span) - value(before) - value(
        after,
    ));
    assert(value(left.spec_min(at.spec_sub(from))) <= value(left));
    assert(value(at.spec_sub(from)) == value(at) - value(from));
}

/// The working area is what the struts leave of the parent area: on either axis it starts at the
/// first physical pixel that is inside, and ends where the struts on the other side start.
pub proof fn law_working_area_is_inside_the_struts<N: Scalar>(
    value: spec_fn(N) -> real,
    parent: Rectangle<N>,
    scale: N,
    struts: Struts<N>,
)
    requires
        exact(value),
        rounds(value),
        value(scale) > 0 as real,
    ensures
        ({
            let area = working_area(parent, scale, struts);
            let left = value(parent.loc.x) + value(struts.left);
            let right = value(parent.loc.x) + value(parent.size.w) - value(struts.right);
            let top = value(parent.loc.y) + value(struts.top);
            let bottom = value(parent.loc.y) + value(parent.size.h) - value(struts.bottom);
            let (x, y) = (value(area.loc.x), value(area.loc.y));
            let (w, h) = (value(area.size.w), value(area.size.h));
            &&& left <= x && (x - left) * value(scale) < 1 as real
            &&& top <= y && (y - top) * value(scale) < 1 as real
            &&& w >= 0 as real && h >= 0 as real
            &&& x <= right ==> x + w == right
            &&& x > right ==> w == 0 as real
            &&& y <= bottom ==> y + h == bottom
            &&& y > bottom ==> h == 0 as real
        }),
{
    lemma_inside(value, scale, parent.loc.x, parent.size.w, struts.left, struts.right);
    lemma_inside(value, scale, parent.loc.y, parent.size.h, struts.top, struts.bottom);
    assert(inside_struts(parent, struts).loc.x == parent.loc.x.spec_add(struts.left));
}

/// The largest span of a window is what the gaps on both sides, the header of tabs and the border
/// leave, in whole pixels, and never less than one.
pub proof fn law_window_fits_between_the_gaps<N: Scalar>(
    value: spec_fn(N) -> real,
    border: Border<N>,
    span: N,
    extra: N,
    gaps: N,
)
    requires
        exact(value),
        rounds(value),
        value(span) <= 1_000_000 as real,
        value(extra) >= 0 as real,
        value(gaps) >= 0 as real,
        value(border.width) >= 0 as real,
    ensures
        ({
            let bound = toplevel_bound(border, span, extra, gaps) as real;
            let around = value(extra) + 2 as real * value(gaps) + if border.off {
                0 as real
            } else {
                2 as real * value(border.width)
            };
            &&& bound >= 1 as real
            &&& value(span) >= around + 1 as real ==> bound + around <= value(span) < bound
                + 1 as real + around
            &&& value(span) < around + 1 as real ==> bound == 1 as real
        }),
{
    let (zero, one, two) = (num::<N>(0), num::<N>(1), num::<N>(2));
    assert(value(zero) == 0 as real && value(one) == 1 as real && value(two) == 2 as real);
    let (g, b) = (value(gaps), value(border.width));
    assert(value(gaps.spec_mul(two)) == g * 2 as real);
    assert(value(border.width.spec_mul(two)) == b * 2 as real);
    assert(g * 2 as real == 2 as real * g && b * 2 as real == 2 as real * b) by (nonlinear_arith);
    assert(2 as real * g >= 0 as real && 2 as real * b >= 0 as real) by (nonlinear_arith)
        requires
            g >= 0 as real,
            b >= 0 as real,
    ;
    let edge = if border.off {
        zero
    } else {
        border.width.spec_mul(two)
    };
    let left = span.spec_sub(gaps.spec_mul(two)).spec_sub(extra).spec_sub(edge);
    assert(value(left) == value(span) - value(gaps.spec_mul(two)) - value(extra) - value(edge));
    let most = left.spec_max(one);
    let whole = most.spec_floor();
    let n = value(whole).floor();
    assert(value(whole) == n as real);
    assert(1 as real <= value(most) && value(most) <= 1_000_000 as real);
    assert(n as real <= 1_000_000 as real && n as real > 0 as real);
    assert(0 < n <= 1_000_000);
    assert(whole.spec_to_i32() == n);
}

} // verus!
