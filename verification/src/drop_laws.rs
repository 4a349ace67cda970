//! Where a dropped window lands, seen from the window that it is dropped on.
use vstd::prelude::*;

use crate::config::{InsertPosition, LayoutOptions, SplitAxis, TilingDrag};
use crate::exact::{covers, exact};
use crate::geometry::{Point, Rectangle};
use crate::order::law_closest_is_first_minimum;
use crate::scalar::{num, Scalar};
use crate::section::{axis_of, lemma_section_tiles, SectionView};
use crate::space::SpaceView;
use crate::snap_laws::lemma_exact_is_ordered;
use crate::space_insert::{in_middle_third, region, relative};
use crate::view_laws::has_spans;
use crate::visible_laws::lemma_starts_grow;

verus! {

pub open spec fn lesser(a: real, b: real) -> real {
    if a <= b {
        a
    } else {
        b
    }
}

/// Whether a position is the right one for a drop at a point of a rectangle: in the middle, at
/// least a third away from every edge, it is the window itself; elsewhere it is the side of the
/// edge that is closest, by the share of the rectangle that is in between.
pub open spec fn is_side_of<N: Scalar>(
    value: spec_fn(N) -> real,
    at: InsertPosition,
    col: usize,
    tile: usize,
    rect: Rectangle<N>,
    pos: Point<N>,
    drag: TilingDrag,
) -> bool {
    let (w, h) = (value(rect.size.w), value(rect.size.h));
    let left = value(pos.x) - value(rect.loc.x);
    let top = value(pos.y) - value(rect.loc.y);
    let (right, bottom) = (w - left, h - top);
    let three = 3 as real;
    let is_in_middle = {
        &&& three * left >= w
        &&& three * right >= w
        &&& three * top >= h
        &&& three * bottom >= h
    };
    match at {
        InsertPosition::Swap(c, t) => {
            is_in_middle && drag == TilingDrag::InPlace && (c, t) == (col, tile)
        },
        InsertPosition::InsertTab(c, t) => {
            is_in_middle && drag != TilingDrag::InPlace && (c, t) == (col, tile)
        },
        InsertPosition::InSplit(c, t, axis, after) => {
            &&& !is_in_middle
            &&& (c, t) == (col, tile)
            &&& axis == SplitAxis::Main <==> lesser(left, right) * h <= lesser(top, bottom) * w
            &&& axis == SplitAxis::Main ==> (after <==> right < left)
            &&& axis == SplitAxis::Cross ==> (after <==> bottom < top)
        },
        _ => false,
    }
}

/// How far along a rectangle a point in it is.
proof fn lemma_relative<N: Scalar>(value: spec_fn(N) -> real, at: N, start: N, span: N)
    requires
        exact(value),
        value(span) >= 1 as real,
        value(start) <= value(at) <= value(start) + value(span),
    ensures
        value(relative(at, start, span)) * value(span) == value(at) - value(start),
        0 as real <= value(relative(at, start, span)) <= 1 as real,
        in_middle_third(relative(at, start, span)) <==> {
            &&& 3 as real * (value(at) - value(start)) >= value(span)
            &&& 3 as real * (value(span) - (value(at) - value(start))) >= value(span)
        },
{
    let d = value(at) - value(start);
    let s = value(span);
    let widest = span.spec_max(num::<N>(1));
    let quotient = at.spec_sub(start).spec_div(widest);
    assert(value(num::<N>(0)) == 0 as real && value(num::<N>(1)) == 1 as real);
    assert(value(num::<N>(2)) == 2 as real && value(num::<N>(3)) == 3 as real);
    assert(value(widest) == s);
    assert(value(at.spec_sub(start)) == d);
    assert(value(quotient) == d / s);
    let q = d / s;
    assert(q * s == d && 0 as real <= q <= 1 as real) by (nonlinear_arith)
        requires
            s >= 1 as real,
            0 as real <= d <= s,
            q == d / s,
    ;
    assert(relative(at, start, span) == quotient);
    assert(value(num::<N>(1).spec_div(num::<N>(3))) == 1 as real / 3 as real);
    assert(value(num::<N>(2).spec_div(num::<N>(3))) == 2 as real / 3 as real);
    assert((1 as real / 3 as real <= q <==> 3 as real * d >= s) && (q <= 2 as real / 3 as real
        <==> 3 as real * (s - d) >= s)) by (nonlinear_arith)
        requires
            s >= 1 as real,
            q * s == d,
    ;
}

/// The closer of two opposite edges, by shares and by lengths.
proof fn lemma_shares(a: real, b: real, w: real, h: real, left: real, top: real)
    requires
        w >= 1 as real,
        h >= 1 as real,
        a * w == left,
        b * h == top,
    ensures
        lesser(left, w - left) * h == lesser(a, 1 as real - a) * (w * h),
        lesser(top, h - top) * w == lesser(b, 1 as real - b) * (w * h),
        lesser(left, w - left) * h <= lesser(top, h - top) * w <==> lesser(a, 1 as real - a)
            <= lesser(b, 1 as real - b),
        w - left < left <==> a > 1 as real / 2 as real,
        h - top < top <==> b > 1 as real / 2 as real,
{
    assert((a <= 1 as real - a <==> left <= w - left) && (b <= 1 as real - b <==> top <= h - top))
        by (nonlinear_arith)
        requires
            w >= 1 as real,
            h >= 1 as real,
            a * w == left,
            b * h == top,
    ;
    assert(left * h == a * (w * h) && (w - left) * h == (1 as real - a) * (w * h)
        && top * w == b * (w * h) && (h - top) * w == (1 as real - b) * (w * h))
        by (nonlinear_arith)
        requires
            a * w == left,
            b * h == top,
    ;
    let (x, y, k) = (lesser(a, 1 as real - a), lesser(b, 1 as real - b), w * h);
    assert(k > 0 as real) by (nonlinear_arith)
        requires
            k == w * h,
            w >= 1 as real,
            h >= 1 as real,
    ;
    assert(x * k <= y * k <==> x <= y) by (nonlinear_arith)
        requires
            k > 0 as real,
    ;
    assert((w - left < left <==> a > 1 as real / 2 as real) && (h - top < top <==> b > 1 as real
        / 2 as real)) by (nonlinear_arith)
        requires
            w >= 1 as real,
            h >= 1 as real,
            a * w == left,
            b * h == top,
    ;
}

/// A window dropped on another one goes to the side of the closest edge, or, in the middle, takes
/// its place or joins it in tabs.
pub proof fn law_drop_goes_to_the_closest_edge<N: Scalar>(
    value: spec_fn(N) -> real,
    col: usize,
    tile: usize,
    rect: Rectangle<N>,
    pos: Point<N>,
    drag: TilingDrag,
)
    requires
        exact(value),
        covers(value, rect, pos),
        value(rect.size.w) >= 1 as real,
        value(rect.size.h) >= 1 as real,
    ensures
        is_side_of(
            value,
            region(
                col,
                tile,
                relative(pos.x, rect.loc.x, rect.size.w),
                relative(pos.y, rect.loc.y, rect.size.h),
                drag,
            ),
            col,
            tile,
            rect,
            pos,
            drag,
        ),
{
    lemma_relative(value, pos.x, rect.loc.x, rect.size.w);
    lemma_relative(value, pos.y, rect.loc.y, rect.size.h);
    let rel_x = relative(pos.x, rect.loc.x, rect.size.w);
    let rel_y = relative(pos.y, rect.loc.y, rect.size.h);
    let half = num::<N>(1).spec_div(num::<N>(2));
    assert(value(num::<N>(1)) == 1 as real && value(num::<N>(2)) == 2 as real);
    assert(value(half) == 1 as real / 2 as real);
    assert(value(rel_x.spec_sub(half).spec_abs()) >= 0 as real);
    assert(value(rel_y.spec_sub(half).spec_abs()) >= 0 as real);
    lemma_shares(
        value(rel_x),
        value(rel_y),
        value(rect.size.w),
        value(rect.size.h),
        value(pos.x) - value(rect.loc.x),
        value(pos.y) - value(rect.loc.y),
    );
}

/// A tile as it is seen on screen, turned so that the main axis is across.
pub open spec fn seen_tile<N: Scalar>(space: SpaceView<N>, col: usize, tile: usize) -> Rectangle<
    N,
> {
    axis_of(space.layout()).spec_rect(
        space.insert_hint_area(InsertPosition::InsertTab(col, tile))->0,
    )
}

/// Whether a leaf of a section is shown, and a point on screen is on it.
pub open spec fn shows_at<N: Scalar>(
    value: spec_fn(N) -> real,
    space: SpaceView<N>,
    col: usize,
    tile: usize,
    pos: Point<N>,
) -> bool {
    &&& col < space.sections.len()
    &&& tile < space.sections[col as int].tiles().len()
    &&& space.sections[col as int].root.visibility(true)[tile as int]
    &&& covers(value, seen_tile(space, col, tile), axis_of(space.layout()).spec_point(pos))
}

/// The leaf that is found under a position is one that is there, and is found where one is.
proof fn lemma_leaf_under<N: Scalar>(
    section: SectionView<N>,
    layout: LayoutOptions<N>,
    section_main: N,
    main: N,
    cross: N,
    upto: int,
)
    requires
        0 <= upto <= usize::MAX,
    ensures
        section.leaf_under_upto(layout, section_main, main, cross, upto) matches Some(i) ==> {
            &&& i < upto
            &&& section.is_on_leaf(layout, section_main, main, cross, i as int)
        },
        section.leaf_under_upto(layout, section_main, main, cross, upto) is None ==> forall|i: int|
            0 <= i < upto ==> !(#[trigger] section.is_on_leaf(
                layout,
                section_main,
                main,
                cross,
                i,
            )),
    decreases upto,
{
    if upto > 0 {
        lemma_leaf_under(section, layout, section_main, main, cross, upto - 1);
    }
}

/// A point on screen is on a tile as it is seen where it is on the leaf in the space.
proof fn lemma_seen<N: Scalar>(
    value: spec_fn(N) -> real,
    space: SpaceView<N>,
    col: usize,
    tile: usize,
    pos: Point<N>,
)
    requires
        exact(value),
        space.wf(),
        col < space.sections.len(),
        tile < space.sections[col as int].tiles().len(),
    ensures
        ({
            let p = axis_of(space.layout()).spec_point(pos);
            let section = space.sections[col as int];
            let main = p.x.spec_add(space.view_pos());
            let start = space.section_pos(col as int);
            let at = section.leaf_positions(space.layout())[tile as int];
            let seen = seen_tile(space, col, tile);
            &&& seen.size == section.leaf_size(tile)
            &&& value(main) - value(start.spec_add(at.x)) == value(p.x) - value(seen.loc.x)
            &&& value(p.y) - value(at.y) == value(p.y) - value(seen.loc.y)
            &&& section.is_on_leaf(space.layout(), start, main, p.y, tile as int)
                <==> section.root.visibility(true)[tile as int] && covers(value, seen, p)
        }),
{
    let layout = space.layout();
    let section = space.sections[col as int];
    assert(section.wf());
    lemma_section_tiles(section, layout);
    let p = axis_of(layout).spec_point(pos);
    let start = space.section_pos(col as int);
    let at = section.leaf_positions(layout)[tile as int];
    let size = section.leaf_size(tile);
    let left = start.spec_add(at.x);
    let view = space.view_pos();
    let main = p.x.spec_add(view);
    assert(section.tile_offset(layout, tile as int) == at);
    assert(value(left.spec_sub(view)) == value(left) - value(view));
    assert(value(main) == value(p.x) + value(view));
    assert(value(left.spec_add(size.w)) == value(left) + value(size.w));
    assert(value(at.y.spec_add(size.h)) == value(at.y) + value(size.h));
}

/// The sections that have started are some of them.
proof fn lemma_started<N: Scalar>(space: SpaceView<N>, main: N, from: int)
    requires
        0 <= from <= space.sections.len() + 1,
    ensures
        from <= space.started(main, from) <= space.sections.len() + 1,
    decreases space.sections.len() + 1 - from,
{
    if from <= space.sections.len() && space.section_pos(from).spec_le(main) {
        lemma_started(space, main, from + 1);
    }
}

/// A window is placed beside another one only by a drop inside of a section.
proof fn lemma_split_is_inside<N: Scalar>(
    space: SpaceView<N>,
    pos: Point<N>,
    col: usize,
    tile: usize,
    axis: SplitAxis,
    after: bool,
)
    requires
        space.wf(),
        space.insert_position(pos) == InsertPosition::InSplit(col, tile, axis, after),
    ensures
        col < space.sections.len(),
        ({
            let p = axis_of(space.layout()).spec_point(pos);
            let section = space.sections[col as int];
            let row = section.closest_row(
                space.layout(),
                p.y.spec_add(space.layout().gaps.spec_div(num::<N>(2))),
            ).0;
            space.insert_position(pos) == section.interior_position(
                space.layout(),
                col,
                space.section_pos(col as int),
                p.x.spec_add(space.view_pos()),
                p.y,
                row,
            )
        }),
{
    let p = axis_of(space.layout()).spec_point(pos);
    let main = p.x.spec_add(space.view_pos()).spec_add(
        space.layout().gaps.spec_div(num::<N>(2)),
    );
    lemma_started(space, main, 0);
}

/// A drop that places a window beside another one is about a window under the pointer, wherever
/// there is one in the section.
pub proof fn law_split_is_of_the_window_under_the_drop<N: Scalar>(
    value: spec_fn(N) -> real,
    space: SpaceView<N>,
    pos: Point<N>,
    col: usize,
    tile: usize,
    axis: SplitAxis,
    after: bool,
    other: usize,
)
    requires
        exact(value),
        space.wf(),
        space.insert_position(pos) == InsertPosition::InSplit(col, tile, axis, after),
        shows_at(value, space, col, other, pos),
    ensures
        shows_at(value, space, col, tile, pos),
{
    let layout = space.layout();
    let section = space.sections[col as int];
    let p = axis_of(layout).spec_point(pos);
    let main = p.x.spec_add(space.view_pos());
    let start = space.section_pos(col as int);
    let count = section.tiles().len() as int;
    assert(section.wf());
    lemma_section_tiles(section, layout);
    lemma_leaf_under(section, layout, start, main, p.y, count);
    lemma_seen(value, space, col, other, pos);
    assert(section.is_on_leaf(layout, start, main, p.y, other as int));
    let found = section.leaf_under_upto(layout, start, main, p.y, count)->0;
    lemma_seen(value, space, col, found, pos);
    lemma_split_is_inside(space, pos, col, tile, axis, after);
    assert(found == tile);
}

/// A drop beside the window under the pointer goes to the side of the edge that is closest: before
/// it in the first half, after it in the second half. The hint that is shown for it is under the
/// pointer.
pub proof fn law_split_is_on_the_side_of_the_drop<N: Scalar>(
    value: spec_fn(N) -> real,
    space: SpaceView<N>,
    pos: Point<N>,
    col: usize,
    tile: usize,
    axis: SplitAxis,
    after: bool,
)
    requires
        exact(value),
        space.wf(),
        space.insert_position(pos) == InsertPosition::InSplit(col, tile, axis, after),
        shows_at(value, space, col, tile, pos),
        value(seen_tile(space, col, tile).size.w) >= 1 as real,
        value(seen_tile(space, col, tile).size.h) >= 1 as real,
    ensures
        is_side_of(
            value,
            space.insert_position(pos),
            col,
            tile,
            seen_tile(space, col, tile),
            axis_of(space.layout()).spec_point(pos),
            space.layout().tiling_drag,
        ),
        covers(value, space.insert_hint_area(space.insert_position(pos))->0, pos),
{
    let layout = space.layout();
    let section = space.sections[col as int];
    let p = axis_of(layout).spec_point(pos);
    let main = p.x.spec_add(space.view_pos());
    let start = space.section_pos(col as int);
    let at = section.leaf_positions(layout)[tile as int];
    let seen = seen_tile(space, col, tile);
    lemma_seen(value, space, col, tile, pos);
    lemma_split_is_inside(space, pos, col, tile, axis, after);
    let rect = Rectangle {
        loc: Point { x: start.spec_add(at.x), y: at.y },
        size: section.leaf_size(tile),
    };
    let point = Point { x: main, y: p.y };
    assert(value(point.x) - value(rect.loc.x) == value(p.x) - value(seen.loc.x));
    law_drop_goes_to_the_closest_edge(value, col, tile, rect, point, layout.tiling_drag);
    let two = num::<N>(2);
    assert(value(two) == 2 as real);
    let (w, h) = (rect.size.w, rect.size.h);
    assert(value(w.spec_div(two)) == value(w) / 2 as real);
    assert(value(h.spec_div(two)) == value(h) / 2 as real);
    let hint = space.split_hint(col as int, tile, axis, after);
    let view = space.view_pos();
    assert(section.tile_offset(layout, tile as int) == at) by {
        assert(section.wf());
        lemma_section_tiles(section, layout);
    }
    assert(value(hint.loc.x.spec_sub(view)) == value(hint.loc.x) - value(view));
    if axis == SplitAxis::Main && after {
        assert(value(hint.loc.x) == value(rect.loc.x) + value(w) / 2 as real);
    }
    if axis == SplitAxis::Cross && after {
        assert(value(hint.loc.y) == value(rect.loc.y) + value(h) / 2 as real);
    }
}

/// A new section goes to the gap that is closest to the drop.
pub proof fn law_new_section_goes_to_the_closest_gap<N: Scalar>(
    value: spec_fn(N) -> real,
    space: SpaceView<N>,
    pos: Point<N>,
    gap: usize,
    other: int,
)
    requires
        exact(value),
        space.wf(),
        space.sections.len() > 0,
        has_spans(value, space),
        space.insert_position(pos) == InsertPosition::NewSection(gap),
        0 <= other <= space.sections.len(),
    ensures
        ({
            let p = axis_of(space.layout()).spec_point(pos);
            let at = value(p.x) + value(space.view_pos()) + value(space.layout().gaps) / 2 as real;
            &&& gap <= space.sections.len()
            &&& distance(value(space.section_pos(gap as int)), at) <= distance(
                value(space.section_pos(other)),
                at,
            )
        }),
{
    let p = axis_of(space.layout()).spec_point(pos);
    let half = space.layout().gaps.spec_div(num::<N>(2));
    let main = p.x.spec_add(space.view_pos()).spec_add(half);
    assert(value(num::<N>(2)) == 2 as real && value(num::<N>(0)) == 0 as real);
    assert(value(half) == value(space.layout().gaps) / 2 as real);
    let count = space.sections.len() as int;
    let starts = space.section_starts();
    lemma_exact_is_ordered(value);
    law_closest_is_first_minimum(starts, main, count + 1);
    lemma_started(space, main, 0);
    let best = space.closest_gap(main);
    assert(0 <= best <= count);
    assert(starts[other].key.spec_sub(main).spec_abs() == space.section_pos(other).spec_sub(
        main,
    ).spec_abs());
    let (a, b) = (space.section_pos(best), space.section_pos(other));
    assert(value(a.spec_sub(main).spec_abs()) <= value(b.spec_sub(main).spec_abs()));
    assert(value(a.spec_sub(main)) == value(a) - value(main));
    assert(value(b.spec_sub(main)) == value(b) - value(main));
    lemma_starts_grow(value, space, 0, other);
}

pub open spec fn distance(a: real, b: real) -> real {
    if a < b {
        b - a
    } else {
        a - b
    }
}

/// The hint for a new section is 300 pixels wide, and as high as a section: in the middle of the gap
/// between two sections, before the first section, or after the last one.
pub proof fn law_new_section_hint_is_at_the_gap<N: Scalar>(
    value: spec_fn(N) -> real,
    space: SpaceView<N>,
    col: usize,
)
    requires
        exact(value),
        0 < space.sections.len(),
        col <= space.sections.len(),
    ensures
        ({
            let hint = space.hint_in_space(InsertPosition::NewSection(col))->0;
            let area = space.props.working_area;
            let gap = value(space.layout().gaps);
            let start = value(space.section_pos(col as int));
            let middle = value(hint.loc.x) + value(hint.size.w) / 2 as real;
            &&& value(hint.size.w) == 300 as real
            &&& value(hint.loc.y) - value(area.loc.y) == gap
            &&& (value(area.loc.y) + value(area.size.h)) - (value(hint.loc.y) + value(hint.size.h))
                == gap
            &&& if col == 0 {
                value(hint.loc.x) + value(hint.size.w) + gap == start
            } else if col == space.sections.len() {
                value(hint.loc.x) == start
            } else {
                middle == start - gap / 2 as real
            }
        }),
{
    let gaps = space.layout().gaps;
    let two = num::<N>(2);
    let width = num::<N>(300);
    let start = space.section_pos(col as int);
    assert(value(two) == 2 as real && value(width) == 300 as real);
    assert(value(gaps.spec_mul(two)) == value(gaps) * value(two));
    assert(value(gaps) * 2 as real == value(gaps) + value(gaps)) by (nonlinear_arith);
    assert(value(width.spec_div(two)) == 300 as real / 2 as real);
    assert(value(gaps.spec_div(two)) == value(gaps) / 2 as real);
    assert(value(start.spec_sub(width.spec_add(gaps))) == value(start) - (300 as real + value(
        gaps,
    )));
    assert(value(start.spec_sub(width.spec_div(two)).spec_sub(gaps.spec_div(two))) == value(start)
        - value(width.spec_div(two)) - value(gaps.spec_div(two)));
    let area = space.props.working_area;
    assert(value(area.size.h.spec_sub(gaps.spec_mul(two))) == value(area.size.h) - value(
        gaps.spec_mul(two),
    ));
    assert(value(area.loc.y.spec_add(gaps)) == value(area.loc.y) + value(gaps));
}

/// The hint for a new row of a section of rows is across the gap between two of them, or at the very
/// start or end of what the tiles take.
pub proof fn law_row_hint_is_at_the_gap<N: Scalar>(
    value: spec_fn(N) -> real,
    space: SpaceView<N>,
    col: usize,
    row: usize,
)
    requires
        exact(value),
        space.wf(),
        col < space.sections.len(),
        row <= space.sections[col as int].tiles().len(),
        !space.sections[col as int].root.is_tabbed(),
    ensures
        ({
            let section = space.sections[col as int];
            let layout = space.layout();
            let count = section.tiles().len() as int;
            let hint = space.row_hint(col as int, row);
            let gap = value(layout.gaps);
            let (start, span) = (value(hint.loc.y), value(hint.size.h));
            let last = count - 1;
            let end = value(section.tile_offset(layout, last).y) + value(
                section.leaf_size(last as usize).h,
            );
            &&& value(hint.size.w) == value(space.width(col as int))
            &&& if row == 0 {
                start == value(section.tile_offset(layout, 0).y) && span == 150 as real
            } else if row == count {
                start + span == end && span == 150 as real
            } else {
                let top = value(section.tile_offset(layout, row as int).y);
                start + span / 2 as real == top - gap / 2 as real && span == 300 as real
            }
        }),
{
    let section = space.sections[col as int];
    let layout = space.layout();
    let gaps = layout.gaps;
    assert(section.wf());
    lemma_section_tiles(section, layout);
    crate::tree_walk::lemma_has_leaf(section.root);
    let top = section.tile_offset(layout, row as int).y;
    let (short, long, two) = (num::<N>(150), num::<N>(300), num::<N>(2));
    assert(value(short) == 150 as real && value(long) == 300 as real && value(two) == 2 as real);
    assert(value(num::<N>(0)) == 0 as real);
    assert(value(gaps.spec_div(two)) == value(gaps) / 2 as real);
    assert(value(top.spec_sub(gaps).spec_sub(short)) == value(top) - value(gaps) - value(short));
    assert(value(top.spec_sub(gaps.spec_div(two)).spec_sub(short)) == value(top) - value(
        gaps.spec_div(two),
    ) - value(short));
    let width = space.width(col as int);
    assert(value(width.spec_sub(num::<N>(0))) == value(width));
    if row == section.tiles().len() {
        let last = section.tiles().len() - 1;
        let at = section.tile_offset(layout, last);
        let size = section.leaf_size(last as usize);
        assert(value(at.y.spec_add(size.h).spec_add(gaps)) == value(at.y) + value(size.h) + value(
            gaps,
        ));
    }
}

/// Windows are swapped by a drop only inside of a section.
proof fn lemma_swap_is_inside<N: Scalar>(space: SpaceView<N>, pos: Point<N>, col: usize, tile: usize)
    requires
        space.wf(),
        space.insert_position(pos) == InsertPosition::Swap(col, tile),
    ensures
        col < space.sections.len(),
        ({
            let p = axis_of(space.layout()).spec_point(pos);
            let section = space.sections[col as int];
            let row = section.closest_row(
                space.layout(),
                p.y.spec_add(space.layout().gaps.spec_div(num::<N>(2))),
            ).0;
            space.insert_position(pos) == section.interior_position(
                space.layout(),
                col,
                space.section_pos(col as int),
                p.x.spec_add(space.view_pos()),
                p.y,
                row,
            )
        }),
{
    let p = axis_of(space.layout()).spec_point(pos);
    let main = p.x.spec_add(space.view_pos()).spec_add(
        space.layout().gaps.spec_div(num::<N>(2)),
    );
    lemma_started(space, main, 0);
}

/// A drop swaps windows only in the middle of the window under the pointer, at least a third away
/// from every edge, and only where windows are dragged in place. The hint that is shown for it is
/// under the pointer.
pub proof fn law_swap_is_in_the_middle<N: Scalar>(
    value: spec_fn(N) -> real,
    space: SpaceView<N>,
    pos: Point<N>,
    col: usize,
    tile: usize,
)
    requires
        exact(value),
        space.wf(),
        space.insert_position(pos) == InsertPosition::Swap(col, tile),
        shows_at(value, space, col, tile, pos),
        value(seen_tile(space, col, tile).size.w) >= 1 as real,
        value(seen_tile(space, col, tile).size.h) >= 1 as real,
    ensures
        is_side_of(
            value,
            space.insert_position(pos),
            col,
            tile,
            seen_tile(space, col, tile),
            axis_of(space.layout()).spec_point(pos),
            space.layout().tiling_drag,
        ),
        covers(value, space.insert_hint_area(space.insert_position(pos))->0, pos),
{
    let layout = space.layout();
    let section = space.sections[col as int];
    let p = axis_of(layout).spec_point(pos);
    let main = p.x.spec_add(space.view_pos());
    let start = space.section_pos(col as int);
    let at = section.leaf_positions(layout)[tile as int];
    let seen = seen_tile(space, col, tile);
    lemma_seen(value, space, col, tile, pos);
    lemma_swap_is_inside(space, pos, col, tile);
    let rect = Rectangle {
        loc: Point { x: start.spec_add(at.x), y: at.y },
        size: section.leaf_size(tile),
    };
    let point = Point { x: main, y: p.y };
    assert(value(point.x) - value(rect.loc.x) == value(p.x) - value(seen.loc.x));
    law_drop_goes_to_the_closest_edge(value, col, tile, rect, point, layout.tiling_drag);
}

} // verus!
