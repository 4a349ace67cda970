//! What sizes windows and sections get that are resized.
use vstd::prelude::*;

use crate::animation::AnimationKind;
use crate::axis::ResizeEdge;
use crate::config::{LayoutOptions, Options, SectionWidth, SizeChange, SplitAxis};
use crate::exact::{exact, rounds};
use crate::geometry::Point;
use crate::scalar::{num, Scalar};
use crate::section::{axis_of, lemma_section_tiles, SectionProps, SectionView};
use crate::section_resize::{
    lemma_nearest_along_within, lemma_sizing_keeps_spans, resized_children,
};
use crate::section_size::{lemma_data_only, lemma_with_sizes, Work};
use crate::space::SpaceView;
use crate::tile::Tile;
use crate::tree_walk::{lemma_leaf_paths, lemma_wf_is_sane};
use crate::view_laws::law_view_goes_where_it_is_sent;
use crate::visible_laws::lemma_places_alike;

verus! {

/// The space once a window was held by some edges, and dragged from there by a movement on screen.
pub open spec fn dragged<N: Scalar>(
    space: SpaceView<N>,
    window: u64,
    edges: ResizeEdge,
    delta: Point<N>,
) -> SpaceView<N> {
    let begun = space.resize_begun(space.section_of(window)->0 as int, window, edges);
    begun.resize_updated(begun.props.interactive_resize->0, delta)
}

/// The edges on the other sides.
pub open spec fn opposite(edges: ResizeEdge) -> ResizeEdge {
    ResizeEdge {
        top: edges.bottom,
        bottom: edges.top,
        left: edges.right,
        right: edges.left,
    }
}

pub open spec fn reversed<N: Scalar>(delta: Point<N>) -> Point<N> {
    Point { x: delta.x.spec_neg(), y: delta.y.spec_neg() }
}

/// A window is found by the sections alone.
proof fn lemma_found_alike<N: Scalar>(
    space: SpaceView<N>,
    other: SpaceView<N>,
    window: u64,
    upto: int,
)
    requires
        other.sections == space.sections,
    ensures
        other.section_of_upto(window, upto) == space.section_of_upto(window, upto),
    decreases upto,
{
    if upto > 0 {
        lemma_found_alike(space, other, window, upto - 1);
    }
}

/// Dragging an edge one way is the same as dragging the opposite edge the other way: either makes
/// the window grow as far as it goes outwards. (The top edge of the first window of a section is
/// not dragged.)
pub proof fn law_opposite_edges_mirror_each_other<N: Scalar>(
    space: SpaceView<N>,
    window: u64,
    edges: ResizeEdge,
    delta: Point<N>,
)
    requires
        !(edges.left && edges.right),
        !(edges.top && edges.bottom),
        delta.x.spec_neg().spec_neg() == delta.x,
        delta.y.spec_neg().spec_neg() == delta.y,
        ({
            let turned = axis_of(space.layout()).spec_edges(edges);
            (turned.top || turned.bottom) ==> space.sections[space.section_of(
                window,
            )->0 as int].position(window)->0 > 0
        }),
    ensures
        dragged(space, window, opposite(edges), reversed(delta)).sections == dragged(
            space,
            window,
            edges,
            delta,
        ).sections,
        dragged(space, window, opposite(edges), reversed(delta)).out == dragged(
            space,
            window,
            edges,
            delta,
        ).out,
{
    let col = space.section_of(window)->0 as int;
    let begun = space.resize_begun(col, window, edges);
    let mirrored = space.resize_begun(col, window, opposite(edges));
    let count = space.sections.len() as int;
    lemma_found_alike(space, begun, window, count);
    lemma_found_alike(space, mirrored, window, count);
    let (turned, back) = (
        axis_of(space.layout()).spec_point(delta),
        axis_of(space.layout()).spec_point(reversed(delta)),
    );
    let (resize, other) = (begun.props.interactive_resize->0, mirrored.props.interactive_resize->0);
    assert(begun.resized_width(resize, turned) == mirrored.resized_width(other, back)
        || !(resize.edges.left || resize.edges.right));
    assert(begun.resized_height(resize, turned) == mirrored.resized_height(other, back)
        || !(resize.edges.top || resize.edges.bottom));
    assert(begun.at(col) == mirrored.at(col));
}

/// What the border of a tile adds to a span of its window.
pub open spec fn frame<N: Scalar>(value: spec_fn(N) -> real, tile: Tile<N>) -> real {
    match tile.border {
        Some(width) => 2 as real * value(width),
        None => 0 as real,
    }
}

pub proof fn lemma_border<N: Scalar>(value: spec_fn(N) -> real, tile: Tile<N>, span: N)
    requires
        exact(value),
    ensures
        value(tile.with_border(span)) == value(span) + frame(value, tile),
        value(tile.without_border(span)) == value(span) - frame(value, tile),
{
    if let Some(width) = tile.border {
        assert(value(num::<N>(2)) == 2 as real);
        assert(value(width.spec_mul(num::<N>(2))) == value(width) * value(num::<N>(2)));
        assert(value(width) * 2 as real == 2 as real * value(width)) by (nonlinear_arith);
    }
}

/// The nearest whole number, where that is not too large.
proof fn lemma_nearest<N: Scalar>(value: spec_fn(N) -> real, a: N)
    requires
        rounds(value),
        -1_000_000 as real <= value(a) <= 1_000_000 as real,
    ensures
        value(a) - a.spec_round().spec_to_i32() as real <= 1 as real / 2 as real,
        a.spec_round().spec_to_i32() as real - value(a) <= 1 as real / 2 as real,
{
    let rounded = a.spec_round();
    let whole = value(rounded).floor();
    assert(value(rounded) == whole as real);
    assert(whole as real <= 1_000_001 as real && whole as real >= -1_000_001 as real);
    assert(whole <= 1_000_001 && whole >= -1_000_001);
    assert(rounded.spec_to_i32() == whole);
}

/// A width given to a section, or its change, is the one that was asked for: a fixed one is that of
/// the window and its border, a step makes the section wider by as much, and shares are of a
/// hundred.
pub proof fn law_section_gets_the_width_asked_for<N: Scalar>(
    value: spec_fn(N) -> real,
    section: SectionView<N>,
    layout: LayoutOptions<N>,
    tile: Tile<N>,
    change: SizeChange<N>,
)
    requires
        exact(value),
        !section.props.is_full_width,
        !section.props.is_pending_maximized,
    ensures
        ({
            let now = value(section.resolved_main_span(layout, section.props.width));
            let changed = section.with_changed_width(layout, change, tile);
            match (change, changed.props.width) {
                (SizeChange::SetFixed(fixed), SectionWidth::Fixed(width)) => {
                    let wanted = fixed as real + frame(value, tile);
                    &&& 1 as real <= wanted <= 100_000 as real ==> value(width) == wanted
                    &&& 1 as real <= value(width) <= 100_000 as real
                },
                (SizeChange::AdjustFixed(step), SectionWidth::Fixed(width)) => {
                    let wanted = now + step as real;
                    &&& 1 as real <= wanted <= 100_000 as real ==> value(width) == wanted
                    &&& 1 as real <= value(width) <= 100_000 as real
                },
                (SizeChange::SetProportion(share), SectionWidth::Proportion(width)) => {
                    &&& 0 as real <= value(share) <= 1_000_000 as real ==> value(width)
                        * 100 as real == value(share)
                    &&& 0 as real <= value(width)
                },
                (SizeChange::AdjustProportion(step), SectionWidth::Proportion(width)) => {
                    &&& 0 as real <= value(width)
                    &&& section.props.width matches SectionWidth::Proportion(old) ==> (0 as real
                        <= value(old) * 100 as real + value(step) <= 1_000_000 as real
                        ==> value(width) * 100 as real == value(old) * 100 as real + value(step))
                },
                _ => false,
            }
        }),
        !section.with_changed_width(layout, change, tile).props.is_full_width,
{
    assert(value(num::<N>(100)) == 100 as real);
    assert(value(num::<N>(0)) == 0 as real && value(num::<N>(1)) == 1 as real);
    assert(value(num::<N>(10000)) == 10000 as real);
    assert(value(num::<N>(100000)) == 100000 as real);
    match change {
        SizeChange::SetFixed(fixed) => {
            lemma_border(value, tile, num::<N>(fixed as int));
        },
        SizeChange::AdjustFixed(step) => {
            assert(value(num::<N>(step as int)) == step as real);
        },
        SizeChange::SetProportion(share) => {
            assert(value(share.spec_div(num::<N>(100))) == value(share) / 100 as real);
            lemma_hundredth(value(share));
        },
        SizeChange::AdjustProportion(step) => {
            assert(value(step.spec_div(num::<N>(100))) == value(step) / 100 as real);
            if let SectionWidth::Proportion(old) = section.props.width {
                lemma_hundredth(value(step));
                assert((value(old) + value(step) / 100 as real) * 100 as real == value(old)
                    * 100 as real + value(step)) by (nonlinear_arith);
                lemma_hundredth(value(old) * 100 as real + value(step));
            }
        },
    }
}

proof fn lemma_hundredth(share: real)
    by (nonlinear_arith)
    ensures
        (share / 100 as real) * 100 as real == share,
        0 as real <= share <==> 0 as real <= share / 100 as real,
        share <= 1_000_000 as real <==> share / 100 as real <= 10_000 as real,
{
}

/// Sections whose shares make up the whole fill the working area, with a gap between any two and on
/// both sides: each takes its share of the area, less one gap, with the gap that belongs to it.
pub proof fn law_shares_fill_the_working_area<N: Scalar>(
    value: spec_fn(N) -> real,
    first: SectionView<N>,
    second: SectionView<N>,
    layout: LayoutOptions<N>,
    share: N,
    rest: N,
)
    requires
        exact(value),
        value(share) + value(rest) == 1 as real,
        second.props.working_area.size.w == first.props.working_area.size.w,
    ensures
        ({
            let area = value(first.props.working_area.size.w);
            let gap = value(layout.gaps);
            let one = value(first.resolved_main_span(layout, SectionWidth::Proportion(share)))
                + value(first.extra_size().w);
            let other = value(second.resolved_main_span(layout, SectionWidth::Proportion(rest)))
                + value(second.extra_size().w);
            gap + one + gap + other + gap == area
        }),
{
    let free = first.props.working_area.size.w.spec_sub(layout.gaps);
    assert(value(free.spec_mul(share)) == value(free) * value(share));
    assert(value(free.spec_mul(rest)) == value(free) * value(rest));
    let (f, a, b) = (value(free), value(share), value(rest));
    assert(f * a + f * b == f) by (nonlinear_arith)
        requires
            a + b == 1 as real,
    ;
    let one = free.spec_mul(share).spec_sub(layout.gaps);
    let other = free.spec_mul(rest).spec_sub(layout.gaps);
    assert(value(one.spec_sub(first.extra_size().w)) == value(one) - value(
        first.extra_size().w,
    ));
    assert(value(other.spec_sub(second.extra_size().w)) == value(other) - value(
        second.extra_size().w,
    ));
}

/// An edge that is dragged takes the width of the section along, where the window is not beside
/// another one: the section becomes as wide as the window was, with its border, and as far as the
/// edge has gone outwards (twice as far where the section stays centered), to the nearest pixel.
pub proof fn law_dragged_edge_takes_the_width_along<N: Scalar>(
    value: spec_fn(N) -> real,
    space: SpaceView<N>,
    window: u64,
    edges: ResizeEdge,
    delta: Point<N>,
)
    requires
        exact(value),
        rounds(value),
        space.wf(),
        space.section_of(window) is Some,
        ({
            let section = space.sections[space.section_of(window)->0 as int];
            let path = section.root.leaf_paths()[section.position(window)->0 as int];
            let turned = axis_of(space.layout()).spec_edges(edges);
            &&& section.position(window) is Some
            &&& section.root.nearest_along(path, SplitAxis::Main, path.len() as int) is None
            &&& turned.left != turned.right
            &&& !turned.top && !turned.bottom
        }),
    ensures
        ({
            let col = space.section_of(window)->0 as int;
            let section = space.sections[col];
            let tile = section.tiles()[section.position(window)->0 as int];
            let turned = axis_of(space.layout()).spec_edges(edges);
            let moved = value(axis_of(space.layout()).spec_point(delta).x);
            let outwards = if turned.left {
                -moved
            } else {
                moved
            };
            let grown = if space.is_centering() {
                2 as real * outwards
            } else {
                outwards
            };
            let was = value(axis_of(space.layout()).spec_size(tile.window_size).w);
            let after = dragged(space, window, edges, delta).sections[col];
            let wanted = was + frame(value, tile) + grown;
            &&& after.props.width is Fixed
            &&& !after.props.is_full_width
            &&& (-1_000_000 as real <= was + grown <= 1_000_000 as real && 2 as real <= wanted
                <= 99_999 as real) ==> {
                &&& value(after.props.width->Fixed_0) - wanted <= 1 as real / 2 as real
                &&& wanted - value(after.props.width->Fixed_0) <= 1 as real / 2 as real
            }
        }),
{
    let layout = space.layout();
    let col = space.section_of(window)->0 as int;
    crate::space::lemma_section_of(space, window, space.sections.len() as int);
    let section = space.sections[col];
    assert(section.wf());
    lemma_section_tiles(section, layout);
    let idx = section.position(window)->0;
    crate::section::lemma_window_position(section.tiles(), window, section.tiles().len() as int);
    let tile = section.tiles()[idx as int];
    let begun = space.resize_begun(col, window, edges);
    lemma_found_alike(space, begun, window, space.sections.len() as int);
    let resize = begun.props.interactive_resize->0;
    let turned = axis_of(layout).spec_point(delta);
    assert(begun.is_centering() == space.is_centering());
    let fixed = begun.resized_width(resize, turned);
    reveal(Work::set_split_child_width);
    reveal(Work::set_section_width);
    let changed = section.with_changed_width(layout, SizeChange::SetFixed(fixed), tile);
    lemma_with_sizes(changed, space.options);
    assert(begun.at(col) == space.at(col));
    assert(dragged(space, window, edges, delta).sections[col] == changed.with_sizes(space.options));
    let dx = if resize.edges.left {
        turned.x.spec_neg()
    } else {
        turned.x
    };
    let two = num::<N>(2);
    assert(value(two) == 2 as real);
    let grown = if space.is_centering() {
        dx.spec_mul(two)
    } else {
        dx
    };
    assert(value(dx.spec_mul(two)) == value(dx) * value(two));
    assert(value(dx) * 2 as real == 2 as real * value(dx)) by (nonlinear_arith);
    let wanted = resize.original_window_size.w.spec_add(grown);
    assert(value(wanted) == value(resize.original_window_size.w) + value(grown));
    if -1_000_000 as real <= value(wanted) && value(wanted) <= 1_000_000 as real {
        lemma_nearest(value, wanted);
    }
    lemma_border(value, tile, num::<N>(fixed as int));
    assert(value(num::<N>(1)) == 1 as real);
    assert(value(num::<N>(100000)) == 100000 as real);
}

/// An edge that is dragged across the main axis asks for a height: that of the window when it was
/// held, and as far as the edge has gone outwards, to the nearest pixel. The top edge of the first
/// window of a section asks for nothing.
pub proof fn law_dragged_edge_asks_for_a_height<N: Scalar>(
    value: spec_fn(N) -> real,
    space: SpaceView<N>,
    window: u64,
    edges: ResizeEdge,
    delta: Point<N>,
)
    requires
        exact(value),
        rounds(value),
        space.wf(),
        space.section_of(window) is Some,
        ({
            let turned = axis_of(space.layout()).spec_edges(edges);
            let section = space.sections[space.section_of(window)->0 as int];
            let tile = section.tiles()[section.position(window)->0 as int];
            let was = value(axis_of(space.layout()).spec_size(tile.window_size).h);
            let moved = value(axis_of(space.layout()).spec_point(delta).y);
            &&& section.position(window) is Some
            &&& turned.top != turned.bottom
            &&& !turned.left && !turned.right
            &&& -500_000 as real <= was <= 500_000 as real
            &&& -500_000 as real <= moved <= 500_000 as real
        }),
    ensures
        ({
            let col = space.section_of(window)->0 as int;
            let section = space.sections[col];
            let idx = section.position(window)->0;
            let tile = section.tiles()[idx as int];
            let turned = axis_of(space.layout()).spec_edges(edges);
            let moved = value(axis_of(space.layout()).spec_point(delta).y);
            let outwards = if turned.top {
                -moved
            } else {
                moved
            };
            let wanted = value(axis_of(space.layout()).spec_size(tile.window_size).h) + outwards;
            let after = dragged(space, window, edges, delta).sections[col];
            if turned.top && idx == 0 {
                after == section
            } else {
                exists|height: i32|
                    {
                        &&& after == #[trigger] space.at(col).set_window_height(
                            space.options,
                            SizeChange::SetFixed(height),
                            idx,
                            false,
                        ).section
                        &&& height as real - wanted <= 1 as real / 2 as real
                        &&& wanted - height as real <= 1 as real / 2 as real
                    }
            }
        }),
{
    let layout = space.layout();
    let col = space.section_of(window)->0 as int;
    crate::space::lemma_section_of(space, window, space.sections.len() as int);
    let begun = space.resize_begun(col, window, edges);
    lemma_found_alike(space, begun, window, space.sections.len() as int);
    let section = space.sections[col];
    let idx = section.position(window)->0;
    let resize = begun.props.interactive_resize->0;
    let turned = axis_of(layout).spec_point(delta);
    let dy = if resize.edges.top {
        turned.y.spec_neg()
    } else {
        turned.y
    };
    let wanted = resize.original_window_size.h.spec_add(dy);
    assert(value(turned.y.spec_neg()) == -value(turned.y));
    assert(value(wanted) == value(resize.original_window_size.h) + value(dy));
    lemma_nearest(value, wanted);
    let height = begun.resized_height(resize, turned);
    assert(begun.at(col) == space.at(col));
    if !(resize.edges.top && idx == 0) {
        assert(dragged(space, window, edges, delta).sections[col] == space.at(
            col,
        ).set_window_height(
            space.options,
            SizeChange::SetFixed(height),
            idx,
            false,
        ).section);
    } else {
        assert(dragged(space, window, edges, delta).sections[col] == section);
    }
}

/// A window beside others, in a row of its section, gets the width asked for, and the others in the
/// row keep the proportions that they have to each other.
pub proof fn law_row_keeps_the_other_proportions<N: Scalar>(
    value: spec_fn(N) -> real,
    before: Work<N>,
    options: Options<N>,
    fixed: i32,
    tile_idx: usize,
    animate: bool,
)
    requires
        exact(value),
        before.section.wf(),
        tile_idx < before.section.tiles().len(),
        1 <= fixed <= 100_000,
        ({
            let path = before.section.root.leaf_paths()[tile_idx as int];
            before.section.root.nearest_along(path, SplitAxis::Main, path.len() as int) == Some(
                0int,
            )
        }),
    ensures
        ({
            let child = before.section.root.leaf_paths()[tile_idx as int][0] as int;
            let had = before.section.root.child_data();
            let has = before.set_split_child_width(
                options,
                SizeChange::SetFixed(fixed),
                tile_idx,
                animate,
            ).section.root.child_data();
            &&& has.len() == had.len()
            &&& has[child].span is Fixed
            &&& value(has[child].span->Fixed_0) == fixed as real
            &&& forall|j: int|
                0 <= j < had.len() && j != child ==> {
                    &&& (#[trigger] has[j]).span is Auto
                    &&& value(had[j].size.w) > 0 as real ==> has[j].span->weight == had[j].size.w
                }
        }),
{
    reveal(Work::set_split_child_width);
    let section = before.section;
    lemma_section_tiles(section, options.layout);
    lemma_wf_is_sane(section.root);
    lemma_leaf_paths(section.root);
    let path = section.root.leaf_paths()[tile_idx as int];
    lemma_nearest_along_within(section.root, path, SplitAxis::Main, path.len() as int);
    assert(path.take(0) =~= Seq::<usize>::empty());
    let current = match section.root.leaf_data(path.take(1)) {
        Some(data) => data.size.w,
        None => num::<N>(0),
    };
    let span = section.changed_child_span(options.layout, SizeChange::SetFixed(fixed), current);
    let data = resized_children(section.root.child_data(), path[0] as int, span);
    let changed = SectionView {
        root: section.root.with_child_data(data),
        props: SectionProps { is_pending_maximized: false, ..section.props },
    };
    assert(section.root.with_node(path.take(0), section.root.with_child_data(data))
        == changed.root);
    assert(changed.wf()) by {
        lemma_data_only(section.root, data);
    }
    lemma_sizing_keeps_spans(changed, options);
    assert(value(num::<N>(1)) == 1 as real && value(num::<N>(0)) == 0 as real);
    assert(value(num::<N>(100000)) == 100000 as real);
    assert(value(num::<N>(fixed as int)) == fixed as real);
    assert(span == num::<N>(fixed as int));
}

/// When the resize of a window ends, nothing is being resized, and the view goes on from less than a
/// physical pixel away from where it is. The resize of another window goes on as it was.
pub proof fn law_ended_resize_leaves_the_view<N: Scalar>(
    value: spec_fn(N) -> real,
    space: SpaceView<N>,
    window: Option<u64>,
)
    requires
        exact(value),
        value(space.props.scale) > 0 as real,
    ensures
        ({
            let after = space.resize_ended(window);
            let jump = value(after.view_pos()) - value(space.view_pos());
            &&& after.sections == space.sections
            &&& after.props.active_section_idx == space.props.active_section_idx
            &&& jump * value(space.props.scale) < 1 as real
            &&& jump * value(space.props.scale) > -(1 as real)
            &&& window is None ==> after.props.interactive_resize is None
            &&& space.props.interactive_resize matches Some(resize) ==> if window is Some
                && window->0 != resize.window {
                after == space
            } else {
                after.props.interactive_resize is None
            }
        }),
{
    let active = space.props.active_section_idx as int;
    let after = space.resize_ended(window);
    lemma_places_alike(space, after, active);
    assert(value(space.view_pos()) == value(space.section_pos(active)) + value(
        space.props.view_offset.spec_current(),
    ));
    assert(value(after.view_pos()) == value(space.section_pos(active)) + value(
        after.props.view_offset.spec_current(),
    ));
    let scale = value(space.props.scale);
    assert(0 as real * scale == 0 as real) by (nonlinear_arith);
    let offset = space.offset_for(None, active, None);
    let kind = AnimationKind::HorizontalViewMovement;
    law_view_goes_where_it_is_sent(value, space, active, offset, kind);
}

} // verus!
