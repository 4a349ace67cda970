//! What is seen of sections and windows, and where.
use vstd::prelude::*;

use crate::animation::AnimationKind;
use crate::axis::ResizeEdge;
use crate::config::SizingMode;
use crate::exact::exact;
use crate::geometry::Point;
use crate::move_laws::seen_at;
use crate::scalar::{num, Scalar};
use crate::section::axis_of;
use crate::space::SpaceView;
use crate::tile::Tile;
use crate::view_laws::{
    has_spans, law_centered_section_has_equal_margins, law_fitted_section_comes_into_view,
    law_view_goes_where_it_is_sent,
};
use crate::view_offset::ViewOffset;
use crate::visible_laws::lemma_places_alike;

verus! {

/// The offset of the view for a section that focus comes to shows the section whole.
proof fn lemma_offset_shows<N: Scalar>(
    value: spec_fn(N) -> real,
    space: SpaceView<N>,
    target_view_main: Option<N>,
    idx: int,
    prev_idx: Option<usize>,
)
    requires
        exact(value),
        value(space.layout().gaps) >= 0 as real,
        space.sections[idx].sizing_mode() == SizingMode::Normal,
        value(space.width(idx)) < value(space.props.working_area.size.w),
    ensures
        ({
            let area = space.props.working_area;
            let offset = value(space.offset_for(target_view_main, idx, prev_idx));
            let start = value(space.section_pos(idx));
            let half = (value(area.size.w) - value(space.width(idx))) / 2 as real;
            let padding = if half < value(space.layout().gaps) {
                half
            } else {
                value(space.layout().gaps)
            };
            let view = start + offset + value(area.loc.x);
            &&& view + padding <= start
            &&& start + value(space.width(idx)) + padding <= view + value(area.size.w)
            &&& space.is_centering() ==> view + half == start
        }),
{
    let area = space.props.working_area;
    let target = match target_view_main {
        Some(target) => target,
        None => space.target_view_pos(),
    };
    let view = target.spec_add(area.loc.x);
    let (main, span) = (space.section_pos(idx), space.width(idx));
    law_fitted_section_comes_into_view(value, view, area.size.w, main, span, space.layout().gaps);
    law_centered_section_has_equal_margins(value, space, target_view_main, main, span);
    let fit = space.fit_offset_for(target_view_main, idx);
    let centered = space.centered_offset_for(target_view_main, idx);
    let fitting = crate::fit::fitting_view_offset(
        view,
        area.size.w,
        main,
        span,
        space.layout().gaps,
    );
    assert(fit == fitting.spec_sub(area.loc.x));
    assert(value(fit) == value(fitting) - value(area.loc.x));
}

/// A section that is activated comes into view whole, if it is narrower than the working area: with
/// its gaps on both sides as far as there is room for them, and in the middle where sections are
/// kept centered. The sections stay as they are.
pub proof fn law_activated_section_comes_into_view<N: Scalar>(
    value: spec_fn(N) -> real,
    space: SpaceView<N>,
    idx: usize,
    kind: AnimationKind,
)
    requires
        exact(value),
        value(space.props.scale) > 0 as real,
        value(space.layout().gaps) >= 0 as real,
        idx < space.sections.len(),
        idx != space.props.active_section_idx,
        space.sections[idx as int].sizing_mode() == SizingMode::Normal,
        value(space.width(idx as int)) < value(space.props.working_area.size.w),
    ensures
        ({
            let area = space.props.working_area;
            let after = space.activated(idx, kind);
            let start = value(space.section_pos(idx as int));
            let span = value(space.width(idx as int));
            let half = (value(area.size.w) - span) / 2 as real;
            let padding = if half < value(space.layout().gaps) {
                half
            } else {
                value(space.layout().gaps)
            };
            let view = value(after.target_view_pos()) + value(area.loc.x);
            &&& after.props.active_section_idx == idx
            &&& after.sections == space.sections
            &&& view + padding <= start
            &&& start + span + padding <= view + value(area.size.w)
            &&& space.is_centering() ==> view + half == start
        }),
{
    let active = space.props.active_section_idx;
    let after = space.activated(idx, kind);
    let offset = space.offset_for(None, idx as int, Some(active));
    lemma_offset_shows(value, space, None, idx as int, Some(active));
    law_view_goes_where_it_is_sent(value, space, idx as int, offset, kind);
    lemma_places_alike(space, after, idx as int);
    let target = after.props.view_offset.spec_target();
    assert(value(after.section_pos(idx as int).spec_add(target)) == value(
        after.section_pos(idx as int),
    ) + value(target));
}

/// How far the view would have to scroll to activate a window is how far it does scroll when that is
/// done, counted in working areas.
pub proof fn law_scroll_amount_is_what_activation_scrolls<N: Scalar>(
    value: spec_fn(N) -> real,
    space: SpaceView<N>,
    col: usize,
    kind: AnimationKind,
)
    requires
        exact(value),
        value(space.props.scale) > 0 as real,
        value(space.props.working_area.size.w) > 0 as real,
        col < space.sections.len(),
        col != space.props.active_section_idx,
    ensures
        ({
            let before = value(space.target_view_pos());
            let after = value(space.activated(col, kind).target_view_pos());
            let amount = value(space.scroll_amount(col as int)) * value(
                space.props.working_area.size.w,
            );
            amount == if after < before {
                before - after
            } else {
                after - before
            }
        }),
{
    let active = space.props.active_section_idx;
    let idx = col as int;
    let after = space.activated(col, kind);
    let target = space.target_view_pos();
    let offset = space.offset_for(Some(target), idx, Some(active));
    assert(space.offset_for(None, idx, Some(active)) == offset);
    law_view_goes_where_it_is_sent(value, space, idx, offset, kind);
    lemma_places_alike(space, after, idx);
    let now = after.props.view_offset.spec_target();
    assert(value(after.section_pos(idx).spec_add(now)) == value(space.section_pos(idx)) + value(
        now,
    ));
    let gone = target.spec_sub(space.section_pos(idx)).spec_sub(offset);
    assert(value(gone) == value(target) - value(space.section_pos(idx)) - value(offset));
    let (far, span) = (value(gone.spec_abs()), value(space.props.working_area.size.w));
    assert(value(gone.spec_abs().spec_div(space.props.working_area.size.w)) == far / span);
    assert((far / span) * span == far) by (nonlinear_arith)
        requires
            span > 0 as real,
    ;
}

/// A tile is drawn where its section is seen, at its place in the section, and off by what it moves
/// itself.
pub proof fn law_tile_is_drawn_in_its_section<N: Scalar>(
    value: spec_fn(N) -> real,
    space: SpaceView<N>,
    col: int,
    tile: Tile<N>,
    tile_off: Point<N>,
)
    requires
        exact(value),
        0 <= col < space.sections.len(),
    ensures
        ({
            let drawn = axis_of(space.layout()).spec_point(
                space.tile_screen_pos(col, tile, tile_off, false),
            );
            &&& value(drawn.x) == seen_at(value, space, col) + value(tile_off.x) + value(
                tile.render_offset.x,
            )
            &&& value(drawn.y) == value(tile_off.y) + value(tile.render_offset.y)
        }),
{
    let zero = num::<N>(0);
    assert(value(zero) == 0 as real);
    let view = space.view_pos().spec_neg();
    let start = space.section_pos(col);
    let moved = space.sections[col].render_offset();
    assert(value(view) == -value(space.view_pos()));
    let at = space.section_view_pos(col);
    assert(at.x == view.spec_add(start).spec_add(moved.x));
    assert(at.y == zero.spec_add(zero).spec_add(moved.y));
    assert(value(at.x) == value(view) + value(start) + value(moved.x));
    assert(value(at.y) == 0 as real);
    let pos = space.tile_view_pos(col, tile, tile_off);
    assert(value(pos.x) == value(at.x) + value(tile_off.x) + value(tile.render_offset.x));
    assert(value(pos.y) == value(at.y) + value(tile_off.y) + value(tile.render_offset.y));
}

/// The view as a section sees it is the section as the view sees it, the other way round.
pub proof fn law_view_from_a_section_is_turned_around<N: Scalar>(
    value: spec_fn(N) -> real,
    space: SpaceView<N>,
    col: int,
)
    requires
        exact(value),
        0 <= col < space.sections.len(),
    ensures
        value(space.view_from_section(col).loc.x) == -seen_at(value, space, col),
        value(space.view_from_section(col).loc.y) == 0 as real,
        space.view_from_section(col).size == space.props.view_size,
{
    let zero = num::<N>(0);
    assert(value(zero) == 0 as real);
    let moved = space.sections[col].render_offset();
    let view = space.view_pos();
    let start = space.section_pos(col);
    let loc = space.view_from_section(col).loc;
    assert(loc.x == view.spec_sub(start).spec_sub(moved.x));
    assert(value(loc.x) == value(view) - value(start) - value(moved.x));
    assert(loc.y == zero.spec_sub(zero).spec_sub(moved.y));
    assert(value(loc.y) == 0 as real);
}

/// While the active window is resized by its start edge, its other edge stays where it is in the
/// view, unless the section is kept centered; resized by another edge, its start stays. A section
/// that is kept centered has equal margins at once.
pub proof fn law_far_edge_stays_while_resizing<N: Scalar>(
    value: spec_fn(N) -> real,
    space: SpaceView<N>,
    col: int,
    old_span: N,
    edges: ResizeEdge,
)
    requires
        exact(value),
        value(old_span) != value(space.width(col)),
    ensures
        ({
            let offset = old_span.spec_sub(space.width(col));
            let before = value(space.props.view_offset.spec_target());
            let after = value(space.offset_for_resize(col, offset, Some(edges)).spec_target());
            let area = space.props.working_area;
            let new_span = value(space.width(col));
            if space.is_centering() {
                let start = after + value(area.loc.x);
                -start == (start + value(area.size.w)) - new_span
            } else if edges.left {
                value(old_span) - before == new_span - after
            } else {
                after == before
            }
        }),
{
    let offset = old_span.spec_sub(space.width(col));
    let area = space.props.working_area;
    let still = space.props.view_offset.without_gesture();
    assert(value(num::<N>(0)) == 0 as real && value(num::<N>(2)) == 2 as real);
    assert(value(offset) == value(old_span) - value(space.width(col)));
    assert(value(still.spec_target()) == value(space.props.view_offset.spec_target()));
    let margin = area.size.w.spec_sub(space.width(col)).spec_neg().spec_div(num::<N>(2));
    assert(value(area.size.w.spec_sub(space.width(col)).spec_neg()) == -(value(area.size.w)
        - value(space.width(col))));
    assert(value(margin) == value(area.size.w.spec_sub(space.width(col)).spec_neg()) / 2 as real);
    let centered = margin.spec_sub(area.loc.x).spec_sub(still.spec_target());
    assert(value(centered) == value(margin) - value(area.loc.x) - value(still.spec_target()));
    let delta = if space.is_centering() {
        centered
    } else if edges.left {
        offset.spec_neg()
    } else {
        num::<N>(0)
    };
    assert(value(offset.spec_neg()) == -value(offset));
    let moved = still.spec_offset(delta);
    match still {
        ViewOffset::Static(at) => {
            assert(value(at.spec_add(delta)) == value(at) + value(delta));
        },
        ViewOffset::Animation(animation) => {
            assert(value(animation.to.spec_add(delta)) == value(animation.to) + value(delta));
        },
        ViewOffset::Gesture(_) => {},
    }
    assert(value(moved.spec_target()) == value(still.spec_target()) + value(delta));
}

/// A drag may scroll the view until the first section has just left it on the one side, and the last
/// one on the other.
pub proof fn law_drag_bounds_are_around_the_sections<N: Scalar>(
    value: spec_fn(N) -> real,
    space: SpaceView<N>,
)
    requires
        exact(value),
        has_spans(value, space),
        0 < space.sections.len(),
        space.props.active_section_idx < space.sections.len(),
        value(space.props.working_area.size.w) >= 0 as real,
        value(space.props.working_area.loc.x) <= value(space.width(space.sections.len() - 1))
            + value(space.section_pos(space.sections.len() - 1)) + value(
            space.props.working_area.size.w,
        ),
    ensures
        ({
            let area = space.props.working_area;
            let last = space.sections.len() - 1;
            let active = value(space.section_pos(space.props.active_section_idx as int));
            let (least, greatest) = space.dnd_bounds();
            &&& active + value(least) + value(area.size.w) == value(space.section_pos(0))
            &&& active + value(greatest) + value(area.loc.x) == value(space.section_pos(last))
                + value(space.width(last))
        }),
{
    let area = space.props.working_area;
    let last = space.sections.len() - 1;
    let active = space.props.active_section_idx as int;
    lemma_summed(value, space, active);
    lemma_summed(value, space, last);
    assert(value(num::<N>(0)) == 0 as real);
    let (at, end) = (space.summed_pos(active), space.summed_pos(last));
    let start = area.size.w.spec_neg().spec_sub(at);
    let stop = end.spec_add(space.width(last)).spec_sub(area.loc.x).spec_sub(at);
    assert(value(start) == -value(area.size.w) - value(at));
    assert(value(stop) == value(end) + value(space.width(last)) - value(area.loc.x) - value(at));
    assert(value(start.spec_min(stop)) == value(start));
    assert(value(start.spec_max(stop)) == value(stop));
}

/// Spans and gaps add up to the same, however they are grouped.
proof fn lemma_summed<N: Scalar>(value: spec_fn(N) -> real, space: SpaceView<N>, i: int)
    requires
        exact(value),
        0 <= i,
    ensures
        value(space.summed_pos(i)) == value(space.section_pos(i)),
    decreases i,
{
    if i > 0 {
        lemma_summed(value, space, i - 1);
        let (width, gap) = (space.width(i - 1), space.layout().gaps);
        assert(value(space.summed_pos(i - 1).spec_add(width).spec_add(gap)) == value(
            space.summed_pos(i - 1),
        ) + value(width) + value(gap));
        assert(value(space.section_pos(i - 1).spec_add(width.spec_add(gap))) == value(
            space.section_pos(i - 1),
        ) + value(width.spec_add(gap)));
    }
}

/// Popups of a window stay as wide as the window, and over the height of the parent area: seen from
/// the window, which stands in its section at some height, they start where the parent area does.
pub proof fn law_popups_stay_in_the_parent_area<N: Scalar>(
    value: spec_fn(N) -> real,
    space: SpaceView<N>,
    col: int,
    i: int,
)
    requires
        exact(value),
        0 <= col < space.sections.len(),
        0 <= i < space.sections[col].tiles().len(),
    ensures
        ({
            let axis = axis_of(space.layout());
            let rect = axis.spec_rect(space.popup_rect(col, i));
            let tile = space.sections[col].tiles()[i];
            let window = value(space.sections[col].leaf_positions(space.layout())[i].y) + value(
                axis.spec_point(tile.window_loc).y,
            );
            let parent = space.props.parent_area;
            &&& window + value(rect.loc.y) == value(parent.loc.y)
            &&& rect.size.h == parent.size.h
            &&& value(rect.loc.x) == 0 as real
            &&& rect.size.w == axis.spec_size(tile.window_size).w
        }),
{
    let axis = axis_of(space.layout());
    let tile = space.sections[col].tiles()[i];
    let pos = space.sections[col].leaf_positions(space.layout())[i];
    let zero = num::<N>(0);
    assert(value(zero) == 0 as real);
    let y = zero.spec_add(space.props.parent_area.loc.y).spec_sub(pos.y).spec_sub(
        axis.spec_point(tile.window_loc).y,
    );
    assert(value(y) == value(zero) + value(space.props.parent_area.loc.y) - value(pos.y) - value(
        axis.spec_point(tile.window_loc).y,
    ));
}

/// A fullscreen section that focus comes to starts where the view starts, and a maximized one that
/// is as wide as the parent area starts where that does.
pub proof fn law_large_sections_are_aligned<N: Scalar>(
    value: spec_fn(N) -> real,
    space: SpaceView<N>,
    target_view_main: Option<N>,
    idx: int,
)
    requires
        exact(value),
    ensures
        ({
            let offset = value(space.fit_offset_for(target_view_main, idx));
            let centered = value(space.centered_offset_for(target_view_main, idx));
            let mode = space.sections[idx].sizing_mode();
            let parent = space.props.parent_area;
            &&& mode == SizingMode::Fullscreen ==> offset == 0 as real && centered == 0 as real
            &&& mode == SizingMode::Maximized && value(space.width(idx)) >= value(parent.size.w)
                ==> offset + value(parent.loc.x) == 0 as real && centered + value(parent.loc.x)
                == 0 as real
        }),
{
    assert(value(num::<N>(0)) == 0 as real);
    assert(value(num::<N>(0).spec_sub(space.props.parent_area.loc.x)) == value(num::<N>(0))
        - value(space.props.parent_area.loc.x));
}

} // verus!
