//! Where the view comes to rest after a swipe.
use vstd::prelude::*;

use crate::animation::{Animation, AnimationKind};
use crate::config::{CenterFocusedSection, SizingMode};
use crate::exact::exact;
use crate::order::law_closest_is_first_minimum;
use crate::scalar::{num, ordered, Scalar};
use crate::space::{SpaceProps, SpaceView};
use crate::space_snap::lemma_sorted_indices;
use crate::view_laws::law_view_goes_where_it_is_sent;
use crate::view_offset::{SwipeTracker, ViewOffset};
use crate::visible_laws::lemma_places_alike;

verus! {

/// The resting places for a section show it at the start of its area and at the end of it, with its
/// padding; or in the middle, where it does not fit beside the neighbor on that side.
pub proof fn law_snaps_show_the_section<N: Scalar>(
    value: spec_fn(N) -> real,
    space: SpaceView<N>,
    main: N,
    col: int,
)
    requires
        exact(value),
        0 <= col < space.sections.len(),
        space.sections[col].sizing_mode() != SizingMode::Fullscreen,
        value(space.layout().gaps) >= 0 as real,
    ensures
        ({
            let area = space.section_area(col);
            let (start, end) = space.snap_range(main, col);
            let width = value(space.width(col));
            let span = value(area.size.w);
            let half = (span - width) / 2 as real;
            let gap = if space.sections[col].sizing_mode() == SizingMode::Maximized {
                0 as real
            } else {
                value(space.layout().gaps)
            };
            let padding = if half < 0 as real {
                0 as real
            } else if half > gap {
                gap
            } else {
                half
            };
            let margin = if half < 0 as real {
                0 as real
            } else {
                half
            };
            let first = value(start) + value(area.loc.x);
            let last = value(end) - value(space.props.view_size.w) + value(area.loc.x);
            &&& value(main) - first == if space.overflows_with(col, col + 1) {
                margin
            } else {
                padding
            }
            &&& if space.overflows_with(col, col - 1) {
                value(main) - last == margin
            } else {
                (last + span) - (value(main) + width) == padding
            }
        }),
{
    let area = space.section_area(col);
    let width = space.width(col);
    let left = area.size.w.spec_sub(width);
    let two = num::<N>(2);
    assert(value(two) == 2 as real && value(num::<N>(0)) == 0 as real);
    assert(value(left.spec_div(two)) == value(left) / 2 as real);
    let padding = space.snap_padding(col);
    let centered = space.centered_view(main, col);
    let end_strut = space.props.view_size.w.spec_sub(area.size.w).spec_sub(area.loc.x);
    assert(value(end_strut) == value(space.props.view_size.w) - value(area.size.w) - value(
        area.loc.x,
    ));
    assert(value(main.spec_sub(padding).spec_sub(area.loc.x)) == value(main) - value(padding)
        - value(area.loc.x));
    let end = main.spec_add(width).spec_add(padding).spec_add(end_strut);
    assert(value(end) == value(main) + value(width) + value(padding) + value(end_strut));
    assert(value(main.spec_sub(left.spec_div(two)).spec_sub(area.loc.x)) == value(main) - value(
        left.spec_div(two),
    ) - value(area.loc.x));
    assert(value(main.spec_sub(area.loc.x)) == value(main) - value(area.loc.x));
    assert(value(centered.spec_add(space.props.view_size.w)) == value(centered) + value(
        space.props.view_size.w,
    ));
}

/// Numbers that stand for reals are ordered.
pub proof fn lemma_exact_is_ordered<N: Scalar>(value: spec_fn(N) -> real)
    requires
        exact(value),
    ensures
        ordered::<N>(),
{
    assert forall|a: N, b: N, c: N| #[trigger] a.spec_le(b) && #[trigger] b.spec_le(
        c,
    ) implies a.spec_le(c) by {
        assert(value(a) <= value(b) && value(b) <= value(c));
    }
    assert forall|a: N, b: N| #[trigger] a.spec_le(b) || b.spec_le(a) by {
        assert(value(a) <= value(b) || value(b) <= value(a));
    }
    assert forall|a: N, b: N| #[trigger] a.spec_lt(b) <==> !b.spec_le(a) by {
        assert(value(a) < value(b) <==> !(value(b) <= value(a)));
    }
}

/// Resting places are for sections that there are.
proof fn lemma_snaps_are_for_sections<N: Scalar>(space: SpaceView<N>, upto: int)
    requires
        0 < space.sections.len() <= usize::MAX,
        0 <= upto <= space.sections.len(),
    ensures
        forall|i: int|
            0 <= i < space.aligned_snaps_upto(upto).len() ==> (#[trigger] space.aligned_snaps_upto(
                upto,
            )[i]).idx < space.sections.len(),
        space.aligned_snaps_upto(upto).len() > 0,
    decreases upto,
{
    if upto > 0 {
        lemma_snaps_are_for_sections(space, upto - 1);
        let before = space.aligned_snaps_upto(upto - 1);
        let after = space.aligned_snaps_upto(upto);
        assert forall|i: int| 0 <= i < after.len() implies (#[trigger] after[i]).idx
            < space.sections.len() by {
            if i < before.len() {
                assert(after[i] == before[i]);
            }
        }
    }
}

proof fn lemma_runs_stay<N: Scalar>(space: SpaceView<N>, view_main: N, col: int, len: nat)
    requires
        0 <= col < space.sections.len(),
        len == space.sections.len() - col,
    ensures
        col <= space.visible_run_end(view_main, col) < space.sections.len(),
    decreases len,
{
    if col + 1 < space.sections.len() {
        lemma_runs_stay(space, view_main, col + 1, (len - 1) as nat);
    }
}

proof fn lemma_runs_start<N: Scalar>(space: SpaceView<N>, view_main: N, col: int)
    requires
        0 <= col < space.sections.len(),
    ensures
        0 <= space.visible_run_start(view_main, col) <= col,
    decreases col,
{
    if col > 0 {
        lemma_runs_start(space, view_main, col - 1);
    }
}

/// The section that is focused after a swipe is one that there is.
proof fn lemma_focus_after_swipe<N: Scalar>(
    space: SpaceView<N>,
    target_view_main: N,
    target: N,
    current: N,
)
    requires
        ordered::<N>(),
        0 < space.sections.len() <= usize::MAX,
    ensures
        0 <= space.furthest_visible(space.closest_snap(target_view_main), target, current)
            < space.sections.len(),
{
    let unsorted = space.unsorted_snaps();
    let count = space.sections.len() as int;
    lemma_snaps_are_for_sections(space, count);
    assert forall|i: int| 0 <= i < unsorted.len() implies (#[trigger] unsorted[i]).idx < count by {
        if space.is_centering() {
            assert(unsorted[i].idx == i);
        }
    }
    let n = unsorted.len() as int;
    lemma_sorted_indices(unsorted, n, count);
    law_closest_is_first_minimum(space.view_snaps(), target_view_main, n);
    let snap = space.closest_snap(target_view_main);
    assert(snap.idx < count);
    lemma_runs_stay(space, snap.key, snap.idx as int, (count - snap.idx) as nat);
    lemma_runs_start(space, snap.key, snap.idx as int);
}

/// The end of a swipe does not make the view jump: it starts from where the swipe has left it, by
/// less than a pixel.
pub proof fn law_swipe_ends_in_place<N: Scalar>(
    value: spec_fn(N) -> real,
    space: SpaceView<N>,
    tracker: SwipeTracker<N>,
)
    requires
        exact(value),
        0 < space.sections.len() <= usize::MAX,
        value(space.props.scale) > 0 as real,
        space.props.view_offset is Gesture,
    ensures
        ({
            let after = space.gesture_ended(tracker);
            let swiped = space.swiped(tracker);
            let scale = value(space.props.scale);
            let was = value(space.section_pos(space.props.active_section_idx as int)) + value(
                swiped.props.view_offset.spec_target(),
            );
            let now = value(space.section_pos(after.props.active_section_idx as int)) + value(
                after.props.view_offset.spec_current(),
            );
            &&& (now - was) * scale < 1 as real
            &&& (now - was) * scale > -(1 as real)
            &&& after.sections == space.sections
        }),
{
    let gesture = space.props.view_offset->Gesture_0;
    let factor = space.swipe_factor(gesture.is_touchpad);
    let current = tracker.pos.spec_mul(factor).spec_add(gesture.delta_from_tracker);
    let target = tracker.projected_end_pos.spec_mul(factor).spec_add(gesture.delta_from_tracker);
    let active = space.props.active_section_idx as int;
    let main = space.section_pos(active);
    let snap = space.closest_snap(main.spec_add(target));
    let new_idx = space.furthest_visible(snap, target, current) as usize;
    let after = space.gesture_ended(tracker);
    let idx = space.furthest_visible(snap, target, current);
    let new_main = space.section_pos(idx);
    let from = current.spec_add(main.spec_sub(new_main));
    let rested = space.with_props(
        SpaceProps {
            view_offset_to_restore: if space.props.active_section_idx != idx {
                None
            } else {
                space.props.view_offset_to_restore
            },
            active_section_idx: new_idx,
            view_offset: ViewOffset::Animation(
                Animation::spec_new(
                    from,
                    snap.key.spec_sub(new_main),
                    tracker.velocity.spec_mul(factor),
                    AnimationKind::HorizontalViewMovement,
                ),
            ),
            ..space.props
        },
    );
    let kind = AnimationKind::HorizontalViewMovement;
    let offset = rested.offset_for(None, idx, None);
    assert(after == rested.view_sent(idx, offset, kind));
    lemma_places_alike(space, rested, idx);
    lemma_places_alike(space, rested, new_idx as int);
    lemma_exact_is_ordered(value);
    lemma_focus_after_swipe(space, main.spec_add(target), target, current);
    law_view_goes_where_it_is_sent(value, rested, idx, offset, kind);
    assert(value(from) == value(current) + (value(main) - value(new_main)));
    assert(value(rested.view_pos()) == value(new_main) + value(from));
}

/// Whether the edge of a section that movement goes to is in view is whether the section, with its
/// padding, ends before its area does, or starts after it starts.
pub proof fn law_visible_edge_is_inside_the_area<N: Scalar>(
    value: spec_fn(N) -> real,
    space: SpaceView<N>,
    view_main: N,
    col: int,
)
    requires
        exact(value),
        0 <= col < space.sections.len(),
        space.sections[col].sizing_mode() != SizingMode::Fullscreen,
    ensures
        ({
            let area = space.section_area(col);
            let padding = value(space.snap_padding(col));
            let start = value(view_main) + value(area.loc.x);
            let main = value(space.section_pos(col));
            let end = main + value(space.width(col));
            &&& space.is_visible_from(view_main, col, true) <==> end + padding <= start + value(
                area.size.w,
            )
            &&& space.is_visible_from(view_main, col, false) <==> start + padding <= main
        }),
{
    let area = space.section_area(col);
    let padding = space.snap_padding(col);
    let main = space.section_pos(col);
    let end = main.spec_add(space.width(col)).spec_add(padding);
    assert(value(end) == value(main) + value(space.width(col)) + value(padding));
    let stop = view_main.spec_add(area.loc.x).spec_add(area.size.w);
    assert(value(stop) == value(view_main) + value(area.loc.x) + value(area.size.w));
    assert(value(main.spec_sub(padding)) == value(main) - value(padding));
}

/// A section has to be in the middle of the view if it does not fit into its area together with the
/// neighbor, with the gap between them and a gap on either side.
pub proof fn law_overflow_counts_all_gaps<N: Scalar>(
    value: spec_fn(N) -> real,
    space: SpaceView<N>,
    col: int,
    neighbor: int,
)
    requires
        exact(value),
        0 <= neighbor < space.sections.len(),
        space.layout().center_focused_section == CenterFocusedSection::OnOverflow,
    ensures
        ({
            let gap = value(space.layout().gaps);
            space.overflows_with(col, neighbor) <==> gap + value(space.width(neighbor)) + gap
                + value(space.width(col)) + gap > value(space.section_area(col).size.w)
        }),
{
    let gaps = space.layout().gaps;
    let three = num::<N>(3);
    assert(value(three) == 3 as real);
    assert(value(three.spec_mul(gaps)) == value(three) * value(gaps));
    assert(3 as real * value(gaps) == value(gaps) + value(gaps) + value(gaps)) by (nonlinear_arith);
    let both = space.width(neighbor).spec_add(three.spec_mul(gaps)).spec_add(space.width(col));
    assert(value(both) == value(space.width(neighbor)) + value(three.spec_mul(gaps)) + value(
        space.width(col),
    ));
}

} // verus!
