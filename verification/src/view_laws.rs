//! Where the view goes that is sent somewhere.
use vstd::prelude::*;

use crate::animation::AnimationKind;
use crate::config::SizingMode;
use crate::exact::exact;
use crate::fit::{fit_padding, fitting_view_offset};
use crate::geometry::Point;
use crate::scalar::{num, Scalar};
use crate::section::shifted_pos;
use crate::space::SpaceView;
use crate::tree_layout::LeafLayout;
use crate::view_offset::ViewOffset;

verus! {

/// The start of the area that sections are shown in, once the view has come to rest.
pub open spec fn rest<N: Scalar>(value: spec_fn(N) -> real, space: SpaceView<N>) -> real {
    value(space.target_view_pos()) + value(space.props.working_area.loc.x)
}

proof fn lemma_shifted<N: Scalar>(value: spec_fn(N) -> real, offset: ViewOffset<N>, delta: N)
    requires
        exact(value),
    ensures
        value(offset.spec_offset(delta).spec_target()) == value(offset.spec_target()) + value(delta),
        value(offset.spec_offset(delta).spec_current()) == value(offset.spec_current()) + value(
            delta,
        ),
{
    if let ViewOffset::Gesture(gesture) = offset {
        let moved = offset.spec_offset(delta)->Gesture_0;
        assert(value(moved.current_view_offset) == value(gesture.current_view_offset) + value(
            delta,
        ));
    }
}

/// A view that is sent to an offset from a section comes to rest there, and starts from where it
/// was: it moves at once only where that is less than a pixel.
pub proof fn law_view_goes_where_it_is_sent<N: Scalar>(
    value: spec_fn(N) -> real,
    space: SpaceView<N>,
    idx: int,
    new_view_offset: N,
    kind: AnimationKind,
)
    requires
        exact(value),
        value(space.props.scale) > 0 as real,
    ensures
        ({
            let after = space.view_sent(idx, new_view_offset, kind).props.view_offset;
            let start = value(space.section_pos(idx));
            let jump = start + value(after.spec_current()) - value(space.view_pos());
            &&& value(after.spec_target()) == value(new_view_offset)
            &&& jump * value(space.props.scale) < 1 as real
            &&& jump * value(space.props.scale) > -(1 as real)
        }),
{
    let active = space.props.active_section_idx as int;
    let delta = space.section_pos(active).spec_sub(space.section_pos(idx));
    let pixel = num::<N>(1).spec_div(space.props.scale);
    let before = space.props.view_offset.spec_offset(delta);
    lemma_shifted(value, space.props.view_offset, delta);
    let diff = new_view_offset.spec_sub(before.spec_target());
    assert(value(delta) == value(space.section_pos(active)) - value(space.section_pos(idx)));
    assert(value(space.view_pos()) == value(space.section_pos(active)) + value(
        space.props.view_offset.spec_current(),
    ));
    assert(value(diff) == value(new_view_offset) - value(before.spec_target()));
    lemma_shifted(value, before, diff);
    assert(value(num::<N>(1)) == 1 as real && value(num::<N>(0)) == 0 as real);
    let scale = value(space.props.scale);
    assert(value(pixel) == 1 as real / scale);
    let after = before.sent_to(new_view_offset, pixel, kind);
    let jump = value(space.section_pos(idx)) + value(after.spec_current()) - value(
        space.view_pos(),
    );
    if diff.spec_abs().spec_lt(pixel) {
        assert(jump == value(diff));
        assert(value(diff.spec_abs()) < value(pixel));
        assert(jump < 1 as real / scale && -jump < 1 as real / scale);
        assert(jump * scale < 1 as real && jump * scale > -(1 as real)) by (nonlinear_arith)
            requires
                scale > 0 as real,
                jump < 1 as real / scale,
                -jump < 1 as real / scale,
        ;
    } else {
        if before.spec_is_dnd_scroll() {
            let gesture = before->Gesture_0;
            let moved = gesture.moved_to(new_view_offset, kind);
            let step = new_view_offset.spec_sub(gesture.current_view_offset);
            assert(value(step.spec_neg()) == -value(step));
        }
        assert(jump == 0 as real);
        assert(jump * scale == 0 as real) by (nonlinear_arith)
            requires
                jump == 0 as real,
        ;
    }
}

/// A section that is narrower than the working area is centered with as much room on one side of it
/// as on the other.
pub proof fn law_centered_section_has_equal_margins<N: Scalar>(
    value: spec_fn(N) -> real,
    space: SpaceView<N>,
    target_view_main: Option<N>,
    section_main: N,
    section_span: N,
)
    requires
        exact(value),
        value(section_span) < value(space.props.working_area.size.w),
    ensures
        ({
            let area = space.props.working_area;
            let offset = space.centered_offset(
                target_view_main,
                section_main,
                section_span,
                SizingMode::Normal,
            );
            let start = value(section_main) + value(offset) + value(area.loc.x);
            let end = start + value(area.size.w);
            value(section_main) - start == end - (value(section_main) + value(section_span))
        }),
{
    let area = space.props.working_area;
    let left = area.size.w.spec_sub(section_span);
    assert(value(num::<N>(2)) == 2 as real);
    assert(value(left.spec_neg()) == -value(left));
    assert(value(left.spec_neg().spec_div(num::<N>(2))) == value(left.spec_neg()) / 2 as real);
}

/// A section that is narrower than the working area comes into view whole, with its padding, and
/// the view moves no further for it than it has to: not at all where the section is in view, and
/// else to the closer of the two ends.
pub proof fn law_fitted_section_comes_into_view<N: Scalar>(
    value: spec_fn(N) -> real,
    view_main: N,
    view_span: N,
    section_main: N,
    section_span: N,
    gaps: N,
)
    requires
        exact(value),
        value(gaps) >= 0 as real,
        value(section_span) < value(view_span),
    ensures
        ({
            let offset = value(
                fitting_view_offset(view_main, view_span, section_main, section_span, gaps),
            );
            let half = (value(view_span) - value(section_span)) / 2 as real;
            let padding = if half < value(gaps) {
                half
            } else {
                value(gaps)
            };
            let start = value(section_main) - padding;
            let end = value(section_main) + value(section_span) + padding;
            let span = value(view_span);
            let view = value(section_main) + offset;
            let moved = view - value(view_main);
            &&& value(fit_padding(view_span, section_span, gaps)) == padding
            &&& view <= start
            &&& end <= view + span
            &&& (value(view_main) <= start && end <= value(view_main) + span) ==> moved == 0 as real
            &&& start < value(view_main) ==> view == start
            &&& value(view_main) + span < end ==> view + span == end
        }),
{
    let half = view_span.spec_sub(section_span).spec_div(num::<N>(2));
    let padding = fit_padding(view_span, section_span, gaps);
    assert(value(num::<N>(2)) == 2 as real && value(num::<N>(0)) == 0 as real);
    assert(value(half) == (value(view_span) - value(section_span)) / 2 as real);
    let start = section_main.spec_sub(padding);
    let end = section_main.spec_add(section_span).spec_add(padding);
    assert(value(start) == value(section_main) - value(padding));
    assert(value(end) == value(section_main) + value(section_span) + value(padding));
    assert(value(view_main.spec_add(view_span)) == value(view_main) + value(view_span));
    assert(value(view_main.spec_sub(start).spec_abs()) >= 0 as real);
    assert(value(view_main.spec_add(view_span).spec_sub(end).spec_abs()) >= 0 as real);
    assert(value(section_main.spec_sub(view_main).spec_neg()) == value(view_main) - value(
        section_main,
    ));
    let back = view_span.spec_sub(padding).spec_sub(section_span);
    assert(value(back.spec_neg()) == value(padding) + value(section_span) - value(view_span));
    assert(value(padding.spec_neg()) == -value(padding));
}

/// A section fits into the view together with the neighbor that focus comes from if both, with the
/// gap between them and a gap on either side, are no wider than the working area.
pub proof fn law_pair_fits_with_its_gaps<N: Scalar>(
    value: spec_fn(N) -> real,
    space: SpaceView<N>,
    idx: int,
    prev_idx: int,
)
    requires
        exact(value),
        has_spans(value, space),
        0 <= idx < space.sections.len(),
        0 <= prev_idx < space.sections.len(),
        prev_idx != idx,
        value(space.width(idx)) > 0 as real,
        value(
            space.width(
                if prev_idx > idx {
                    idx + 1
                } else {
                    idx - 1
                },
            ),
        ) > 0 as real,
    ensures
        ({
            let gap = value(space.layout().gaps);
            let beside = if prev_idx > idx {
                idx + 1
            } else {
                idx - 1
            };
            space.fits_with_source(idx, prev_idx) <==> gap + value(space.width(idx)) + gap + value(
                space.width(beside),
            ) + gap <= value(space.props.working_area.size.w)
        }),
{
    let beside = if prev_idx > idx {
        idx + 1
    } else {
        idx - 1
    };
    let gaps = space.layout().gaps;
    assert(space.source_for(idx, prev_idx) == beside);
    let first = if beside < idx {
        beside
    } else {
        idx
    };
    let (a, b) = (space.section_pos(first), space.section_pos(first + 1));
    let step = space.width(first).spec_add(gaps);
    assert(b == a.spec_add(step));
    assert(value(b) == value(a) + value(step));
    assert(value(step) == value(space.width(first)) + value(gaps));
    let two = num::<N>(2);
    assert(value(two) == 2 as real);
    assert(value(gaps.spec_mul(two)) == value(gaps) * value(two));
    assert(value(gaps) * 2 as real == value(gaps) + value(gaps)) by (nonlinear_arith);
    assert(value(space.width(beside)) >= 0 as real && value(space.width(first)) >= 0 as real);
    let (source, target) = (space.section_pos(beside), space.section_pos(idx));
    let ahead = target.spec_sub(source).spec_add(space.width(idx)).spec_add(gaps.spec_mul(two));
    let behind = source.spec_sub(target).spec_add(space.width(beside)).spec_add(
        gaps.spec_mul(two),
    );
    assert(value(ahead) == value(target) - value(source) + value(space.width(idx)) + value(
        gaps.spec_mul(two),
    ));
    assert(value(behind) == value(source) - value(target) + value(space.width(beside)) + value(
        gaps.spec_mul(two),
    ));
}

/// Whether no section has a negative span.
pub open spec fn has_spans<N: Scalar>(value: spec_fn(N) -> real, space: SpaceView<N>) -> bool {
    &&& value(space.layout().gaps) >= 0 as real
    &&& forall|i: int|
        0 <= i < space.sections.len() ==> value(#[trigger] space.width(i)) >= 0 as real
}

/// A tile that is narrower than the others in its section is in the middle of it where sections are
/// kept centered, and at the end of it while it is resized by its start edge.
pub proof fn law_narrow_tile_is_aligned<N: Scalar>(
    value: spec_fn(N) -> real,
    leaf: LeafLayout<N>,
    origin: Point<N>,
    widest: N,
)
    requires
        exact(value),
        leaf.aligned,
    ensures
        ({
            let centered = shifted_pos(leaf, origin, widest, true);
            let other = shifted_pos(leaf, origin, widest, false);
            let end = value(origin.x) + value(widest);
            &&& value(centered.x) - value(origin.x) == end - (value(centered.x) + value(
                leaf.main_size,
            ))
            &&& leaf.resizing_by_start ==> value(other.x) + value(leaf.main_size) == end
            &&& !leaf.resizing_by_start ==> other == leaf.pos
            &&& centered.y == leaf.pos.y && other.y == leaf.pos.y
        }),
{
    let two = num::<N>(2);
    assert(value(two) == 2 as real);
    let left = widest.spec_sub(leaf.main_size);
    assert(value(left.spec_div(two)) == value(left) / 2 as real);
    assert(value(origin.x.spec_add(left.spec_div(two))) == value(origin.x) + value(
        left.spec_div(two),
    ));
    assert(value(origin.x.spec_add(widest).spec_sub(leaf.main_size)) == value(origin.x) + value(
        widest,
    ) - value(leaf.main_size));
}

} // verus!
