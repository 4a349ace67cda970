//! What is done with the sections that are wholly in view.
use vstd::prelude::*;

use crate::animation::AnimationKind;
use crate::config::SizingMode;
use crate::exact::exact;
use crate::scalar::{num, Scalar};
use crate::section_size::{lemma_with_sizes, Work};
use crate::space::SpaceView;
use crate::view_laws::{
    has_spans, law_fitted_section_comes_into_view, law_view_goes_where_it_is_sent, rest,
};

verus! {

/// Whether a section is wholly in view once the view has come to rest, with a gap on both sides.
pub open spec fn is_wholly_in_view<N: Scalar>(
    value: spec_fn(N) -> real,
    space: SpaceView<N>,
    i: int,
) -> bool {
    let gap = value(space.layout().gaps);
    let start = value(space.section_pos(i));
    &&& rest(value, space) + gap <= start
    &&& start + value(space.width(i)) + gap <= rest(value, space) + value(
        space.props.working_area.size.w,
    )
}

/// The spans of those of the first `upto` sections that are wholly in view, with a gap after each.
pub open spec fn taken<N: Scalar>(
    value: spec_fn(N) -> real,
    space: SpaceView<N>,
    upto: int,
) -> real
    decreases upto,
{
    if upto <= 0 {
        0 as real
    } else {
        taken(value, space, upto - 1) + if is_wholly_in_view(value, space, upto - 1) {
            value(space.width(upto - 1)) + value(space.layout().gaps)
        } else {
            0 as real
        }
    }
}

pub proof fn lemma_starts_grow<N: Scalar>(
    value: spec_fn(N) -> real,
    space: SpaceView<N>,
    from: int,
    upto: int,
)
    requires
        exact(value),
        has_spans(value, space),
        0 <= from <= upto <= space.sections.len(),
    ensures
        value(space.section_pos(from)) <= value(space.section_pos(upto)),
    decreases upto - from,
{
    if from < upto {
        lemma_starts_grow(value, space, from, upto - 1);
        lemma_next_start(value, space, upto - 1);
    }
}

proof fn lemma_next_start<N: Scalar>(value: spec_fn(N) -> real, space: SpaceView<N>, i: int)
    requires
        exact(value),
        has_spans(value, space),
        0 <= i < space.sections.len(),
    ensures
        value(space.section_pos(i + 1)) == value(space.section_pos(i)) + value(space.width(i))
            + value(space.layout().gaps),
        value(space.width(i)) >= 0 as real,
{
    let step = space.width(i).spec_add(space.layout().gaps);
    assert(value(space.section_pos(i).spec_add(step)) == value(space.section_pos(i)) + value(step));
}

/// The scan finds the sections that are wholly in view.
proof fn lemma_scan_finds<N: Scalar>(value: spec_fn(N) -> real, space: SpaceView<N>, upto: int)
    requires
        exact(value),
        has_spans(value, space),
        0 <= upto <= space.sections.len(),
    ensures
        ({
            let scan = space.scan_upto(upto);
            let active = space.props.active_section_idx as int;
            &&& value(scan.occupied) == taken(value, space, upto)
            &&& scan.active is Some <==> active < upto && is_wholly_in_view(value, space, active)
            &&& scan.active is Some ==> scan.active->0 == space.section_pos(active)
            &&& scan.has_other <==> exists|j: int|
                0 <= j < upto && j != active && #[trigger] is_wholly_in_view(value, space, j)
            &&& scan.stopped ==> rest(value, space) + value(space.props.working_area.size.w)
                < value(space.section_pos(upto))
            &&& scan.stopped ==> scan.first is Some
            &&& scan.first is None ==> forall|j: int|
                0 <= j < upto ==> value(#[trigger] space.section_pos(j)) < rest(value, space)
                    + value(space.layout().gaps)
        }),
    decreases upto,
{
    if upto > 0 {
        let i = upto - 1;
        lemma_scan_finds(value, space, i);
        lemma_next_start(value, space, i);
        let before = space.scan_upto(i);
        let scan = space.scan_upto(upto);
        let active = space.props.active_section_idx as int;
        let gap = space.layout().gaps;
        let area = space.props.working_area;
        let view = space.target_view_pos().spec_add(area.loc.x);
        let main = space.section_pos(i);
        let end = main.spec_add(space.width(i)).spec_add(gap);
        assert(value(view) == rest(value, space));
        assert(value(view.spec_add(gap)) == value(view) + value(gap));
        assert(value(view.spec_add(area.size.w)) == value(view) + value(area.size.w));
        assert(value(end) == value(main) + value(space.width(i)) + value(gap));
        let step = space.width(i).spec_add(gap);
        assert(value(before.occupied.spec_add(step)) == value(before.occupied) + value(step));
        let shown = is_wholly_in_view(value, space, i);
        assert(shown <==> !before.stopped && !main.spec_lt(view.spec_add(gap)) && !view.spec_add(
            area.size.w,
        ).spec_lt(end));
        if exists|j: int| 0 <= j < i && j != active && #[trigger] is_wholly_in_view(value, space, j) {
            let j = choose|j: int|
                0 <= j < i && j != active && #[trigger] is_wholly_in_view(value, space, j);
            assert(0 <= j < upto && j != active && is_wholly_in_view(value, space, j));
        }
        if exists|j: int|
            0 <= j < upto && j != active && #[trigger] is_wholly_in_view(value, space, j) {
            let j = choose|j: int|
                0 <= j < upto && j != active && #[trigger] is_wholly_in_view(value, space, j);
            assert(j < i || j == i);
        }
    } else {
        assert(value(num::<N>(0)) == 0 as real);
    }
}

/// Expanding the active section makes the sections that are wholly in view take all of the working
/// area, with a gap between any two and on both sides, less what the header of its tabs takes: the
/// active section gets wider by all that was free, and no other section changes. Alone in view it
/// takes the full width. Nothing happens where it is not wholly in view or nothing is free.
pub proof fn law_expanded_section_fills_the_view<N: Scalar>(
    value: spec_fn(N) -> real,
    space: SpaceView<N>,
)
    requires
        exact(value),
        space.wf(),
        space.sections.len() > 0,
        has_spans(value, space),
        space.active().pending_sizing_mode() == SizingMode::Normal,
        !space.active().props.is_full_width,
        !space.is_centering(),
    ensures
        ({
            let active = space.props.active_section_idx as int;
            let after = space.expand_section();
            let gap = value(space.layout().gaps);
            let area = value(space.props.working_area.size.w);
            let extra = value(space.active().extra_size().w);
            let others = taken(value, space, space.sections.len() as int);
            let has_other = exists|j: int|
                0 <= j < space.sections.len() && j != active && #[trigger] is_wholly_in_view(
                    value,
                    space,
                    j,
                );
            if !is_wholly_in_view(value, space, active) || area <= gap + others + extra {
                after == space
            } else if !has_other {
                after.active().props.is_full_width
            } else {
                let old_span = value(space.width(active));
                let new_span = value(after.active().props.width->Fixed_0);
                &&& after.active().props.width is Fixed
                &&& !after.active().props.is_full_width
                &&& gap + (others - old_span + new_span) + extra == area
                &&& new_span > old_span
                &&& forall|j: int|
                    0 <= j < space.sections.len() && j != active ==> (#[trigger] after.sections[j])
                        == space.sections[j]
            }
        }),
        space.expand_section().props.active_section_idx == space.props.active_section_idx,
        space.expand_section().sections.len() == space.sections.len(),
{
    let active = space.props.active_section_idx as int;
    let count = space.sections.len() as int;
    lemma_scan_finds(value, space, count);
    let scan = space.scan();
    let gap = space.layout().gaps;
    let area = space.props.working_area;
    let extra = space.active().extra_size().w;
    let available = area.size.w.spec_sub(gap).spec_sub(scan.occupied).spec_sub(extra);
    assert(value(available) == value(area.size.w) - value(gap) - value(scan.occupied) - value(
        extra,
    ));
    assert(value(num::<N>(0)) == 0 as real);
    assert(space.sections[active].wf());
    reveal(Work::toggle_full_width);
    let full = space.active().with_full_width_toggled();
    lemma_with_sizes(full, space.options);
    let wide = space.active().with_fixed_width(space.width(active).spec_add(available));
    lemma_with_sizes(wide, space.options);
    assert(value(space.width(active).spec_add(available)) == value(space.width(active)) + value(
        available,
    ));
}

/// The first section that is wholly in view is where the scan finds one to start in it.
proof fn lemma_scan_starts<N: Scalar>(
    value: spec_fn(N) -> real,
    space: SpaceView<N>,
    first: int,
    upto: int,
)
    requires
        exact(value),
        has_spans(value, space),
        0 <= first < space.sections.len(),
        0 <= upto <= space.sections.len(),
        is_wholly_in_view(value, space, first),
        forall|j: int| 0 <= j < first ==> !(#[trigger] is_wholly_in_view(value, space, j)),
    ensures
        upto <= first ==> space.scan_upto(upto).first is None,
        upto > first ==> space.scan_upto(upto).first == Some(space.section_pos(first)),
    decreases upto,
{
    if upto > 0 {
        let i = upto - 1;
        lemma_scan_starts(value, space, first, i);
        lemma_scan_finds(value, space, i);
        lemma_next_start(value, space, i);
        let gap = space.layout().gaps;
        let view = space.target_view_pos().spec_add(space.props.working_area.loc.x);
        assert(value(view.spec_add(gap)) == rest(value, space) + value(gap));
        if i < first {
            lemma_starts_grow(value, space, i + 1, first);
            assert(!is_wholly_in_view(value, space, i));
            assert(space.section_pos(i).spec_lt(view.spec_add(gap)));
        }
    }
}

/// The sections that are wholly in view stand in a row, from the first of them on.
proof fn lemma_in_a_row<N: Scalar>(
    value: spec_fn(N) -> real,
    space: SpaceView<N>,
    first: int,
    upto: int,
)
    requires
        exact(value),
        has_spans(value, space),
        0 <= first < space.sections.len(),
        0 <= upto <= space.sections.len(),
        is_wholly_in_view(value, space, first),
        forall|j: int| 0 <= j < first ==> !(#[trigger] is_wholly_in_view(value, space, j)),
    ensures
        taken(value, space, upto) >= 0 as real,
        upto <= first ==> taken(value, space, upto) == 0 as real,
        upto > first ==> taken(value, space, upto) <= value(space.props.working_area.size.w)
            - value(space.layout().gaps),
        upto > first && is_wholly_in_view(value, space, upto - 1) ==> taken(value, space, upto)
            == value(space.section_pos(upto)) - value(space.section_pos(first)),
    decreases upto,
{
    if upto > 0 {
        let i = upto - 1;
        lemma_in_a_row(value, space, first, i);
        lemma_next_start(value, space, i);
        if i < first {
            assert(!is_wholly_in_view(value, space, i));
        } else if i > first && is_wholly_in_view(value, space, i) {
            lemma_next_start(value, space, i - 1);
            lemma_starts_grow(value, space, first, i - 1);
            assert(is_wholly_in_view(value, space, i - 1));
        }
    }
}

proof fn lemma_taken_grows<N: Scalar>(
    value: spec_fn(N) -> real,
    space: SpaceView<N>,
    from: int,
    upto: int,
)
    requires
        has_spans(value, space),
        0 <= from <= upto <= space.sections.len(),
    ensures
        taken(value, space, from) <= taken(value, space, upto),
    decreases upto - from,
{
    if from < upto {
        lemma_taken_grows(value, space, from, upto - 1);
        assert(value(space.width(upto - 1)) >= 0 as real);
    }
}

/// Spaces with the same sections and options have their sections at the same places.
pub proof fn lemma_places_alike<N: Scalar>(space: SpaceView<N>, other: SpaceView<N>, i: int)
    requires
        other.sections == space.sections,
        other.options == space.options,
    ensures
        other.section_pos(i) == space.section_pos(i),
    decreases i,
{
    if i > 0 {
        lemma_places_alike(space, other, i - 1);
    }
}

/// Centering the sections that are wholly in view leaves as much room before the first of them as
/// after the last one.
pub proof fn law_visible_sections_have_equal_margins<N: Scalar>(
    value: spec_fn(N) -> real,
    space: SpaceView<N>,
    first: int,
)
    requires
        exact(value),
        space.wf(),
        has_spans(value, space),
        value(space.props.scale) > 0 as real,
        !space.is_centering(),
        0 <= first < space.sections.len(),
        is_wholly_in_view(value, space, first),
        forall|j: int| 0 <= j < first ==> !(#[trigger] is_wholly_in_view(value, space, j)),
        is_wholly_in_view(value, space, space.props.active_section_idx as int),
        space.active().sizing_mode() == SizingMode::Normal,
        value(space.width(space.props.active_section_idx as int)) < value(
            space.props.working_area.size.w,
        ),
    ensures
        ({
            let active = space.props.active_section_idx as int;
            let after = space.center_visible_sections();
            let area = space.props.working_area;
            let view = value(space.section_pos(active)) + value(
                after.props.view_offset.spec_target(),
            ) + value(area.loc.x);
            let start = value(space.section_pos(first));
            let end = start + taken(value, space, space.sections.len() as int) - value(
                space.layout().gaps,
            );
            &&& start - view == (view + value(area.size.w)) - end
            &&& after.sections == space.sections
            &&& after.props.active_section_idx == space.props.active_section_idx
        }),
{
    let active = space.props.active_section_idx as int;
    let count = space.sections.len() as int;
    let gap = space.layout().gaps;
    let area = space.props.working_area;
    lemma_scan_finds(value, space, count);
    lemma_scan_starts(value, space, first, count);
    lemma_in_a_row(value, space, first, count);
    lemma_in_a_row(value, space, first, active + 1);
    lemma_taken_grows(value, space, active + 1, count);
    if active < first {
        assert(!is_wholly_in_view(value, space, active));
    }
    lemma_starts_grow(value, space, first, active);
    lemma_next_start(value, space, active);
    let scan = space.scan();
    let free = area.size.w.spec_sub(scan.occupied).spec_add(gap);
    let half = free.spec_div(num::<N>(2));
    let new_view = space.section_pos(first).spec_sub(half).spec_sub(area.loc.x);
    let offset = new_view.spec_sub(space.section_pos(active));
    assert(value(num::<N>(2)) == 2 as real);
    assert(value(free) == value(area.size.w) - value(scan.occupied) + value(gap));
    assert(value(half) == value(free) / 2 as real);
    assert(value(new_view) == value(space.section_pos(first)) - value(half) - value(area.loc.x));
    assert(value(offset) == value(new_view) - value(space.section_pos(active)));
    let kind = AnimationKind::HorizontalViewMovement;
    let cancelled = space.resize_cancelled(active);
    let sent = cancelled.view_sent(active, offset, kind);
    lemma_places_alike(space, cancelled, active);
    lemma_places_alike(space, sent, active);
    law_view_goes_where_it_is_sent(value, cancelled, active, offset, kind);
    let view = sent.target_view_pos().spec_add(area.loc.x);
    assert(value(sent.target_view_pos()) == value(space.section_pos(active)) + value(offset));
    assert(value(view) == value(space.section_pos(first)) - value(half));
    law_fitted_section_comes_into_view(
        value,
        view,
        area.size.w,
        space.section_pos(active),
        space.width(active),
        gap,
    );
    let fit = sent.offset_for(None, active, None);
    assert(sent.width(active) == space.width(active));
    assert(!sent.is_centering());
    assert(fit == sent.fit_offset_for(None, active));
    assert(value(fit) == value(offset));
    law_view_goes_where_it_is_sent(value, sent, active, fit, kind);
}

/// Sections before a place decide where it is.
proof fn lemma_places_before<N: Scalar>(space: SpaceView<N>, other: SpaceView<N>, i: int)
    requires
        other.options == space.options,
        forall|j: int| 0 <= j < i ==> #[trigger] other.sections[j] == space.sections[j],
    ensures
        other.section_pos(i) == space.section_pos(i),
    decreases i,
{
    if i > 0 {
        lemma_places_before(space, other, i - 1);
        assert(other.sections[i - 1] == space.sections[i - 1]);
    }
}

/// Expanding the active section lets the view start a gap before the first of the sections that
/// were wholly in view, where the active section, as it is at that moment, fits into the view there.
pub proof fn law_expanded_view_starts_with_the_first<N: Scalar>(
    value: spec_fn(N) -> real,
    space: SpaceView<N>,
    first: int,
    other: int,
)
    requires
        exact(value),
        space.wf(),
        has_spans(value, space),
        value(space.props.scale) > 0 as real,
        space.active().pending_sizing_mode() == SizingMode::Normal,
        space.active().sizing_mode() == SizingMode::Normal,
        !space.active().props.is_full_width,
        !space.is_centering(),
        0 <= first < space.sections.len(),
        is_wholly_in_view(value, space, first),
        forall|j: int| 0 <= j < first ==> !(#[trigger] is_wholly_in_view(value, space, j)),
        is_wholly_in_view(value, space, space.props.active_section_idx as int),
        0 <= other < space.sections.len(),
        other != space.props.active_section_idx,
        is_wholly_in_view(value, space, other),
        value(space.layout().gaps) + taken(value, space, space.sections.len() as int) + value(
            space.active().extra_size().w,
        ) < value(space.props.working_area.size.w),
    ensures
        ({
            let active = space.props.active_section_idx as int;
            let after = space.expand_section();
            let area = space.props.working_area;
            let gap = value(space.layout().gaps);
            let view = value(space.section_pos(first)) - gap;
            let span = value(after.width(active));
            let main = value(space.section_pos(active));
            (span < value(area.size.w) && main + span + gap <= view + value(area.size.w)) ==> main
                + value(after.props.view_offset.spec_target()) + value(area.loc.x) == view
        }),
{
    let active = space.props.active_section_idx as int;
    let count = space.sections.len() as int;
    let gap = space.layout().gaps;
    let area = space.props.working_area;
    lemma_scan_finds(value, space, count);
    lemma_scan_starts(value, space, first, count);
    if active < first {
        assert(!is_wholly_in_view(value, space, active));
    }
    lemma_starts_grow(value, space, first, active);
    let scan = space.scan();
    assert(scan.has_other) by {
        assert(0 <= other < count && other != active && is_wholly_in_view(value, space, other));
    }
    let extra = space.active().extra_size().w;
    let available = area.size.w.spec_sub(gap).spec_sub(scan.occupied).spec_sub(extra);
    assert(value(available) == value(area.size.w) - value(gap) - value(scan.occupied) - value(
        extra,
    ));
    assert(value(num::<N>(0)) == 0 as real);
    let free = space.resize_cancelled(active);
    let wide = space.active().with_fixed_width(space.width(active).spec_add(available));
    let done = crate::section_size::work(wide, free.out).sized(space.options, true);
    lemma_with_sizes(wide, space.options);
    let mid = free.after(active, done);
    let offset = space.section_pos(first).spec_sub(gap).spec_sub(area.loc.x).spec_sub(
        space.section_pos(active),
    );
    assert(value(offset) == value(space.section_pos(first)) - value(gap) - value(area.loc.x)
        - value(space.section_pos(active)));
    let after = space.expand_section();
    assert(after == mid.view_settled(offset));
    let kind = AnimationKind::HorizontalViewMovement;
    let sent = mid.view_sent(active, offset, kind);
    lemma_places_before(space, mid, active);
    lemma_places_alike(mid, sent, active);
    law_view_goes_where_it_is_sent(value, mid, active, offset, kind);
    let view = sent.target_view_pos().spec_add(area.loc.x);
    assert(value(sent.target_view_pos()) == value(space.section_pos(active)) + value(offset));
    assert(value(view) == value(space.section_pos(first)) - value(gap));
    let span = sent.width(active);
    assert(after.width(active) == span);
    if value(span) < value(area.size.w) {
        law_fitted_section_comes_into_view(
            value,
            view,
            area.size.w,
            space.section_pos(active),
            span,
            gap,
        );
        let fit = sent.offset_for(None, active, None);
        assert(sent.sections[active].sizing_mode() == SizingMode::Normal);
        assert(!sent.is_centering());
        assert(fit == sent.fit_offset_for(None, active));
        law_view_goes_where_it_is_sent(value, sent, active, fit, kind);
    }
}

} // verus!
