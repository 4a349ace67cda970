//! What swipes and drags do to the view.
use vstd::prelude::*;

use crate::animation::AnimationKind;
use crate::exact::exact;
use crate::scalar::{num, Pixels, Scalar};
use crate::space::SpaceView;
use crate::space_gesture::seconds;
use crate::view_laws::law_view_goes_where_it_is_sent;
use crate::view_offset::{SwipeTracker, ViewOffset};
use crate::visible_laws::lemma_places_alike;

verus! {

/// A swipe over a touchpad by 1200 units moves the view by the span of one working area, and a
/// longer or shorter one by as much more or less: whatever the view did before, it goes on from
/// where it was. A swipe of no more than that moves it by no more than one working area.
pub proof fn law_touchpad_swipe_moves_by_working_areas<N: Scalar>(
    value: spec_fn(N) -> real,
    space: SpaceView<N>,
    tracker: SwipeTracker<N>,
)
    requires
        exact(value),
        space.sections.len() > 0,
        space.props.interactive_resize is None,
    ensures
        ({
            let begun = space.view_offset_gesture_begin(true);
            let before = value(space.props.view_offset.spec_current());
            let after = value(begun.swiped(tracker).props.view_offset.spec_target());
            let span = value(space.props.working_area.size.w);
            &&& begun.follows_swipe(true)
            &&& !begun.follows_swipe(false)
            &&& (after - before) * 1200 as real == value(tracker.pos) * span
            &&& value(tracker.pos) == 1200 as real ==> after == before + span
            &&& value(tracker.pos) == -(1200 as real) ==> after == before - span
            &&& (span >= 0 as real && -(1200 as real) <= value(tracker.pos) <= 1200 as real) ==> {
                before - span <= after <= before + span
            }
        }),
{
    let pos = value(tracker.pos);
    let span = value(space.props.working_area.size.w);
    let begun = space.view_offset_gesture_begin(true);
    let before = value(space.props.view_offset.spec_current());
    let after = value(begun.swiped(tracker).props.view_offset.spec_target());
    let factor = begun.swipe_factor(true);
    assert(value(num::<N>(1200)) == 1200 as real);
    assert(value(factor) == span / 1200 as real);
    assert(value(tracker.pos.spec_mul(factor)) == pos * value(factor));
    assert(after - before == pos * (span / 1200 as real));
    lemma_share(pos, span, after - before);
}

/// What it is to go a share of a span, out of 1200.
proof fn lemma_share(pos: real, span: real, moved: real)
    by (nonlinear_arith)
    requires
        moved == pos * (span / 1200 as real),
    ensures
        moved * 1200 as real == pos * span,
        pos == 1200 as real ==> moved == span,
        pos == -(1200 as real) ==> moved == -span,
        (span >= 0 as real && -(1200 as real) <= pos <= 1200 as real) ==> -span <= moved <= span,
{
}

/// A swipe that is not over a touchpad moves the view by as much as it goes.
pub proof fn law_other_swipe_moves_along<N: Scalar>(
    value: spec_fn(N) -> real,
    space: SpaceView<N>,
    tracker: SwipeTracker<N>,
)
    requires
        exact(value),
        space.sections.len() > 0,
        space.props.interactive_resize is None,
    ensures
        ({
            let begun = space.view_offset_gesture_begin(false);
            let before = value(space.props.view_offset.spec_current());
            let after = value(begun.swiped(tracker).props.view_offset.spec_target());
            &&& begun.follows_swipe(false)
            &&& !begun.follows_swipe(true)
            &&& after - before == value(tracker.pos)
        }),
{
    let factor = space.swipe_factor(false);
    let pos = value(tracker.pos);
    assert(value(factor) == 1 as real);
    assert(value(tracker.pos.spec_mul(factor)) == pos * value(factor));
    assert(pos * 1 as real == pos) by (nonlinear_arith);
}

/// Where a swipe has moved the view to depends on how far it has gone since it began, and not on
/// the steps in which it went there.
pub proof fn law_swipe_forgets_its_steps<N: Scalar>(
    space: SpaceView<N>,
    step: SwipeTracker<N>,
    tracker: SwipeTracker<N>,
)
    requires
        space.props.view_offset is Gesture,
    ensures
        space.swiped(step).swiped(tracker) == space.swiped(tracker),
{
}

/// In whole pixels too, a swipe over a touchpad by no more than 1200 units moves the view by no
/// more than one working area, for an area of no more than 2^40 pixels.
pub proof fn law_touchpad_swipe_stays_within_a_working_area(
    space: SpaceView<Pixels>,
    tracker: SwipeTracker<Pixels>,
)
    requires
        space.sections.len() > 0,
        space.props.interactive_resize is None,
        0 <= space.props.working_area.size.w.value <= 0x100_0000_0000,
        -0x1000_0000_0000 <= space.props.view_offset.spec_current().value <= 0x1000_0000_0000,
        -1200 <= tracker.pos.value <= 1200,
    ensures
        ({
            let begun = space.view_offset_gesture_begin(true);
            let before = space.props.view_offset.spec_current().value;
            let after = begun.swiped(tracker).props.view_offset.spec_target().value;
            let span = space.props.working_area.size.w.value;
            &&& before - span <= after <= before + span
            &&& (span % 1200 == 0) ==> (after - before) * 1200 == tracker.pos.value * span
        }),
{
    let span = space.props.working_area.size.w.value as int;
    let pos = tracker.pos.value as int;
    let factor = span / 1200;
    assert(0 <= factor * 1200 <= span);
    assert(-span <= pos * factor <= span && -0x1000_0000_0000 <= pos * factor <= 0x1000_0000_0000)
        by (nonlinear_arith)
        requires
            0 <= span <= 0x100_0000_0000,
            0 <= factor * 1200 <= span,
            -1200 <= pos <= 1200,
    ;
    assert(factor * 1200 == span ==> (pos * factor) * 1200 == pos * span) by (nonlinear_arith);
}

/// A drag at the edge scrolls by the time that has passed, at the speed of the layout: for a drag
/// all the way to the edge, one second scrolls by that speed.
pub proof fn law_drag_scrolls_with_time<N: Scalar>(
    value: spec_fn(N) -> real,
    space: SpaceView<N>,
    delta: N,
    now: u64,
)
    requires
        exact(value),
        space.props.view_offset.spec_is_dnd_scroll(),
        space.props.view_offset->Gesture_0.dnd_last_event_time->0 <= now,
        value(delta) != 0 as real,
        space.dnd_scroll(delta, now).1 is Push,
    ensures
        ({
            let last = space.props.view_offset->Gesture_0.dnd_last_event_time->0;
            let push = value(space.dnd_scroll(delta, now).1->Push_0);
            let speed = value(space.layout().dnd_scroll_max_speed);
            &&& push * 1_000_000_000 as real == value(delta) * (now - last) as real * speed
            &&& (value(delta) == 1 as real && now - last == 1_000_000_000) ==> push == speed
        }),
{
    let last = space.props.view_offset->Gesture_0.dnd_last_event_time->0;
    let nanos = (now - last) as u64;
    let time = seconds::<N>(nanos);
    let speed = space.layout().dnd_scroll_max_speed;
    lemma_seconds(value, nanos);
    assert(value(delta.spec_mul(time)) == value(delta) * value(time));
    assert(value(delta.spec_mul(time).spec_mul(speed)) == value(delta.spec_mul(time)) * value(
        speed,
    ));
    let (d, t, n, v) = (value(delta), value(time), nanos as real, value(speed));
    assert((d * t * v) * 1_000_000_000 as real == d * n * v) by (nonlinear_arith)
        requires
            t * 1_000_000_000 as real == n,
    ;
    if d == 1 as real && now - last == 1_000_000_000 {
        assert(d * t * v == v) by (nonlinear_arith)
            requires
                d == 1 as real,
                t * 1_000_000_000 as real == 1_000_000_000 as real,
        ;
    }
}

/// A drag scrolls only once it has been at the edge for as long as the layout says: counted from
/// the first movement there, and anew once it has left the edge in between.
pub proof fn law_drag_waits_at_the_edge<N: Scalar>(
    space: SpaceView<N>,
    first: N,
    start: u64,
    next: N,
    now: u64,
)
    requires
        space.props.view_offset.spec_is_dnd_scroll(),
        space.props.view_offset->Gesture_0.dnd_nonzero_start_time is None,
        !first.spec_same(num::<N>(0)),
        !next.spec_same(num::<N>(0)),
        start <= now,
    ensures
        ({
            let entered = space.dnd_scroll(first, start).0;
            let left = entered.dnd_scroll(num::<N>(0), now).0;
            let delay = space.layout().dnd_scroll_delay;
            &&& entered.dnd_scroll(next, now).1 is Waiting <==> now - start < delay
            &&& entered.dnd_scroll(next, now).1 is Push <==> now - start >= delay
            &&& num::<N>(0).spec_same(num::<N>(0)) && delay > 0 ==> left.dnd_scroll(
                next,
                now,
            ).1 is Waiting
            &&& space.dnd_scroll(first, start).0.props.view_offset.spec_target()
                == space.props.view_offset.spec_target()
        }),
{
}

/// A time in seconds is the time in nanoseconds over a thousand million.
proof fn lemma_seconds<N: Scalar>(value: spec_fn(N) -> real, nanos: u64)
    requires
        exact(value),
    ensures
        value(seconds::<N>(nanos)) * 1_000_000_000 as real == nanos as real,
{
    let whole = num::<N>((nanos / 1_000_000_000) as int);
    let rest = num::<N>((nanos % 1_000_000_000) as int);
    let unit = num::<N>(1_000_000_000);
    assert(value(unit) == 1_000_000_000 as real);
    assert(value(rest.spec_div(unit)) == value(rest) / value(unit));
    assert(value(whole.spec_add(rest.spec_div(unit))) == value(whole) + value(rest) / value(unit));
    let (w, r) = ((nanos / 1_000_000_000) as int, (nanos % 1_000_000_000) as int);
    assert(nanos as int == w * 1_000_000_000 + r);
    assert((w as real + r as real / 1_000_000_000 as real) * 1_000_000_000 as real == (w
        * 1_000_000_000 + r) as real) by (nonlinear_arith);
}

/// A drag that goes on pushing at a bound does not move the view, and is not wound up there: the
/// same place of the tracker leaves the view where it is, and going back moves it at once.
pub proof fn law_drag_is_not_wound_up<N: Scalar>(
    value: spec_fn(N) -> real,
    space: SpaceView<N>,
    tracker: SwipeTracker<N>,
    next: SwipeTracker<N>,
)
    requires
        exact(value),
        space.props.view_offset is Gesture,
        space.sections.len() > 0,
        space.props.active_section_idx < space.sections.len(),
        value(space.dnd_bounds().0) <= value(space.dnd_bounds().1),
    ensures
        ({
            let pushed = space.dnd_scrolled(tracker);
            let at = value(pushed.props.view_offset.spec_target());
            let then = value(pushed.dnd_scrolled(next).props.view_offset.spec_target());
            let step = value(next.pos) - value(tracker.pos);
            let (least, greatest) = (value(space.dnd_bounds().0), value(space.dnd_bounds().1));
            &&& least <= at <= greatest
            &&& least <= at + step <= greatest ==> then == at + step
            &&& at + step < least ==> then == least
            &&& at + step > greatest ==> then == greatest
        }),
{
    let gesture = space.props.view_offset->Gesture_0;
    let (least, greatest) = space.dnd_bounds();
    let offset = tracker.pos.spec_add(gesture.delta_from_tracker);
    assert(value(offset) == value(tracker.pos) + value(gesture.delta_from_tracker));
    let pushed = space.dnd_scrolled(tracker);
    let kept = pushed.props.view_offset.spec_target();
    let held = pushed.props.view_offset->Gesture_0;
    assert(value(held.delta_from_tracker) == value(gesture.delta_from_tracker) + (value(kept)
        - value(offset)));
    let count = space.sections.len() as int;
    lemma_sums_alike(space, pushed, count - 1);
    lemma_sums_alike(space, pushed, space.props.active_section_idx as int);
    assert(pushed.dnd_bounds() == space.dnd_bounds());
    let after = next.pos.spec_add(held.delta_from_tracker);
    assert(value(after) == value(next.pos) + value(held.delta_from_tracker));
}

/// Where sections start does not depend on the view.
proof fn lemma_sums_alike<N: Scalar>(space: SpaceView<N>, other: SpaceView<N>, i: int)
    requires
        other.sections == space.sections,
        other.options == space.options,
    ensures
        other.summed_pos(i) == space.summed_pos(i),
    decreases i,
{
    if i > 0 {
        lemma_sums_alike(space, other, i - 1);
    }
}

/// Dragging something over the layout without coming near an edge leaves the view where it is: when
/// it ends, the view goes on from less than a physical pixel away.
pub proof fn law_drag_off_the_edges_leaves_the_view<N: Scalar>(
    value: spec_fn(N) -> real,
    space: SpaceView<N>,
    now: u64,
    tracker: SwipeTracker<N>,
)
    requires
        exact(value),
        value(space.props.scale) > 0 as real,
        !space.props.view_offset.spec_is_dnd_scroll(),
    ensures
        ({
            let begun = space.dnd_scroll_gesture_begin(now);
            let after = begun.dnd_scroll_gesture_end(tracker);
            let jump = value(after.view_pos()) - value(space.view_pos());
            &&& begun.props.view_offset.spec_is_dnd_scroll()
            &&& value(begun.view_pos()) == value(space.view_pos())
            &&& after.sections == space.sections
            &&& after.props.active_section_idx == space.props.active_section_idx
            &&& !(after.props.view_offset is Gesture)
            &&& jump * value(space.props.scale) < 1 as real
            &&& jump * value(space.props.scale) > -(1 as real)
        }),
{
    let active = space.props.active_section_idx as int;
    let begun = space.dnd_scroll_gesture_begin(now);
    let after = begun.dnd_scroll_gesture_end(tracker);
    let gesture = begun.props.view_offset->Gesture_0;
    let zero = num::<N>(0);
    assert(value(zero) == 0 as real);
    assert(gesture.tracker.pos.spec_same(zero));
    lemma_places_alike(space, begun, active);
    lemma_places_alike(space, after, active);
    assert(value(begun.view_pos()) == value(space.section_pos(active)) + value(
        begun.props.view_offset.spec_current(),
    ));
    assert(value(space.view_pos()) == value(space.section_pos(active)) + value(
        space.props.view_offset.spec_current(),
    ));
    let stopped = begun.with_view_offset(ViewOffset::Static(gesture.delta_from_tracker));
    lemma_places_alike(space, stopped, active);
    assert(value(stopped.view_pos()) == value(space.section_pos(active)) + value(
        stopped.props.view_offset.spec_current(),
    ));
    let scale = value(space.props.scale);
    assert(0 as real * scale == 0 as real) by (nonlinear_arith);
    if space.sections.len() > 0 {
        let offset = stopped.offset_for(None, active, None);
        let kind = AnimationKind::HorizontalViewMovement;
        law_view_goes_where_it_is_sent(value, stopped, active, offset, kind);
        assert(value(after.view_pos()) == value(space.section_pos(active)) + value(
            after.props.view_offset.spec_current(),
        ));
    }
}

} // verus!
