//! Swipes and drags that move the view.
//!
//! A swipe is followed by a tracker that belongs to whoever reads the input: it is told of every
//! movement, and the space is handed what it says. So each gesture here takes the tracker as it is
//! after the movement.
use vstd::prelude::*;

use crate::animation::{Animation, AnimationKind};
use crate::scalar::{clamp, clamped, num, Scalar};
use crate::space::{ScrollingSpace, SpaceProps, SpaceView};
use crate::view_offset::{SwipeTracker, ViewGesture, ViewOffset};
use crate::windows::keeps_windows;

verus! {

/// Amount of touchpad movement to scroll the view for the main-axis span of one working area.
pub const VIEW_GESTURE_WORKING_AREA_MOVEMENT: i64 = 1200;

pub const NANOS_PER_SEC: u64 = 1_000_000_000;

/// What a drag at the edge of the view does to it.
#[derive(Clone, Copy, PartialEq, Eq, Debug)]
pub enum DndScroll<N> {
    /// Nothing: no drag is scrolling the view, or it is outside of the scrolling zone.
    Ignored,
    /// The drag has not been in the scrolling zone for long enough.
    Waiting,
    /// The tracker is to be told of a movement, and the view to be scrolled by what it says.
    Push(N),
}

/// A time in seconds.
pub open spec fn seconds<N: Scalar>(nanos: u64) -> N {
    num::<N>((nanos / NANOS_PER_SEC) as int) + num::<N>((nanos % NANOS_PER_SEC) as int).spec_div(
        num::<N>(NANOS_PER_SEC as int),
    )
}

fn as_seconds<N: Scalar>(nanos: u64) -> (r: N)
    ensures
        r == seconds::<N>(nanos),
{
    let whole = N::of_int((nanos / NANOS_PER_SEC) as i64);
    let rest = N::of_int((nanos % NANOS_PER_SEC) as i64);
    whole.add(rest.div(N::of_int(NANOS_PER_SEC as i64)))
}

/// The time from one moment to a later one.
pub open spec fn elapsed(now: u64, since: u64) -> u64 {
    if now >= since {
        (now - since) as u64
    } else {
        0
    }
}

fn time_since(now: u64, since: u64) -> (r: u64)
    ensures
        r == elapsed(now, since),
{
    if now >= since {
        now - since
    } else {
        0
    }
}

impl<N: Scalar> SpaceView<N> {
    /// How much the view moves for one unit of a swipe.
    pub open spec fn swipe_factor(self, is_touchpad: bool) -> N {
        if is_touchpad {
            self.props.working_area.size.w.spec_div(
                num::<N>(VIEW_GESTURE_WORKING_AREA_MOVEMENT as int),
            )
        } else {
            num::<N>(1)
        }
    }

    pub open spec fn view_offset_gesture_begin(self, is_touchpad: bool) -> Self {
        if self.sections.len() == 0 || self.props.interactive_resize is Some {
            self
        } else {
            self.with_view_offset(
                ViewOffset::Gesture(self.props.view_offset.gesture_from_here(is_touchpad, None)),
            )
        }
    }

    pub open spec fn dnd_scroll_gesture_begin(self, now: u64) -> Self {
        if self.props.view_offset.spec_is_dnd_scroll() {
            self
        } else {
            self.with_props(
                SpaceProps {
                    view_offset: ViewOffset::Gesture(
                        self.props.view_offset.gesture_from_here(false, Some(now)),
                    ),
                    interactive_resize: None,
                    ..self.props
                },
            )
        }
    }

    /// Whether the view follows a swipe of this kind.
    pub open spec fn follows_swipe(self, is_touchpad: bool) -> bool {
        self.props.view_offset matches ViewOffset::Gesture(gesture) && gesture.is_touchpad
            == is_touchpad && gesture.dnd_last_event_time is None
    }

    /// The space after a swipe went on.
    pub open spec fn swiped(self, tracker: SwipeTracker<N>) -> Self {
        let gesture = self.props.view_offset->Gesture_0;
        self.with_view_offset(
            ViewOffset::Gesture(
                ViewGesture {
                    tracker,
                    current_view_offset: tracker.pos * self.swipe_factor(gesture.is_touchpad)
                        + gesture.delta_from_tracker,
                    ..gesture
                },
            ),
        )
    }

    /// What a drag at the edge does, and the space after it.
    pub open spec fn dnd_scroll(self, delta: N, now: u64) -> (Self, DndScroll<N>) {
        if !self.props.view_offset.spec_is_dnd_scroll() {
            (self, DndScroll::Ignored)
        } else {
            let gesture = self.props.view_offset->Gesture_0;
            let last_time = gesture.dnd_last_event_time->0;
            if delta.spec_same(num::<N>(0)) {
                (
                    self.with_view_offset(
                        ViewOffset::Gesture(
                            ViewGesture {
                                dnd_last_event_time: Some(now),
                                dnd_nonzero_start_time: None,
                                ..gesture
                            },
                        ),
                    ),
                    DndScroll::Ignored,
                )
            } else {
                let nonzero_start = match gesture.dnd_nonzero_start_time {
                    Some(start) => start,
                    None => now,
                };
                let after = self.with_view_offset(
                    ViewOffset::Gesture(
                        ViewGesture {
                            dnd_last_event_time: Some(now),
                            dnd_nonzero_start_time: Some(nonzero_start),
                            ..gesture
                        },
                    ),
                );
                if elapsed(now, nonzero_start) < self.layout().dnd_scroll_delay {
                    (after, DndScroll::Waiting)
                } else {
                    (
                        after,
                        DndScroll::Push(
                            delta * seconds::<N>(elapsed(now, last_time))
                                * self.layout().dnd_scroll_max_speed,
                        ),
                    )
                }
            }
        }
    }

    /// The least and the greatest view offset that a drag may scroll to.
    pub open spec fn dnd_bounds(self) -> (N, N) {
        let (startmost, endmost) = if self.sections.len() == 0 {
            (num::<N>(0), num::<N>(0))
        } else {
            let last = self.sections.len() - 1;
            let active = self.summed_pos(self.props.active_section_idx as int);
            (
                self.props.working_area.size.w.spec_neg() - active,
                self.summed_pos(last) + self.width(last) - self.props.working_area.loc.x - active,
            )
        };
        (startmost.spec_min(endmost), startmost.spec_max(endmost))
    }

    /// The space after a drag scrolled the view: not too much out of bounds.
    pub open spec fn dnd_scrolled(self, tracker: SwipeTracker<N>) -> Self {
        let gesture = self.props.view_offset->Gesture_0;
        let view_offset = tracker.pos + gesture.delta_from_tracker;
        let (least, greatest) = self.dnd_bounds();
        let kept = clamped(view_offset, least, greatest);
        self.with_view_offset(
            ViewOffset::Gesture(
                ViewGesture {
                    tracker,
                    delta_from_tracker: gesture.delta_from_tracker + (kept - view_offset),
                    current_view_offset: kept,
                    ..gesture
                },
            ),
        )
    }

    /// Whether a swipe of this kind ends the gesture that moves the view.
    pub open spec fn ends_gesture(self, is_touchpad: Option<bool>) -> bool {
        self.props.view_offset matches ViewOffset::Gesture(gesture) && (is_touchpad is None
            || is_touchpad->0 == gesture.is_touchpad)
    }

    /// The space after a swipe ended: the view comes to rest at the closest place to where it would
    /// have gone, and focus goes to the furthest section that is then in view.
    pub open spec fn gesture_ended(self, tracker: SwipeTracker<N>) -> Self {
        let gesture = self.props.view_offset->Gesture_0;
        let factor = self.swipe_factor(gesture.is_touchpad);
        let current = tracker.pos * factor + gesture.delta_from_tracker;
        if self.sections.len() == 0 {
            self.with_view_offset(ViewOffset::Static(current))
        } else {
            let target = tracker.projected_end_pos * factor + gesture.delta_from_tracker;
            let active_main = self.section_pos(self.props.active_section_idx as int);
            let snap = self.closest_snap(active_main + target);
            let new_idx = self.furthest_visible(snap, target, current);
            let new_main = self.section_pos(new_idx);
            let rested = self.with_props(
                SpaceProps {
                    view_offset_to_restore: if self.props.active_section_idx != new_idx {
                        None
                    } else {
                        self.props.view_offset_to_restore
                    },
                    active_section_idx: new_idx as usize,
                    view_offset: ViewOffset::Animation(
                        Animation::spec_new(
                            current + (active_main - new_main),
                            snap.key - new_main,
                            tracker.velocity * factor,
                            AnimationKind::HorizontalViewMovement,
                        ),
                    ),
                    ..self.props
                },
            );
            rested.view_sent_to(None, new_idx, None, AnimationKind::HorizontalViewMovement)
        }
    }

    /// Whether a drag scrolls the view but did not move it.
    pub open spec fn is_unmoved_dnd(self) -> bool {
        self.props.view_offset.spec_is_dnd_scroll()
            && self.props.view_offset->Gesture_0.tracker.pos.spec_same(num::<N>(0))
    }

    pub open spec fn dnd_scroll_gesture_end(self, tracker: SwipeTracker<N>) -> Self {
        if self.is_unmoved_dnd() {
            let gesture = self.props.view_offset->Gesture_0;
            let stopped = self.with_view_offset(
                match gesture.animation {
                    Some(animation) => ViewOffset::Animation(
                        animation.spec_offset(gesture.current_view_offset),
                    ),
                    None => ViewOffset::Static(gesture.delta_from_tracker),
                },
            );
            if self.sections.len() > 0 {
                stopped.view_sent_to(
                    None,
                    self.props.active_section_idx as int,
                    None,
                    AnimationKind::HorizontalViewMovement,
                )
            } else {
                stopped
            }
        } else if self.props.view_offset is Gesture {
            self.gesture_ended(tracker)
        } else {
            self
        }
    }
}

impl<N: Scalar> ScrollingSpace<N> {
    fn swipe_factor(&self, is_touchpad: bool) -> (r: N)
        ensures
            r == self@.swipe_factor(is_touchpad),
    {
        if is_touchpad {
            self.props.working_area.size.w.div(N::of_int(VIEW_GESTURE_WORKING_AREA_MOVEMENT))
        } else {
            N::of_int(1)
        }
    }

    /// Lets the view follow a swipe, unless a window is being resized.
    pub fn view_offset_gesture_begin(&mut self, is_touchpad: bool)
        requires
            old(self)@.wf(),
        ensures
            final(self)@ == old(self)@.view_offset_gesture_begin(is_touchpad),
            final(self)@.wf(),
            keeps_windows(old(self)@, final(self)@),
    {
        if self.is_empty() || self.props.interactive_resize.is_some() {
            return;
        }
        let gesture = self.props.view_offset.begin_gesture(is_touchpad, None);
        self.props.view_offset = ViewOffset::Gesture(gesture);
    }

    /// Lets a drag scroll the view. A resize that is going on ends.
    pub fn dnd_scroll_gesture_begin(&mut self, now: u64)
        requires
            old(self)@.wf(),
        ensures
            final(self)@ == old(self)@.dnd_scroll_gesture_begin(now),
            final(self)@.wf(),
            keeps_windows(old(self)@, final(self)@),
    {
        if self.props.view_offset.is_dnd_scroll() {
            return;
        }
        let gesture = self.props.view_offset.begin_gesture(false, Some(now));
        self.props.view_offset = ViewOffset::Gesture(gesture);
        self.props.interactive_resize = None;
    }

    /// Moves the view with a swipe. Tells whether it did, if the view follows swipes of this kind.
    pub fn view_offset_gesture_update(
        &mut self,
        tracker: SwipeTracker<N>,
        is_touchpad: bool,
    ) -> (r: Option<bool>)
        requires
            old(self)@.wf(),
        ensures
            r == if old(self)@.follows_swipe(is_touchpad) {
                Some(true)
            } else {
                None
            },
            final(self)@ == if old(self)@.follows_swipe(is_touchpad) {
                old(self)@.swiped(tracker)
            } else {
                old(self)@
            },
            final(self)@.wf(),
            keeps_windows(old(self)@, final(self)@),
    {
        match self.props.view_offset {
            ViewOffset::Gesture(gesture) => {
                if gesture.is_touchpad != is_touchpad || gesture.dnd_last_event_time.is_some() {
                    return None;
                }
                let pos = tracker.pos.mul(self.swipe_factor(gesture.is_touchpad));
                self.props.view_offset = ViewOffset::Gesture(
                    ViewGesture {
                        tracker,
                        current_view_offset: pos.add(gesture.delta_from_tracker),
                        ..gesture
                    },
                );
                Some(true)
            },
            _ => None,
        }
    }

    /// Tells how far a drag at the edge of the view scrolls it. Starting is delayed a bit, to avoid
    /// unwanted movement when dragging across monitors.
    pub fn dnd_scroll_gesture_scroll(&mut self, delta: N, now: u64) -> (r: DndScroll<N>)
        requires
            old(self)@.wf(),
        ensures
            (final(self)@, r) == old(self)@.dnd_scroll(delta, now),
            final(self)@.wf(),
            keeps_windows(old(self)@, final(self)@),
    {
        let gesture = match self.props.view_offset {
            ViewOffset::Gesture(gesture) => gesture,
            _ => {
                return DndScroll::Ignored;
            },
        };
        let last_time: u64 = match gesture.dnd_last_event_time {
            Some(last_time) => last_time,
            None => {
                return DndScroll::Ignored;
            },
        };
        if delta.same(N::of_int(0)) {
            self.props.view_offset = ViewOffset::Gesture(
                ViewGesture {
                    dnd_last_event_time: Some(now),
                    dnd_nonzero_start_time: None,
                    ..gesture
                },
            );
            return DndScroll::Ignored;
        }
        let nonzero_start: u64 = match gesture.dnd_nonzero_start_time {
            Some(start) => start,
            None => now,
        };
        self.props.view_offset = ViewOffset::Gesture(
            ViewGesture {
                dnd_last_event_time: Some(now),
                dnd_nonzero_start_time: Some(nonzero_start),
                ..gesture
            },
        );
        if time_since(now, nonzero_start) < self.options.layout.dnd_scroll_delay {
            return DndScroll::Waiting;
        }
        let time_delta = as_seconds::<N>(time_since(now, last_time));
        DndScroll::Push(delta.mul(time_delta).mul(self.options.layout.dnd_scroll_max_speed))
    }

    fn dnd_bounds(&self) -> (r: (N, N))
        requires
            self@.wf(),
        ensures
            r == self@.dnd_bounds(),
    {
        let zero = N::of_int(0);
        if self.is_empty() {
            return (zero.min(zero), zero.max(zero));
        }
        let area = self.props.working_area;
        let last: usize = self.sections.len() - 1;
        let active = self.summed_section_pos(self.props.active_section_idx);
        let startmost = area.size.w.neg().sub(active);
        let end = self.summed_section_pos(last).add(self.section_width(last));
        let endmost = end.sub(area.loc.x).sub(active);
        (startmost.min(endmost), startmost.max(endmost))
    }

    /// Scrolls the view with a drag, not too much out of bounds.
    pub fn dnd_scroll_gesture_apply(&mut self, tracker: SwipeTracker<N>)
        requires
            old(self)@.wf(),
            old(self)@.props.view_offset.spec_is_dnd_scroll(),
        ensures
            final(self)@ == old(self)@.dnd_scrolled(tracker),
            final(self)@.wf(),
            keeps_windows(old(self)@, final(self)@),
    {
        if let ViewOffset::Gesture(gesture) = self.props.view_offset {
            let view_offset = tracker.pos.add(gesture.delta_from_tracker);
            let (least, greatest) = self.dnd_bounds();
            let kept = clamp(view_offset, least, greatest);
            self.props.view_offset = ViewOffset::Gesture(
                ViewGesture {
                    tracker,
                    delta_from_tracker: gesture.delta_from_tracker.add(kept.sub(view_offset)),
                    current_view_offset: kept,
                    ..gesture
                },
            );
        }
    }

    fn end_gesture(&mut self, gesture: ViewGesture<N>, tracker: SwipeTracker<N>)
        requires
            old(self)@.wf(),
            old(self)@.props.view_offset == ViewOffset::Gesture(gesture),
        ensures
            final(self)@ == old(self)@.gesture_ended(tracker),
            final(self)@.wf(),
            keeps_windows(old(self)@, final(self)@),
    {
        let factor = self.swipe_factor(gesture.is_touchpad);
        let current = tracker.pos.mul(factor).add(gesture.delta_from_tracker);
        if self.is_empty() {
            self.props.view_offset = ViewOffset::Static(current);
            return;
        }
        let target = tracker.projected_end_pos.mul(factor).add(gesture.delta_from_tracker);
        let active: usize = self.props.active_section_idx;
        let active_main = self.section_main_pos(active);
        let snap = self.closest_view_snap(active_main.add(target));
        let new_idx: usize = self.furthest_visible_section_from_snap(snap, target, current);
        let new_main = self.section_main_pos(new_idx);
        if active != new_idx {
            self.props.view_offset_to_restore = None;
        }
        self.props.active_section_idx = new_idx;
        self.props.view_offset = ViewOffset::Animation(
            Animation::new(
                current.add(active_main.sub(new_main)),
                snap.key.sub(new_main),
                tracker.velocity.mul(factor),
                AnimationKind::HorizontalViewMovement,
            ),
        );
        self.animate_view_offset_to_section(None, new_idx, None);
    }

    /// Ends a swipe, with the tracker told that time has passed since the last movement. Tells
    /// whether there was one to end.
    pub fn view_offset_gesture_end(
        &mut self,
        tracker: SwipeTracker<N>,
        is_touchpad: Option<bool>,
    ) -> (r: bool)
        requires
            old(self)@.wf(),
        ensures
            r == old(self)@.ends_gesture(is_touchpad),
            final(self)@ == if r {
                old(self)@.gesture_ended(tracker)
            } else {
                old(self)@
            },
            final(self)@.wf(),
            keeps_windows(old(self)@, final(self)@),
    {
        match self.props.view_offset {
            ViewOffset::Gesture(gesture) => {
                if let Some(kind) = is_touchpad {
                    if gesture.is_touchpad != kind {
                        return false;
                    }
                }
                self.end_gesture(gesture, tracker);
                true
            },
            _ => false,
        }
    }

    /// Ends the scrolling of a drag. Where it did not scroll anything the view stays where it is,
    /// with the active section on screen; otherwise this is the end of a swipe.
    pub fn dnd_scroll_gesture_end(&mut self, tracker: SwipeTracker<N>)
        requires
            old(self)@.wf(),
        ensures
            final(self)@ == old(self)@.dnd_scroll_gesture_end(tracker),
            final(self)@.wf(),
            keeps_windows(old(self)@, final(self)@),
    {
        if let ViewOffset::Gesture(gesture) = self.props.view_offset {
            if gesture.dnd_last_event_time.is_some() && gesture.tracker.pos.same(N::of_int(0)) {
                self.props.view_offset = match gesture.animation {
                    Some(animation) => {
                        let mut animation = animation;
                        animation.offset(gesture.current_view_offset);
                        ViewOffset::Animation(animation)
                    },
                    None => ViewOffset::Static(gesture.delta_from_tracker),
                };
                if !self.is_empty() {
                    let active: usize = self.props.active_section_idx;
                    self.animate_view_offset_to_section(None, active, None);
                }
                return;
            }
            self.end_gesture(gesture, tracker);
        }
    }
}

} // verus!
