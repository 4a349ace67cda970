//! Where the view stands relative to the active section, and what moves it.
use vstd::prelude::*;

use crate::animation::{animated_or, drop_if_done, unless_done, value_or, Animation, AnimationKind};
use crate::scalar::{num, Scalar};

verus! {

/// What is known of a swipe: how far it went, how fast it goes, and where it would end.
#[derive(Clone, Copy, PartialEq, Eq, Debug)]
pub struct SwipeTracker<N> {
    pub pos: N,
    pub velocity: N,
    pub projected_end_pos: N,
}

impl<N: Scalar> SwipeTracker<N> {
    pub open spec fn spec_new() -> Self {
        SwipeTracker {
            pos: num::<N>(0),
            velocity: num::<N>(0),
            projected_end_pos: num::<N>(0),
        }
    }

    /// A swipe that did not move yet.
    pub fn new() -> (r: Self)
        ensures
            r == Self::spec_new(),
    {
        let zero = N::of_int(0);
        SwipeTracker { pos: zero, velocity: zero, projected_end_pos: zero }
    }
}

/// A view offset that follows an ongoing gesture. Times are in nanoseconds.
#[derive(Clone, Copy, PartialEq, Eq, Debug)]
pub struct ViewGesture<N> {
    pub current_view_offset: N,
    /// Animation for the extra offset to the current position, for example when a specific window
    /// has to be activated during a drag.
    pub animation: Option<Animation<N>>,
    pub tracker: SwipeTracker<N>,
    pub delta_from_tracker: N,
    /// The view offset to save for later where one is needed.
    pub stationary_view_offset: N,
    /// Whether the gesture is controlled by the touchpad.
    pub is_touchpad: bool,
    /// The time of the last event, where the gesture scrolls for a drag-and-drop.
    pub dnd_last_event_time: Option<u64>,
    /// The time since which the drag-and-drop has been in a scrolling zone, if it is in one.
    pub dnd_nonzero_start_time: Option<u64>,
}

/// Offset of the view from the active section.
#[derive(Clone, Copy, PartialEq, Eq, Debug)]
pub enum ViewOffset<N> {
    /// The view offset is static.
    Static(N),
    /// The view offset is animating.
    Animation(Animation<N>),
    /// The view offset is controlled by the ongoing gesture.
    Gesture(ViewGesture<N>),
}

impl<N: Scalar> ViewGesture<N> {
    pub open spec fn spec_animate_from(self, from: N, kind: AnimationKind) -> Self {
        let current = value_or(self.animation, num::<N>(0));
        ViewGesture {
            animation: Some(
                Animation::spec_new(from + current, num::<N>(0), num::<N>(0), kind),
            ),
            ..self
        }
    }

    pub fn animate_from(&mut self, from: N, kind: AnimationKind)
        ensures
            *final(self) == old(self).spec_animate_from(from, kind),
    {
        let zero = N::of_int(0);
        let current = animated_or(&self.animation, zero);
        self.animation = Some(Animation::new(from.add(current), zero, zero, kind));
    }

    /// The gesture moved to a new resting place, with the move itself animated.
    pub open spec fn moved_to(self, new_view_offset: N, kind: AnimationKind) -> Self {
        let current_pos = self.current_view_offset - self.delta_from_tracker;
        let offset_delta = new_view_offset - self.current_view_offset;
        ViewGesture {
            stationary_view_offset: new_view_offset,
            delta_from_tracker: new_view_offset - current_pos,
            current_view_offset: new_view_offset,
            ..self
        }.spec_animate_from(offset_delta.spec_neg(), kind)
    }

    pub fn move_to(&mut self, new_view_offset: N, kind: AnimationKind)
        ensures
            *final(self) == old(self).moved_to(new_view_offset, kind),
    {
        self.stationary_view_offset = new_view_offset;
        let current_pos = self.current_view_offset.sub(self.delta_from_tracker);
        self.delta_from_tracker = new_view_offset.sub(current_pos);
        let offset_delta = new_view_offset.sub(self.current_view_offset);
        self.current_view_offset = new_view_offset;
        self.animate_from(offset_delta.neg(), kind);
    }
}

impl<N: Scalar> ViewOffset<N> {
    pub open spec fn spec_current(self) -> N {
        match self {
            ViewOffset::Static(offset) => offset,
            ViewOffset::Animation(animation) => animation.value,
            ViewOffset::Gesture(gesture) => gesture.current_view_offset + value_or(
                gesture.animation,
                num::<N>(0),
            ),
        }
    }

    pub open spec fn spec_target(self) -> N {
        match self {
            ViewOffset::Static(offset) => offset,
            ViewOffset::Animation(animation) => animation.to,
            ViewOffset::Gesture(gesture) => gesture.current_view_offset,
        }
    }

    pub open spec fn spec_stationary(self) -> N {
        match self {
            ViewOffset::Static(offset) => offset,
            ViewOffset::Animation(animation) => animation.to,
            ViewOffset::Gesture(gesture) => gesture.stationary_view_offset,
        }
    }

    pub open spec fn spec_offset(self, delta: N) -> Self {
        match self {
            ViewOffset::Static(offset) => ViewOffset::Static(offset + delta),
            ViewOffset::Animation(animation) => ViewOffset::Animation(animation.spec_offset(delta)),
            ViewOffset::Gesture(gesture) => ViewOffset::Gesture(
                ViewGesture {
                    stationary_view_offset: gesture.stationary_view_offset + delta,
                    delta_from_tracker: gesture.delta_from_tracker + delta,
                    current_view_offset: gesture.current_view_offset + delta,
                    ..gesture
                },
            ),
        }
    }

    pub open spec fn spec_is_dnd_scroll(self) -> bool {
        self matches ViewOffset::Gesture(gesture) && gesture.dnd_last_event_time is Some
    }

    pub open spec fn spec_is_animation_ongoing(self) -> bool {
        match self {
            ViewOffset::Static(_) => false,
            ViewOffset::Animation(_) => true,
            ViewOffset::Gesture(gesture) => gesture.animation is Some,
        }
    }

    pub open spec fn without_gesture(self) -> Self {
        match self {
            ViewOffset::Gesture(gesture) => ViewOffset::Static(gesture.current_view_offset),
            _ => self,
        }
    }

    /// The offset once the view is sent to `new_view_offset`, when it is not there yet.
    pub open spec fn sent_to(self, new_view_offset: N, pixel: N, kind: AnimationKind) -> Self {
        let to_diff = new_view_offset - self.spec_target();
        if to_diff.spec_abs() < pixel {
            self.spec_offset(to_diff)
        } else if self.spec_is_dnd_scroll() {
            ViewOffset::Gesture(self->Gesture_0.moved_to(new_view_offset, kind))
        } else {
            ViewOffset::Animation(
                Animation::spec_new(self.spec_current(), new_view_offset, num::<N>(0), kind),
            )
        }
    }

    /// The offset after time went on to `now`.
    pub open spec fn advanced(self, now: u64) -> Self {
        match self {
            ViewOffset::Static(_) => self,
            ViewOffset::Animation(animation) => if animation.done {
                ViewOffset::Static(animation.to)
            } else {
                self
            },
            ViewOffset::Gesture(gesture) => {
                let is_late = gesture.dnd_last_event_time is Some
                    && gesture.dnd_last_event_time->0 != now;
                ViewOffset::Gesture(
                    ViewGesture {
                        dnd_last_event_time: if is_late {
                            Some(now)
                        } else {
                            gesture.dnd_last_event_time
                        },
                        dnd_nonzero_start_time: if is_late {
                            None
                        } else {
                            gesture.dnd_nonzero_start_time
                        },
                        animation: unless_done(gesture.animation),
                        ..gesture
                    },
                )
            },
        }
    }

    /// A gesture that starts where the view is.
    pub open spec fn gesture_from_here(
        self,
        is_touchpad: bool,
        dnd_last_event_time: Option<u64>,
    ) -> ViewGesture<N> {
        ViewGesture {
            current_view_offset: self.spec_current(),
            animation: None,
            tracker: SwipeTracker::spec_new(),
            delta_from_tracker: self.spec_current(),
            stationary_view_offset: self.spec_stationary(),
            is_touchpad,
            dnd_last_event_time,
            dnd_nonzero_start_time: None,
        }
    }

    /// The current view offset.
    pub fn current(&self) -> (r: N)
        ensures
            r == self.spec_current(),
    {
        match self {
            ViewOffset::Static(offset) => *offset,
            ViewOffset::Animation(animation) => animation.value(),
            ViewOffset::Gesture(gesture) => gesture.current_view_offset.add(
                animated_or(&gesture.animation, N::of_int(0)),
            ),
        }
    }

    /// The target view offset suitable for computing the new view offset.
    pub fn target(&self) -> (r: N)
        ensures
            r == self.spec_target(),
    {
        match self {
            ViewOffset::Static(offset) => *offset,
            ViewOffset::Animation(animation) => animation.to(),
            ViewOffset::Gesture(gesture) => gesture.current_view_offset,
        }
    }

    /// A view offset suitable for saving and later restoration: no value of an animation or
    /// gesture in progress.
    pub fn stationary(&self) -> (r: N)
        ensures
            r == self.spec_stationary(),
    {
        match self {
            ViewOffset::Static(offset) => *offset,
            ViewOffset::Animation(animation) => animation.to(),
            ViewOffset::Gesture(gesture) => gesture.stationary_view_offset,
        }
    }

    pub fn is_static(&self) -> (r: bool)
        ensures
            r == (*self is Static),
    {
        matches!(self, ViewOffset::Static(_))
    }

    pub fn is_gesture(&self) -> (r: bool)
        ensures
            r == (*self is Gesture),
    {
        matches!(self, ViewOffset::Gesture(_))
    }

    pub fn is_dnd_scroll(&self) -> (r: bool)
        ensures
            r == self.spec_is_dnd_scroll(),
    {
        match self {
            ViewOffset::Gesture(gesture) => gesture.dnd_last_event_time.is_some(),
            _ => false,
        }
    }

    pub fn is_animation_ongoing(&self) -> (r: bool)
        ensures
            r == self.spec_is_animation_ongoing(),
    {
        match self {
            ViewOffset::Static(_) => false,
            ViewOffset::Animation(_) => true,
            ViewOffset::Gesture(gesture) => gesture.animation.is_some(),
        }
    }

    /// Shifts the offset, with whatever moves it.
    pub fn offset(&mut self, delta: N)
        ensures
            *final(self) == old(self).spec_offset(delta),
    {
        match *self {
            ViewOffset::Static(offset) => {
                *self = ViewOffset::Static(offset.add(delta));
            },
            ViewOffset::Animation(animation) => {
                let mut animation = animation;
                animation.offset(delta);
                *self = ViewOffset::Animation(animation);
            },
            ViewOffset::Gesture(gesture) => {
                *self = ViewOffset::Gesture(
                    ViewGesture {
                        stationary_view_offset: gesture.stationary_view_offset.add(delta),
                        delta_from_tracker: gesture.delta_from_tracker.add(delta),
                        current_view_offset: gesture.current_view_offset.add(delta),
                        ..gesture
                    },
                );
            },
        }
    }

    pub fn cancel_gesture(&mut self)
        ensures
            *final(self) == old(self).without_gesture(),
    {
        if let ViewOffset::Gesture(gesture) = *self {
            *self = ViewOffset::Static(gesture.current_view_offset);
        }
    }

    pub fn stop_anim_and_gesture(&mut self)
        ensures
            *final(self) == ViewOffset::Static(old(self).spec_current()),
    {
        *self = ViewOffset::Static(self.current());
    }

    /// Sends the view to an offset. Less than a pixel is corrected in place; a drag-and-drop
    /// scroll goes on from the new place; everything else becomes an animation.
    pub fn send_to(&mut self, new_view_offset: N, pixel: N, kind: AnimationKind)
        ensures
            *final(self) == old(self).sent_to(new_view_offset, pixel, kind),
    {
        let to_diff = new_view_offset.sub(self.target());
        if to_diff.abs().lt(pixel) {
            self.offset(to_diff);
            return;
        }
        let current = self.current();
        match *self {
            ViewOffset::Gesture(gesture) if gesture.dnd_last_event_time.is_some() => {
                let mut gesture = gesture;
                gesture.move_to(new_view_offset, kind);
                *self = ViewOffset::Gesture(gesture);
            },
            _ => {
                *self = ViewOffset::Animation(
                    Animation::new(current, new_view_offset, N::of_int(0), kind),
                );
            },
        }
    }

    /// Lets time go on: animations that have ended are done with, and a drag-and-drop scroll that
    /// had no event since then is outside of the scrolling zone.
    pub fn advance(&mut self, now: u64)
        ensures
            *final(self) == old(self).advanced(now),
    {
        match *self {
            ViewOffset::Static(_) => {},
            ViewOffset::Animation(animation) => {
                if animation.is_done() {
                    *self = ViewOffset::Static(animation.to());
                }
            },
            ViewOffset::Gesture(gesture) => {
                let mut gesture = gesture;
                if let Some(last_time) = gesture.dnd_last_event_time {
                    if last_time != now {
                        gesture.dnd_last_event_time = Some(now);
                        gesture.dnd_nonzero_start_time = None;
                    }
                }
                drop_if_done(&mut gesture.animation);
                *self = ViewOffset::Gesture(gesture);
            },
        }
    }

    /// A gesture that starts where the view is.
    pub fn begin_gesture(&self, is_touchpad: bool, dnd_last_event_time: Option<u64>) -> (r:
        ViewGesture<N>)
        ensures
            r == self.gesture_from_here(is_touchpad, dnd_last_event_time),
    {
        ViewGesture {
            current_view_offset: self.current(),
            animation: None,
            tracker: SwipeTracker::new(),
            delta_from_tracker: self.current(),
            stationary_view_offset: self.stationary(),
            is_touchpad,
            dnd_last_event_time,
            dnd_nonzero_start_time: None,
        }
    }
}

/// A gesture does not make the view jump: it starts at the offset that the view had, and what is
/// saved for later stays what it was.
pub proof fn law_gesture_starts_in_place<N: Scalar>(
    offset: ViewOffset<N>,
    is_touchpad: bool,
    dnd_last_event_time: Option<u64>,
)
    ensures
        ({
            let begun = ViewOffset::Gesture(
                offset.gesture_from_here(is_touchpad, dnd_last_event_time),
            );
            &&& begun.spec_target() == offset.spec_current()
            &&& begun.spec_current() == offset.spec_current() + num::<N>(0)
            &&& begun.spec_stationary() == offset.spec_stationary()
        }),
{
}

/// Sending the view somewhere makes that place its target, unless it was already within a pixel
/// of it; then the target is shifted by the difference.
pub proof fn law_view_is_sent_to_target<N: Scalar>(
    offset: ViewOffset<N>,
    new_view_offset: N,
    pixel: N,
    kind: AnimationKind,
)
    ensures
        ({
            let to_diff = new_view_offset - offset.spec_target();
            let after = offset.sent_to(new_view_offset, pixel, kind);
            after.spec_target() == if to_diff.spec_abs() < pixel {
                offset.spec_target() + to_diff
            } else {
                new_view_offset
            }
        }),
{
}

} // verus!
