//! Animated values.
//!
//! An animation is driven by a clock that the layout does not read: whoever owns the clock stores
//! the sampled value in the animation, and the layout works with the last sample.
use vstd::prelude::*;

use crate::scalar::Scalar;

verus! {

/// Which of the configured animations drives a movement.
#[derive(Clone, Copy, PartialEq, Eq, Structural, Debug)]
pub enum AnimationKind {
    HorizontalViewMovement,
    WindowMovement,
    WindowResize,
    WindowOpen,
    WindowClose,
}

/// A value on its way from one number to another.
#[derive(Clone, Copy, PartialEq, Eq, Debug)]
pub struct Animation<N> {
    pub from: N,
    pub to: N,
    pub initial_velocity: N,
    pub kind: AnimationKind,
    /// The value at the last sample of the clock.
    pub value: N,
    /// Whether the animation had ended at the last sample of the clock.
    pub done: bool,
}

impl<N: Scalar> Animation<N> {
    pub open spec fn spec_new(from: N, to: N, initial_velocity: N, kind: AnimationKind) -> Self {
        Animation { from, to, initial_velocity, kind, value: from, done: false }
    }

    pub open spec fn spec_offset(self, delta: N) -> Self {
        Animation {
            from: self.from + delta,
            to: self.to + delta,
            value: self.value + delta,
            ..self
        }
    }

    /// An animation that is just about to leave its start.
    pub fn new(from: N, to: N, initial_velocity: N, kind: AnimationKind) -> (r: Self)
        ensures
            r == Self::spec_new(from, to, initial_velocity, kind),
    {
        Animation { from, to, initial_velocity, kind, value: from, done: false }
    }

    /// Records what the clock says.
    pub fn sample(&mut self, value: N, done: bool)
        ensures
            *final(self) == (Animation { value, done, ..*old(self) }),
    {
        self.value = value;
        self.done = done;
    }

    /// Shifts the whole course of the animation.
    pub fn offset(&mut self, delta: N)
        ensures
            *final(self) == old(self).spec_offset(delta),
    {
        self.from = self.from.add(delta);
        self.to = self.to.add(delta);
        self.value = self.value.add(delta);
    }

    pub fn value(&self) -> (r: N)
        ensures
            r == self.value,
    {
        self.value
    }

    pub fn to(&self) -> (r: N)
        ensures
            r == self.to,
    {
        self.to
    }

    pub fn is_done(&self) -> (r: bool)
        ensures
            r == self.done,
    {
        self.done
    }
}

/// Forgets an animation that has ended.
pub fn drop_if_done<N: Scalar>(animation: &mut Option<Animation<N>>)
    ensures
        *final(animation) == unless_done(*old(animation)),
{
    if let Some(running) = *animation {
        if running.is_done() {
            *animation = None;
        }
    }
}

/// The animation, unless it has ended.
pub open spec fn unless_done<N>(animation: Option<Animation<N>>) -> Option<Animation<N>> {
    match animation {
        Some(running) => if running.done {
            None
        } else {
            animation
        },
        None => None,
    }
}

/// The value of an animation that may be absent.
pub open spec fn value_or<N: Scalar>(animation: Option<Animation<N>>, rest: N) -> N {
    match animation {
        Some(running) => running.value,
        None => rest,
    }
}

/// The value of an animation, or `rest` where there is none.
pub fn animated_or<N: Scalar>(animation: &Option<Animation<N>>, rest: N) -> (r: N)
    ensures
        r == value_or(*animation, rest),
{
    match animation {
        Some(running) => running.value(),
        None => rest,
    }
}

} // verus!
