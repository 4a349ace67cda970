//! How input that has a direction on the screen acts on a layout with a given main axis.
use vstd::prelude::*;

use crate::axis::{MainAxis, PhysicalAxis};
use crate::scalar::Scalar;

verus! {

/// The keyboard modifiers that are held down.
#[derive(Clone, Copy, PartialEq, Eq, Structural, Debug)]
pub struct Modifiers {
    pub ctrl: bool,
    pub shift: bool,
    pub alt: bool,
    pub super_key: bool,
    pub iso_level3_shift: bool,
    pub iso_level5_shift: bool,
    pub compositor: bool,
}

impl Modifiers {
    pub open spec fn spec_empty() -> Self {
        Modifiers {
            ctrl: false,
            shift: false,
            alt: false,
            super_key: false,
            iso_level3_shift: false,
            iso_level5_shift: false,
            compositor: false,
        }
    }

    pub open spec fn spec_shift() -> Self {
        Modifiers { shift: true, ..Self::spec_empty() }
    }

    /// No modifier.
    pub fn empty() -> (r: Self)
        ensures
            r == Self::spec_empty(),
    {
        Modifiers {
            ctrl: false,
            shift: false,
            alt: false,
            super_key: false,
            iso_level3_shift: false,
            iso_level5_shift: false,
            compositor: false,
        }
    }

    /// Shift and nothing else.
    pub fn shift() -> (r: Self)
        ensures
            r == Self::spec_shift(),
    {
        Modifiers {
            ctrl: false,
            shift: true,
            alt: false,
            super_key: false,
            iso_level3_shift: false,
            iso_level5_shift: false,
            compositor: false,
        }
    }
}

/// The input side of a layout's main axis.
#[derive(Clone, Copy, PartialEq, Eq, Structural, Debug)]
pub struct InputAxisPolicy {
    main_axis: MainAxis,
}

/// What a wheel turn in the overview switches.
#[derive(Clone, Copy, PartialEq, Eq, Structural, Debug)]
pub enum OverviewWheelTarget {
    Section,
    Workspace,
}

impl Default for InputAxisPolicy {
    fn default() -> (r: Self)
        ensures
            r.axis() == MainAxis::Horizontal,
    {
        InputAxisPolicy { main_axis: MainAxis::Horizontal }
    }
}

impl InputAxisPolicy {
    /// The main axis that the policy was made for.
    pub closed spec fn axis(self) -> MainAxis {
        self.main_axis
    }

    pub fn from_main_axis(main_axis: MainAxis) -> (r: Self)
        ensures
            r.axis() == main_axis,
    {
        InputAxisPolicy { main_axis }
    }

    pub fn main_axis(self) -> (r: MainAxis)
        ensures
            r == self.axis(),
    {
        self.main_axis
    }

    pub fn is_vertical(self) -> (r: bool)
        ensures
            r == (self.axis() == MainAxis::Vertical),
    {
        self.main_axis == MainAxis::Vertical
    }

    /// Whether a swipe has moved further along the main axis than across it.
    pub fn gesture_prefers_view_offset<N: Scalar>(self, cumulative_x: N, cumulative_y: N) -> (r: bool)
        ensures
            self.axis() == MainAxis::Horizontal ==> r == (cumulative_y.spec_abs()
                < cumulative_x.spec_abs()),
            self.axis() == MainAxis::Vertical ==> r == (cumulative_x.spec_abs()
                < cumulative_y.spec_abs()),
    {
        if self.is_vertical() {
            cumulative_x.abs().lt(cumulative_y.abs())
        } else {
            cumulative_y.abs().lt(cumulative_x.abs())
        }
    }

    /// Splits a movement on the screen into the part along the main axis, which moves the view, and
    /// the part across it, which switches workspaces.
    pub fn split_view_workspace_deltas<N>(self, delta_x: N, delta_y: N) -> (r: (N, N))
        ensures
            self.axis() == MainAxis::Horizontal ==> r == (delta_x, delta_y),
            self.axis() == MainAxis::Vertical ==> r == (delta_y, delta_x),
    {
        if self.is_vertical() {
            (delta_y, delta_x)
        } else {
            (delta_x, delta_y)
        }
    }

    /// The direction of the screen on which main-axis actions act where there is no layout.
    pub fn screenshot_main_axis(self) -> (r: PhysicalAxis)
        ensures
            self.axis() == MainAxis::Horizontal ==> r == PhysicalAxis::Width,
            self.axis() == MainAxis::Vertical ==> r == PhysicalAxis::Height,
    {
        if self.is_vertical() {
            PhysicalAxis::Height
        } else {
            PhysicalAxis::Width
        }
    }

    /// The direction of the screen on which cross-axis actions act where there is no layout.
    pub fn screenshot_cross_axis(self) -> (r: PhysicalAxis)
        ensures
            self.axis() == MainAxis::Horizontal ==> r == PhysicalAxis::Height,
            self.axis() == MainAxis::Vertical ==> r == PhysicalAxis::Width,
    {
        if self.is_vertical() {
            PhysicalAxis::Width
        } else {
            PhysicalAxis::Height
        }
    }

    /// What a wheel turn in the overview does: a bare turn acts along its own direction, shift
    /// turns a vertical wheel sideways, and anything else is left to others.
    pub open spec fn wheel_target(
        self,
        horizontal: bool,
        modifiers: Modifiers,
    ) -> Option<OverviewWheelTarget> {
        let bare = modifiers == Modifiers::spec_empty();
        let sideways = horizontal || modifiers == Modifiers::spec_shift();
        if bare || (!horizontal && modifiers == Modifiers::spec_shift()) {
            if sideways == (self.axis() == MainAxis::Horizontal) {
                Some(OverviewWheelTarget::Section)
            } else {
                Some(OverviewWheelTarget::Workspace)
            }
        } else {
            None
        }
    }

    pub fn overview_wheel_target(self, horizontal: bool, modifiers: Modifiers) -> (r: Option<
        OverviewWheelTarget,
    >)
        ensures
            r == self.wheel_target(horizontal, modifiers),
    {
        if horizontal {
            if modifiers == Modifiers::empty() {
                Some(
                    if self.is_vertical() {
                        OverviewWheelTarget::Workspace
                    } else {
                        OverviewWheelTarget::Section
                    },
                )
            } else {
                None
            }
        } else if modifiers == Modifiers::empty() {
            Some(
                if self.is_vertical() {
                    OverviewWheelTarget::Section
                } else {
                    OverviewWheelTarget::Workspace
                },
            )
        } else if modifiers == Modifiers::shift() {
            Some(
                if self.is_vertical() {
                    OverviewWheelTarget::Workspace
                } else {
                    OverviewWheelTarget::Section
                },
            )
        } else {
            None
        }
    }
}

/// Turning the main axis by a quarter turn exchanges the two targets of the wheel, for every input
/// that is handled at all.
pub proof fn law_policies_of_the_two_axes_mirror_each_other(
    a: InputAxisPolicy,
    b: InputAxisPolicy,
    horizontal: bool,
    modifiers: Modifiers,
)
    requires
        a.axis() != b.axis(),
    ensures
        a.wheel_target(horizontal, modifiers) is Some <==> b.wheel_target(
            horizontal,
            modifiers,
        ) is Some,
        a.wheel_target(horizontal, modifiers) is Some ==> a.wheel_target(horizontal, modifiers)
            != b.wheel_target(horizontal, modifiers),
{
}

} // verus!
