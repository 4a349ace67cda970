//! How input is read along the axes of a layout.
use scrolling_layout::axis::{MainAxis, PhysicalAxis};
use scrolling_layout::axis_policy::{InputAxisPolicy, Modifiers, OverviewWheelTarget};
use scrolling_layout::scalar::Scalar;

/// Logical pixels as floating-point numbers.
#[derive(Clone, Copy, PartialEq, Debug)]
struct Float(f64);

impl Scalar for Float {
    fn of_int(value: i64) -> Self {
        Float(value as f64)
    }

    fn of_usize(value: usize) -> Self {
        Float(value as f64)
    }

    fn largest() -> Self {
        Float(f64::MAX)
    }

    fn smallest() -> Self {
        Float(f64::MIN)
    }

    fn add(self, rhs: Self) -> Self {
        Float(self.0 + rhs.0)
    }

    fn sub(self, rhs: Self) -> Self {
        Float(self.0 - rhs.0)
    }

    fn mul(self, rhs: Self) -> Self {
        Float(self.0 * rhs.0)
    }

    fn div(self, rhs: Self) -> Self {
        Float(self.0 / rhs.0)
    }

    fn neg(self) -> Self {
        Float(-self.0)
    }

    fn abs(self) -> Self {
        Float(self.0.abs())
    }

    fn min(self, rhs: Self) -> Self {
        Float(self.0.min(rhs.0))
    }

    fn max(self, rhs: Self) -> Self {
        Float(self.0.max(rhs.0))
    }

    fn lt(self, rhs: Self) -> bool {
        self.0 < rhs.0
    }

    fn le(self, rhs: Self) -> bool {
        self.0 <= rhs.0
    }

    fn same(self, rhs: Self) -> bool {
        self.0 == rhs.0
    }

    fn round(self) -> Self {
        Float(self.0.round())
    }

    fn floor(self) -> Self {
        Float(self.0.floor())
    }

    fn ceil(self) -> Self {
        Float(self.0.ceil())
    }

    fn is_finite(self) -> bool {
        self.0.is_finite()
    }

    fn to_i32(self) -> i32 {
        self.0 as i32
    }
}

#[test]
fn gesture_prefers_view_offset_respects_main_axis() {
    let horizontal = InputAxisPolicy::from_main_axis(MainAxis::Horizontal);
    let vertical = InputAxisPolicy::from_main_axis(MainAxis::Vertical);

    assert!(horizontal.gesture_prefers_view_offset(Float(20.), Float(1.)));
    assert!(!horizontal.gesture_prefers_view_offset(Float(1.), Float(20.)));
    assert!(vertical.gesture_prefers_view_offset(Float(1.), Float(20.)));
    assert!(!vertical.gesture_prefers_view_offset(Float(20.), Float(1.)));
    assert!(!horizontal.gesture_prefers_view_offset(Float(10.), Float(10.)));
    assert!(!vertical.gesture_prefers_view_offset(Float(10.), Float(10.)));
}

#[test]
fn split_view_workspace_deltas_respects_main_axis() {
    let horizontal = InputAxisPolicy::from_main_axis(MainAxis::Horizontal);
    let vertical = InputAxisPolicy::from_main_axis(MainAxis::Vertical);

    assert_eq!(horizontal.split_view_workspace_deltas(3., -7.), (3., -7.));
    assert_eq!(vertical.split_view_workspace_deltas(3., -7.), (-7., 3.));
}

#[test]
fn screenshot_axes_respect_main_axis() {
    let horizontal = InputAxisPolicy::from_main_axis(MainAxis::Horizontal);
    let vertical = InputAxisPolicy::from_main_axis(MainAxis::Vertical);

    assert_eq!(horizontal.screenshot_main_axis(), PhysicalAxis::Width);
    assert_eq!(horizontal.screenshot_cross_axis(), PhysicalAxis::Height);
    assert_eq!(vertical.screenshot_main_axis(), PhysicalAxis::Height);
    assert_eq!(vertical.screenshot_cross_axis(), PhysicalAxis::Width);
}

#[test]
fn overview_wheel_target_respects_main_axis_and_shift() {
    let horizontal = InputAxisPolicy::from_main_axis(MainAxis::Horizontal);
    let vertical = InputAxisPolicy::from_main_axis(MainAxis::Vertical);

    assert_eq!(
        horizontal.overview_wheel_target(true, Modifiers::empty()),
        Some(OverviewWheelTarget::Section)
    );
    assert_eq!(
        vertical.overview_wheel_target(true, Modifiers::empty()),
        Some(OverviewWheelTarget::Workspace)
    );

    assert_eq!(
        horizontal.overview_wheel_target(false, Modifiers::empty()),
        Some(OverviewWheelTarget::Workspace)
    );
    assert_eq!(
        horizontal.overview_wheel_target(false, Modifiers::shift()),
        Some(OverviewWheelTarget::Section)
    );

    assert_eq!(
        vertical.overview_wheel_target(false, Modifiers::empty()),
        Some(OverviewWheelTarget::Section)
    );
    assert_eq!(
        vertical.overview_wheel_target(false, Modifiers::shift()),
        Some(OverviewWheelTarget::Workspace)
    );

    assert_eq!(
        horizontal.overview_wheel_target(true, Modifiers::shift()),
        None
    );
}
