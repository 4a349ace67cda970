//! The area that sections align with.
use scrolling_layout::config::Struts;
use scrolling_layout::geometry::{Point, Rectangle, Size};
use scrolling_layout::scalar::{round_logical_in_physical, Scalar};
use scrolling_layout::working_area::compute_working_area;

/// Logical pixels as floating-point numbers.
#[derive(Clone, Copy, PartialEq, Debug)]
struct Float(f64);

impl Scalar for Float {
    fn of_int(value: i64) -> Self {
        Float(value as f64)
    }

    fn of_usize(value: usize) -> Self {
        Float(value as f64)
    }

    fn largest() -> Self {
        Float(f64::MAX)
    }

    fn smallest() -> Self {
        Float(f64::MIN)
    }

    fn add(self, rhs: Self) -> Self {
        Float(self.0 + rhs.0)
    }

    fn sub(self, rhs: Self) -> Self {
        Float(self.0 - rhs.0)
    }

    fn mul(self, rhs: Self) -> Self {
        Float(self.0 * rhs.0)
    }

    fn div(self, rhs: Self) -> Self {
        Float(self.0 / rhs.0)
    }

    fn neg(self) -> Self {
        Float(-self.0)
    }

    fn abs(self) -> Self {
        Float(self.0.abs())
    }

    fn min(self, rhs: Self) -> Self {
        Float(self.0.min(rhs.0))
    }

    fn max(self, rhs: Self) -> Self {
        Float(self.0.max(rhs.0))
    }

    fn lt(self, rhs: Self) -> bool {
        self.0 < rhs.0
    }

    fn le(self, rhs: Self) -> bool {
        self.0 <= rhs.0
    }

    fn same(self, rhs: Self) -> bool {
        self.0 == rhs.0
    }

    fn round(self) -> Self {
        Float(self.0.round())
    }

    fn floor(self) -> Self {
        Float(self.0.floor())
    }

    fn ceil(self) -> Self {
        Float(self.0.ceil())
    }

    fn is_finite(self) -> bool {
        self.0.is_finite()
    }

    fn to_i32(self) -> i32 {
        self.0 as i32
    }
}

#[test]
fn working_area_starts_at_physical_pixel() {
    let struts = Struts {
        left: Float(0.5),
        right: Float(1.),
        top: Float(0.75),
        bottom: Float(1.),
    };

    let parent_area = Rectangle::new(
        Point::zero(),
        Size { w: Float(1280.), h: Float(720.) },
    );
    let area = compute_working_area(parent_area, Float(1.), struts);

    assert_eq!(round_logical_in_physical(Float(1.), area.loc.x), area.loc.x);
    assert_eq!(round_logical_in_physical(Float(1.), area.loc.y), area.loc.y);
}

#[test]
fn large_fractional_strut() {
    let struts = Struts {
        left: Float(0.),
        right: Float(0.),
        top: Float(50000.5),
        bottom: Float(0.),
    };

    let parent_area = Rectangle::new(
        Point::zero(),
        Size { w: Float(1280.), h: Float(720.) },
    );
    let area = compute_working_area(parent_area, Float(1.), struts);
    assert_eq!(area.size.h, Float(0.));
}
