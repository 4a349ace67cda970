//! Numbers of the layout.
//!
//! All geometry is written over [`Scalar`], a number type given by its operations. Every
//! executable operation returns exactly its specification counterpart and promises nothing else,
//! so a contract stated over these operations says which operations are applied to which values,
//! for floating-point and integer coordinates alike. What depends on the algebra of a number type
//! is proved for [`Pixels`], the whole logical pixels.
use vstd::prelude::*;

verus! {

/// A number that coordinates, spans, scales and proportions are made of.
///
/// A number type outside of verified code, such as a floating-point one, gives the executable
/// operations only.
pub trait Scalar: Sized + Copy {
    /// The number that stands for an integer.
    closed spec fn spec_of_int(value: int) -> Self {
        arbitrary()
    }

    /// The largest number of the type.
    closed spec fn spec_largest() -> Self {
        arbitrary()
    }

    /// The smallest number of the type.
    closed spec fn spec_smallest() -> Self {
        arbitrary()
    }

    closed spec fn spec_add(self, rhs: Self) -> Self {
        arbitrary()
    }

    closed spec fn spec_sub(self, rhs: Self) -> Self {
        arbitrary()
    }

    closed spec fn spec_mul(self, rhs: Self) -> Self {
        arbitrary()
    }

    closed spec fn spec_div(self, rhs: Self) -> Self {
        arbitrary()
    }

    closed spec fn spec_neg(self) -> Self {
        arbitrary()
    }

    closed spec fn spec_abs(self) -> Self {
        arbitrary()
    }

    /// The lesser of two numbers.
    closed spec fn spec_min(self, rhs: Self) -> Self {
        arbitrary()
    }

    /// The greater of two numbers.
    closed spec fn spec_max(self, rhs: Self) -> Self {
        arbitrary()
    }

    closed spec fn spec_lt(self, rhs: Self) -> bool {
        arbitrary()
    }

    closed spec fn spec_le(self, rhs: Self) -> bool {
        arbitrary()
    }

    /// Numeric equality, which need not be equality of representations.
    closed spec fn spec_same(self, rhs: Self) -> bool {
        arbitrary()
    }

    closed spec fn spec_round(self) -> Self {
        arbitrary()
    }

    closed spec fn spec_floor(self) -> Self {
        arbitrary()
    }

    closed spec fn spec_ceil(self) -> Self {
        arbitrary()
    }

    /// Whether this is an ordinary number (no infinity and no invalid value).
    closed spec fn spec_is_finite(self) -> bool {
        arbitrary()
    }

    /// The integer next to the number towards zero, within the range of the result.
    closed spec fn spec_to_i32(self) -> i32 {
        arbitrary()
    }

    fn of_int(value: i64) -> (r: Self)
        ensures
            r == Self::spec_of_int(value as int),
    ;

    fn of_usize(value: usize) -> (r: Self)
        ensures
            r == Self::spec_of_int(value as int),
    ;

    fn largest() -> (r: Self)
        ensures
            r == Self::spec_largest(),
    ;

    fn smallest() -> (r: Self)
        ensures
            r == Self::spec_smallest(),
    ;

    fn add(self, rhs: Self) -> (r: Self)
        ensures
            r == self.spec_add(rhs),
    ;

    fn sub(self, rhs: Self) -> (r: Self)
        ensures
            r == self.spec_sub(rhs),
    ;

    fn mul(self, rhs: Self) -> (r: Self)
        ensures
            r == self.spec_mul(rhs),
    ;

    fn div(self, rhs: Self) -> (r: Self)
        ensures
            r == self.spec_div(rhs),
    ;

    fn neg(self) -> (r: Self)
        ensures
            r == self.spec_neg(),
    ;

    fn abs(self) -> (r: Self)
        ensures
            r == self.spec_abs(),
    ;

    fn min(self, rhs: Self) -> (r: Self)
        ensures
            r == self.spec_min(rhs),
    ;

    fn max(self, rhs: Self) -> (r: Self)
        ensures
            r == self.spec_max(rhs),
    ;

    fn lt(self, rhs: Self) -> (r: bool)
        ensures
            r == self.spec_lt(rhs),
    ;

    fn le(self, rhs: Self) -> (r: bool)
        ensures
            r == self.spec_le(rhs),
    ;

    fn same(self, rhs: Self) -> (r: bool)
        ensures
            r == self.spec_same(rhs),
    ;

    fn round(self) -> (r: Self)
        ensures
            r == self.spec_round(),
    ;

    fn floor(self) -> (r: Self)
        ensures
            r == self.spec_floor(),
    ;

    fn ceil(self) -> (r: Self)
        ensures
            r == self.spec_ceil(),
    ;

    fn is_finite(self) -> (r: bool)
        ensures
            r == self.spec_is_finite(),
    ;

    fn to_i32(self) -> (r: i32)
        ensures
            r == self.spec_to_i32(),
    ;
}

/// The number that stands for an integer.
pub open spec fn num<N: Scalar>(value: int) -> N {
    N::spec_of_int(value)
}

/// `value` kept between `lo` and `hi`, where `lo` is not above `hi`.
pub open spec fn clamped<N: Scalar>(value: N, lo: N, hi: N) -> N {
    if value < lo {
        lo
    } else if hi < value {
        hi
    } else {
        value
    }
}

/// Keeps `value` between `lo` and `hi`.
pub fn clamp<N: Scalar>(value: N, lo: N, hi: N) -> (r: N)
    ensures
        r == clamped(value, lo, hi),
{
    if value.lt(lo) {
        lo
    } else if hi.lt(value) {
        hi
    } else {
        value
    }
}

/// A logical value moved to the nearest physical pixel.
pub open spec fn rounded_in_physical<N: Scalar>(scale: N, logical: N) -> N {
    (logical * scale).spec_round().spec_div(scale)
}

/// Moves a logical value to the nearest physical pixel.
pub fn round_logical_in_physical<N: Scalar>(scale: N, logical: N) -> (r: N)
    ensures
        r == rounded_in_physical(scale, logical),
{
    logical.mul(scale).round().div(scale)
}

/// A logical value moved up to a physical pixel.
pub open spec fn raised_in_physical<N: Scalar>(scale: N, logical: N) -> N {
    (logical * scale).spec_ceil().spec_div(scale)
}

/// Moves a logical value up to a physical pixel.
pub fn ceil_logical_in_physical<N: Scalar>(scale: N, logical: N) -> (r: N)
    ensures
        r == raised_in_physical(scale, logical),
{
    logical.mul(scale).ceil().div(scale)
}

/// Whether the comparisons of a number type agree with each other and form a total order.
pub open spec fn ordered<N: Scalar>() -> bool {
    &&& forall|a: N, b: N| #[trigger] a.spec_le(b) || b.spec_le(a)
    &&& forall|a: N, b: N, c: N| #[trigger] a.spec_le(b) && #[trigger] b.spec_le(c) ==> a.spec_le(c)
    &&& forall|a: N, b: N| #[trigger] a.spec_lt(b) <==> !b.spec_le(a)
}

/// Whole logical pixels. Results outside the range of the type stop at its ends.
#[derive(Clone, Copy, PartialEq, Eq, Structural, Debug)]
pub struct Pixels {
    pub value: i64,
}

/// The integer of the range of [`Pixels`] that is nearest to `value`.
pub open spec fn saturated(value: int) -> i64 {
    if value < i64::MIN {
        i64::MIN
    } else if value > i64::MAX {
        i64::MAX
    } else {
        value as i64
    }
}

/// The largest integer whose product with `b` is at most `a`, for positive `b`.
pub open spec fn divided(a: int, b: int) -> int {
    if b == 0 {
        0
    } else if b < 0 {
        (-a) / (-b)
    } else {
        a / b
    }
}

fn saturate(value: i128) -> (r: Pixels)
    ensures
        r.value == saturated(value as int),
{
    if value < i64::MIN as i128 {
        Pixels { value: i64::MIN }
    } else if value > i64::MAX as i128 {
        Pixels { value: i64::MAX }
    } else {
        Pixels { value: value as i64 }
    }
}

impl Scalar for Pixels {
    open spec fn spec_of_int(value: int) -> Self {
        Pixels { value: saturated(value) }
    }

    open spec fn spec_largest() -> Self {
        Pixels { value: i64::MAX }
    }

    open spec fn spec_smallest() -> Self {
        Pixels { value: i64::MIN }
    }

    open spec fn spec_add(self, rhs: Self) -> Self {
        Pixels { value: saturated(self.value + rhs.value) }
    }

    open spec fn spec_sub(self, rhs: Self) -> Self {
        Pixels { value: saturated(self.value - rhs.value) }
    }

    open spec fn spec_mul(self, rhs: Self) -> Self {
        Pixels { value: saturated(self.value * rhs.value) }
    }

    open spec fn spec_div(self, rhs: Self) -> Self {
        Pixels { value: saturated(divided(self.value as int, rhs.value as int)) }
    }

    open spec fn spec_neg(self) -> Self {
        Pixels { value: saturated(-self.value) }
    }

    open spec fn spec_abs(self) -> Self {
        if self.value < 0 {
            self.spec_neg()
        } else {
            self
        }
    }

    open spec fn spec_min(self, rhs: Self) -> Self {
        if rhs.value < self.value {
            rhs
        } else {
            self
        }
    }

    open spec fn spec_max(self, rhs: Self) -> Self {
        if self.value < rhs.value {
            rhs
        } else {
            self
        }
    }

    open spec fn spec_lt(self, rhs: Self) -> bool {
        self.value < rhs.value
    }

    open spec fn spec_le(self, rhs: Self) -> bool {
        self.value <= rhs.value
    }

    open spec fn spec_same(self, rhs: Self) -> bool {
        self.value == rhs.value
    }

    open spec fn spec_round(self) -> Self {
        self
    }

    open spec fn spec_floor(self) -> Self {
        self
    }

    open spec fn spec_ceil(self) -> Self {
        self
    }

    open spec fn spec_is_finite(self) -> bool {
        true
    }

    open spec fn spec_to_i32(self) -> i32 {
        if self.value < i32::MIN {
            i32::MIN
        } else if self.value > i32::MAX {
            i32::MAX
        } else {
            self.value as i32
        }
    }

    fn of_int(value: i64) -> (r: Self) {
        Pixels { value }
    }

    fn of_usize(value: usize) -> (r: Self) {
        saturate(value as i128)
    }

    fn largest() -> (r: Self) {
        Pixels { value: i64::MAX }
    }

    fn smallest() -> (r: Self) {
        Pixels { value: i64::MIN }
    }

    fn add(self, rhs: Self) -> (r: Self) {
        saturate(self.value as i128 + rhs.value as i128)
    }

    fn sub(self, rhs: Self) -> (r: Self) {
        saturate(self.value as i128 - rhs.value as i128)
    }

    fn mul(self, rhs: Self) -> (r: Self) {
        let a: i128 = self.value as i128;
        let b: i128 = rhs.value as i128;
        proof {
            lemma_product_fits(self.value, rhs.value);
        }
        saturate(a * b)
    }

    fn div(self, rhs: Self) -> (r: Self) {
        if rhs.value == 0 {
            return Pixels { value: 0 };
        }
        let (a, b): (i128, i128) = if rhs.value < 0 {
            (-(self.value as i128), -(rhs.value as i128))
        } else {
            (self.value as i128, rhs.value as i128)
        };
        saturate(floor_div(a, b))
    }

    fn neg(self) -> (r: Self) {
        saturate(-(self.value as i128))
    }

    fn abs(self) -> (r: Self) {
        if self.value < 0 {
            saturate(-(self.value as i128))
        } else {
            self
        }
    }

    fn min(self, rhs: Self) -> (r: Self) {
        if rhs.value < self.value {
            rhs
        } else {
            self
        }
    }

    fn max(self, rhs: Self) -> (r: Self) {
        if self.value < rhs.value {
            rhs
        } else {
            self
        }
    }

    fn lt(self, rhs: Self) -> (r: bool) {
        self.value < rhs.value
    }

    fn le(self, rhs: Self) -> (r: bool) {
        self.value <= rhs.value
    }

    fn same(self, rhs: Self) -> (r: bool) {
        self.value == rhs.value
    }

    fn round(self) -> (r: Self) {
        self
    }

    fn floor(self) -> (r: Self) {
        self
    }

    fn ceil(self) -> (r: Self) {
        self
    }

    fn is_finite(self) -> (r: bool) {
        true
    }

    fn to_i32(self) -> (r: i32) {
        if self.value < i32::MIN as i64 {
            i32::MIN
        } else if self.value > i32::MAX as i64 {
            i32::MAX
        } else {
            self.value as i32
        }
    }
}

/// Division that rounds towards negative infinity.
fn floor_div(a: i128, b: i128) -> (r: i128)
    requires
        0 < b <= 0x1_0000_0000_0000_0000,
        -0x1_0000_0000_0000_0000 <= a <= 0x1_0000_0000_0000_0000,
    ensures
        r == a as int / b as int,
{
    if a >= 0 {
        a / b
    } else {
        let q: i128 = (-a - 1) / b;
        proof {
            let n: int = -a - 1;
            assert(a as int / b as int == -(n / b as int) - 1) by (nonlinear_arith)
                requires
                    n == -a - 1,
                    n >= 0,
                    b > 0,
            ;
        }
        -q - 1
    }
}

proof fn lemma_product_fits(a: i64, b: i64)
    ensures
        i128::MIN <= a * b <= i128::MAX,
{
    assert(i128::MIN <= a * b <= i128::MAX) by (nonlinear_arith)
        requires
            i64::MIN <= a <= i64::MAX,
            i64::MIN <= b <= i64::MAX,
    ;
}

/// Whole pixels are totally ordered.
pub proof fn law_pixels_are_ordered()
    ensures
        ordered::<Pixels>(),
{
}

} // verus!
