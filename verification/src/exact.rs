//! Numbers read as real numbers.
//!
//! What an operation is for is often a relation between lengths, such as that two halves make up a
//! whole. Such a relation is stated here over the real numbers that the numbers of a layout stand
//! for, where each operation on numbers is the operation on the reals. A number type that rounds
//! keeps to it as far as its rounding goes.
use vstd::prelude::*;

use crate::geometry::{Point, Rectangle};
use crate::scalar::{num, Scalar};

verus! {

/// Whether numbers stand for real numbers, and calculating with them is calculating with these.
pub open spec fn exact<N: Scalar>(value: spec_fn(N) -> real) -> bool {
    &&& forall|i: int| #[trigger] value(num::<N>(i)) == i as real
    &&& forall|a: N, b: N| #[trigger] value(a.spec_add(b)) == value(a) + value(b)
    &&& forall|a: N, b: N| #[trigger] value(a.spec_sub(b)) == value(a) - value(b)
    &&& forall|a: N, b: N| #[trigger] value(a.spec_mul(b)) == value(a) * value(b)
    &&& forall|a: N, b: N|
        value(b) != 0 as real ==> #[trigger] value(a.spec_div(b)) == value(a) / value(b)
    &&& forall|a: N| #[trigger] value(a.spec_neg()) == -value(a)
    &&& forall|a: N|
        #[trigger] value(a.spec_abs()) == if value(a) < 0 as real {
            -value(a)
        } else {
            value(a)
        }
    &&& forall|a: N, b: N|
        #[trigger] value(a.spec_min(b)) == if value(b) < value(a) {
            value(b)
        } else {
            value(a)
        }
    &&& forall|a: N, b: N|
        #[trigger] value(a.spec_max(b)) == if value(a) < value(b) {
            value(b)
        } else {
            value(a)
        }
    &&& forall|a: N, b: N| #[trigger] a.spec_lt(b) <==> value(a) < value(b)
    &&& forall|a: N, b: N| #[trigger] a.spec_le(b) <==> value(a) <= value(b)
    &&& forall|a: N, b: N| #[trigger] a.spec_same(b) <==> value(a) == value(b)
}

/// Whether rounding and the integers next to a number are those of the real number.
pub open spec fn rounds<N: Scalar>(value: spec_fn(N) -> real) -> bool {
    &&& forall|a: N|
        {
            let rounded = #[trigger] a.spec_round();
            let whole = value(rounded).floor();
            &&& value(rounded) == whole as real
            &&& value(a) - value(rounded) <= 1 as real / 2 as real
            &&& value(rounded) - value(a) <= 1 as real / 2 as real
        }
    &&& forall|a: N|
        {
            let up = #[trigger] a.spec_ceil();
            &&& value(up) == value(up).floor() as real
            &&& value(a) <= value(up)
            &&& value(up) < value(a) + 1 as real
        }
    &&& forall|a: N|
        {
            let down = #[trigger] a.spec_floor();
            &&& value(down) == value(down).floor() as real
            &&& value(down) <= value(a)
            &&& value(a) < value(down) + 1 as real
        }
    &&& forall|a: N|
        {
            let whole = value(a).floor();
            value(a) == whole as real && i32::MIN <= whole <= i32::MAX ==> (
            #[trigger] a.spec_to_i32()) == whole
        }
}

/// Whether a point is in a rectangle, the edges included.
pub open spec fn covers<N>(value: spec_fn(N) -> real, rect: Rectangle<N>, pos: Point<N>) -> bool {
    &&& value(rect.loc.x) <= value(pos.x) <= value(rect.loc.x) + value(rect.size.w)
    &&& value(rect.loc.y) <= value(pos.y) <= value(rect.loc.y) + value(rect.size.h)
}

} // verus!
