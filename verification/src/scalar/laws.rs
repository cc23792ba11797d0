//! What holds of comparisons, minima and maxima of measurements.

use crate::scalar::{lemma_comparison_is_numeric, Scalar};
use vstd::prelude::*;

verus! {

/// The smaller of two numbers is one of them and not above the other; a measurement that
/// is not a number gives way.
pub proof fn lemma_smaller(one: Scalar, other: Scalar)
    ensures
        one.smaller(other) == one || one.smaller(other) == other,
        !one.is_nan_view() && !other.is_nan_view() ==> one.smaller(other).at_most(one)
            && one.smaller(other).at_most(other),
        one.is_nan_view() ==> one.smaller(other) == other,
        other.is_nan_view() && !one.is_nan_view() ==> one.smaller(other) == one,
{
}

/// The larger of two numbers is one of them and not below the other; a measurement that is
/// not a number gives way.
pub proof fn lemma_larger(one: Scalar, other: Scalar)
    ensures
        one.larger(other) == one || one.larger(other) == other,
        !one.is_nan_view() && !other.is_nan_view() ==> one.at_most(one.larger(other))
            && other.at_most(one.larger(other)),
        one.is_nan_view() ==> one.larger(other) == other,
        other.is_nan_view() && !one.is_nan_view() ==> one.larger(other) == one,
{
}

/// Of finite numbers the one with the lower value comes first in the total order, and
/// negative zero comes just before zero; what is not a number is below none and above none.
pub proof fn lemma_total_order_is_numeric(one: Scalar, other: Scalar)
    ensures
        one.is_finite_view() && other.is_finite_view() && one.value() < other.value()
            ==> one.place() < other.place(),
        one.is_nan_view() ==> !one.less(other) && !other.less(one) && !one.at_most(other)
            && !other.at_most(one),
        !one.is_nan_view() && !other.is_nan_view() ==> one.less(other) || other.at_most(one),
        one.less(other) ==> one.at_most(other) && !other.at_most(one),
        (Scalar { bits: 0x8000_0000_0000_0000 }).place() + 1 == (Scalar { bits: 0 }).place(),
{
    if one.is_finite_view() && other.is_finite_view() {
        lemma_comparison_is_numeric(one, other);
    }
}

} // verus!
