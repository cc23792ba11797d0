//! Binary64 measurements as bit patterns: their numeric value, comparison and
//! total order.

pub mod laws;

use vstd::arithmetic::power2::{
    lemma_pow2_pos, lemma_pow2_strictly_increases, lemma_pow2_unfold, pow2,
};
use vstd::prelude::*;

verus! {

/// An IEEE 754 binary64 number, held as its bit pattern.
#[derive(Clone, Copy, Debug, PartialEq, Eq, Structural)]
pub struct Scalar {
    pub bits: u64,
}

/// The bit patterns from here on have the sign bit set.
pub const SIGN: u64 = 0x8000_0000_0000_0000;

/// The magnitude bits of infinity; a larger magnitude is not a number.
pub const INFINITE: u64 = 0x7ff0_0000_0000_0000;

/// The number of bit patterns that share one exponent.
pub const FRACTIONS: u64 = 0x0010_0000_0000_0000;

/// The value of a finite magnitude in units of the smallest positive number.
pub open spec fn magnitude_value(magnitude: int) -> int {
    let exponent = magnitude / FRACTIONS as int;
    let fraction = magnitude % FRACTIONS as int;
    if exponent == 0 {
        fraction
    } else {
        (FRACTIONS + fraction) * pow2((exponent - 1) as nat)
    }
}

impl Scalar {
    pub open spec fn negative(self) -> bool {
        self.bits >= SIGN
    }

    /// The bits without the sign.
    pub open spec fn magnitude(self) -> int {
        if self.negative() {
            self.bits - SIGN
        } else {
            self.bits as int
        }
    }

    pub open spec fn is_nan_view(self) -> bool {
        self.magnitude() > INFINITE
    }

    pub open spec fn is_finite_view(self) -> bool {
        self.magnitude() < INFINITE
    }

    /// The numeric value of a finite number, in units of the smallest positive one.
    pub open spec fn value(self) -> int {
        if self.negative() {
            -magnitude_value(self.magnitude())
        } else {
            magnitude_value(self.magnitude())
        }
    }

    /// A number that orders all values that are not NaN as comparison does; both
    /// zeros share one.
    pub open spec fn level(self) -> int {
        if self.negative() {
            -self.magnitude()
        } else {
            self.magnitude()
        }
    }

    /// The place in the total order of all bit patterns.
    pub open spec fn place(self) -> int {
        if self.negative() {
            -1 - self.magnitude()
        } else {
            self.magnitude()
        }
    }

    /// Numeric `<`, false when either side is NaN.
    pub open spec fn less(self, other: Self) -> bool {
        !self.is_nan_view() && !other.is_nan_view() && self.level() < other.level()
    }

    /// Numeric `<=`, false when either side is NaN.
    pub open spec fn at_most(self, other: Self) -> bool {
        !self.is_nan_view() && !other.is_nan_view() && self.level() <= other.level()
    }

    /// The smaller of two numbers; NaN yields to the other side.
    pub open spec fn smaller(self, other: Self) -> Self {
        if self.is_nan_view() || other.less(self) {
            other
        } else {
            self
        }
    }

    /// The larger of two numbers; NaN yields to the other side.
    pub open spec fn larger(self, other: Self) -> Self {
        if self.is_nan_view() || self.less(other) {
            other
        } else {
            self
        }
    }

    pub fn is_nan(self) -> (nan: bool)
        ensures
            nan == self.is_nan_view(),
    {
        self.magnitude_bits() > INFINITE
    }

    pub fn is_finite(self) -> (finite: bool)
        ensures
            finite == self.is_finite_view(),
    {
        self.magnitude_bits() < INFINITE
    }

    fn magnitude_bits(self) -> (magnitude: u64)
        ensures
            magnitude == self.magnitude(),
    {
        if self.bits >= SIGN {
            self.bits - SIGN
        } else {
            self.bits
        }
    }

    /// The place in the total order of all bit patterns.
    pub fn key(self) -> (key: i64)
        ensures
            key == self.place(),
    {
        if self.bits >= SIGN {
            -1 - ((self.bits - SIGN) as i64)
        } else {
            self.bits as i64
        }
    }

    fn level_of(self) -> (level: i64)
        ensures
            level == self.level(),
    {
        if self.bits >= SIGN {
            -((self.bits - SIGN) as i64)
        } else {
            self.bits as i64
        }
    }

    /// Numeric `<`.
    pub fn is_below(self, other: Self) -> (below: bool)
        ensures
            below == self.less(other),
    {
        !self.is_nan() && !other.is_nan() && self.level_of() < other.level_of()
    }

    /// Numeric `<=`.
    pub fn is_at_most(self, other: Self) -> (at_most: bool)
        ensures
            at_most == self.at_most(other),
    {
        !self.is_nan() && !other.is_nan() && self.level_of() <= other.level_of()
    }

    /// The larger of two numbers; NaN yields to the other side.
    pub fn max(self, other: Self) -> (greatest: Self)
        ensures
            greatest == self.larger(other),
    {
        if self.is_nan() || self.is_below(other) {
            other
        } else {
            self
        }
    }

    /// The smaller of two numbers; NaN yields to the other side.
    pub fn min(self, other: Self) -> (least: Self)
        ensures
            least == self.smaller(other),
    {
        if self.is_nan() || other.is_below(self) {
            other
        } else {
            self
        }
    }
}

pub fn zero() -> (scalar: Scalar)
    ensures
        scalar.value() == 0,
        scalar.level() == 0,
        scalar.is_finite_view(),
{
    Scalar { bits: 0 }
}

pub fn one() -> (scalar: Scalar)
    ensures
        scalar.value() == pow2(1074),
        scalar.is_finite_view(),
        scalar.bits == 0x3ff0_0000_0000_0000,
{
    proof {
        lemma_one();
    }
    Scalar { bits: 0x3ff0_0000_0000_0000 }
}

pub fn twenty_one() -> (scalar: Scalar)
    ensures
        scalar.value() == 21 * pow2(1074),
        scalar.is_finite_view(),
        scalar.bits == 0x4035_0000_0000_0000,
{
    proof {
        lemma_twenty_one();
    }
    Scalar { bits: 0x4035_0000_0000_0000 }
}

/// The bit pattern of the number one.
pub proof fn lemma_one()
    ensures
        (Scalar { bits: 0x3ff0_0000_0000_0000 }).value() == pow2(1074),
{
    lemma_scaled_power(1022);
}

/// The bit pattern of the number twenty-one.
pub proof fn lemma_twenty_one()
    ensures
        (Scalar { bits: 0x4035_0000_0000_0000 }).value() == 21 * pow2(1074),
{
    // 21 is 1.3125 times 16.
    lemma_scaled_power(1022);
    let base = pow2(1022);
    lemma_pow2_unfold(1026);
    lemma_pow2_unfold(1025);
    lemma_pow2_unfold(1024);
    lemma_pow2_unfold(1023);
    assert(pow2(1026) == 16 * base);
    assert(0x4035_0000_0000_0000int / 0x0010_0000_0000_0000 == 1027);
    assert((FRACTIONS + 0x0005_0000_0000_0000int) * (16 * base) == 21 * (FRACTIONS * base))
        by (nonlinear_arith)
        requires
            FRACTIONS == 0x0010_0000_0000_0000,
    ;
}

proof fn lemma_scaled_power(exponent: nat)
    ensures
        FRACTIONS * pow2(exponent) == pow2(exponent + 52),
{
    vstd::arithmetic::power2::lemma_pow2_adds(52, exponent);
    vstd::arithmetic::power2::lemma2_to64_rest();
    assert(FRACTIONS == pow2(52));
}

proof fn lemma_magnitude_increases(low: int, high: int)
    requires
        0 <= low < high < INFINITE,
    ensures
        magnitude_value(low) < magnitude_value(high),
{
    let unit = FRACTIONS as int;
    let low_exponent = low / unit;
    let high_exponent = high / unit;
    let low_fraction = low % unit;
    let high_fraction = high % unit;
    assert(low_exponent <= high_exponent);
    if low_exponent == high_exponent {
        assert(low_fraction < high_fraction);
        if low_exponent > 0 {
            let scale = pow2((low_exponent - 1) as nat) as int;
            lemma_pow2_pos((low_exponent - 1) as nat);
            assert((unit + low_fraction) * scale < (unit + high_fraction) * scale)
                by (nonlinear_arith)
                requires
                    low_fraction < high_fraction,
                    scale > 0,
            ;
        }
    } else {
        let high_scale = pow2((high_exponent - 1) as nat) as int;
        lemma_pow2_pos((high_exponent - 1) as nat);
        assert(unit * high_scale <= (unit + high_fraction) * high_scale) by (nonlinear_arith)
            requires
                0 <= high_fraction,
                high_scale > 0,
        ;
        if low_exponent == 0 {
            assert(unit <= unit * high_scale) by (nonlinear_arith)
                requires
                    unit > 0,
                    high_scale >= 1,
            ;
        } else {
            let low_scale = pow2((low_exponent - 1) as nat) as int;
            lemma_pow2_pos((low_exponent - 1) as nat);
            lemma_pow2_unfold(low_exponent as nat);
            if high_exponent - 1 > low_exponent {
                lemma_pow2_strictly_increases(low_exponent as nat, (high_exponent - 1) as nat);
            }
            assert(2 * low_scale <= high_scale);
            assert((unit + low_fraction) * low_scale < unit * high_scale) by (nonlinear_arith)
                requires
                    0 <= low_fraction < unit,
                    low_scale > 0,
                    2 * low_scale <= high_scale,
            ;
        }
    }
}

proof fn lemma_magnitude_nonnegative(magnitude: int)
    requires
        0 <= magnitude < INFINITE,
    ensures
        magnitude_value(magnitude) >= 0,
        magnitude > 0 ==> magnitude_value(magnitude) > 0,
{
    if magnitude > 0 {
        lemma_magnitude_increases(0, magnitude);
    }
}

/// Comparison of finite numbers compares their numeric values.
pub proof fn lemma_comparison_is_numeric(left: Scalar, right: Scalar)
    requires
        left.is_finite_view(),
        right.is_finite_view(),
    ensures
        left.less(right) == (left.value() < right.value()),
        left.at_most(right) == (left.value() <= right.value()),
{
    lemma_magnitude_nonnegative(left.magnitude());
    lemma_magnitude_nonnegative(right.magnitude());
    if left.magnitude() < right.magnitude() {
        lemma_magnitude_increases(left.magnitude(), right.magnitude());
    }
    if right.magnitude() < left.magnitude() {
        lemma_magnitude_increases(right.magnitude(), left.magnitude());
    }
}

/// The total order refines numeric comparison and tells all bit patterns apart.
pub proof fn lemma_total_order_refines(left: Scalar, right: Scalar)
    ensures
        left.less(right) ==> left.place() < right.place(),
        left.place() == right.place() <==> left == right,
{
}

} // verus!
