//! Doubles by their bit patterns.
//!
//! Sign, magnitude and ordering are read off the bits by verified integer
//! code. The rounded operations are done by the `softfloat` crate, a software
//! implementation of IEEE 754 on bit patterns; each enters the contracts under
//! a name of its own, so that a contract can say which operations were
//! applied to what, in which order.

use vstd::prelude::*;

verus! {

/// The sign bit of a double.
pub const SIGN_BIT: u64 = 0x8000_0000_0000_0000;

/// The bit pattern of positive infinity; every larger magnitude is a NaN.
pub const INFINITY_BITS: u64 = 0x7FF0_0000_0000_0000;

/// The bit pattern of `1.0`.
pub const ONE_BITS: u64 = 0x3FF0_0000_0000_0000;

/// The bit pattern of `2.0`.
pub const TWO_BITS: u64 = 0x4000_0000_0000_0000;

/// The bit pattern of `1e-10`, below which a pivot counts as zero.
pub const PIVOT_TOLERANCE_BITS: u64 = 0x3DDB_7CDF_D9D7_BDBB;

/// The bit pattern of the machine epsilon, `2^-52`.
pub const EPSILON_BITS: u64 = 0x3CB0_0000_0000_0000;

/// The bits of the rounded sum of the doubles with bits `a` and `b`.
pub uninterp spec fn double_sum(a: u64, b: u64) -> u64;

/// The bits of the rounded difference of the doubles with bits `a` and `b`.
pub uninterp spec fn double_difference(a: u64, b: u64) -> u64;

/// The bits of the rounded product of the doubles with bits `a` and `b`.
pub uninterp spec fn double_product(a: u64, b: u64) -> u64;

/// The bits of the rounded quotient of the doubles with bits `a` and `b`.
pub uninterp spec fn double_quotient(a: u64, b: u64) -> u64;

/// The bits of the rounded square root of the double with bits `a`.
pub uninterp spec fn double_square_root(a: u64) -> u64;

/// An IEEE 754 binary64 value, held by its bit pattern.
#[derive(Clone, Copy, Debug)]
pub struct Double {
    pub bits: u64,
}

impl PartialEq for Double {
    /// Equality as doubles compare: `-0.0` equals `+0.0`, and a NaN equals
    /// nothing, not even itself.
    fn eq(&self, other: &Double) -> (r: bool) {
        self.same(*other)
    }
}

impl vstd::std_specs::cmp::PartialEqSpecImpl for Double {
    open spec fn obeys_eq_spec() -> bool {
        true
    }

    open spec fn eq_spec(&self, other: &Double) -> bool {
        self.spec_same(*other)
    }
}

impl Double {
    /// Positive zero.
    pub open spec fn spec_zero() -> Double {
        Double { bits: 0 }
    }

    /// The value `1.0`.
    pub open spec fn spec_one() -> Double {
        Double { bits: ONE_BITS }
    }

    /// The value `2.0`.
    pub open spec fn spec_two() -> Double {
        Double { bits: TWO_BITS }
    }

    /// Positive infinity.
    pub open spec fn spec_infinity() -> Double {
        Double { bits: INFINITY_BITS }
    }

    /// The threshold `1e-10` under which a pivot or a norm counts as zero.
    pub open spec fn spec_pivot_tolerance() -> Double {
        Double { bits: PIVOT_TOLERANCE_BITS }
    }

    /// The machine epsilon `2^-52`.
    pub open spec fn spec_epsilon() -> Double {
        Double { bits: EPSILON_BITS }
    }

    /// The bits without the sign.
    pub open spec fn magnitude(self) -> u64 {
        if self.bits >= SIGN_BIT {
            (self.bits - SIGN_BIT) as u64
        } else {
            self.bits
        }
    }

    /// Whether the sign bit is set (true of `-0.0` and of some NaNs too).
    pub open spec fn sign(self) -> bool {
        self.bits >= SIGN_BIT
    }

    /// Whether the value is a NaN: its magnitude lies over that of infinity.
    pub open spec fn spec_is_nan(self) -> bool {
        self.magnitude() > INFINITY_BITS
    }

    /// Whether the value is `+0.0` or `-0.0`.
    pub open spec fn is_zero(self) -> bool {
        self.magnitude() == 0
    }

    /// Neither infinite nor a NaN.
    pub open spec fn is_finite(self) -> bool {
        self.magnitude() < INFINITY_BITS
    }

    /// An integer that orders the values that are not NaN as the doubles
    /// themselves are ordered; both zeros have rank 0.
    pub open spec fn rank(self) -> int {
        if self.sign() {
            -(self.magnitude() as int)
        } else {
            self.magnitude() as int
        }
    }

    /// `self < other`: neither is a NaN, and the ranks are in that order.
    pub open spec fn spec_lt(self, other: Double) -> bool {
        !self.spec_is_nan() && !other.spec_is_nan() && self.rank() < other.rank()
    }

    /// `self <= other`: neither is a NaN, and the ranks are in that order.
    pub open spec fn spec_le(self, other: Double) -> bool {
        !self.spec_is_nan() && !other.spec_is_nan() && self.rank() <= other.rank()
    }

    /// `self > other`.
    pub open spec fn spec_gt(self, other: Double) -> bool {
        other.spec_lt(self)
    }

    /// `self >= other`.
    pub open spec fn spec_ge(self, other: Double) -> bool {
        other.spec_le(self)
    }

    /// Equality of values: `-0.0` equals `+0.0`, and a NaN equals nothing.
    pub open spec fn spec_same(self, other: Double) -> bool {
        !self.spec_is_nan() && !other.spec_is_nan() && self.rank() == other.rank()
    }

    /// The absolute value: the same bits with the sign cleared.
    pub open spec fn spec_abs(self) -> Double {
        Double { bits: self.magnitude() }
    }

    /// The negation: the same bits with the sign flipped.
    pub open spec fn spec_neg(self) -> Double {
        Double {
            bits: if self.bits >= SIGN_BIT {
                (self.bits - SIGN_BIT) as u64
            } else {
                (self.bits + SIGN_BIT) as u64
            },
        }
    }

    /// `self` where it lies between the bounds, else the bound it passed;
    /// a NaN is replaced by `low`.
    pub open spec fn spec_clamp(self, low: Double, high: Double) -> Double {
        if !self.spec_ge(low) {
            low
        } else if !self.spec_le(high) {
            high
        } else {
            self
        }
    }

    /// The smaller of the two; `other` where they do not compare.
    pub open spec fn spec_smaller(self, other: Double) -> Double {
        if self.spec_lt(other) {
            self
        } else {
            other
        }
    }

    /// Whether two entries count as equal: both are below the machine
    /// epsilon in magnitude, or they differ by no more than it.
    pub open spec fn spec_close(self, other: Double) -> bool {
        (self.spec_abs().spec_lt(Double::spec_epsilon()) && other.spec_abs().spec_lt(
            Double::spec_epsilon(),
        )) || self.difference(other).spec_abs().spec_le(Double::spec_epsilon())
    }

    /// The rounded sum `self + rhs`.
    pub open spec fn sum(self, rhs: Double) -> Double {
        Double { bits: double_sum(self.bits, rhs.bits) }
    }

    /// The rounded difference `self - rhs`.
    pub open spec fn difference(self, rhs: Double) -> Double {
        Double { bits: double_difference(self.bits, rhs.bits) }
    }

    /// The rounded product `self * rhs`.
    pub open spec fn product(self, rhs: Double) -> Double {
        Double { bits: double_product(self.bits, rhs.bits) }
    }

    /// The rounded quotient `self / rhs`.
    pub open spec fn quotient(self, rhs: Double) -> Double {
        Double { bits: double_quotient(self.bits, rhs.bits) }
    }

    /// The rounded square root of `self`.
    pub open spec fn square_root(self) -> Double {
        Double { bits: double_square_root(self.bits) }
    }

    /// A clamped value lies between the bounds, where the bounds are in
    /// order.
    pub proof fn lemma_clamp_in_range(self, low: Double, high: Double)
        requires
            low.spec_le(high),
        ensures
            low.spec_le(self.spec_clamp(low, high)),
            self.spec_clamp(low, high).spec_le(high),
    {
    }

    /// The double with the given bit pattern.
    pub fn from_bits(bits: u64) -> (r: Double)
        ensures
            r.bits == bits,
    {
        Double { bits }
    }

    /// The bit pattern of the double.
    pub fn to_bits(self) -> (r: u64)
        ensures
            r == self.bits,
    {
        self.bits
    }

    /// Positive zero.
    #[verifier::when_used_as_spec(spec_zero)]
    pub fn zero() -> (r: Double)
        ensures
            r == Double::spec_zero(),
    {
        Double { bits: 0 }
    }

    /// The value `1.0`.
    #[verifier::when_used_as_spec(spec_one)]
    pub fn one() -> (r: Double)
        ensures
            r == Double::spec_one(),
    {
        Double { bits: ONE_BITS }
    }

    /// The value `2.0`.
    #[verifier::when_used_as_spec(spec_two)]
    pub fn two() -> (r: Double)
        ensures
            r == Double::spec_two(),
    {
        Double { bits: TWO_BITS }
    }

    /// Positive infinity.
    #[verifier::when_used_as_spec(spec_infinity)]
    pub fn infinity() -> (r: Double)
        ensures
            r == Double::spec_infinity(),
    {
        Double { bits: INFINITY_BITS }
    }

    /// The threshold `1e-10` under which a pivot or a norm counts as zero.
    #[verifier::when_used_as_spec(spec_pivot_tolerance)]
    pub fn pivot_tolerance() -> (r: Double)
        ensures
            r == Double::spec_pivot_tolerance(),
    {
        Double { bits: PIVOT_TOLERANCE_BITS }
    }

    /// The machine epsilon `2^-52`.
    #[verifier::when_used_as_spec(spec_epsilon)]
    pub fn epsilon() -> (r: Double)
        ensures
            r == Double::spec_epsilon(),
    {
        Double { bits: EPSILON_BITS }
    }

    /// The bits without the sign.
    fn magnitude_bits(self) -> (r: u64)
        ensures
            r == self.magnitude(),
    {
        if self.bits >= SIGN_BIT {
            self.bits - SIGN_BIT
        } else {
            self.bits
        }
    }

    /// Whether the value is a NaN.
    #[verifier::when_used_as_spec(spec_is_nan)]
    pub fn is_nan(self) -> (r: bool)
        ensures
            r == self.spec_is_nan(),
    {
        self.magnitude_bits() > INFINITY_BITS
    }

    /// The absolute value: the same bits with the sign cleared.
    #[verifier::when_used_as_spec(spec_abs)]
    pub fn abs(self) -> (r: Double)
        ensures
            r == self.spec_abs(),
    {
        Double { bits: self.magnitude_bits() }
    }

    /// The negation: the same bits with the sign flipped.
    #[verifier::when_used_as_spec(spec_neg)]
    pub fn neg(self) -> (r: Double)
        ensures
            r == self.spec_neg(),
    {
        if self.bits >= SIGN_BIT {
            Double { bits: self.bits - SIGN_BIT }
        } else {
            Double { bits: self.bits + SIGN_BIT }
        }
    }

    /// `self < other` as doubles compare.
    #[verifier::when_used_as_spec(spec_lt)]
    pub fn lt(self, other: Double) -> (r: bool)
        ensures
            r == self.spec_lt(other),
    {
        if self.is_nan() || other.is_nan() {
            return false;
        }
        let a: u64 = self.magnitude_bits();
        let b: u64 = other.magnitude_bits();
        if self.bits >= SIGN_BIT {
            if other.bits >= SIGN_BIT {
                a > b
            } else {
                a > 0 || b > 0
            }
        } else {
            if other.bits >= SIGN_BIT {
                false
            } else {
                a < b
            }
        }
    }

    /// `self <= other` as doubles compare.
    #[verifier::when_used_as_spec(spec_le)]
    pub fn le(self, other: Double) -> (r: bool)
        ensures
            r == self.spec_le(other),
    {
        if self.is_nan() || other.is_nan() {
            return false;
        }
        let a: u64 = self.magnitude_bits();
        let b: u64 = other.magnitude_bits();
        if self.bits >= SIGN_BIT {
            if other.bits >= SIGN_BIT {
                a >= b
            } else {
                true
            }
        } else {
            if other.bits >= SIGN_BIT {
                a == 0 && b == 0
            } else {
                a <= b
            }
        }
    }

    /// `self > other` as doubles compare.
    #[verifier::when_used_as_spec(spec_gt)]
    pub fn gt(self, other: Double) -> (r: bool)
        ensures
            r == self.spec_gt(other),
    {
        other.lt(self)
    }

    /// `self >= other` as doubles compare.
    #[verifier::when_used_as_spec(spec_ge)]
    pub fn ge(self, other: Double) -> (r: bool)
        ensures
            r == self.spec_ge(other),
    {
        other.le(self)
    }

    /// `self == other` as doubles compare.
    #[verifier::when_used_as_spec(spec_same)]
    pub fn same(self, other: Double) -> (r: bool)
        ensures
            r == self.spec_same(other),
    {
        if self.is_nan() || other.is_nan() {
            return false;
        }
        let a: u64 = self.magnitude_bits();
        let b: u64 = other.magnitude_bits();
        if a == 0 && b == 0 {
            true
        } else {
            self.bits == other.bits
        }
    }

    /// Brings `self` into `[low, high]`; a NaN becomes `low`.
    #[verifier::when_used_as_spec(spec_clamp)]
    pub fn clamp(self, low: Double, high: Double) -> (r: Double)
        ensures
            r == self.spec_clamp(low, high),
    {
        if !self.ge(low) {
            low
        } else if !self.le(high) {
            high
        } else {
            self
        }
    }

    /// The smaller of the two; `other` where they do not compare.
    #[verifier::when_used_as_spec(spec_smaller)]
    pub fn smaller(self, other: Double) -> (r: Double)
        ensures
            r == self.spec_smaller(other),
    {
        if self.lt(other) {
            self
        } else {
            other
        }
    }

    /// Whether two entries count as equal: both are below the machine
    /// epsilon in magnitude, or they differ by no more than it.
    #[verifier::when_used_as_spec(spec_close)]
    pub fn close(self, other: Double) -> (r: bool)
        ensures
            r == self.spec_close(other),
    {
        let eps = Double::epsilon();
        if self.abs().lt(eps) && other.abs().lt(eps) {
            true
        } else {
            self.minus(other).abs().le(eps)
        }
    }

    /// `softfloat::F64::add` on the two bit patterns: the sum, rounded to
    /// nearest. The contract only names the result.
    #[verifier::external_body]
    pub(crate) fn plus(self, rhs: Double) -> (r: Double)
        ensures
            r.bits == double_sum(self.bits, rhs.bits),
    {
        Double {
            bits: softfloat::F64::from_bits(self.bits).add(softfloat::F64::from_bits(rhs.bits)).to_bits(),
        }
    }

    /// `softfloat::F64::sub` on the two bit patterns: the difference, rounded
    /// to nearest. The contract names the result, and states one case that
    /// `softfloat` decides before it rounds anything ("anything + zero =
    /// anything"): taking off `+0.0` leaves every value that is not a NaN as
    /// it is.
    #[verifier::external_body]
    pub(crate) fn minus(self, rhs: Double) -> (r: Double)
        ensures
            r.bits == double_difference(self.bits, rhs.bits),
            rhs.bits == 0 && !self.spec_is_nan() ==> r.bits == self.bits,
    {
        Double {
            bits: softfloat::F64::from_bits(self.bits).sub(softfloat::F64::from_bits(rhs.bits)).to_bits(),
        }
    }

    /// `softfloat::F64::mul` on the two bit patterns: the product, rounded to
    /// nearest. The contract names the result, and states two cases: a zero
    /// times a finite value is a zero whose sign is set where the signs
    /// differ (in `softfloat`: "zero * anything = +/- zero"), and `1.0` times
    /// `1.0` is `1.0`.
    #[verifier::external_body]
    pub(crate) fn times(self, rhs: Double) -> (r: Double)
        ensures
            r.bits == double_product(self.bits, rhs.bits),
            self.is_zero() && rhs.is_finite() ==> r.is_zero() && r.sign() == (self.sign()
                != rhs.sign()),
            self.bits == ONE_BITS && rhs.bits == ONE_BITS ==> r.bits == ONE_BITS,
    {
        Double {
            bits: softfloat::F64::from_bits(self.bits).mul(softfloat::F64::from_bits(rhs.bits)).to_bits(),
        }
    }

    /// `softfloat::F64::div` on the two bit patterns: the quotient, rounded
    /// to nearest. The contract names the result, and states one case: a
    /// zero over a value that is neither zero nor a NaN is a zero whose sign
    /// is set where the signs differ (in `softfloat`: "zero / anything else
    /// = +/- zero", and the same for an infinite divisor).
    #[verifier::external_body]
    pub(crate) fn over(self, rhs: Double) -> (r: Double)
        ensures
            r.bits == double_quotient(self.bits, rhs.bits),
            self.is_zero() && !rhs.is_zero() && !rhs.spec_is_nan() ==> r.is_zero() && r.sign() == (
            self.sign() != rhs.sign()),
    {
        Double {
            bits: softfloat::F64::from_bits(self.bits).div(softfloat::F64::from_bits(rhs.bits)).to_bits(),
        }
    }

    /// `softfloat::F64::sqrt` on the bit pattern: the square root, rounded to
    /// nearest. The contract only names the result.
    #[verifier::external_body]
    pub(crate) fn sqrt(self) -> (r: Double)
        ensures
            r.bits == double_square_root(self.bits),
    {
        Double { bits: softfloat::F64::from_bits(self.bits).sqrt().to_bits() }
    }
}

} // verus!
