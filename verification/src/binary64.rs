//! IEEE 754 binary64 numbers, held by their bit patterns.
//!
//! A finite binary64 number is a whole multiple of the smallest subnormal,
//! `2^-1074`. This module calls that step a *quantum* and models a number by
//! the count of quanta in it, which is an integer: comparisons and roundings
//! are then statements of integer arithmetic.

use vstd::arithmetic::power2::{
    lemma2_to64_rest, lemma_pow2_adds, lemma_pow2_pos, lemma_pow2_strictly_increases, pow2,
};
use vstd::prelude::*;

verus! {

/// The bit pattern of the sign bit.
pub const SIGN_MASK: u64 = 0x8000_0000_0000_0000;

/// The bit pattern of positive infinity. A larger magnitude is a NaN.
pub const INFINITY_BITS: u64 = 0x7FF0_0000_0000_0000;

/// Two to the power 52: the weight of the lowest bit of the exponent field,
/// and the implicit leading bit of a normal number's significand.
pub const HIDDEN_BIT: u64 = 0x10_0000_0000_0000;

/// The power of two that a quantum is the reciprocal of.
pub open spec fn quantum_exponent() -> nat {
    1074
}

/// The number of quanta in the magnitude whose bit pattern, without the sign
/// bit, is `magnitude_bits`.
///
/// With exponent field `e` and fraction `f`, a subnormal number (`e == 0`)
/// holds `f` quanta and a normal number `(2^52 + f) * 2^(e - 1)`. The same
/// formula gives an infinity `2^2098` quanta, more than any finite number.
pub open spec fn quanta(magnitude_bits: nat) -> nat {
    let e: nat = magnitude_bits / (HIDDEN_BIT as nat);
    let f: nat = magnitude_bits % (HIDDEN_BIT as nat);
    if e == 0 {
        f
    } else {
        ((HIDDEN_BIT + f) * pow2((e - 1) as nat)) as nat
    }
}

/// An IEEE 754 binary64 number, held by its bit pattern.
#[derive(Clone, Copy, Debug, PartialEq, Eq, Structural)]
pub struct Binary64 {
    pub bits: u64,
}

impl Binary64 {
    /// Whether the sign bit is set. It may be set on a zero and on a NaN.
    pub open spec fn spec_is_sign_negative(self) -> bool {
        self.bits >= SIGN_MASK
    }

    /// The bit pattern without the sign bit.
    pub open spec fn magnitude_bits(self) -> u64 {
        if self.bits >= SIGN_MASK {
            (self.bits - SIGN_MASK) as u64
        } else {
            self.bits
        }
    }

    /// The eleven bits of the exponent field.
    pub open spec fn exponent_field(self) -> nat {
        (self.magnitude_bits() / HIDDEN_BIT) as nat
    }

    /// The fifty-two bits of the fraction field.
    pub open spec fn fraction_field(self) -> nat {
        (self.magnitude_bits() % HIDDEN_BIT) as nat
    }

    /// Whether this is a NaN.
    pub open spec fn spec_is_nan(self) -> bool {
        self.magnitude_bits() > INFINITY_BITS
    }

    /// Whether this is positive or negative infinity.
    pub open spec fn spec_is_infinite(self) -> bool {
        self.magnitude_bits() == INFINITY_BITS
    }

    /// Whether this is a zero, a subnormal or a normal number.
    pub open spec fn spec_is_finite(self) -> bool {
        self.magnitude_bits() < INFINITY_BITS
    }

    /// The absolute value, in quanta. An infinity counts as `2^2098` quanta.
    pub open spec fn magnitude(self) -> nat {
        quanta(self.magnitude_bits() as nat)
    }

    /// The value, in quanta: the magnitude with the sign. Both zeros are 0.
    pub open spec fn value(self) -> int {
        if self.is_sign_negative() {
            -(self.magnitude() as int)
        } else {
            self.magnitude() as int
        }
    }

    /// The IEEE 754 comparison `self >= other`: false if either is a NaN,
    /// else the order of the values, in which the two zeros are equal.
    pub open spec fn ge_spec(self, other: Binary64) -> bool {
        !self.is_nan() && !other.is_nan() && self.value() >= other.value()
    }

    /// Whether this number is at least the ratio `num / den`, for a positive
    /// `den`. No NaN is; positive infinity is, negative infinity is not.
    pub open spec fn at_least(self, num: int, den: int) -> bool {
        !self.is_nan() && if self.is_infinite() {
            !self.is_sign_negative()
        } else {
            self.value() * den >= num * pow2(quantum_exponent())
        }
    }

    /// Whether this number is less than the ratio `num / den`, for a positive
    /// `den`. No NaN is; negative infinity is, positive infinity is not.
    pub open spec fn below(self, num: int, den: int) -> bool {
        !self.is_nan() && if self.is_infinite() {
            self.is_sign_negative()
        } else {
            self.value() * den < num * pow2(quantum_exponent())
        }
    }

    /// The number with the given bit pattern.
    pub fn from_bits(bits: u64) -> (number: Binary64)
        ensures
            number.bits == bits,
    {
        Binary64 { bits }
    }

    /// The bit pattern of this number.
    pub fn to_bits(self) -> (bits: u64)
        ensures
            bits == self.bits,
    {
        self.bits
    }

    /// Whether the sign bit is set.
    #[verifier::when_used_as_spec(spec_is_sign_negative)]
    pub fn is_sign_negative(self) -> (negative: bool)
        ensures
            negative == self.is_sign_negative(),
    {
        self.bits >= SIGN_MASK
    }

    /// The bit pattern without the sign bit.
    pub fn abs_bits(self) -> (magnitude: u64)
        ensures
            magnitude == self.magnitude_bits(),
            magnitude < SIGN_MASK,
    {
        if self.bits >= SIGN_MASK {
            self.bits - SIGN_MASK
        } else {
            self.bits
        }
    }

    /// Whether this is a NaN.
    #[verifier::when_used_as_spec(spec_is_nan)]
    pub fn is_nan(self) -> (nan: bool)
        ensures
            nan == self.is_nan(),
    {
        self.abs_bits() > INFINITY_BITS
    }

    /// Whether this is positive or negative infinity.
    #[verifier::when_used_as_spec(spec_is_infinite)]
    pub fn is_infinite(self) -> (infinite: bool)
        ensures
            infinite == self.is_infinite(),
    {
        self.abs_bits() == INFINITY_BITS
    }

    /// Whether this is a zero, a subnormal or a normal number.
    #[verifier::when_used_as_spec(spec_is_finite)]
    pub fn is_finite(self) -> (finite: bool)
        ensures
            finite == self.is_finite(),
    {
        self.abs_bits() < INFINITY_BITS
    }

    /// The IEEE 754 comparison `self >= other`.
    pub fn ge(self, other: Binary64) -> (holds: bool)
        ensures
            holds == self.ge_spec(other),
    {
        if self.is_nan() || other.is_nan() {
            return false;
        }
        let a: u64 = self.abs_bits();
        let b: u64 = other.abs_bits();
        proof {
            lemma_quanta_order(a as nat, b as nat);
            lemma_quanta_order(b as nat, a as nat);
            lemma_quanta_order(0, a as nat);
            lemma_quanta_order(0, b as nat);
        }
        if self.is_sign_negative() {
            if other.is_sign_negative() {
                a <= b
            } else {
                a == 0 && b == 0
            }
        } else {
            if other.is_sign_negative() {
                true
            } else {
                a >= b
            }
        }
    }
}

/// The quanta of a magnitude lie between the powers of two that its exponent
/// field names: below `2^52` for a subnormal, and in
/// `[2^(51 + e), 2^(52 + e))` for exponent field `e >= 1`.
pub proof fn lemma_quanta_bounds(magnitude_bits: nat)
    ensures
        magnitude_bits / (HIDDEN_BIT as nat) == 0 ==> quanta(magnitude_bits) == magnitude_bits,
        magnitude_bits / (HIDDEN_BIT as nat) >= 1 ==> pow2(
            51 + magnitude_bits / (HIDDEN_BIT as nat),
        ) <= quanta(magnitude_bits) < pow2(52 + magnitude_bits / (HIDDEN_BIT as nat)),
{
    let e: nat = magnitude_bits / (HIDDEN_BIT as nat);
    let f: nat = magnitude_bits % (HIDDEN_BIT as nat);
    if e >= 1 {
        let p: nat = pow2((e - 1) as nat);
        lemma2_to64_rest();
        lemma_pow2_pos((e - 1) as nat);
        lemma_pow2_adds(52, (e - 1) as nat);
        lemma_pow2_adds(53, (e - 1) as nat);
        assert(pow2(52) * p <= (HIDDEN_BIT + f) * p) by (nonlinear_arith)
            requires
                pow2(52) <= HIDDEN_BIT + f,
                p > 0,
        ;
        assert((HIDDEN_BIT + f) * p < pow2(53) * p) by (nonlinear_arith)
            requires
                HIDDEN_BIT + f < pow2(53),
                p > 0,
        ;
    }
}

/// The quanta grow strictly with the bit pattern of the magnitude.
pub proof fn lemma_quanta_strictly_increasing(smaller: nat, larger: nat)
    requires
        smaller < larger,
    ensures
        quanta(smaller) < quanta(larger),
{
    let ea: nat = smaller / (HIDDEN_BIT as nat);
    let fa: nat = smaller % (HIDDEN_BIT as nat);
    let eb: nat = larger / (HIDDEN_BIT as nat);
    let fb: nat = larger % (HIDDEN_BIT as nat);
    lemma_quanta_bounds(smaller);
    lemma_quanta_bounds(larger);
    lemma2_to64_rest();
    if ea == eb {
        if ea >= 1 {
            let p: nat = pow2((ea - 1) as nat);
            lemma_pow2_pos((ea - 1) as nat);
            assert((HIDDEN_BIT + fa) * p < (HIDDEN_BIT + fb) * p) by (nonlinear_arith)
                requires
                    fa < fb,
                    p > 0,
            ;
        }
    } else {
        assert(ea < eb);
        if ea == 0 {
            if 51 + eb > 52 {
                lemma_pow2_strictly_increases(52, 51 + eb);
            }
        } else {
            if 52 + ea < 51 + eb {
                lemma_pow2_strictly_increases(52 + ea, 51 + eb);
            }
        }
    }
}

/// Two magnitudes are ordered as their bit patterns are.
pub proof fn lemma_quanta_order(a: nat, b: nat)
    ensures
        a <= b <==> quanta(a) <= quanta(b),
        a == b <==> quanta(a) == quanta(b),
{
    if a < b {
        lemma_quanta_strictly_increasing(a, b);
    }
    if b < a {
        lemma_quanta_strictly_increasing(b, a);
    }
}

/// Comparing with the least number that reaches a ratio decides whether a
/// number reaches the ratio.
///
/// Let `threshold` be positive and finite, and the least such number that is
/// at least `num / den`: it reaches the ratio, and the number just below it
/// does not. Then `x >= threshold` holds exactly of the numbers `x` that are at
/// least `num / den`.
pub proof fn lemma_ge_decides_ratio(x: Binary64, threshold: Binary64, num: int, den: int)
    requires
        den > 0,
        0 < threshold.bits < INFINITY_BITS,
        quanta(threshold.bits as nat) * den >= num * pow2(quantum_exponent()),
        quanta((threshold.bits - 1) as nat) * den < num * pow2(quantum_exponent()),
    ensures
        x.ge_spec(threshold) <==> x.at_least(num, den),
{
    let unit = pow2(quantum_exponent()) as int;
    let t = quanta(threshold.bits as nat) as int;
    let t_before = quanta((threshold.bits - 1) as nat) as int;
    let m = x.magnitude() as int;
    lemma_quanta_order(0, (threshold.bits - 1) as nat);
    lemma_quanta_strictly_increasing((threshold.bits - 1) as nat, threshold.bits as nat);
    assert(num * unit > 0) by (nonlinear_arith)
        requires
            t_before * den < num * unit,
            t_before >= 0,
            den > 0,
    ;
    if !x.is_nan() {
        lemma_quanta_order(x.magnitude_bits() as nat, threshold.bits as nat);
        if x.is_sign_negative() {
            assert((-m) * den <= 0) by (nonlinear_arith)
                requires
                    m >= 0,
                    den > 0,
            ;
        } else if x.magnitude_bits() >= threshold.bits {
            assert(m * den >= t * den) by (nonlinear_arith)
                requires
                    m >= t,
                    den > 0,
            ;
        } else {
            lemma_quanta_order(x.magnitude_bits() as nat, (threshold.bits - 1) as nat);
            assert(m * den <= t_before * den) by (nonlinear_arith)
                requires
                    m <= t_before,
                    den > 0,
            ;
        }
    }
}

/// A number that is not a NaN is below a ratio exactly if it does not reach
/// it.
pub proof fn lemma_below_or_at_least(x: Binary64, num: int, den: int)
    ensures
        x.is_nan() ==> !x.at_least(num, den) && !x.below(num, den),
        !x.is_nan() ==> (x.below(num, den) <==> !x.at_least(num, den)),
{
}

} // verus!
