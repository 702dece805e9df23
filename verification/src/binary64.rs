//! IEEE 754 double-precision numbers, held by their bit patterns.
//!
//! A pattern has a sign bit, eleven exponent bits and fifty-two fraction
//! bits. Every finite double is a whole multiple of two to the power -1074,
//! the smallest step between doubles, so the value of a pattern can be stated
//! as an integer: the number of such steps. This module states that value and
//! proves that the patterns which are no NaN compare as their values do when
//! they are read as a sign and a 63-bit magnitude. Decisions on real-valued
//! settings are made on the patterns.
use vstd::arithmetic::power2::lemma_pow2_adds;
use vstd::arithmetic::power2::lemma_pow2_pos;
use vstd::arithmetic::power2::lemma_pow2_strictly_increases;
use vstd::arithmetic::power2::lemma_pow2_unfold;
use vstd::arithmetic::power2::pow2;
use vstd::prelude::*;

verus! {

/// The sign bit.
pub const SIGN_BIT: u64 = 0x8000_0000_0000_0000;

/// The pattern of positive infinity: the largest magnitude that is no NaN.
pub const INFINITY_BITS: u64 = 0x7FF0_0000_0000_0000;

/// The pattern of 1.0.
pub const ONE_BITS: u64 = 0x3FF0_0000_0000_0000;

/// Two to the power 52: the number of fraction patterns under one exponent.
pub const FRACTION_SPAN: u64 = 0x0010_0000_0000_0000;

/// The size of the number with the given magnitude, in steps of two to the
/// power -1074. With the exponent field 0 the fraction counts the steps;
/// with any other the fraction has a leading one before it, and each
/// exponent doubles the size. Infinity stands where the next exponent would
/// put it, above every finite number.
pub open spec fn steps(magnitude: int) -> int {
    let exponent = magnitude / (FRACTION_SPAN as int);
    let fraction = magnitude % (FRACTION_SPAN as int);
    if exponent <= 0 {
        fraction
    } else {
        (FRACTION_SPAN + fraction) * pow2((exponent - 1) as nat)
    }
}

/// A double-precision number, as its bit pattern.
#[derive(Clone, Copy, Debug, PartialEq, Eq, Structural)]
pub struct Binary64 {
    pub bits: u64,
}

impl Binary64 {
    /// The pattern without its sign bit.
    pub open spec fn magnitude(self) -> int {
        if self.bits >= SIGN_BIT {
            self.bits - SIGN_BIT
        } else {
            self.bits as int
        }
    }

    /// The sign bit is set.
    pub open spec fn sign(self) -> bool {
        self.bits >= SIGN_BIT
    }

    /// The pattern encodes no number.
    pub open spec fn nan(self) -> bool {
        self.magnitude() > INFINITY_BITS
    }

    /// The number, in steps of two to the power -1074.
    pub open spec fn value(self) -> int {
        if self.sign() {
            -steps(self.magnitude())
        } else {
            steps(self.magnitude())
        }
    }

    /// The pattern read as a sign and a magnitude. Two patterns compare by
    /// their ranks as the numbers compare by their values.
    pub open spec fn rank(self) -> int {
        if self.sign() {
            -self.magnitude()
        } else {
            self.magnitude()
        }
    }

    /// `self < other` as numbers; false where either is a NaN.
    pub open spec fn lt_spec(self, other: Binary64) -> bool {
        !self.nan() && !other.nan() && self.value() < other.value()
    }

    /// `self <= other` as numbers; false where either is a NaN.
    pub open spec fn le_spec(self, other: Binary64) -> bool {
        !self.nan() && !other.nan() && self.value() <= other.value()
    }

    /// `self == other` as numbers: false where either is a NaN, true of the
    /// two zeros.
    pub open spec fn same_number(self, other: Binary64) -> bool {
        !self.nan() && !other.nan() && self.value() == other.value()
    }

    /// The number lies in the closed interval from 0 to 1.
    pub open spec fn unit_spec(self) -> bool {
        !self.nan() && 0 <= self.value() <= steps(ONE_BITS as int)
    }

    /// The number is below zero.
    pub open spec fn below_zero_spec(self) -> bool {
        !self.nan() && self.value() < 0
    }

    /// The number with the given bit pattern.
    pub fn from_bits(bits: u64) -> (number: Binary64)
        ensures
            number.bits == bits,
    {
        Binary64 { bits }
    }

    /// The bit pattern.
    pub fn to_bits(&self) -> (bits: u64)
        ensures
            bits == self.bits,
    {
        self.bits
    }

    /// Positive zero.
    pub fn zero() -> (number: Binary64)
        ensures
            number.bits == 0,
            number.value() == 0,
            !number.nan(),
    {
        Binary64 { bits: 0 }
    }

    /// Whether the sign bit is set.
    pub fn is_sign_negative(&self) -> (negative: bool)
        ensures
            negative == self.sign(),
    {
        self.bits >= SIGN_BIT
    }

    /// Whether the pattern is a NaN.
    pub fn is_nan(&self) -> (nan: bool)
        ensures
            nan == self.nan(),
    {
        self.magnitude_bits() > INFINITY_BITS
    }

    /// The pattern without its sign bit.
    pub fn magnitude_bits(&self) -> (magnitude: u64)
        ensures
            magnitude == self.magnitude(),
            magnitude < SIGN_BIT,
    {
        if self.bits >= SIGN_BIT {
            self.bits - SIGN_BIT
        } else {
            self.bits
        }
    }

    /// Whether `self < other` as numbers.
    pub fn lt(&self, other: &Binary64) -> (less: bool)
        ensures
            less == self.lt_spec(*other),
    {
        if self.is_nan() || other.is_nan() {
            return false;
        }
        proof {
            lemma_rank_orders_as_value(*self, *other);
        }
        let a: u64 = self.magnitude_bits();
        let b: u64 = other.magnitude_bits();
        if self.is_sign_negative() {
            if other.is_sign_negative() {
                b < a
            } else {
                a > 0 || b > 0
            }
        } else {
            if other.is_sign_negative() {
                false
            } else {
                a < b
            }
        }
    }

    /// Whether `self <= other` as numbers.
    pub fn le(&self, other: &Binary64) -> (at_most: bool)
        ensures
            at_most == self.le_spec(*other),
    {
        if self.is_nan() || other.is_nan() {
            return false;
        }
        !other.lt(self)
    }

    /// Whether the number lies in the closed interval from 0 to 1.
    pub fn in_unit_interval(&self) -> (inside: bool)
        ensures
            inside == self.unit_spec(),
    {
        proof {
            lemma_rank_orders_as_value(*self, Binary64 { bits: 0 });
            lemma_rank_orders_as_value(*self, Binary64 { bits: ONE_BITS });
        }
        let magnitude: u64 = self.magnitude_bits();
        if self.is_sign_negative() {
            magnitude == 0
        } else {
            magnitude <= ONE_BITS
        }
    }

    /// Whether the number is below zero.
    pub fn is_below_zero(&self) -> (below: bool)
        ensures
            below == self.below_zero_spec(),
    {
        proof {
            lemma_rank_orders_as_value(*self, Binary64 { bits: 0 });
        }
        let magnitude: u64 = self.magnitude_bits();
        self.is_sign_negative() && 0 < magnitude && magnitude <= INFINITY_BITS
    }
}

/// A larger magnitude is a larger number.
pub proof fn lemma_steps_increase(smaller: int, larger: int)
    requires
        0 <= smaller < larger,
    ensures
        0 <= steps(smaller) < steps(larger),
{
    let span = FRACTION_SPAN as int;
    let e1 = smaller / span;
    let f1 = smaller % span;
    let e2 = larger / span;
    let f2 = larger % span;
    assert(e1 <= e2);
    if e1 == e2 {
        assert(f1 < f2);
        if e1 > 0 {
            let scale = pow2((e1 - 1) as nat) as int;
            lemma_pow2_pos((e1 - 1) as nat);
            assert((span + f1) * scale < (span + f2) * scale) by (nonlinear_arith)
                requires
                    f1 < f2,
                    scale > 0,
            ;
            assert(0 <= (span + f1) * scale) by (nonlinear_arith)
                requires
                    0 <= f1,
                    span > 0,
                    scale > 0,
            ;
        }
    } else {
        // Below the next exponent lies a whole span at the scale of this one.
        let ceiling = span * pow2(e1 as nat);
        if e1 == 0 {
            assert(pow2(0) == 1) by {
                lemma_pow2_unfold(1);
                vstd::arithmetic::power2::lemma2_to64();
            }
            assert(steps(smaller) < ceiling);
        } else {
            let scale = pow2((e1 - 1) as nat) as int;
            lemma_pow2_pos((e1 - 1) as nat);
            lemma_pow2_unfold(e1 as nat);
            assert(pow2(e1 as nat) == 2 * scale);
            assert((span + f1) * scale < span * (2 * scale)) by (nonlinear_arith)
                requires
                    0 <= f1 < span,
                    scale > 0,
            ;
            assert(0 <= (span + f1) * scale) by (nonlinear_arith)
                requires
                    0 <= f1,
                    span > 0,
                    scale > 0,
            ;
        }
        let above = pow2((e2 - 1) as nat) as int;
        if e1 < e2 - 1 {
            lemma_pow2_strictly_increases(e1 as nat, (e2 - 1) as nat);
        }
        assert(pow2(e1 as nat) <= above);
        assert(span * pow2(e1 as nat) <= (span + f2) * above) by (nonlinear_arith)
            requires
                0 <= f2,
                span > 0,
                0 <= pow2(e1 as nat) <= above,
        ;
    }
}

/// Patterns compare by their ranks as the numbers compare by their values.
pub proof fn lemma_rank_orders_as_value(a: Binary64, b: Binary64)
    ensures
        a.rank() < b.rank() <==> a.value() < b.value(),
        a.rank() == b.rank() <==> a.value() == b.value(),
{
    let m = a.magnitude();
    let n = b.magnitude();
    assert(steps(0) == 0);
    if m < n {
        lemma_steps_increase(m, n);
    }
    if n < m {
        lemma_steps_increase(n, m);
    }
    if 0 < m {
        lemma_steps_increase(0, m);
    }
    if 0 < n {
        lemma_steps_increase(0, n);
    }
}

/// The numbers from 0 to 1 are the patterns from positive zero to that of
/// 1.0, and negative zero; the numbers below zero are the patterns from
/// above negative zero to negative infinity.
pub proof fn lemma_ranges_by_rank(a: Binary64)
    ensures
        a.unit_spec() <==> !a.nan() && 0 <= a.rank() <= ONE_BITS,
        a.below_zero_spec() <==> !a.nan() && a.rank() < 0,
{
    lemma_rank_orders_as_value(a, Binary64 { bits: 0 });
    lemma_rank_orders_as_value(a, Binary64 { bits: ONE_BITS });
}

/// The pattern of 1.0 stands for two to the power 1074 steps, and a pattern
/// with no fraction bits for a power of two.
pub proof fn lemma_power_of_two(exponent: nat)
    requires
        1 <= exponent <= 2047,
    ensures
        steps(exponent * FRACTION_SPAN) == pow2(exponent + 51),
        steps(ONE_BITS as int) == pow2(1074),
{
    vstd::arithmetic::power2::lemma2_to64_rest();
    assert(pow2(52) == FRACTION_SPAN);
    let span = FRACTION_SPAN as int;
    assert((exponent * span) / span == exponent && (exponent * span) % span == 0) by (nonlinear_arith)
        requires
            span > 0,
            exponent >= 0,
    ;
    lemma_pow2_adds(52, (exponent - 1) as nat);
    assert(ONE_BITS == 1023 * span);
    assert((1023 * span) / span == 1023 && (1023 * span) % span == 0);
    lemma_pow2_adds(52, 1022);
}

/// Among numbers, `<` is irreflexive and transitive, and of two different
/// numbers one is below the other.
pub proof fn lemma_lt_is_strict_total_order(a: Binary64, b: Binary64, c: Binary64)
    ensures
        !a.lt_spec(a),
        a.lt_spec(b) && b.lt_spec(c) ==> a.lt_spec(c),
        !a.nan() && !b.nan() ==> a.lt_spec(b) || b.lt_spec(a) || a.same_number(b),
        a.le_spec(b) <==> a.lt_spec(b) || a.same_number(b),
{
}

/// A NaN is below nothing, above nothing and equal to nothing, itself
/// included.
pub proof fn lemma_nan_is_unordered(a: Binary64, b: Binary64)
    requires
        a.nan(),
    ensures
        !a.lt_spec(b),
        !b.lt_spec(a),
        !a.le_spec(b),
        !b.le_spec(a),
        !a.same_number(b),
        !a.unit_spec(),
{
}

/// The two zeros are one number; apart from them, two patterns that are no
/// NaN are one number only where they are one pattern.
pub proof fn lemma_same_number(a: Binary64, b: Binary64)
    requires
        !a.nan(),
        !b.nan(),
    ensures
        a.same_number(b) <==> a.bits == b.bits || (a.magnitude() == 0 && b.magnitude() == 0),
{
    lemma_rank_orders_as_value(a, b);
}

} // verus!
