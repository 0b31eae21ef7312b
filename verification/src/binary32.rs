//! Single-precision numbers, held as the bits of their interchange format.
//!
//! The operations are the IEEE 754 ones with rounding to nearest, ties to even.
//! Each is specified by the exact result on the integers, counted in fine enough
//! units, and by what it means to round that result.
use crate::rounding::{power_of_two, round};
use vstd::arithmetic::div_mod::*;
use vstd::arithmetic::mul::*;
use vstd::arithmetic::power2::*;
use vstd::math::*;
use vstd::prelude::*;

verus! {

/// A single-precision number. Two numbers that are equal in bits are the same
/// number; the ordering of the standard is [`Binary32::at_most`].
#[derive(Clone, Copy, Debug, PartialEq, Eq, Structural)]
pub struct Binary32 {
    /// Sign, eight bits of biased exponent, twenty-three bits of fraction.
    pub bits: u32,
}

impl Binary32 {
    /// The sign bit is set.
    pub open spec fn is_negative(self) -> bool {
        self.bits >= 0x8000_0000
    }

    /// The bits below the sign.
    pub open spec fn pattern(self) -> nat {
        (self.bits % 0x8000_0000) as nat
    }

    /// Not a number.
    pub open spec fn is_nan(self) -> bool {
        self.pattern() > 0x7f80_0000
    }

    /// One of the two infinities.
    pub open spec fn is_infinite(self) -> bool {
        self.pattern() == 0x7f80_0000
    }

    /// The number without its sign, in units of `2^-149`.
    pub open spec fn magnitude(self) -> nat {
        crate::rounding::magnitude(self.pattern(), 23)
    }

    /// The number in units of `2^-149`. An infinity reads as plus or minus the
    /// power of two beyond the finite numbers, so that order is kept.
    pub open spec fn value(self) -> int {
        if self.is_negative() {
            -self.magnitude()
        } else {
            self.magnitude() as int
        }
    }

    /// The number with the given sign and pattern.
    pub open spec fn with_sign(negative: bool, pattern: nat) -> Binary32 {
        Binary32 {
            bits: if negative {
                (0x8000_0000 + pattern) as u32
            } else {
                pattern as u32
            },
        }
    }

    /// `exact`, in units of `2^-298`, rounded and given a sign.
    pub open spec fn rounded(negative: bool, exact: nat) -> Binary32 {
        Binary32::with_sign(
            negative,
            crate::rounding::nearest(exact, 149, 23, 255 * pow2(23)),
        )
    }

    /// The same number with the other sign.
    pub open spec fn negated(self) -> Binary32 {
        Binary32::with_sign(!self.is_negative(), self.pattern())
    }

    /// The rounded product.
    pub open spec fn product(self, other: Binary32) -> Binary32 {
        let negative = self.is_negative() != other.is_negative();
        if self.is_nan() || other.is_nan() {
            Binary32::nan()
        } else if self.is_infinite() || other.is_infinite() {
            if self.pattern() == 0 || other.pattern() == 0 {
                Binary32::nan()
            } else {
                Binary32::with_sign(negative, 0x7f80_0000)
            }
        } else {
            Binary32::rounded(negative, self.magnitude() * other.magnitude())
        }
    }

    /// The rounded sum. A sum of nothing but negative zeros is negative zero;
    /// any other sum that is exactly zero is positive zero.
    pub open spec fn sum(self, other: Binary32) -> Binary32 {
        let total = self.value() + other.value();
        if self.is_nan() || other.is_nan() {
            Binary32::nan()
        } else if self.is_infinite() {
            if other.is_infinite() && self.is_negative() != other.is_negative() {
                Binary32::nan()
            } else {
                self
            }
        } else if other.is_infinite() {
            other
        } else if total == 0 {
            Binary32::with_sign(self.is_negative() && other.is_negative(), 0)
        } else if total < 0 {
            Binary32::rounded(true, ((-total) * pow2(149)) as nat)
        } else {
            Binary32::rounded(false, (total * pow2(149)) as nat)
        }
    }

    /// The rounded difference.
    pub open spec fn difference(self, other: Binary32) -> Binary32 {
        self.sum(other.negated())
    }

    /// The ordering of the standard: no NaN is ordered with anything, and the
    /// two zeros are equal.
    pub open spec fn no_more_than(self, other: Binary32) -> bool {
        !self.is_nan() && !other.is_nan() && self.value() <= other.value()
    }

    /// Strictly above in the ordering of the standard.
    pub open spec fn more_than(self, other: Binary32) -> bool {
        !self.is_nan() && !other.is_nan() && self.value() > other.value()
    }

    /// Positive zero.
    #[verifier::allow_in_spec]
    pub fn zero() -> (zero: Binary32)
        returns
            (Binary32 { bits: 0 }),
    {
        Binary32 { bits: 0 }
    }

    /// The quiet NaN that an operation without a numeric result gives. The standard
    /// leaves open which NaN that is.
    #[verifier::allow_in_spec]
    pub fn nan() -> (nan: Binary32)
        returns
            (Binary32 { bits: 0x7fc0_0000 }),
    {
        Binary32 { bits: 0x7fc0_0000 }
    }

    /// `self * other`.
    pub fn times(self, other: Binary32) -> (result: Binary32)
        ensures
            result == self.product(other),
    {
        let a: u32 = self.bits % 0x8000_0000;
        let b: u32 = other.bits % 0x8000_0000;
        let negative: bool = (self.bits >= 0x8000_0000) != (other.bits >= 0x8000_0000);
        if a > 0x7f80_0000 || b > 0x7f80_0000 {
            return Binary32::nan();
        }
        if a == 0x7f80_0000 || b == 0x7f80_0000 {
            if a == 0 || b == 0 {
                return Binary32::nan();
            }
            return signed(negative, 0x7f80_0000);
        }
        let (left, left_scale): (u32, u32) = parts(a);
        let (right, right_scale): (u32, u32) = parts(b);
        proof {
            assert(left * right <= 0xff_ffff * 0xff_ffff) by (nonlinear_arith)
                requires
                    left <= 0xff_ffff,
                    right <= 0xff_ffff,
            ;
            lemma_pow2_adds(left_scale as nat, right_scale as nat);
            let x = pow2(left_scale as nat);
            let y = pow2(right_scale as nat);
            assert((left * x) * (right * y) == (left * right) * (x * y)) by (nonlinear_arith);
        }
        let pattern: u32 = pack(
            left as u64 * right as u64,
            left_scale + right_scale,
            false,
            Ghost(self.magnitude() * other.magnitude()),
        );
        signed(negative, pattern)
    }

    /// `self + other`.
    pub fn plus(self, other: Binary32) -> (result: Binary32)
        ensures
            result == self.sum(other),
    {
        let a: u32 = self.bits % 0x8000_0000;
        let b: u32 = other.bits % 0x8000_0000;
        let left: bool = self.bits >= 0x8000_0000;
        let right: bool = other.bits >= 0x8000_0000;
        if a > 0x7f80_0000 || b > 0x7f80_0000 {
            return Binary32::nan();
        }
        if a == 0x7f80_0000 {
            if b == 0x7f80_0000 && left != right {
                return Binary32::nan();
            }
            return self;
        }
        if b == 0x7f80_0000 {
            return other;
        }
        let (first, first_scale): (u32, u32) = parts(a);
        let (second, second_scale): (u32, u32) = parts(b);
        if first_scale >= second_scale {
            combined(left, first, first_scale, right, second, second_scale)
        } else {
            combined(right, second, second_scale, left, first, first_scale)
        }
    }

    /// `-self`.
    pub fn opposite(self) -> (result: Binary32)
        ensures
            result == self.negated(),
    {
        signed(self.bits < 0x8000_0000, self.bits % 0x8000_0000)
    }

    /// `self - other`.
    pub fn minus(self, other: Binary32) -> (result: Binary32)
        ensures
            result == self.difference(other),
    {
        self.plus(other.opposite())
    }

    /// `self <= other`.
    pub fn at_most(self, other: Binary32) -> (result: bool)
        ensures
            result == self.no_more_than(other),
    {
        let a: u32 = self.bits % 0x8000_0000;
        let b: u32 = other.bits % 0x8000_0000;
        if a > 0x7f80_0000 || b > 0x7f80_0000 {
            return false;
        }
        proof {
            lemma_pattern_order(a as nat, b as nat);
            lemma_pattern_order(b as nat, a as nat);
            lemma_pattern_order(a as nat, 0);
            lemma_pattern_order(b as nat, 0);
            lemma_zero_magnitude();
        }
        if self.bits >= 0x8000_0000 {
            if other.bits >= 0x8000_0000 {
                b <= a
            } else {
                true
            }
        } else if other.bits >= 0x8000_0000 {
            a == 0 && b == 0
        } else {
            a <= b
        }
    }

    /// `self > other`.
    pub fn exceeds(self, other: Binary32) -> (result: bool)
        ensures
            result == self.more_than(other),
    {
        other.at_most(self) && !self.at_most(other)
    }
}

/// The pattern of infinity is the exponent of all ones.
proof fn lemma_top()
    ensures
        255 * pow2(23) == 0x7f80_0000,
        pow2(23) == 0x80_0000,
        pow2(24) == 0x100_0000,
{
    lemma2_to64();
}

/// Significand and scale of a pattern.
pub(crate) fn parts(pattern: u32) -> (parts: (u32, u32))
    requires
        pattern <= 0x7f80_0000,
    ensures
        parts.0 * pow2(parts.1 as nat) == crate::rounding::magnitude(pattern as nat, 23),
        parts.0 < 0x100_0000,
        parts.1 <= 254,
        parts.1 > 0 ==> parts.0 >= 0x80_0000,
        pattern < 0x7f80_0000 ==> parts.1 <= 253,
        parts.0 == 0 <==> pattern == 0,
{
    let exponent: u32 = pattern / 0x80_0000;
    let fraction: u32 = pattern % 0x80_0000;
    proof {
        lemma_top();
        lemma2_to64();
        assert(exponent as nat == pattern as nat / pow2(23));
        assert(fraction as nat == pattern as nat % pow2(23));
        assert(fraction * pow2(0) == fraction);
    }
    if exponent == 0 {
        (fraction, 0)
    } else {
        (fraction + 0x80_0000, exponent - 1)
    }
}

/// Every finite pattern has a significand and a scale.
pub proof fn lemma_parts(pattern: nat) -> (parts: (nat, nat))
    requires
        pattern < 0x7f80_0000,
    ensures
        parts.0 * pow2(parts.1) == crate::rounding::magnitude(pattern, 23),
        parts.0 < 0x100_0000,
        parts.1 <= 253,
{
    lemma_top();
    lemma2_to64();
    let exponent = pattern / 0x80_0000;
    let fraction = pattern % 0x80_0000;
    assert(fraction * pow2(0) == fraction);
    if exponent == 0 {
        (fraction, 0)
    } else {
        (fraction + 0x80_0000, (exponent - 1) as nat)
    }
}

/// Rounds what `n`, `scale` and `inexact` tell of `exact`.
fn pack(n: u64, scale: u32, inexact: bool, Ghost(exact): Ghost<nat>) -> (pattern: u32)
    requires
        crate::rounding::truncates(n as nat, scale as nat, inexact, exact),
        inexact ==> n >= 0x100_0000,
        scale <= 2000,
    ensures
        pattern == crate::rounding::nearest(exact, 149, 23, 255 * pow2(23)),
        pattern <= 0x7f80_0000,
{
    proof {
        lemma_top();
    }
    round(n, scale, inexact, 149, 23, 255, Ghost(exact)) as u32
}

/// The number with a sign and a pattern.
fn signed(negative: bool, pattern: u32) -> (result: Binary32)
    requires
        pattern < 0x8000_0000,
    ensures
        result == Binary32::with_sign(negative, pattern as nat),
{
    if negative {
        Binary32 { bits: 0x8000_0000 + pattern }
    } else {
        Binary32 { bits: pattern }
    }
}

/// Patterns are ordered as the magnitudes that they stand for.
proof fn lemma_pattern_order(a: nat, b: nat)
    ensures
        a <= b <==> crate::rounding::magnitude(a, 23) <= crate::rounding::magnitude(b, 23),
{
    if a < b {
        crate::rounding::lemma_magnitude_increases(a, b, 23);
    } else if b < a {
        crate::rounding::lemma_magnitude_increases(b, a, 23);
    }
}

/// Zero stands for zero.
proof fn lemma_zero_magnitude()
    ensures
        crate::rounding::magnitude(0, 23) == 0,
{
    lemma_top();
}

/// What aligning two magnitudes does to them.
proof fn lemma_aligned(high: nat, high_scale: nat, low: nat, low_scale: nat)
    requires
        low_scale <= high_scale,
        low < 0x100_0000,
    ensures
        ({
            let unit = pow2(low_scale + 149);
            let coarse = pow2((high_scale + 136) as nat);
            let gap = (high_scale - low_scale) as nat;
            &&& high * pow2(high_scale) * pow2(149) == high * pow2(gap) * unit
            &&& high * pow2(high_scale) * pow2(149) == high * pow2(high_scale + 149)
            &&& high * pow2(high_scale) * pow2(149) == (high * 0x2000) * coarse
            &&& low * pow2(low_scale) * pow2(149) == low * unit
            &&& gap > 36 ==> low * pow2(low_scale) * pow2(149) < coarse
            &&& low > 0 ==> low * pow2(low_scale) * pow2(149) > 0
            &&& coarse > 0
            &&& unit > 0
            &&& pow2(high_scale + 149) > 0
        }),
{
    let unit = pow2(low_scale + 149);
    let coarse = pow2(high_scale + 136);
    let gap = (high_scale - low_scale) as nat;
    lemma_top();
    lemma_pow2_pos(low_scale + 149);
    lemma_pow2_pos(high_scale + 136);
    lemma_pow2_pos(high_scale + 149);
    lemma_pow2_adds(high_scale, 149);
    lemma_pow2_adds(low_scale, 149);
    lemma_pow2_adds(gap, low_scale + 149);
    lemma_pow2_adds(13, high_scale + 136);
    assert(pow2(13) == 0x2000) by {
        lemma2_to64();
    }
    lemma_mul_is_associative(high as int, pow2(high_scale) as int, pow2(149) as int);
    lemma_mul_is_associative(high as int, pow2(gap) as int, unit as int);
    lemma_mul_is_associative(high as int, 0x2000, coarse as int);
    lemma_mul_is_associative(low as int, pow2(low_scale) as int, pow2(149) as int);
    if gap > 36 {
        lemma_pow2_adds(24, low_scale + 149);
        lemma_mul_strict_inequality(low as int, pow2(24) as int, unit as int);
        if low_scale + 173 < high_scale + 136 {
            lemma_pow2_strictly_increases(low_scale + 173, high_scale + 136);
        }
    }
    if low > 0 {
        lemma_mul_strictly_positive(low as int, unit as int);
    }
}

/// Aligning by at most so many bits fits the significands into a word.
proof fn lemma_gap_bound(gap: nat)
    requires
        gap <= 36,
    ensures
        0 < pow2(gap) <= 0x10_0000_0000,
{
    lemma2_to64();
    lemma2_to64_rest();
    lemma_pow2_pos(gap);
    if gap < 36 {
        lemma_pow2_strictly_increases(gap, 36);
    }
}

/// A magnitude that is aligned to a lower scale.
fn aligned(high: u32, gap: u32) -> (aligned: u64)
    requires
        high < 0x100_0000,
        gap <= 36,
    ensures
        aligned == high * pow2(gap as nat),
        aligned <= 0xff_ffff * 0x10_0000_0000,
{
    let lift: u64 = power_of_two(gap) as u64;
    proof {
        lemma_gap_bound(gap as nat);
        assert(high * pow2(gap as nat) <= 0xff_ffff * 0x10_0000_0000) by (nonlinear_arith)
            requires
                high <= 0xff_ffff,
                pow2(gap as nat) <= 0x10_0000_0000,
        ;
    }
    high as u64 * lift
}

/// The pattern of the rounded sum of two magnitudes.
fn sum_of_magnitudes(high: u32, high_scale: u32, low: u32, low_scale: u32) -> (pattern: u32)
    requires
        high < 0x100_0000,
        low < 0x100_0000,
        low_scale <= high_scale <= 253,
        high_scale > 0 ==> high >= 0x80_0000,
    ensures
        pattern == crate::rounding::nearest(
            ((high * pow2(high_scale as nat) + low * pow2(low_scale as nat)) * pow2(149)) as nat,
            149,
            23,
            255 * pow2(23),
        ),
        pattern <= 0x7f80_0000,
{
    let gap: u32 = high_scale - low_scale;
    let ghost upper: int = high * pow2(high_scale as nat);
    let ghost lower: int = low * pow2(low_scale as nat);
    let ghost exact: int = (upper + lower) * pow2(149);
    proof {
        lemma_aligned(high as nat, high_scale as nat, low as nat, low_scale as nat);
        lemma_mul_is_distributive_add_other_way(pow2(149) as int, upper, lower);
    }
    if gap <= 36 {
        let n: u64 = aligned(high, gap) + low as u64;
        proof {
            lemma_mul_is_distributive_add_other_way(
                pow2((low_scale + 149) as nat) as int,
                high * pow2(gap as nat),
                low as int,
            );
        }
        pack(n, low_scale + 149, false, Ghost(exact as nat))
    } else if low == 0 {
        pack(high as u64, high_scale + 149, false, Ghost(exact as nat))
    } else {
        proof {
            lemma_mul_is_distributive_add_other_way(
                pow2((high_scale + 136) as nat) as int,
                (high * 0x2000) as int,
                1,
            );
        }
        pack(high as u64 * 0x2000, high_scale + 136, true, Ghost(exact as nat))
    }
}

/// The pattern of the rounded distance of two magnitudes, whether the first one
/// is the larger, and whether the second one is.
fn difference_of_magnitudes(high: u32, high_scale: u32, low: u32, low_scale: u32) -> (result: (
    u32,
    bool,
    bool,
))
    requires
        high < 0x100_0000,
        low < 0x100_0000,
        low_scale <= high_scale <= 253,
        high_scale > 0 ==> high >= 0x80_0000,
    ensures
        ({
            let upper = high * pow2(high_scale as nat);
            let lower = low * pow2(low_scale as nat);
            &&& result.1 <==> upper > lower
            &&& result.2 <==> upper < lower
            &&& result.0 == crate::rounding::nearest(
                (crate::rounding::distance(upper, lower) * pow2(149)) as nat,
                149,
                23,
                255 * pow2(23),
            )
        }),
        result.0 <= 0x7f80_0000,
{
    let gap: u32 = high_scale - low_scale;
    let ghost upper: int = high * pow2(high_scale as nat);
    let ghost lower: int = low * pow2(low_scale as nat);
    let ghost exact: int = crate::rounding::distance(upper, lower) * pow2(149);
    proof {
        lemma_aligned(high as nat, high_scale as nat, low as nat, low_scale as nat);
        lemma_pow2_pos(149);
        lemma_mul_is_distributive_sub_other_way(pow2(149) as int, upper, lower);
        lemma_mul_is_distributive_sub_other_way(pow2(149) as int, lower, upper);
        lemma_order_kept(upper, lower, pow2(149) as int);
    }
    if gap <= 36 {
        let lifted: u64 = aligned(high, gap);
        proof {
            let unit = pow2((low_scale + 149) as nat) as int;
            lemma_mul_is_distributive_sub_other_way(unit, lifted as int, low as int);
            lemma_mul_is_distributive_sub_other_way(unit, low as int, lifted as int);
            lemma_order_kept(lifted as int, low as int, unit);
        }
        if lifted >= low as u64 {
            let pattern: u32 = pack(
                lifted - low as u64,
                low_scale + 149,
                false,
                Ghost(exact as nat),
            );
            (pattern, lifted > low as u64, false)
        } else {
            let pattern: u32 = pack(
                low as u64 - lifted,
                low_scale + 149,
                false,
                Ghost(exact as nat),
            );
            (pattern, false, true)
        }
    } else if low == 0 {
        proof {
            lemma_mul_strictly_positive(high as int, pow2((high_scale + 149) as nat) as int);
        }
        (pack(high as u64, high_scale + 149, false, Ghost(exact as nat)), true, false)
    } else {
        let n: u64 = high as u64 * 0x2000 - 1;
        proof {
            let coarse = pow2((high_scale + 136) as nat) as int;
            lemma_mul_is_distributive_sub_other_way(coarse, (high * 0x2000) as int, 1);
            assert(coarse <= (high * 0x2000) * coarse) by (nonlinear_arith)
                requires
                    high >= 1,
                    coarse > 0,
            ;
        }
        (pack(n, high_scale + 136, true, Ghost(exact as nat)), true, false)
    }
}

/// The sum of two finite numbers that are given by their parts.
fn combined(
    left: bool,
    high: u32,
    high_scale: u32,
    right: bool,
    low: u32,
    low_scale: u32,
) -> (result: Binary32)
    requires
        high < 0x100_0000,
        low < 0x100_0000,
        low_scale <= high_scale <= 253,
        high_scale > 0 ==> high >= 0x80_0000,
    ensures
        ({
            let first = if left {
                -(high * pow2(high_scale as nat))
            } else {
                high * pow2(high_scale as nat)
            };
            let second = if right {
                -(low * pow2(low_scale as nat))
            } else {
                low * pow2(low_scale as nat)
            };
            let total = first + second;
            if total == 0 {
                result == Binary32::with_sign(left && right, 0)
            } else if total < 0 {
                result == Binary32::rounded(true, ((-total) * pow2(149)) as nat)
            } else {
                result == Binary32::rounded(false, (total * pow2(149)) as nat)
            }
        }),
{
    let ghost upper: int = high * pow2(high_scale as nat);
    let ghost lower: int = low * pow2(low_scale as nat);
    proof {
        lemma_pow2_pos(high_scale as nat);
        lemma_pow2_pos(low_scale as nat);
        assert(upper >= 0) by (nonlinear_arith)
            requires
                upper == high * pow2(high_scale as nat),
        ;
        assert(lower >= 0) by (nonlinear_arith)
            requires
                lower == low * pow2(low_scale as nat),
        ;
        lemma_zero_rounds();
    }
    if left == right {
        let pattern: u32 = sum_of_magnitudes(high, high_scale, low, low_scale);
        signed(left, pattern)
    } else {
        let (pattern, first, second): (u32, bool, bool) = difference_of_magnitudes(
            high,
            high_scale,
            low,
            low_scale,
        );
        if first {
            signed(left, pattern)
        } else if second {
            signed(right, pattern)
        } else {
            Binary32::zero()
        }
    }
}

/// Zero rounds to zero.
proof fn lemma_zero_rounds()
    ensures
        crate::rounding::nearest(0, 149, 23, 255 * pow2(23)) == 0,
{
    lemma_zero_magnitude();
    lemma_top();
    crate::rounding::lemma_nearest_exact(0, 149, 23, 255 * pow2(23));
    crate::rounding::lemma_nearest_is(0, 149, 0, 23, 255 * pow2(23));
}

/// Multiplying by a positive number keeps the order.
pub(crate) proof fn lemma_order_kept(a: int, b: int, unit: int)
    requires
        unit > 0,
    ensures
        a < b <==> a * unit < b * unit,
        a <= b <==> a * unit <= b * unit,
{
    assert(a < b <==> a * unit < b * unit) by (nonlinear_arith)
        requires
            unit > 0,
    ;
    assert(a <= b <==> a * unit <= b * unit) by (nonlinear_arith)
        requires
            unit > 0,
    ;
}

/// Zero is the only magnitude without a size.
pub proof fn lemma_zero_pattern(number: Binary32)
    ensures
        number.magnitude() == 0 <==> number.pattern() == 0,
        number.value() == 0 <==> number.pattern() == 0,
{
    lemma_zero_magnitude();
    if number.pattern() > 0 {
        crate::rounding::lemma_magnitude_increases(0, number.pattern(), 23);
    }
}

/// The square of a finite number is not negative, and it is zero exactly for
/// the numbers up to `2^-75` in magnitude.
pub proof fn law_square_vanishes(number: Binary32)
    requires
        !number.is_nan(),
        !number.is_infinite(),
    ensures
        !number.product(number).is_nan(),
        !number.product(number).is_negative(),
        number.product(number).value() >= 0,
        number.product(number).value() == 0 <==> number.magnitude() <= pow2(74),
{
    lemma_top();
    let exact = number.magnitude() * number.magnitude();
    let top = 255 * pow2(23);
    crate::rounding::lemma_nearest_exists(exact, 149, 23, top);
    crate::rounding::lemma_rounds_to_zero(exact, 149, 23, top);
    lemma_zero_pattern(number.product(number));
    lemma_pow2_adds(74, 74);
    lemma_pow2_unfold(149);
    let root = pow2(74);
    let size = number.magnitude();
    assert(size <= root <==> size * size <= root * root) by (nonlinear_arith)
        requires
            size >= 0,
            root >= 0,
    ;
}

/// A sum of two numbers that are not negative is above zero if and only if one
/// of them is.
pub proof fn law_sum_vanishes(a: Binary32, b: Binary32)
    requires
        !a.is_nan(),
        !b.is_nan(),
        !a.is_negative(),
        !b.is_negative(),
    ensures
        a.sum(b).more_than(Binary32::zero()) <==> a.value() > 0 || b.value() > 0,
{
    lemma_top();
    lemma_zero_pattern(a);
    lemma_zero_pattern(b);
    lemma_zero_pattern(a.sum(b));
    lemma_zero_pattern(Binary32::zero());
    if !a.is_infinite() && !b.is_infinite() {
        let total = (a.value() + b.value()) as nat;
        let exact = total * pow2(149);
        let top = 255 * pow2(23);
        crate::rounding::lemma_nearest_exists(exact, 149, 23, top);
        crate::rounding::lemma_rounds_to_zero(exact, 149, 23, top);
        lemma_pow2_pos(149);
        if total > 0 {
            assert(exact >= pow2(149)) by (nonlinear_arith)
                requires
                    exact == total * pow2(149),
                    total >= 1,
            ;
        }
    }
}

/// A product that is a number is not rounded.
pub proof fn law_exact_product(a: Binary32, b: Binary32, result: Binary32)
    requires
        !a.is_nan() && !a.is_infinite(),
        !b.is_nan() && !b.is_infinite(),
        !result.is_nan(),
        result.is_negative() == (a.is_negative() != b.is_negative()),
        result.magnitude() * pow2(149) == a.magnitude() * b.magnitude(),
    ensures
        a.product(b) == result,
{
    lemma_top();
    let top = 255 * pow2(23);
    let exact = a.magnitude() * b.magnitude();
    crate::rounding::lemma_nearest_exact(result.pattern(), 149, 23, top);
    crate::rounding::lemma_nearest_is(exact, 149, result.pattern(), 23, top);
}

/// A sum that is a number other than zero is not rounded.
pub proof fn law_exact_sum(a: Binary32, b: Binary32, result: Binary32)
    requires
        !a.is_nan() && !a.is_infinite(),
        !b.is_nan() && !b.is_infinite(),
        !result.is_nan(),
        result.value() == a.value() + b.value(),
        result.value() != 0,
    ensures
        a.sum(b) == result,
{
    lemma_top();
    let top = 255 * pow2(23);
    let exact = result.magnitude() * pow2(149);
    crate::rounding::lemma_nearest_exact(result.pattern(), 149, 23, top);
    crate::rounding::lemma_nearest_is(exact, 149, result.pattern(), 23, top);
}

/// Whole numbers of fewer than twenty-five digits are added without rounding:
/// `a` is `m`, `b` is `n`, and their sum is `m + n`.
pub proof fn law_whole_sum_is_exact(a: Binary32, m: int, b: Binary32, n: int)
    requires
        !a.is_nan() && !a.is_infinite(),
        !b.is_nan() && !b.is_infinite(),
        a.value() == m * pow2(149),
        b.value() == n * pow2(149),
        -0x100_0000 < m + n < 0x100_0000,
    ensures
        a.sum(b).value() == (m + n) * pow2(149),
        !a.sum(b).is_nan() && !a.sum(b).is_infinite(),
{
    let unit = pow2(149);
    let total = a.value() + b.value();
    lemma_pow2_pos(149);
    lemma_top();
    lemma_mul_is_distributive_add_other_way(unit as int, m, n);
    lemma_zero_pattern(a.sum(b));
    let size: nat = if m + n < 0 {
        (-(m + n)) as nat
    } else {
        (m + n) as nat
    };
    assert((-(m + n)) * unit == -((m + n) * unit)) by (nonlinear_arith);
    assert(total == 0 <==> size == 0) by (nonlinear_arith)
        requires
            total == (m + n) * unit,
            unit > 0,
            size == 0 <==> m + n == 0,
    ;
    assert(total < 0 <==> m + n < 0) by (nonlinear_arith)
        requires
            total == (m + n) * unit,
            unit > 0,
    ;
    if size > 0 {
        let length = crate::rounding::lemma_leading_digit(size);
        if length > 24 {
            if 24 < length - 1 {
                lemma_pow2_strictly_increases(24, (length - 1) as nat);
            }
        }
        lemma_pow2_adds(149, 149);
        lemma_mul_is_associative(size as int, unit as int, unit as int);
        crate::rounding::lemma_short_is_exact(size, length, 298, 149, 23, 255);
        let pattern = crate::rounding::nearest(size * pow2(298), 149, 23, 255 * pow2(23));
        let found = crate::rounding::magnitude(pattern, 23);
        assert(found == size * unit) by (nonlinear_arith)
            requires
                found * unit == (size * unit) * unit,
                unit > 0,
        ;
    }
}

/// The difference of whole numbers, likewise.
pub proof fn law_whole_difference_is_exact(a: Binary32, m: int, b: Binary32, n: int)
    requires
        !a.is_nan() && !a.is_infinite(),
        !b.is_nan() && !b.is_infinite(),
        a.value() == m * pow2(149),
        b.value() == n * pow2(149),
        -0x100_0000 < m - n < 0x100_0000,
    ensures
        a.difference(b).value() == (m - n) * pow2(149),
        !a.difference(b).is_nan() && !a.difference(b).is_infinite(),
{
    assert(b.negated().value() == (-n) * pow2(149)) by {
        assert((-n) * pow2(149) == -(n * pow2(149))) by (nonlinear_arith);
    }
    law_whole_sum_is_exact(a, m, b.negated(), -n);
}

/// What the three fields of the format mean: the sign, the biased exponent and
/// the fraction tell whether the bits are a number, and which one.
pub proof fn law_fields(negative: bool, exponent: int, fraction: int, number: Binary32)
    requires
        0 <= exponent <= 255,
        0 <= fraction < 0x80_0000,
        number.bits == (if negative {
            0x8000_0000int
        } else {
            0
        }) + exponent * 0x80_0000 + fraction,
    ensures
        number.is_negative() == negative,
        number.is_nan() <==> exponent == 255 && fraction != 0,
        number.is_infinite() <==> exponent == 255 && fraction == 0,
        !negative && exponent == 0 ==> number.value() == fraction,
        negative && exponent == 0 ==> number.value() == -fraction,
        !negative && exponent > 0 ==> number.value() == (0x80_0000 + fraction) * pow2(
            (exponent - 1) as nat,
        ),
        negative && exponent > 0 ==> number.value() == -((0x80_0000 + fraction) * pow2(
            (exponent - 1) as nat,
        )),
{
    lemma_top();
    assert(number.pattern() == exponent * 0x80_0000 + fraction);
    assert(number.pattern() / pow2(23) == exponent);
    assert(number.pattern() % pow2(23) == fraction);
}

/// The opposite number has the other sign and the same distance from zero.
pub proof fn law_negation(number: Binary32)
    ensures
        number.negated().is_negative() == !number.is_negative(),
        number.negated().is_nan() == number.is_nan(),
        number.negated().is_infinite() == number.is_infinite(),
        number.negated().value() == -number.value(),
        number.negated().negated() == number,
{
}

/// The ordering can be read off the bits: those without the sign count upwards
/// for positive and downwards for negative numbers, both zeros are the same, and
/// beyond the infinities nothing is ordered.
pub proof fn law_order_of_bits(a: Binary32, b: Binary32)
    ensures
        a.no_more_than(b) <==> {
            let m = a.bits % 0x8000_0000;
            let n = b.bits % 0x8000_0000;
            &&& m <= 0x7f80_0000
            &&& n <= 0x7f80_0000
            &&& (if a.bits < 0x8000_0000 {
                m as int
            } else {
                -(m as int)
            }) <= (if b.bits < 0x8000_0000 {
                n as int
            } else {
                -(n as int)
            })
        },
        a.more_than(b) <==> b.no_more_than(a) && !a.no_more_than(b),
{
    lemma_pattern_order(a.pattern(), b.pattern());
    lemma_pattern_order(b.pattern(), a.pattern());
    lemma_zero_pattern(a);
    lemma_zero_pattern(b);
}

/// The magnitudes at the end of the range.
proof fn lemma_end_of_range()
    ensures
        crate::rounding::refined(0x7f80_0000, 23, 149) == 0x200_0000 * pow2(401),
        crate::rounding::refined(0x7f7f_ffff, 23, 149) == 0x1ff_fffe * pow2(401),
{
    lemma_top();
    lemma2_to64();
    let top: nat = 0x7f80_0000;
    let last: nat = 0x7f7f_ffff;
    assert(top / pow2(23) == 255 && top % pow2(23) == 0);
    assert(last / pow2(23) == 254 && last % pow2(23) == 0x7f_ffff);
    lemma_pow2_unfold(254);
    lemma_pow2_adds(253, 149);
    lemma_pow2_unfold(402);
    let a = pow2(253);
    let b = pow2(149);
    let c = pow2(401);
    assert((0x80_0000 * (2 * a)) * b == 0x200_0000 * c) by (nonlinear_arith)
        requires
            a * b == 2 * c,
    ;
    assert((0xff_ffff * a) * b == 0x1ff_fffe * c) by (nonlinear_arith)
        requires
            a * b == 2 * c,
    ;
}

/// What rounding to single precision gives, as seen from any finite number
/// `other`.
proof fn lemma_rounded(negative: bool, exact: nat, other: Binary32)
    requires
        !other.is_nan() && !other.is_infinite(),
    ensures
        ({
            let result = Binary32::rounded(negative, exact);
            let target = if negative {
                -exact
            } else {
                exact as int
            };
            let here = abs(result.value() * pow2(149) - target);
            let there = abs(other.value() * pow2(149) - target);
            &&& result.is_negative() == negative
            &&& !result.is_nan()
            &&& result.is_infinite() <==> exact >= 0x1ff_ffff * pow2(401)
            &&& !result.is_infinite() ==> here <= there
            &&& !result.is_infinite() && here == there && result.value() != other.value()
                ==> result.bits % 2 == 0
        }),
{
    let top = 255 * pow2(23);
    let pattern = crate::rounding::nearest(exact, 149, 23, top);
    let result = Binary32::rounded(negative, exact);
    let unit = pow2(149);
    lemma_top();
    lemma_pow2_pos(149);
    lemma_pow2_pos(401);
    lemma_end_of_range();
    crate::rounding::lemma_nearest_exists(exact, 149, 23, top);
    assert(result.pattern() == pattern);
    let first = crate::rounding::refined(0x7f80_0000, 23, 149);
    let last = crate::rounding::refined(0x7f7f_ffff, 23, 149);
    assert(crate::rounding::distance(first as int, exact as int) >= 0);
    assert(crate::rounding::distance(last as int, exact as int) >= 0);
    if pattern < 0x7f7f_ffff {
        crate::rounding::lemma_refined_increases(pattern, 0x7f7f_ffff, 23, 149);
    }
    let mine = crate::rounding::refined(pattern, 23, 149);
    let theirs = crate::rounding::refined(other.pattern(), 23, 149);
    let zero = crate::rounding::refined(0, 23, 149);
    lemma_zero_magnitude();
    lemma_zero_pattern(result);
    lemma_zero_pattern(other);
    assert(zero == 0) by (nonlinear_arith)
        requires
            zero == crate::rounding::magnitude(0, 23) * unit,
            crate::rounding::magnitude(0, 23) == 0,
    ;
    assert(crate::rounding::distance(theirs as int, exact as int) >= 0);
    assert(crate::rounding::distance(zero as int, exact as int) == exact);
    let m = result.magnitude();
    let n = other.magnitude();
    assert((-m) * unit == -(m * unit)) by (nonlinear_arith);
    assert((-n) * unit == -(n * unit)) by (nonlinear_arith);
    assert(n > 0 ==> n * unit > 0) by (nonlinear_arith)
        requires
            unit > 0,
    ;
}

/// A product of finite numbers is infinite from half way to the power of two
/// beyond the range on. Otherwise no finite number is nearer to the exact
/// product, and of two that are as near the even one is taken. The sign is that of
/// the exact product, for zero too.
pub proof fn law_product_is_nearest(a: Binary32, b: Binary32, other: Binary32)
    requires
        !a.is_nan() && !a.is_infinite(),
        !b.is_nan() && !b.is_infinite(),
        !other.is_nan() && !other.is_infinite(),
    ensures
        ({
            let result = a.product(b);
            let exact = a.value() * b.value();
            let here = abs(result.value() * pow2(149) - exact);
            let there = abs(other.value() * pow2(149) - exact);
            &&& !result.is_nan()
            &&& result.is_negative() == (a.is_negative() != b.is_negative())
            &&& result.is_infinite() <==> abs(exact) >= 0x1ff_ffff * pow2(401)
            &&& !result.is_infinite() ==> here <= there
            &&& !result.is_infinite() && here == there && result.value() != other.value()
                ==> result.bits % 2 == 0
        }),
{
    let negative = a.is_negative() != b.is_negative();
    let m = a.magnitude();
    let n = b.magnitude();
    lemma_rounded(negative, m * n, other);
    assert((-m) * n == -(m * n)) by (nonlinear_arith);
    assert(m * (-n) == -(m * n)) by (nonlinear_arith);
    assert((-m) * (-n) == m * n) by (nonlinear_arith);
    assert(m * n >= 0) by (nonlinear_arith);
}

/// Products with something that is not a finite number.
pub proof fn law_product_of_specials(a: Binary32, b: Binary32)
    ensures
        a.is_nan() || b.is_nan() ==> a.product(b).is_nan(),
        a.is_infinite() && b.value() == 0 ==> a.product(b).is_nan(),
        a.value() == 0 && b.is_infinite() ==> a.product(b).is_nan(),
        (a.is_infinite() || b.is_infinite()) && !a.is_nan() && !b.is_nan() && a.value() != 0
            && b.value() != 0 ==> a.product(b).is_infinite() && a.product(b).is_negative() == (
        a.is_negative() != b.is_negative()),
{
    lemma_zero_pattern(a);
    lemma_zero_pattern(b);
}

/// A sum of finite numbers is infinite from half way to the power of two beyond
/// the range on. Otherwise no finite number is nearer to the exact sum, and of two
/// that are as near the even one is taken. A sum that is exactly zero is negative
/// only if both terms are.
pub proof fn law_sum_is_nearest(a: Binary32, b: Binary32, other: Binary32)
    requires
        !a.is_nan() && !a.is_infinite(),
        !b.is_nan() && !b.is_infinite(),
        !other.is_nan() && !other.is_infinite(),
    ensures
        ({
            let result = a.sum(b);
            let exact = a.value() + b.value();
            let here = abs(result.value() - exact);
            let there = abs(other.value() - exact);
            &&& !result.is_nan()
            &&& exact > 0 ==> !result.is_negative()
            &&& exact < 0 ==> result.is_negative()
            &&& exact == 0 ==> result.value() == 0 && (result.is_negative() <==> a.is_negative()
                && b.is_negative())
            &&& result.is_infinite() <==> abs(exact) >= 0x1ff_ffff * pow2(252)
            &&& !result.is_infinite() ==> here <= there
            &&& !result.is_infinite() && here == there && result.value() != other.value()
                ==> result.bits % 2 == 0
        }),
{
    let exact = a.value() + b.value();
    let size = abs(exact) as nat;
    let unit = pow2(149) as int;
    let result = a.sum(b);
    lemma_pow2_pos(149);
    lemma_pow2_pos(252);
    lemma_pow2_adds(252, 149);
    lemma_top();
    lemma_zero_magnitude();
    if exact != 0 {
        lemma_rounded(exact < 0, size * pow2(149), other);
        assert((-exact) * unit == -(exact * unit)) by (nonlinear_arith);
        let limit = 0x1ff_ffff * pow2(252);
        assert(limit * unit == 0x1ff_ffff * pow2(401)) by (nonlinear_arith)
            requires
                limit == 0x1ff_ffff * pow2(252),
                pow2(252) * unit == pow2(401),
        ;
        lemma_order_kept(limit as int, size as int, unit);
        lemma_scaled_distance(result.value(), exact, unit);
        lemma_scaled_distance(other.value(), exact, unit);
        lemma_order_kept(
            abs(result.value() - exact) as int,
            abs(other.value() - exact) as int,
            unit,
        );
        lemma_order_kept(
            abs(other.value() - exact) as int,
            abs(result.value() - exact) as int,
            unit,
        );
    } else {
        lemma_zero_pattern(result);
    }
}

/// Distances scale with the unit.
pub(crate) proof fn lemma_scaled_distance(a: int, b: int, unit: int)
    requires
        unit > 0,
    ensures
        abs(a * unit - b * unit) == abs(a - b) * unit,
{
    assert(a * unit - b * unit == (a - b) * unit) by (nonlinear_arith);
    assert((-(a - b)) * unit == -((a - b) * unit)) by (nonlinear_arith);
    lemma_order_kept(a - b, 0, unit);
}

/// Sums with something that is not a finite number.
pub proof fn law_sum_of_specials(a: Binary32, b: Binary32)
    ensures
        a.is_nan() || b.is_nan() ==> a.sum(b).is_nan(),
        a.is_infinite() && b.is_infinite() && a.is_negative() != b.is_negative() ==> a.sum(
            b,
        ).is_nan(),
        a.is_infinite() && b.is_infinite() && a.is_negative() == b.is_negative() ==> a.sum(b) == a,
        a.is_infinite() && !b.is_nan() && !b.is_infinite() ==> a.sum(b) == a,
        b.is_infinite() && !a.is_nan() && !a.is_infinite() ==> a.sum(b) == b,
{
}

/// A difference of finite numbers, likewise: no finite number is nearer to the
/// exact difference.
pub proof fn law_difference_is_nearest(a: Binary32, b: Binary32, other: Binary32)
    requires
        !a.is_nan() && !a.is_infinite(),
        !b.is_nan() && !b.is_infinite(),
        !other.is_nan() && !other.is_infinite(),
    ensures
        ({
            let result = a.difference(b);
            let exact = a.value() - b.value();
            let here = abs(result.value() - exact);
            let there = abs(other.value() - exact);
            &&& !result.is_nan()
            &&& exact > 0 ==> !result.is_negative()
            &&& exact < 0 ==> result.is_negative()
            &&& exact == 0 ==> result.value() == 0 && (result.is_negative() <==> a.is_negative()
                && !b.is_negative())
            &&& result.is_infinite() <==> abs(exact) >= 0x1ff_ffff * pow2(252)
            &&& !result.is_infinite() ==> here <= there
            &&& !result.is_infinite() && here == there && result.value() != other.value()
                ==> result.bits % 2 == 0
        }),
{
    law_negation(b);
    law_sum_is_nearest(a, b.negated(), other);
}

/// A difference is a sum with the opposite number, whatever the numbers are.
pub proof fn law_difference_of_specials(a: Binary32, b: Binary32)
    ensures
        a.is_nan() || b.is_nan() ==> a.difference(b).is_nan(),
        a.is_infinite() && b.is_infinite() && a.is_negative() == b.is_negative() ==> a.difference(
            b,
        ).is_nan(),
        a.is_infinite() && b.is_infinite() && a.is_negative() != b.is_negative() ==> a.difference(b)
            == a,
        a.is_infinite() && !b.is_nan() && !b.is_infinite() ==> a.difference(b) == a,
        b.is_infinite() && !a.is_nan() && !a.is_infinite() ==> a.difference(b).is_infinite()
            && a.difference(b).is_negative() == !b.is_negative(),
{
    law_negation(b);
    law_sum_of_specials(a, b.negated());
}

} // verus!
