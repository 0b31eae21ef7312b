//! Double-precision numbers, held as the bits of their interchange format.
use crate::binary32::{parts, Binary32};
use crate::rounding::round;
use vstd::arithmetic::mul::*;
use vstd::arithmetic::power2::*;
use vstd::math::*;
use vstd::prelude::*;

verus! {

/// A double-precision number. Two numbers that are equal in bits are the same
/// number.
#[derive(Clone, Copy, Debug, PartialEq, Eq, Structural)]
pub struct Binary64 {
    /// Sign, eleven bits of biased exponent, fifty-two bits of fraction.
    pub bits: u64,
}

impl Binary64 {
    /// The sign bit is set.
    pub open spec fn is_negative(self) -> bool {
        self.bits >= 0x8000_0000_0000_0000
    }

    /// The bits below the sign.
    pub open spec fn pattern(self) -> nat {
        (self.bits % 0x8000_0000_0000_0000) as nat
    }

    /// Not a number.
    pub open spec fn is_nan(self) -> bool {
        self.pattern() > 0x7ff0_0000_0000_0000
    }

    /// One of the two infinities.
    pub open spec fn is_infinite(self) -> bool {
        self.pattern() == 0x7ff0_0000_0000_0000
    }

    /// The number without its sign, in units of `2^-1074`.
    pub open spec fn magnitude(self) -> nat {
        crate::rounding::magnitude(self.pattern(), 52)
    }

    /// The number in units of `2^-1074`. An infinity reads as plus or minus the
    /// power of two beyond the finite numbers, so that order is kept.
    pub open spec fn value(self) -> int {
        if self.is_negative() {
            -self.magnitude()
        } else {
            self.magnitude() as int
        }
    }

    /// The number with the given sign and pattern.
    pub open spec fn with_sign(negative: bool, pattern: nat) -> Binary64 {
        Binary64 {
            bits: if negative {
                (0x8000_0000_0000_0000 + pattern) as u64
            } else {
                pattern as u64
            },
        }
    }

    /// `exact`, in units of `2^-1074`, rounded and given a sign.
    pub open spec fn rounded(negative: bool, exact: nat) -> Binary64 {
        Binary64::with_sign(
            negative,
            crate::rounding::nearest(exact, 0, 52, 2047 * pow2(52)),
        )
    }

    /// A single-precision number as a double-precision one.
    pub open spec fn widened(number: Binary32) -> Binary64 {
        if number.is_nan() {
            Binary64::nan()
        } else if number.is_infinite() {
            Binary64::with_sign(number.is_negative(), 0x7ff0_0000_0000_0000)
        } else {
            Binary64::rounded(number.is_negative(), number.magnitude() * pow2(925))
        }
    }

    /// A count as a double-precision number.
    pub open spec fn counted(n: nat) -> Binary64 {
        Binary64::rounded(false, n * pow2(1074))
    }

    /// The quiet NaN that an operation without a numeric result gives.
    #[verifier::allow_in_spec]
    pub fn nan() -> (nan: Binary64)
        returns
            (Binary64 { bits: 0x7ff8_0000_0000_0000 }),
    {
        Binary64 { bits: 0x7ff8_0000_0000_0000 }
    }

    /// Converts a single-precision number.
    pub fn from_single(number: Binary32) -> (result: Binary64)
        ensures
            result == Binary64::widened(number),
    {
        let pattern: u32 = number.bits % 0x8000_0000;
        let negative: bool = number.bits >= 0x8000_0000;
        if pattern > 0x7f80_0000 {
            return Binary64::nan();
        }
        if pattern == 0x7f80_0000 {
            return signed(negative, 0x7ff0_0000_0000_0000);
        }
        let (significand, scale): (u32, u32) = parts(pattern);
        let ghost exact: nat = number.magnitude() * pow2(925);
        proof {
            lemma_top();
            lemma_pow2_adds(scale as nat, 925);
            lemma_mul_is_associative(
                significand as int,
                pow2(scale as nat) as int,
                pow2(925) as int,
            );
        }
        let wide: u64 = round(significand as u64, scale + 925, false, 0, 52, 2047, Ghost(exact));
        signed(negative, wide)
    }

    /// Converts a count.
    pub fn from_count(n: u64) -> (result: Binary64)
        ensures
            result == Binary64::counted(n as nat),
    {
        proof {
            lemma_top();
        }
        let wide: u64 = round(n, 1074, false, 0, 52, 2047, Ghost(n as nat * pow2(1074)));
        signed(false, wide)
    }
}

/// The pattern of infinity is the exponent of all ones.
proof fn lemma_top()
    ensures
        2047 * pow2(52) == 0x7ff0_0000_0000_0000,
        pow2(52) == 0x10_0000_0000_0000,
{
    lemma2_to64();
    lemma2_to64_rest();
}

/// The number with a sign and a pattern.
fn signed(negative: bool, pattern: u64) -> (result: Binary64)
    requires
        pattern < 0x8000_0000_0000_0000,
    ensures
        result == Binary64::with_sign(negative, pattern as nat),
{
    if negative {
        Binary64 { bits: 0x8000_0000_0000_0000 + pattern }
    } else {
        Binary64 { bits: pattern }
    }
}

/// Rounding to double precision leaves a magnitude with few enough digits as
/// it is.
proof fn lemma_short_rounds(negative: bool, n: nat, digits: nat, scale: nat)
    requires
        n < pow2(digits),
        digits <= 53,
        52 <= scale <= 1900,
    ensures
        Binary64::rounded(negative, n * pow2(scale)).magnitude() == n * pow2(scale),
        Binary64::rounded(negative, n * pow2(scale)).is_negative() == negative,
        Binary64::rounded(negative, n * pow2(scale)).pattern() < 0x7ff0_0000_0000_0000,
{
    lemma_top();
    let pattern = crate::rounding::nearest(n * pow2(scale), 0, 52, 2047 * pow2(52));
    if n == 0 {
        lemma2_to64();
        assert(crate::rounding::magnitude(0, 52) == 0);
        assert(crate::rounding::refined(0, 52, 0) == 0);
        assert(n * pow2(scale) == 0) by (nonlinear_arith)
            requires
                n == 0,
        ;
        crate::rounding::lemma_nearest_exact(0, 0, 52, 2047 * pow2(52));
        crate::rounding::lemma_nearest_is(0, 0, 0, 52, 2047 * pow2(52));
    } else {
        let length = crate::rounding::lemma_leading_digit(n);
        if length > digits {
            if digits < length - 1 {
                lemma_pow2_strictly_increases(digits, (length - 1) as nat);
            }
        }
        crate::rounding::lemma_short_is_exact(n, length, scale, 0, 52, 2047);
        lemma2_to64();
        assert(crate::rounding::refined(pattern, 52, 0) == crate::rounding::magnitude(pattern, 52));
    }
}

/// Widening changes neither the sign nor the value of a finite number: one unit
/// of single precision is `2^925` units of double precision.
pub proof fn law_widening_is_exact(number: Binary32)
    requires
        !number.is_nan(),
        !number.is_infinite(),
    ensures
        Binary64::widened(number).value() == number.value() * pow2(925),
        Binary64::widened(number).is_negative() == number.is_negative(),
        !Binary64::widened(number).is_nan(),
        !Binary64::widened(number).is_infinite(),
{
    let (significand, scale) = crate::binary32::lemma_parts(number.pattern());
    lemma_pow2_adds(scale, 925);
    lemma_mul_is_associative(significand as int, pow2(scale) as int, pow2(925) as int);
    assert(pow2(24) == 0x100_0000) by {
        lemma2_to64();
    }
    lemma_short_rounds(number.is_negative(), significand, 24, scale + 925);
    let magnitude = number.magnitude();
    assert(-(magnitude * pow2(925)) == (-magnitude) * pow2(925)) by (nonlinear_arith);
}

/// The number of the same sign and value is what widening gives.
pub proof fn law_exact_widening(number: Binary32, result: Binary64)
    requires
        !number.is_nan(),
        !number.is_infinite(),
        result.is_negative() == number.is_negative(),
        result.value() == number.value() * pow2(925),
    ensures
        Binary64::widened(number) == result,
{
    law_widening_is_exact(number);
    crate::rounding::lemma_magnitude_injective(
        Binary64::widened(number).pattern(),
        result.pattern(),
        52,
    );
}

/// A count below `2^53` is converted without a change of its value.
pub proof fn law_count_is_exact(n: nat)
    requires
        n < 0x20_0000_0000_0000,
    ensures
        Binary64::counted(n).value() == n * pow2(1074),
{
    lemma2_to64_rest();
    lemma_short_rounds(false, n, 53, 1074);
}

/// What the three fields of the format mean: the sign, the biased exponent and
/// the fraction tell whether the bits are a number, and which one.
pub proof fn law_fields(negative: bool, exponent: int, fraction: int, number: Binary64)
    requires
        0 <= exponent <= 2047,
        0 <= fraction < 0x10_0000_0000_0000,
        number.bits == (if negative {
            0x8000_0000_0000_0000int
        } else {
            0
        }) + exponent * 0x10_0000_0000_0000 + fraction,
    ensures
        number.is_negative() == negative,
        number.is_nan() <==> exponent == 2047 && fraction != 0,
        number.is_infinite() <==> exponent == 2047 && fraction == 0,
        !negative && exponent == 0 ==> number.value() == fraction,
        negative && exponent == 0 ==> number.value() == -fraction,
        !negative && exponent > 0 ==> number.value() == (0x10_0000_0000_0000 + fraction) * pow2(
            (exponent - 1) as nat,
        ),
        negative && exponent > 0 ==> number.value() == -((0x10_0000_0000_0000 + fraction) * pow2(
            (exponent - 1) as nat,
        )),
{
    lemma_top();
    assert(number.pattern() == exponent * 0x10_0000_0000_0000 + fraction);
    assert(number.pattern() / pow2(52) == exponent);
    assert(number.pattern() % pow2(52) == fraction);
}

/// Widening keeps what is not a finite number as it is.
pub proof fn law_widening_of_specials(number: Binary32)
    ensures
        number.is_nan() ==> Binary64::widened(number).is_nan(),
        number.is_infinite() ==> Binary64::widened(number).is_infinite() && Binary64::widened(
            number,
        ).is_negative() == number.is_negative(),
{
}

/// No finite number is nearer to a count than the one it is converted to, and of
/// two that are as near the even one is taken.
pub proof fn law_count_is_nearest(n: u64, other: Binary64)
    requires
        !other.is_nan() && !other.is_infinite(),
    ensures
        ({
            let result = Binary64::counted(n as nat);
            let exact = n * pow2(1074);
            let here = abs(result.value() - exact);
            let there = abs(other.value() - exact);
            &&& !result.is_nan()
            &&& !result.is_infinite()
            &&& !result.is_negative()
            &&& here <= there
            &&& here == there && result.value() != other.value() ==> result.bits % 2 == 0
        }),
{
    let exact = n as nat * pow2(1074);
    let top = 2047 * pow2(52);
    let pattern = crate::rounding::nearest(exact, 0, 52, top);
    lemma_top();
    lemma2_to64();
    lemma2_to64_rest();
    crate::rounding::lemma_nearest_exists(exact, 0, 52, top);
    let first = crate::rounding::refined(top, 52, 0);
    let mine = crate::rounding::refined(pattern, 52, 0);
    let theirs = crate::rounding::refined(other.pattern(), 52, 0);
    let zero = crate::rounding::refined(0, 52, 0);
    assert(crate::rounding::magnitude(0, 52) == 0);
    assert(zero == 0);
    assert(top / pow2(52) == 2047 && top % pow2(52) == 0);
    lemma_pow2_adds(52, 2046);
    assert(first == pow2(2098));
    lemma_pow2_adds(64, 1074);
    lemma_pow2_pos(1074);
    lemma_mul_strict_inequality(n as int, pow2(64) as int, pow2(1074) as int);
    lemma_pow2_unfold(1139);
    lemma_pow2_strictly_increases(1139, 2098);
    assert(crate::rounding::distance(zero as int, exact as int) == exact);
    assert(crate::rounding::distance(first as int, exact as int) > exact);
    assert(pattern != top);
    assert(crate::rounding::distance(theirs as int, exact as int) >= 0);
    assert(mine == crate::rounding::magnitude(pattern, 52));
    assert(theirs == crate::rounding::magnitude(other.pattern(), 52));
    if other.pattern() > 0 {
        crate::rounding::lemma_magnitude_increases(0, other.pattern(), 52);
    }
    assert(Binary64::counted(n as nat).pattern() == pattern);
}

} // verus!
