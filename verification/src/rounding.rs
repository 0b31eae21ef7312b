//! Rounding of exact magnitudes to binary floating-point bit patterns.
//!
//! A pattern is what is left of a number's bits without the sign: the biased
//! exponent above `width` fraction bits. Everything here is about magnitudes;
//! signs are dealt with where the patterns are put together.
use vstd::arithmetic::div_mod::*;
use vstd::arithmetic::mul::*;
use vstd::arithmetic::power2::*;
use vstd::prelude::*;

verus! {

/// The magnitude that a pattern stands for, counted in units of the smallest
/// positive one. The pattern of infinity reads as the power of two that follows
/// the largest finite magnitude.
pub open spec fn magnitude(pattern: nat, width: nat) -> nat {
    let exponent = pattern / pow2(width);
    let fraction = pattern % pow2(width);
    if exponent == 0 {
        fraction
    } else {
        (fraction + pow2(width)) * pow2((exponent - 1) as nat)
    }
}

/// The magnitude of a pattern in units that are `2^guard` times finer.
pub open spec fn refined(pattern: nat, width: nat, guard: nat) -> nat {
    magnitude(pattern, width) * pow2(guard)
}

/// How far apart two numbers are.
pub open spec fn distance(a: int, b: int) -> int {
    if a >= b {
        a - b
    } else {
        b - a
    }
}

/// `pattern` is the rounding of `exact`, in units refined by `guard` bits, to
/// nearest with ties to even: no pattern up to `top`, the one of infinity, is
/// nearer, and if another one is as near, then `pattern` is even.
pub open spec fn is_nearest(exact: nat, guard: nat, pattern: nat, width: nat, top: nat) -> bool {
    &&& pattern <= top
    &&& forall|other: nat|
        other <= top && other != pattern ==> {
            let here = distance(refined(pattern, width, guard) as int, exact as int);
            let there = distance(#[trigger] refined(other, width, guard) as int, exact as int);
            here < there || (here == there && pattern % 2 == 0)
        }
}

/// The rounding of `exact`: see [`is_nearest`].
pub open spec fn nearest(exact: nat, guard: nat, width: nat, top: nat) -> nat {
    choose|pattern: nat| is_nearest(exact, guard, pattern, width, top)
}

/// Consecutive patterns are one unit in the last place apart.
pub proof fn lemma_magnitude_step(pattern: nat, width: nat)
    ensures
        magnitude(pattern + 1, width) == magnitude(pattern, width) + pow2(
            if pattern / pow2(width) == 0 {
                0
            } else {
                (pattern / pow2(width) - 1) as nat
            },
        ),
{
    let base = pow2(width);
    let exponent = pattern / base;
    let fraction = pattern % base;
    lemma_pow2_pos(width);
    lemma_fundamental_div_mod(pattern as int, base as int);
    if fraction + 1 < base {
        assert(pattern + 1 == base * exponent + (fraction + 1));
        lemma_fundamental_div_mod_converse(
            (pattern + 1) as int,
            base as int,
            exponent as int,
            (fraction + 1) as int,
        );
        if exponent == 0 {
            lemma2_to64();
        } else {
            let ulp = pow2((exponent - 1) as nat);
            assert((fraction + 1 + base) * ulp == (fraction + base) * ulp + ulp)
                by (nonlinear_arith);
        }
    } else {
        assert(pattern + 1 == base * (exponent + 1)) by (nonlinear_arith)
            requires
                pattern == base * exponent + fraction,
                fraction + 1 == base,
        ;
        lemma_fundamental_div_mod_converse(
            (pattern + 1) as int,
            base as int,
            (exponent + 1) as int,
            0,
        );
        lemma2_to64();
        if exponent == 0 {
            assert(magnitude(pattern + 1, width) == base * pow2(0));
        } else {
            let ulp = pow2((exponent - 1) as nat);
            lemma_pow2_unfold(exponent);
            assert(base * (2 * ulp) == (base - 1 + base) * ulp + ulp) by (nonlinear_arith);
        }
    }
}

/// A larger pattern stands for a larger magnitude.
pub proof fn lemma_magnitude_increases(smaller: nat, larger: nat, width: nat)
    requires
        smaller < larger,
    ensures
        magnitude(smaller, width) < magnitude(larger, width),
    decreases larger - smaller,
{
    let below = (larger - 1) as nat;
    lemma_magnitude_step(below, width);
    broadcast use lemma_pow2_pos;

    if smaller < below {
        lemma_magnitude_increases(smaller, below, width);
    }
}

/// Refining the unit keeps the order.
pub proof fn lemma_refined_increases(smaller: nat, larger: nat, width: nat, guard: nat)
    requires
        smaller < larger,
    ensures
        refined(smaller, width, guard) < refined(larger, width, guard),
{
    lemma_magnitude_increases(smaller, larger, width);
    lemma_pow2_pos(guard);
    lemma_mul_strict_inequality(
        magnitude(smaller, width) as int,
        magnitude(larger, width) as int,
        pow2(guard) as int,
    );
}

/// Two patterns of one width stand for one magnitude only if they are the same.
pub proof fn lemma_magnitude_injective(a: nat, b: nat, width: nat)
    requires
        magnitude(a, width) == magnitude(b, width),
    ensures
        a == b,
{
    if a < b {
        lemma_magnitude_increases(a, b, width);
    } else if b < a {
        lemma_magnitude_increases(b, a, width);
    }
}

/// An exact magnitude has one rounding only.
pub proof fn lemma_nearest_unique(exact: nat, guard: nat, a: nat, b: nat, width: nat, top: nat)
    requires
        is_nearest(exact, guard, a, width, top),
        is_nearest(exact, guard, b, width, top),
    ensures
        a == b,
{
    if a != b {
        let (low, high) = if a < b {
            (a, b)
        } else {
            (b, a)
        };
        assert(distance(refined(low, width, guard) as int, exact as int) == distance(
            refined(high, width, guard) as int,
            exact as int,
        ));
        let middle = low + 1;
        lemma_refined_increases(low, middle, width, guard);
        lemma_refined_increases(middle, high, width, guard);
        assert(middle <= top && middle != low);
    }
}

/// The rounding that was found is the rounding.
pub proof fn lemma_nearest_is(exact: nat, guard: nat, pattern: nat, width: nat, top: nat)
    requires
        is_nearest(exact, guard, pattern, width, top),
    ensures
        nearest(exact, guard, width, top) == pattern,
{
    lemma_nearest_unique(
        exact,
        guard,
        nearest(exact, guard, width, top),
        pattern,
        width,
        top,
    );
}

/// A larger exact magnitude never rounds to a smaller pattern.
pub proof fn lemma_nearest_monotone(
    smaller: nat,
    larger: nat,
    guard: nat,
    a: nat,
    b: nat,
    width: nat,
    top: nat,
)
    requires
        smaller <= larger,
        is_nearest(smaller, guard, a, width, top),
        is_nearest(larger, guard, b, width, top),
    ensures
        a <= b,
{
    if b < a {
        lemma_refined_increases(b, a, width, guard);
        assert(refined(a, width, guard) > refined(b, width, guard));
        if smaller == larger {
            lemma_nearest_unique(smaller, guard, a, b, width, top);
        }
    }
}

/// An exact magnitude that a pattern stands for rounds to that pattern.
pub proof fn lemma_nearest_exact(pattern: nat, guard: nat, width: nat, top: nat)
    requires
        pattern <= top,
    ensures
        is_nearest(refined(pattern, width, guard), guard, pattern, width, top),
{
    assert forall|other: nat| other <= top && other != pattern implies distance(
        #[trigger] refined(other, width, guard) as int,
        refined(pattern, width, guard) as int,
    ) > 0 by {
        if other < pattern {
            lemma_refined_increases(other, pattern, width, guard);
        } else {
            lemma_refined_increases(pattern, other, width, guard);
        }
    }
}

/// Whatever is at least as large as infinity's reading rounds to infinity.
proof fn lemma_nearest_overflow(exact: nat, guard: nat, width: nat, top: nat)
    requires
        refined(top, width, guard) <= exact,
    ensures
        is_nearest(exact, guard, top, width, top),
{
    assert forall|other: nat| other <= top && other != top implies #[trigger] refined(
        other,
        width,
        guard,
    ) < refined(top, width, guard) by {
        lemma_refined_increases(other, top, width, guard);
    }
}

/// Between two consecutive patterns the middle decides.
proof fn lemma_nearest_between(
    exact: nat,
    guard: nat,
    below: nat,
    up: bool,
    width: nat,
    top: nat,
)
    requires
        below < top,
        refined(below, width, guard) <= exact <= refined(below + 1, width, guard),
        up ==> 2 * exact >= refined(below, width, guard) + refined(below + 1, width, guard),
        !up ==> 2 * exact <= refined(below, width, guard) + refined(below + 1, width, guard),
        2 * exact == refined(below, width, guard) + refined(below + 1, width, guard) ==> (up
            <==> below % 2 == 1),
    ensures
        is_nearest(
            exact,
            guard,
            if up {
                below + 1
            } else {
                below
            },
            width,
            top,
        ),
{
    let pattern = if up {
        below + 1
    } else {
        below
    };
    assert forall|other: nat| other <= top && other != pattern implies ({
        let here = distance(refined(pattern, width, guard) as int, exact as int);
        let there = distance(#[trigger] refined(other, width, guard) as int, exact as int);
        here < there || (here == there && pattern % 2 == 0)
    }) by {
        if other < below {
            lemma_refined_increases(other, below, width, guard);
        } else if other > below + 1 {
            lemma_refined_increases(below + 1, other, width, guard);
        }
    }
}

/// The last pattern that does not exceed an exact magnitude below infinity's.
proof fn lemma_bracket(exact: nat, guard: nat, above: nat, width: nat) -> (below: nat)
    requires
        exact < refined(above, width, guard),
    ensures
        below < above,
        refined(below, width, guard) <= exact < refined(below + 1, width, guard),
    decreases above,
{
    if above == 0 {
        lemma_pow2_pos(width);
        lemma_small_mod(0, pow2(width));
        lemma_div_basics(pow2(width) as int);
        lemma_mul_basics(pow2(guard) as int);
        assert(magnitude(0, width) == 0);
        assert(false);
        0
    } else {
        let next = (above - 1) as nat;
        if exact < refined(next, width, guard) {
            lemma_bracket(exact, guard, next, width)
        } else {
            next
        }
    }
}

/// Every exact magnitude has a rounding.
pub proof fn lemma_nearest_exists(exact: nat, guard: nat, width: nat, top: nat)
    ensures
        is_nearest(exact, guard, nearest(exact, guard, width, top), width, top),
{
    if refined(top, width, guard) <= exact {
        lemma_nearest_overflow(exact, guard, width, top);
        assert(is_nearest(exact, guard, top, width, top));
    } else {
        let below = lemma_bracket(exact, guard, top, width);
        let ends = refined(below, width, guard) + refined(below + 1, width, guard);
        let up = 2 * exact > ends || (2 * exact == ends && below % 2 == 1);
        lemma_nearest_between(exact, guard, below, up, width, top);
        let pattern = if up {
            below + 1
        } else {
            below
        };
        assert(is_nearest(exact, guard, pattern, width, top));
    }
}

/// An exact magnitude rounds to zero if and only if it is at most half the
/// smallest positive one.
pub proof fn lemma_rounds_to_zero(exact: nat, guard: nat, width: nat, top: nat)
    requires
        top > 0,
    ensures
        nearest(exact, guard, width, top) == 0 <==> 2 * exact <= pow2(guard),
{
    lemma_pow2_pos(width);
    lemma_pow2_pos(guard);
    lemma2_to64();
    lemma_compose(0, 0, width);
    assert(0 * pow2(width) == 0);
    assert(refined(0, width, guard) == 0 * pow2(guard));
    assert(refined(1, width, guard) == pow2(guard));
    if 2 * exact <= pow2(guard) {
        lemma_nearest_between(exact, guard, 0, false, width, top);
        lemma_nearest_is(exact, guard, 0, width, top);
    } else {
        lemma_nearest_exists(exact, guard, width, top);
        if is_nearest(exact, guard, 0, width, top) {
            assert(distance(refined(1, width, guard) as int, exact as int) < exact);
        }
    }
}

/// A magnitude `n * 2^scale` with no more digits than the significand has is
/// not changed by rounding.
pub proof fn lemma_short_is_exact(
    n: nat,
    length: nat,
    scale: nat,
    guard: nat,
    width: nat,
    top_exponent: nat,
)
    requires
        1 <= length <= width + 1,
        pow2((length - 1) as nat) <= n < pow2(length),
        width + 1 + guard <= scale + length,
        scale + length - (width + 1) - guard + 1 < top_exponent,
    ensures
        refined(nearest(n * pow2(scale), guard, width, top_exponent * pow2(width)), width, guard)
            == n * pow2(scale),
        nearest(n * pow2(scale), guard, width, top_exponent * pow2(width)) < top_exponent * pow2(
            width,
        ),
{
    let lift = (width + 1 - length) as nat;
    let exponent = (scale - guard - lift) as nat;
    let pattern = exponent * pow2(width) + n * pow2(lift);
    let top = top_exponent * pow2(width);
    lemma_fits(n, scale, length, lift, exponent, guard, width);
    lemma_below_top(exponent, n * pow2(lift), pow2(width), top_exponent);
    lemma_nearest_exact(pattern, guard, width, top);
    lemma_nearest_is(n * pow2(scale), guard, pattern, width, top);
}

/// A positive number has a leading digit.
pub proof fn lemma_leading_digit(n: nat) -> (length: nat)
    requires
        n > 0,
    ensures
        length >= 1,
        pow2((length - 1) as nat) <= n < pow2(length),
    decreases n,
{
    lemma2_to64();
    if n == 1 {
        1
    } else {
        let length = lemma_leading_digit(n / 2);
        lemma_pow2_unfold(length);
        lemma_pow2_unfold(length + 1);
        length + 1
    }
}

/// The pattern with the significand `significand` at the scale `scale`.
proof fn lemma_compose(scale: nat, significand: nat, width: nat)
    requires
        significand < 2 * pow2(width),
        scale == 0 || pow2(width) <= significand,
    ensures
        magnitude(scale * pow2(width) + significand, width) == significand * pow2(scale),
        magnitude(scale * pow2(width) + significand + 1, width) == (significand + 1) * pow2(scale),
{
    let base = pow2(width);
    let pattern = scale * base + significand;
    lemma_pow2_pos(width);
    lemma2_to64();
    if significand < base {
        assert(pattern == base * 0 + significand);
        lemma_fundamental_div_mod_converse(pattern as int, base as int, 0, significand as int);
        assert(significand * pow2(0) == significand);
    } else {
        assert(pattern == base * (scale + 1) + (significand - base)) by (nonlinear_arith)
            requires
                pattern == scale * base + significand,
        ;
        lemma_fundamental_div_mod_converse(
            pattern as int,
            base as int,
            (scale + 1) as int,
            significand - base,
        );
    }
    lemma_magnitude_step(pattern, width);
    assert((significand + 1) * pow2(scale) == significand * pow2(scale) + pow2(scale))
        by (nonlinear_arith);
}

/// The number of binary digits of `n`.
fn bit_length(n: u64) -> (length: u32)
    ensures
        length <= 64,
        n < pow2(length as nat),
        length > 0 ==> pow2((length - 1) as nat) <= n,
{
    let mut rest: u64 = n;
    let mut length: u32 = 0;
    proof {
        lemma2_to64();
        lemma2_to64_rest();
    }
    while rest > 0
        invariant
            length <= 64,
            rest * pow2(length as nat) <= n,
            n < (rest + 1) * pow2(length as nat),
            length > 0 ==> pow2((length - 1) as nat) <= n,
            pow2(64) == 0x1_0000_0000_0000_0000,
        decreases rest,
    {
        proof {
            let unit = pow2(length as nat);
            lemma_pow2_unfold((length + 1) as nat);
            let half = rest / 2;
            assert(unit <= rest * unit) by (nonlinear_arith)
                requires
                    rest >= 1,
            ;
            assert(half * (2 * unit) <= rest * unit) by (nonlinear_arith)
                requires
                    2 * half <= rest,
            ;
            assert((rest + 1) * unit <= (half + 1) * (2 * unit)) by (nonlinear_arith)
                requires
                    rest + 1 <= 2 * (half + 1),
            ;
            if length == 64 {
                assert(false);
            }
        }
        rest = rest / 2;
        length = length + 1;
    }
    assert((rest + 1) * pow2(length as nat) == pow2(length as nat)) by (nonlinear_arith)
        requires
            rest == 0,
    ;
    length
}

/// `2^exponent`.
pub(crate) fn power_of_two(exponent: u32) -> (power: u128)
    requires
        exponent <= 64,
    ensures
        power == pow2(exponent as nat),
        0 < power <= 0x1_0000_0000_0000_0000,
{
    let mut power: u128 = 1;
    let mut done: u32 = 0;
    proof {
        lemma2_to64();
        lemma2_to64_rest();
    }
    while done < exponent
        invariant
            done <= exponent <= 64,
            power == pow2(done as nat),
            pow2(64) == 0x1_0000_0000_0000_0000,
        decreases exponent - done,
    {
        proof {
            lemma_pow2_unfold((done + 1) as nat);
            if done < 63 {
                lemma_pow2_strictly_increases((done + 1) as nat, 64);
            }
        }
        power = power * 2;
        done = done + 1;
    }
    proof {
        lemma_pow2_pos(exponent as nat);
        if exponent < 64 {
            lemma_pow2_strictly_increases(exponent as nat, 64);
        }
    }
    power
}

/// What `round` is told of an exact magnitude: it is `n * 2^scale`, or, where
/// it is not, it lies strictly between that and the next such multiple.
pub open spec fn truncates(n: nat, scale: nat, inexact: bool, exact: nat) -> bool {
    if inexact {
        n * pow2(scale) < exact < (n + 1) * pow2(scale)
    } else {
        exact == n * pow2(scale)
    }
}

/// What the widths in use have in common.
proof fn lemma_width_bounds(width: nat)
    requires
        1 <= width <= 52,
    ensures
        1 <= pow2(width) <= 0x10_0000_0000_0000,
        pow2(width) % 2 == 0,
        pow2(width + 1) == 2 * pow2(width),
        pow2(0) == 1,
        pow2(64) == 0x1_0000_0000_0000_0000,
{
    lemma2_to64();
    lemma2_to64_rest();
    if width < 52 {
        lemma_pow2_strictly_increases(width, 52);
    }
    lemma_pow2_pos(width);
    lemma_pow2_unfold(width);
    lemma_pow2_unfold(width + 1);
}

/// Zero rounds to zero.
proof fn lemma_zero_rounds_to_zero(scale: nat, guard: nat, width: nat, top: nat)
    ensures
        is_nearest(0 * pow2(scale), guard, 0, width, top),
{
    lemma_pow2_pos(width);
    lemma_small_mod(0, pow2(width));
    lemma_div_basics(pow2(width) as int);
    assert(magnitude(0, width) == 0);
    assert(refined(0, width, guard) == 0) by (nonlinear_arith)
        requires
            refined(0, width, guard) == magnitude(0, width) * pow2(guard),
            magnitude(0, width) == 0,
    ;
    lemma_nearest_exact(0, guard, width, top);
}

/// A magnitude whose leading digit is as high as infinity's is not below it.
proof fn lemma_overflows(
    n: nat,
    scale: nat,
    length: nat,
    shift: int,
    guard: nat,
    width: nat,
    top_exponent: nat,
    exact: nat,
)
    requires
        n * pow2(scale) <= exact,
        length >= 1,
        pow2((length - 1) as nat) <= n,
        shift == length - (width + 1),
        scale + shift - guard + 1 >= top_exponent,
        top_exponent >= 1,
    ensures
        is_nearest(
            exact,
            guard,
            top_exponent * pow2(width),
            width,
            top_exponent * pow2(width),
        ),
{
    let top = top_exponent * pow2(width);
    let reach = (length - 1 + scale) as nat;
    let bound = (width + top_exponent - 1 + guard) as nat;
    lemma_pow2_pos(width);
    assert(top == pow2(width) * top_exponent) by (nonlinear_arith)
        requires
            top == top_exponent * pow2(width),
    ;
    lemma_fundamental_div_mod_converse(top as int, pow2(width) as int, top_exponent as int, 0);
    lemma_pow2_adds(width, (top_exponent - 1) as nat);
    lemma_pow2_adds((width + top_exponent - 1) as nat, guard);
    assert(refined(top, width, guard) == pow2(bound));
    lemma_pow2_adds((length - 1) as nat, scale);
    lemma_pow2_pos(scale);
    lemma_mul_inequality(pow2((length - 1) as nat) as int, n as int, pow2(scale) as int);
    if bound < reach {
        lemma_pow2_strictly_increases(bound, reach);
    }
    lemma_nearest_overflow(exact, guard, width, top);
}

/// A magnitude with no more digits than the significand has is kept as it is.
proof fn lemma_fits(
    n: nat,
    scale: nat,
    length: nat,
    lift: nat,
    exponent: nat,
    guard: nat,
    width: nat,
)
    requires
        length >= 1,
        pow2((length - 1) as nat) <= n < pow2(length),
        length + lift <= width + 1,
        exponent + guard + lift == scale,
        exponent > 0 ==> length + lift == width + 1,
    ensures
        n < 2 * pow2(width),
        n * pow2(lift) < 2 * pow2(width),
        refined(exponent * pow2(width) + n * pow2(lift), width, guard) == n * pow2(scale),
{
    let significand = n * pow2(lift);
    lemma_pow2_pos(lift);
    lemma_pow2_adds(length, lift);
    lemma_mul_strict_inequality(n as int, pow2(length) as int, pow2(lift) as int);
    lemma_pow2_unfold(width + 1);
    if length + lift < width + 1 {
        lemma_pow2_strictly_increases(length + lift, width + 1);
    }
    if length < width + 1 {
        lemma_pow2_strictly_increases(length, width + 1);
    }
    if exponent > 0 {
        lemma_pow2_adds((length - 1) as nat, lift);
        lemma_mul_inequality(pow2((length - 1) as nat) as int, n as int, pow2(lift) as int);
    }
    lemma_compose(exponent, significand, width);
    lemma_pow2_adds(exponent, guard);
    lemma_pow2_adds(lift, exponent + guard);
    lemma_mul_is_associative(significand as int, pow2(exponent) as int, pow2(guard) as int);
    lemma_mul_is_associative(n as int, pow2(lift) as int, pow2(exponent + guard) as int);
}

/// A pattern with an exponent below infinity's is below infinity's.
proof fn lemma_below_top(exponent: nat, significand: nat, base: nat, top_exponent: nat)
    requires
        significand < 2 * base,
        exponent + 1 < top_exponent,
    ensures
        exponent * base + significand < top_exponent * base,
{
    assert(exponent * base + 2 * base <= top_exponent * base) by (nonlinear_arith)
        requires
            exponent + 2 <= top_exponent,
    ;
}

/// A magnitude below half the smallest positive one rounds to zero.
proof fn lemma_underflows(
    n: nat,
    scale: nat,
    inexact: bool,
    guard: nat,
    width: nat,
    top: nat,
    exact: nat,
)
    requires
        n + 1 <= pow2(64),
        guard - scale > 64,
        truncates(n, scale, inexact, exact),
        top > 0,
    ensures
        is_nearest(exact, guard, 0, width, top),
{
    lemma_pow2_pos(scale);
    lemma_pow2_pos(width);
    lemma_pow2_adds(64, scale);
    lemma_mul_inequality((n + 1) as int, pow2(64) as int, pow2(scale) as int);
    lemma_mul_is_distributive_add_other_way(pow2(scale) as int, n as int, 1);
    assert(exact < pow2(64 + scale));
    lemma_pow2_unfold(65 + scale);
    if 65 + scale < guard {
        lemma_pow2_strictly_increases(65 + scale, guard);
    }
    lemma2_to64();
    lemma_compose(0, 0, width);
    assert(0 * pow2(width) == 0);
    assert(refined(0, width, guard) == 0 * pow2(guard));
    assert(refined(1, width, guard) == pow2(guard));
    lemma_nearest_between(exact, guard, 0, false, width, top);
}

/// A magnitude with more digits than the significand has lies between two
/// consecutive patterns, and what was cut off says on which side of the middle.
proof fn lemma_splits(
    n: nat,
    scale: nat,
    inexact: bool,
    shift: nat,
    exponent: nat,
    guard: nat,
    width: nat,
    top: nat,
    exact: nat,
)
    requires
        truncates(n, scale, inexact, exact),
        shift > 0,
        exponent + guard == scale + shift,
        n / pow2(shift) < 2 * pow2(width),
        exponent == 0 || pow2(width) <= n / pow2(shift),
        exponent * pow2(width) + n / pow2(shift) < top,
        pow2(width) % 2 == 0,
    ensures
        is_nearest(
            exact,
            guard,
            exponent * pow2(width) + n / pow2(shift) + if n % pow2(shift) > pow2(shift) / 2 || (n
                % pow2(shift) == pow2(shift) / 2 && (inexact || (n / pow2(shift)) % 2 == 1)) {
                1nat
            } else {
                0nat
            },
            width,
            top,
        ),
{
    let unit = pow2(shift);
    let significand = n / unit;
    let rest = n % unit;
    let fine = pow2(scale);
    let below = exponent * pow2(width) + significand;
    lemma_pow2_pos(shift);
    lemma_pow2_pos(scale);
    lemma_pow2_unfold(shift);
    let half = unit / 2;
    assert(unit == 2 * half);
    lemma_fundamental_div_mod(n as int, unit as int);
    lemma_compose(exponent, significand, width);
    lemma_pow2_adds(exponent, guard);
    lemma_pow2_adds(shift, scale);
    let step = unit * fine;
    assert(pow2(exponent + guard) == step);
    lemma_mul_is_associative(significand as int, pow2(exponent) as int, pow2(guard) as int);
    lemma_mul_is_associative((significand + 1) as int, pow2(exponent) as int, pow2(guard) as int);
    assert(refined(below, width, guard) == significand * step);
    assert(refined(below + 1, width, guard) == (significand + 1) * step);
    assert((significand + 1) * step == significand * step + step) by (nonlinear_arith);
    assert(n * fine == significand * step + rest * fine) by (nonlinear_arith)
        requires
            n == unit * significand + rest,
            step == unit * fine,
    ;
    assert((n + 1) * fine == n * fine + fine) by (nonlinear_arith);
    assert(step == 2 * (half * fine)) by (nonlinear_arith)
        requires
            step == unit * fine,
            unit == 2 * half,
    ;
    assert(rest * fine + fine <= step) by (nonlinear_arith)
        requires
            rest + 1 <= unit,
            step == unit * fine,
    ;
    assert(rest * fine >= 0);
    if rest < half {
        assert(rest * fine + fine <= half * fine) by (nonlinear_arith)
            requires
                rest + 1 <= half,
        ;
    } else if rest > half {
        assert(rest * fine >= half * fine + fine) by (nonlinear_arith)
            requires
                rest >= half + 1,
        ;
    }
    assert(below % 2 == significand % 2) by {
        let parity = pow2(width) / 2;
        assert(exponent * pow2(width) == 2 * (exponent * parity)) by (nonlinear_arith)
            requires
                pow2(width) == 2 * parity,
        ;
    }
    let up = rest > half || (rest == half && (inexact || significand % 2 == 1));
    lemma_nearest_between(exact, guard, below, up, width, top);
}

/// The significand that is kept has the digits that it should have.
proof fn lemma_split_significand(
    n: nat,
    length: nat,
    shift: nat,
    width: nat,
    full: bool,
)
    requires
        length >= 1,
        pow2((length - 1) as nat) <= n < pow2(length),
        length <= shift + width + 1,
        full ==> length == shift + width + 1,
    ensures
        n / pow2(shift) < 2 * pow2(width),
        full ==> pow2(width) <= n / pow2(shift),
{
    let unit = pow2(shift);
    lemma_pow2_pos(shift);
    lemma_pow2_unfold(width + 1);
    lemma_pow2_adds(shift, width + 1);
    if length < shift + width + 1 {
        lemma_pow2_strictly_increases(length, shift + width + 1);
    }
    lemma_multiply_divide_lt(n as int, unit as int, pow2(width + 1) as int);
    if full {
        lemma_pow2_adds(shift, width);
        lemma_multiply_divide_le(pow2(shift + width) as int, unit as int, pow2(width) as int);
        lemma_div_multiples_vanish(pow2(width) as int, unit as int);
        lemma_div_is_ordered(pow2(shift + width) as int, n as int, unit as int);
    }
}

/// The rounding of a magnitude of which `n`, `scale` and `inexact` tell enough.
/// `top_exponent` is the biased exponent of infinity.
pub(crate) fn round(
    n: u64,
    scale: u32,
    inexact: bool,
    guard: u32,
    width: u32,
    top_exponent: u32,
    Ghost(exact): Ghost<nat>,
) -> (pattern: u64)
    requires
        truncates(n as nat, scale as nat, inexact, exact),
        inexact ==> n >= pow2((width + 1) as nat),
        1 <= width <= 52,
        scale <= 2000,
        guard <= 2000,
        2 <= top_exponent <= 2047,
    ensures
        pattern == nearest(
            exact,
            guard as nat,
            width as nat,
            top_exponent as nat * pow2(width as nat),
        ),
        pattern <= top_exponent as nat * pow2(width as nat),
        is_nearest(
            exact,
            guard as nat,
            pattern as nat,
            width as nat,
            top_exponent as nat * pow2(width as nat),
        ),
{
    let ghost top: nat = top_exponent as nat * pow2(width as nat);
    proof {
        lemma_width_bounds(width as nat);
        assert(top_exponent as nat * pow2(width as nat) <= 2047 * 0x10_0000_0000_0000)
            by (nonlinear_arith)
            requires
                top_exponent <= 2047,
                pow2(width as nat) <= 0x10_0000_0000_0000,
        ;
        assert(top > 0) by (nonlinear_arith)
            requires
                top == top_exponent as nat * pow2(width as nat),
                top_exponent > 0,
                pow2(width as nat) > 0,
        ;
    }
    let base: u64 = power_of_two(width) as u64;
    if n == 0 {
        proof {
            lemma_zero_rounds_to_zero(scale as nat, guard as nat, width as nat, top);
            lemma_nearest_is(exact, guard as nat, 0, width as nat, top);
        }
        return 0;
    }
    let length: u32 = bit_length(n);
    let kept: i64 = length as i64 - (width as i64 + 1);
    let floor: i64 = guard as i64 - scale as i64;
    let shift: i64 = if kept >= floor {
        kept
    } else {
        floor
    };
    let exponent: i64 = scale as i64 + shift - guard as i64;
    if exponent + 1 >= top_exponent as i64 {
        proof {
            lemma_overflows(
                n as nat,
                scale as nat,
                length as nat,
                shift as int,
                guard as nat,
                width as nat,
                top_exponent as nat,
                exact,
            );
            lemma_nearest_is(exact, guard as nat, top, width as nat, top);
        }
        return top_exponent as u64 * base;
    }
    proof {
        assert(exponent * base <= 2045 * base) by (nonlinear_arith)
            requires
                exponent <= 2045,
                base >= 0,
        ;
        assert(exponent * base >= 0) by (nonlinear_arith)
            requires
                exponent >= 0,
                base >= 0,
        ;
    }
    if shift <= 0 {
        let factor: u128 = power_of_two((-shift) as u32);
        proof {
            lemma_fits(
                n as nat,
                scale as nat,
                length as nat,
                (-shift) as nat,
                exponent as nat,
                guard as nat,
                width as nat,
            );
        }
        let significand: u64 = (n as u128 * factor) as u64;
        let pattern: u64 = exponent as u64 * base + significand;
        proof {
            lemma_below_top(exponent as nat, significand as nat, base as nat, top_exponent as nat);
            assert(!inexact);
            lemma_nearest_exact(pattern as nat, guard as nat, width as nat, top);
            lemma_nearest_is(exact, guard as nat, pattern as nat, width as nat, top);
        }
        return pattern;
    }
    if shift > 64 {
        proof {
            lemma_underflows(n as nat, scale as nat, inexact, guard as nat, width as nat, top, exact);
            lemma_nearest_is(exact, guard as nat, 0, width as nat, top);
        }
        return 0;
    }
    let unit: u128 = power_of_two(shift as u32);
    proof {
        lemma_split_significand(
            n as nat,
            length as nat,
            shift as nat,
            width as nat,
            shift == kept,
        );
    }
    let significand: u64 = (n as u128 / unit) as u64;
    let rest: u128 = n as u128 % unit;
    let half: u128 = unit / 2;
    let below: u64 = exponent as u64 * base + significand;
    let up: bool = rest > half || (rest == half && (inexact || significand % 2 == 1));
    proof {
        lemma_below_top(exponent as nat, significand as nat, base as nat, top_exponent as nat);
        lemma_splits(
            n as nat,
            scale as nat,
            inexact,
            shift as nat,
            exponent as nat,
            guard as nat,
            width as nat,
            top,
            exact,
        );
        lemma_nearest_is(
            exact,
            guard as nat,
            if up {
                (below + 1) as nat
            } else {
                below as nat
            },
            width as nat,
            top,
        );
    }
    if up {
        below + 1
    } else {
        below
    }
}

} // verus!
