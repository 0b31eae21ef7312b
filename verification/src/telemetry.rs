//! The telemetry page that the game shares and the pedal inputs read from it.
use crate::binary32::Binary32;
use crate::binary64::Binary64;
use vstd::arithmetic::mul::*;
use vstd::arithmetic::power2::*;
use vstd::math::*;
use vstd::prelude::*;

verus! {

/// Timeout of a wait on a kernel object that means "wait forever".
pub const INFINITE: u32 = 0xFFFF_FFFF;

/// Sampling period in milliseconds, about 333 samples a second.
pub const PERIOD_MS: u64 = 3;

/// The same period in intervals of 100 ns; negative means relative to now.
pub const PERIOD_100NS: i64 = -30_000;

/// Name of the shared memory that holds the page.
pub const PAGE_NAME: &'static str = "Local\\acevo_pmf_physics";

/// Size of the part of the shared page that is read.
pub const PAGE_SIZE: usize = 12;

/// The first three fields of the physics page.
///
/// The page is packed and every field is four bytes wide, so the layout is a
/// flat little-endian blob without padding:
///
/// | offset | field     |
/// |--------|-----------|
/// |  0     | packet_id |
/// |  4     | throttle  |
/// |  8     | brake     |
#[derive(Clone, Copy, Debug, PartialEq, Eq, Structural)]
pub struct PhysicsPage {
    /// Number of the packet.
    pub packet_id: i32,
    /// Throttle input, from 0 to 1.
    pub throttle: Binary32,
    /// Brake input, from 0 to 1.
    pub brake: Binary32,
}

/// The four bytes from `at` on as a little-endian number.
pub open spec fn word_at(bytes: Seq<u8>, at: int) -> int {
    bytes[at] + 0x100 * bytes[at + 1] + 0x1_0000 * bytes[at + 2] + 0x100_0000 * bytes[at + 3]
}

/// Reads a word as a number in two's complement.
pub open spec fn twos_complement(word: int) -> int {
    if word < 0x8000_0000 {
        word
    } else {
        word - 0x1_0000_0000
    }
}

/// The four bytes from `at` on as a little-endian number.
fn word(bytes: &[u8; PAGE_SIZE], at: usize) -> (word: u32)
    requires
        at + 4 <= 12,
    ensures
        word == word_at(bytes@, at as int),
{
    bytes[at] as u32 + 0x100 * bytes[at + 1] as u32 + 0x1_0000 * bytes[at + 2] as u32 + 0x100_0000
        * bytes[at + 3] as u32
}

impl PhysicsPage {
    /// The page that a blob holds: each field at its offset.
    pub open spec fn parsed(bytes: Seq<u8>) -> PhysicsPage {
        PhysicsPage {
            packet_id: twos_complement(word_at(bytes, 0)) as i32,
            throttle: Binary32 { bits: word_at(bytes, 4) as u32 },
            brake: Binary32 { bits: word_at(bytes, 8) as u32 },
        }
    }

    /// A page with the given fields.
    pub fn new(packet_id: i32, throttle: Binary32, brake: Binary32) -> (page: PhysicsPage)
        ensures
            page == (PhysicsPage { packet_id, throttle, brake }),
    {
        PhysicsPage { packet_id, throttle, brake }
    }

    /// Reads a page out of its bytes in shared memory.
    pub fn from_bytes(bytes: &[u8; PAGE_SIZE]) -> (page: PhysicsPage)
        ensures
            page == PhysicsPage::parsed(bytes@),
    {
        let id: u32 = word(bytes, 0);
        let packet_id: i32 = if id < 0x8000_0000 {
            id as i32
        } else {
            (id as i64 - 0x1_0000_0000) as i32
        };
        let throttle: u32 = word(bytes, 4);
        let brake: u32 = word(bytes, 8);
        PhysicsPage::new(packet_id, Binary32 { bits: throttle }, Binary32 { bits: brake })
    }
}

/// The pedal inputs of one sample, in percent.
#[derive(Clone, Copy, Debug, PartialEq, Eq, Structural)]
pub struct Inputs {
    /// Throttle input in percent.
    pub throttle: Binary64,
    /// Brake input in percent.
    pub brake: Binary64,
}

impl Inputs {
    /// A sample with the given inputs.
    pub fn new(throttle: Binary64, brake: Binary64) -> (inputs: Inputs)
        ensures
            inputs == (Inputs { throttle, brake }),
    {
        Inputs { throttle, brake }
    }

    /// The throttle input.
    pub fn throttle(&self) -> (throttle: Binary64)
        ensures
            throttle == self.throttle,
    {
        self.throttle
    }

    /// The brake input.
    pub fn brake(&self) -> (brake: Binary64)
        ensures
            brake == self.brake,
    {
        self.brake
    }
}

/// One hundred, by which a pedal input is scaled.
#[verifier::allow_in_spec]
pub fn hundred() -> (hundred: Binary32)
    returns
        (Binary32 { bits: 0x42c8_0000 }),
{
    Binary32 { bits: 0x42c8_0000 }
}

/// A pedal input in percent: the single-precision product with one hundred, as
/// a double-precision number.
pub open spec fn percent(input: Binary32) -> Binary64 {
    Binary64::widened(input.product(hundred()))
}

impl From<PhysicsPage> for Inputs {
    /// The inputs of a page, in percent.
    fn from(page: PhysicsPage) -> (inputs: Inputs) {
        Inputs {
            throttle: Binary64::from_single(page.throttle.times(hundred())),
            brake: Binary64::from_single(page.brake.times(hundred())),
        }
    }
}

impl vstd::std_specs::convert::FromSpecImpl<PhysicsPage> for Inputs {
    open spec fn obeys_from_spec() -> bool {
        true
    }

    open spec fn from_spec(page: PhysicsPage) -> Inputs {
        Inputs { throttle: percent(page.throttle), brake: percent(page.brake) }
    }
}

/// Both ways to state the sampling period agree.
pub proof fn law_periods_agree()
    ensures
        PERIOD_100NS == -(PERIOD_MS * 10_000),
{
}

/// A word determines its bytes.
proof fn lemma_word_determines_bytes(a: Seq<u8>, b: Seq<u8>, at: int)
    requires
        word_at(a, at) == word_at(b, at),
    ensures
        a[at] == b[at],
        a[at + 1] == b[at + 1],
        a[at + 2] == b[at + 2],
        a[at + 3] == b[at + 3],
{
    let (a0, a1, a2, a3) = (a[at], a[at + 1], a[at + 2], a[at + 3]);
    let (b0, b1, b2, b3) = (b[at], b[at + 1], b[at + 2], b[at + 3]);
    assert(a0 == b0 && a1 == b1 && a2 == b2 && a3 == b3) by (bit_vector)
        requires
            a0 + 0x100 * a1 + 0x1_0000 * a2 + 0x100_0000 * a3 == b0 + 0x100 * b1 + 0x1_0000 * b2
                + 0x100_0000 * b3,
    ;
}

/// The layout has no padding: two blobs that hold the same page agree in every
/// byte.
pub proof fn law_layout_has_no_padding(a: Seq<u8>, b: Seq<u8>)
    requires
        a.len() == PAGE_SIZE,
        b.len() == PAGE_SIZE,
        PhysicsPage::parsed(a) == PhysicsPage::parsed(b),
    ensures
        a == b,
{
    lemma_word_determines_bytes(a, b, 0);
    lemma_word_determines_bytes(a, b, 4);
    lemma_word_determines_bytes(a, b, 8);
    assert forall|i: int| 0 <= i < 12 implies a[i] == b[i] by {
        assert(i == 0 || i == 1 || i == 2 || i == 3 || i == 4 || i == 5 || i == 6 || i == 7 || i
            == 8 || i == 9 || i == 10 || i == 11);
    }
    assert(a =~= b);
}

/// The magnitude of one hundred.
proof fn lemma_hundred()
    ensures
        hundred().magnitude() == 100 * pow2(149),
        hundred().pattern() == 0x42c8_0000,
        !hundred().is_negative(),
        pow2(23) == 0x80_0000,
        255 * pow2(23) == 0x7f80_0000,
        2047 * pow2(52) == 0x7ff0_0000_0000_0000,
{
    lemma2_to64();
    lemma2_to64_rest();
    let pattern: nat = 0x42c8_0000;
    assert(pattern / pow2(23) == 133);
    assert(pattern % pow2(23) == 0x48_0000);
    assert(hundred().magnitude() == 0xc8_0000 * pow2(132));
    lemma_pow2_adds(17, 132);
    assert(pow2(17) == 0x2_0000);
    assert(0xc8_0000 * pow2(132) == 100 * (0x2_0000 * pow2(132))) by (nonlinear_arith);
}

/// The pattern of a magnitude's product with one hundred.
spec fn hundredfold(pattern: nat) -> nat {
    if pattern == 0x7f80_0000 {
        0x7f80_0000
    } else {
        crate::rounding::nearest(
            crate::rounding::magnitude(pattern, 23) * (100 * pow2(149)),
            149,
            23,
            255 * pow2(23),
        )
    }
}

/// The pattern of a single-precision magnitude in double precision.
spec fn widened_pattern(pattern: nat) -> nat {
    if pattern == 0x7f80_0000 {
        0x7ff0_0000_0000_0000
    } else {
        crate::rounding::nearest(
            crate::rounding::magnitude(pattern, 23) * pow2(925),
            0,
            52,
            2047 * pow2(52),
        )
    }
}

/// Scaling an input keeps its sign and works on its pattern.
proof fn lemma_percent_by_pattern(input: Binary32)
    requires
        !input.is_nan(),
    ensures
        hundredfold(input.pattern()) <= 0x7f80_0000,
        widened_pattern(hundredfold(input.pattern())) <= 0x7ff0_0000_0000_0000,
        percent(input).pattern() == widened_pattern(hundredfold(input.pattern())),
        percent(input).is_negative() == input.is_negative(),
        !percent(input).is_nan(),
{
    lemma_hundred();
    let pattern = input.pattern();
    crate::rounding::lemma_nearest_exists(
        crate::rounding::magnitude(pattern, 23) * (100 * pow2(149)),
        149,
        23,
        255 * pow2(23),
    );
    let scaled = hundredfold(pattern);
    crate::rounding::lemma_nearest_exists(
        crate::rounding::magnitude(scaled, 23) * pow2(925),
        0,
        52,
        2047 * pow2(52),
    );
}

/// Scaling a larger pattern does not give a smaller one.
proof fn lemma_hundredfold_monotone(smaller: nat, larger: nat)
    requires
        smaller <= larger <= 0x7f80_0000,
    ensures
        hundredfold(smaller) <= hundredfold(larger) <= 0x7f80_0000,
{
    lemma_hundred();
    let scale = 100 * pow2(149);
    let a = crate::rounding::magnitude(smaller, 23) * scale;
    let b = crate::rounding::magnitude(larger, 23) * scale;
    let top = 255 * pow2(23);
    if smaller < larger {
        crate::rounding::lemma_magnitude_increases(smaller, larger, 23);
    }
    lemma_mul_inequality(
        crate::rounding::magnitude(smaller, 23) as int,
        crate::rounding::magnitude(larger, 23) as int,
        scale as int,
    );
    crate::rounding::lemma_nearest_exists(a, 149, 23, top);
    crate::rounding::lemma_nearest_exists(b, 149, 23, top);
    crate::rounding::lemma_nearest_monotone(
        a,
        b,
        149,
        crate::rounding::nearest(a, 149, 23, top),
        crate::rounding::nearest(b, 149, 23, top),
        23,
        top,
    );
}

/// Widening a larger pattern does not give a smaller one.
proof fn lemma_widened_monotone(smaller: nat, larger: nat)
    requires
        smaller <= larger <= 0x7f80_0000,
    ensures
        widened_pattern(smaller) <= widened_pattern(larger) <= 0x7ff0_0000_0000_0000,
{
    lemma_hundred();
    let a = crate::rounding::magnitude(smaller, 23) * pow2(925);
    let b = crate::rounding::magnitude(larger, 23) * pow2(925);
    let top = 2047 * pow2(52);
    if smaller < larger {
        crate::rounding::lemma_magnitude_increases(smaller, larger, 23);
    }
    lemma_mul_inequality(
        crate::rounding::magnitude(smaller, 23) as int,
        crate::rounding::magnitude(larger, 23) as int,
        pow2(925) as int,
    );
    crate::rounding::lemma_nearest_exists(a, 0, 52, top);
    crate::rounding::lemma_nearest_exists(b, 0, 52, top);
    crate::rounding::lemma_nearest_monotone(
        a,
        b,
        0,
        crate::rounding::nearest(a, 0, 52, top),
        crate::rounding::nearest(b, 0, 52, top),
        52,
        top,
    );
}

/// Pressing a pedal further never lowers its percentage.
pub proof fn law_percent_is_monotone(less: Binary32, more: Binary32)
    requires
        less.no_more_than(more),
    ensures
        percent(less).value() <= percent(more).value(),
        !percent(less).is_nan(),
        !percent(more).is_nan(),
{
    lemma_percent_by_pattern(less);
    lemma_percent_by_pattern(more);
    let a = less.pattern();
    let b = more.pattern();
    if a <= b {
        lemma_hundredfold_monotone(a, b);
        lemma_widened_monotone(hundredfold(a), hundredfold(b));
        lemma_magnitudes_follow(percent(less).pattern(), percent(more).pattern());
    }
    if b <= a {
        lemma_hundredfold_monotone(b, a);
        lemma_widened_monotone(hundredfold(b), hundredfold(a));
        lemma_magnitudes_follow(percent(more).pattern(), percent(less).pattern());
    }
    lemma_hundred();
    assert(crate::rounding::magnitude(0, 23) == 0);
    if a < b {
        crate::rounding::lemma_magnitude_increases(a, b, 23);
    }
    if b < a {
        crate::rounding::lemma_magnitude_increases(b, a, 23);
    }
    if a > 0 {
        crate::rounding::lemma_magnitude_increases(0, a, 23);
    }
    if b > 0 {
        crate::rounding::lemma_magnitude_increases(0, b, 23);
    }
    if more.is_negative() && !less.is_negative() {
        assert(a == 0 && b == 0);
        lemma_zero_percent();
    }
}

/// Double-precision patterns are ordered as the magnitudes they stand for.
proof fn lemma_magnitudes_follow(smaller: nat, larger: nat)
    requires
        smaller <= larger,
    ensures
        crate::rounding::magnitude(smaller, 52) <= crate::rounding::magnitude(larger, 52),
{
    if smaller < larger {
        crate::rounding::lemma_magnitude_increases(smaller, larger, 52);
    }
}

/// Nothing of zero is zero.
proof fn lemma_zero_percent()
    ensures
        crate::rounding::magnitude(widened_pattern(hundredfold(0)), 52) == 0,
{
    lemma_hundred();
    lemma2_to64();
    lemma2_to64_rest();
    assert(crate::rounding::magnitude(0, 23) == 0);
    assert(crate::rounding::magnitude(0, 52) == 0);
    assert(crate::rounding::refined(0, 23, 149) == 0);
    assert(crate::rounding::refined(0, 52, 0) == 0);
    assert(0 * (100 * pow2(149)) == 0);
    assert(0 * pow2(925) == 0);
    crate::rounding::lemma_nearest_exact(0, 149, 23, 255 * pow2(23));
    crate::rounding::lemma_nearest_is(0, 149, 0, 23, 255 * pow2(23));
    crate::rounding::lemma_nearest_exact(0, 0, 52, 2047 * pow2(52));
    crate::rounding::lemma_nearest_is(0, 0, 0, 52, 2047 * pow2(52));
}

/// An input from 0 to 1 is a percentage from 0 to 100: the units of an input are
/// `2^-149` and those of a percentage `2^-1074`.
pub proof fn law_percent_is_in_range(input: Binary32)
    requires
        !input.is_nan(),
        0 <= input.value() <= pow2(149),
    ensures
        0 <= percent(input).value() <= 100 * pow2(1074),
        !percent(input).is_nan(),
        !percent(input).is_infinite(),
{
    lemma_percent_by_pattern(input);
    lemma_hundred();
    lemma2_to64();
    let one: nat = 0x3f80_0000;
    assert(one / pow2(23) == 127 && one % pow2(23) == 0);
    lemma_pow2_adds(23, 126);
    assert(crate::rounding::magnitude(one, 23) == pow2(149));
    let pattern = input.pattern();
    if pattern > one {
        crate::rounding::lemma_magnitude_increases(one, pattern, 23);
    }
    assert(crate::rounding::magnitude(0, 23) == 0);
    if input.is_negative() {
        if pattern > 0 {
            crate::rounding::lemma_magnitude_increases(0, pattern, 23);
        }
        lemma_zero_percent();
    }
    lemma_hundredfold_monotone(pattern, one);
    let exact = pow2(149) * (100 * pow2(149));
    assert(exact == (100 * pow2(149)) * pow2(149)) by (nonlinear_arith)
        requires
            exact == pow2(149) * (100 * pow2(149)),
    ;
    assert(exact == crate::rounding::refined(0x42c8_0000, 23, 149));
    crate::rounding::lemma_nearest_exact(0x42c8_0000, 149, 23, 255 * pow2(23));
    crate::rounding::lemma_nearest_is(exact, 149, 0x42c8_0000, 23, 255 * pow2(23));
    assert(hundredfold(one) == 0x42c8_0000);
    lemma_widened_monotone(hundredfold(pattern), 0x42c8_0000);
    crate::binary64::law_widening_is_exact(hundred());
    assert(Binary64::widened(hundred()).pattern() == widened_pattern(0x42c8_0000));
    lemma_magnitudes_follow(percent(input).pattern(), widened_pattern(0x42c8_0000));
    lemma_pow2_adds(149, 925);
    lemma_mul_is_associative(100, pow2(149) as int, pow2(925) as int);
}

/// A word is the sum of its bytes.
proof fn lemma_word_of_bytes(bytes: Seq<u8>, at: int, word: u32)
    requires
        bytes[at] == word % 0x100,
        bytes[at + 1] == word / 0x100 % 0x100,
        bytes[at + 2] == word / 0x1_0000 % 0x100,
        bytes[at + 3] == word / 0x100_0000,
    ensures
        word_at(bytes, at) == word,
{
}

/// A page that was written field by field, four little-endian bytes each, is read
/// back as it was: the packet's number in two's complement from the first four
/// bytes, the throttle from the next four, the brake from the last four, each
/// whatever the others are.
pub proof fn law_page_is_read_back(
    packet_id: i32,
    id: u32,
    throttle: u32,
    brake: u32,
    bytes: Seq<u8>,
)
    requires
        bytes.len() == 12,
        id == if packet_id >= 0 {
            packet_id as int
        } else {
            packet_id + 0x1_0000_0000
        },
        bytes[0] == id % 0x100,
        bytes[1] == id / 0x100 % 0x100,
        bytes[2] == id / 0x1_0000 % 0x100,
        bytes[3] == id / 0x100_0000,
        bytes[4] == throttle % 0x100,
        bytes[5] == throttle / 0x100 % 0x100,
        bytes[6] == throttle / 0x1_0000 % 0x100,
        bytes[7] == throttle / 0x100_0000,
        bytes[8] == brake % 0x100,
        bytes[9] == brake / 0x100 % 0x100,
        bytes[10] == brake / 0x1_0000 % 0x100,
        bytes[11] == brake / 0x100_0000,
    ensures
        PhysicsPage::parsed(bytes).packet_id == packet_id,
        PhysicsPage::parsed(bytes).throttle.bits == throttle,
        PhysicsPage::parsed(bytes).brake.bits == brake,
{
    lemma_word_of_bytes(bytes, 0, id);
    lemma_word_of_bytes(bytes, 4, throttle);
    lemma_word_of_bytes(bytes, 8, brake);
}

/// Each field depends on its own four bytes only.
pub proof fn law_fields_are_independent(a: Seq<u8>, b: Seq<u8>)
    requires
        a.len() == 12,
        b.len() == 12,
    ensures
        a.subrange(0, 4) == b.subrange(0, 4) ==> PhysicsPage::parsed(a).packet_id
            == PhysicsPage::parsed(b).packet_id,
        a.subrange(4, 8) == b.subrange(4, 8) ==> PhysicsPage::parsed(a).throttle
            == PhysicsPage::parsed(b).throttle,
        a.subrange(8, 12) == b.subrange(8, 12) ==> PhysicsPage::parsed(a).brake
            == PhysicsPage::parsed(b).brake,
{
    lemma_word_of_part(a, b, 0);
    lemma_word_of_part(a, b, 4);
    lemma_word_of_part(a, b, 8);
}

/// A word depends on its four bytes only.
proof fn lemma_word_of_part(a: Seq<u8>, b: Seq<u8>, at: int)
    requires
        a.len() == 12,
        b.len() == 12,
        0 <= at <= 8,
    ensures
        a.subrange(at, at + 4) == b.subrange(at, at + 4) ==> word_at(a, at) == word_at(b, at),
{
    let x = a.subrange(at, at + 4);
    let y = b.subrange(at, at + 4);
    if x == y {
        assert(x[0] == y[0] && x[1] == y[1] && x[2] == y[2] && x[3] == y[3]);
    }
}

/// The percentage of a finite input is a single-precision number, which is
/// returned: no finite one is nearer to a hundred times the input, and of two that
/// are as near the even one is taken. It keeps the sign. From half way to the
/// power of two beyond the range on it is infinite.
pub proof fn law_percent_is_nearest(input: Binary32, other: Binary32) -> (single: Binary32)
    requires
        !input.is_nan() && !input.is_infinite(),
        !other.is_nan() && !other.is_infinite(),
    ensures
        ({
            let result = percent(input);
            let exact = 100 * input.value();
            let here = abs(single.value() - exact);
            let there = abs(other.value() - exact);
            &&& !result.is_nan()
            &&& result.is_negative() == input.is_negative()
            &&& result.is_infinite() <==> abs(exact) >= 0x1ff_ffff * pow2(252)
            &&& !result.is_infinite() ==> !single.is_nan() && !single.is_infinite()
            &&& !result.is_infinite() ==> result.value() == single.value() * pow2(925)
            &&& !result.is_infinite() ==> here <= there
            &&& !result.is_infinite() && here == there && single.value() != other.value()
                ==> single.bits % 2 == 0
        }),
{
    let single = input.product(hundred());
    let exact = 100 * input.value();
    let unit = pow2(149) as int;
    lemma_hundred();
    lemma_pow2_pos(149);
    lemma_pow2_pos(252);
    lemma_pow2_adds(252, 149);
    crate::binary32::law_product_is_nearest(input, hundred(), other);
    assert(input.value() * (100 * unit) == exact * unit) by (nonlinear_arith)
        requires
            exact == 100 * input.value(),
    ;
    let limit = 0x1ff_ffff * pow2(252);
    assert(limit * unit == 0x1ff_ffff * pow2(401)) by (nonlinear_arith)
        requires
            limit == 0x1ff_ffff * pow2(252),
            pow2(252) * unit == pow2(401),
    ;
    crate::binary32::lemma_scaled_distance(exact, 0, unit);
    crate::binary32::lemma_scaled_distance(single.value(), exact, unit);
    crate::binary32::lemma_scaled_distance(other.value(), exact, unit);
    crate::binary32::lemma_order_kept(limit as int, abs(exact) as int, unit);
    crate::binary32::lemma_order_kept(
        abs(single.value() - exact) as int,
        abs(other.value() - exact) as int,
        unit,
    );
    crate::binary32::lemma_order_kept(
        abs(other.value() - exact) as int,
        abs(single.value() - exact) as int,
        unit,
    );
    if single.is_infinite() {
        crate::binary64::law_widening_of_specials(single);
    } else {
        crate::binary64::law_widening_is_exact(single);
    }
    single
}

/// Where a hundred times the input is a single-precision number, the percentage
/// is exactly that.
pub proof fn law_exact_percent(input: Binary32, hundredfold: Binary32)
    requires
        !input.is_nan() && !input.is_infinite(),
        !hundredfold.is_nan() && !hundredfold.is_infinite(),
        hundredfold.value() == 100 * input.value(),
    ensures
        percent(input).value() == 100 * input.value() * pow2(925),
        !percent(input).is_infinite(),
{
    let single = law_percent_is_nearest(input, hundredfold);
    lemma_finite_bound(hundredfold);
}

/// Finite numbers stay clear of where the infinities begin.
proof fn lemma_finite_bound(number: Binary32)
    requires
        !number.is_nan() && !number.is_infinite(),
    ensures
        abs(number.value()) < 0x1ff_ffff * pow2(252),
{
    lemma_hundred();
    let last: nat = 0x7f7f_ffff;
    assert(last / pow2(23) == 254 && last % pow2(23) == 0x7f_ffff);
    assert(crate::rounding::magnitude(last, 23) == 0xff_ffff * pow2(253));
    lemma_pow2_unfold(253);
    lemma_pow2_pos(252);
    if number.pattern() < last {
        crate::rounding::lemma_magnitude_increases(number.pattern(), last, 23);
    }
}

/// What is not a finite number stays what it is.
pub proof fn law_percent_of_specials(input: Binary32)
    ensures
        input.is_nan() ==> percent(input).is_nan(),
        input.is_infinite() ==> percent(input).is_infinite() && percent(input).is_negative()
            == input.is_negative(),
{
    lemma_hundred();
    lemma_pow2_pos(149);
    crate::binary32::lemma_zero_pattern(input);
    crate::binary32::law_product_of_specials(input, hundred());
    crate::binary64::law_widening_of_specials(input.product(hundred()));
}

/// The percentages of a page: each of them is that of its own pedal, whatever the
/// other pedal and the packet are.
pub proof fn law_inputs_follow_their_pedals(page: PhysicsPage, other: PhysicsPage)
    ensures
        ({
            let inputs = <Inputs as vstd::std_specs::convert::FromSpec<PhysicsPage>>::from_spec(page);
            let others = <Inputs as vstd::std_specs::convert::FromSpec<PhysicsPage>>::from_spec(
                other,
            );
            &&& inputs.throttle == percent(page.throttle)
            &&& inputs.brake == percent(page.brake)
            &&& page.throttle == other.throttle ==> inputs.throttle == others.throttle
            &&& page.brake == other.brake ==> inputs.brake == others.brake
            &&& page.throttle == page.brake ==> inputs.throttle == inputs.brake
        }),
{
}

} // verus!
