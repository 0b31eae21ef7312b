use telemetry_overlay::binary32::Binary32;
use telemetry_overlay::binary64::Binary64;

fn single(x: f32) -> Binary32 {
    Binary32 { bits: x.to_bits() }
}

fn float(x: Binary32) -> f32 {
    f32::from_bits(x.bits)
}

/// Bits that reach every corner of the format.
fn corners() -> Vec<u32> {
    let mut all: Vec<u32> = Vec::new();
    for exponent in [0u32, 1, 2, 22, 23, 24, 52, 53, 63, 64, 65, 75, 76, 77, 100, 103, 104, 113, 126,
        127, 128, 133, 150, 151, 163, 164, 200, 228, 229, 252, 253, 254, 255]
    {
        for fraction in [0u32, 1, 2, 3, 0x3f_ffff, 0x40_0000, 0x40_0001, 0x48_0000, 0x7f_fffd,
            0x7f_fffe, 0x7f_ffff]
        {
            let bits = (exponent << 23) | fraction;
            all.push(bits);
            all.push(bits | 0x8000_0000);
        }
    }
    all
}

struct Noise(u64);

impl Noise {
    fn next(&mut self) -> u64 {
        self.0 ^= self.0 << 13;
        self.0 ^= self.0 >> 7;
        self.0 ^= self.0 << 17;
        self.0
    }
}

fn same(ours: Binary32, theirs: f32) -> bool {
    if theirs.is_nan() {
        float(ours).is_nan()
    } else {
        ours.bits == theirs.to_bits()
    }
}

fn agree(a: u32, b: u32) {
    let (x, y) = (f32::from_bits(a), f32::from_bits(b));
    let (p, q) = (Binary32 { bits: a }, Binary32 { bits: b });
    assert!(same(p.times(q), x * y), "{a:#x} * {b:#x}");
    assert!(same(p.plus(q), x + y), "{a:#x} + {b:#x}");
    assert!(same(p.minus(q), x - y), "{a:#x} - {b:#x}");
    assert_eq!(p.at_most(q), x <= y, "{a:#x} <= {b:#x}");
    assert_eq!(p.exceeds(q), x > y, "{a:#x} > {b:#x}");
}

#[test]
fn operations_agree_with_the_processor_in_the_corners() {
    let all = corners();
    for a in &all {
        for b in &all {
            agree(*a, *b);
        }
    }
}

#[test]
fn operations_agree_with_the_processor_on_noise() {
    let mut noise = Noise(0x9e37_79b9_7f4a_7c15);
    for _ in 0..300_000 {
        let bits = noise.next();
        agree(bits as u32, (bits >> 32) as u32);
    }
}

#[test]
fn operations_agree_with_the_processor_on_close_exponents() {
    let mut noise = Noise(0x1234_5678_9abc_def1);
    for _ in 0..300_000 {
        let bits = noise.next();
        let near = noise.next();
        let exponent = (bits >> 40) as u32 % 200 + 20;
        let other = exponent + (near >> 40) as u32 % 45 - 20;
        let a = (bits as u32 & 0x807f_ffff) | (exponent << 23);
        let b = (near as u32 & 0x807f_ffff) | (other << 23);
        agree(a, b);
    }
}

#[test]
fn rounding_ties_go_to_even() {
    assert_eq!(float(single(16777216.0).plus(single(1.0))), 16777216.0);
    assert_eq!(float(single(16777218.0).plus(single(1.0))), 16777220.0);
}

#[test]
fn results_that_are_numbers_are_not_rounded() {
    assert_eq!(single(0.375).times(single(-8.0)), single(-3.0));
    assert_eq!(single(0.375).plus(single(0.125)), single(0.5));
    assert_eq!(single(8388608.0).plus(single(8388607.0)), single(16777215.0));
    assert_eq!(single(600.0).minus(single(14.0)), single(586.0));
}

#[test]
fn sums_of_squares_vanish_with_their_terms() {
    let small = f32::from_bits((127 - 75) << 23);
    let large = f32::from_bits(small.to_bits() + 1);
    assert_eq!(single(small).times(single(small)).bits, 0);
    assert_eq!(single(large).times(single(large)).bits, 1);
    assert!(single(0.0).plus(Binary32 { bits: 1 }).exceeds(Binary32::zero()));
    assert!(!single(0.0).plus(single(0.0)).exceeds(Binary32::zero()));
}

#[test]
fn overflow_gives_infinity_and_underflow_gives_zero() {
    assert_eq!(float(single(f32::MAX).times(single(2.0))), f32::INFINITY);
    assert_eq!(float(single(f32::MAX).opposite().times(single(2.0))), f32::NEG_INFINITY);
    let tiny = Binary32 { bits: 1 };
    assert_eq!(tiny.times(single(0.5)).bits, 0);
    assert_eq!(tiny.opposite().times(single(0.5)).bits, 0x8000_0000);
    assert_eq!(tiny.times(single(0.75)).bits, 1);
}

#[test]
fn indeterminate_results_are_the_quiet_nan() {
    let infinity = single(f32::INFINITY);
    assert_eq!(infinity.minus(infinity), Binary32::nan());
    assert_eq!(infinity.times(Binary32::zero()), Binary32::nan());
    assert_eq!(Binary32::nan().plus(single(1.0)), Binary32::nan());
    assert!(!Binary32::nan().at_most(Binary32::nan()));
    assert!(!Binary32::nan().exceeds(Binary32::zero()));
}

#[test]
fn exact_zero_sums_have_the_right_sign() {
    assert_eq!(single(1.5).minus(single(1.5)).bits, 0);
    assert_eq!(single(-0.0).plus(single(-0.0)).bits, 0x8000_0000);
    assert_eq!(single(-0.0).plus(single(0.0)).bits, 0);
    assert!(single(-0.0).at_most(single(0.0)) && single(0.0).at_most(single(-0.0)));
}

#[test]
fn widening_agrees_with_the_processor() {
    let mut noise = Noise(77);
    let mut all = corners();
    for _ in 0..100_000 {
        all.push(noise.next() as u32);
    }
    for bits in all {
        let wide = f32::from_bits(bits) as f64;
        let ours = Binary64::from_single(Binary32 { bits });
        if wide.is_nan() {
            assert_eq!(ours, Binary64::nan());
        } else {
            assert_eq!(ours.bits, wide.to_bits(), "{bits:#x}");
        }
    }
}

#[test]
fn counts_agree_with_the_processor() {
    let mut noise = Noise(5);
    let mut all: Vec<u64> = vec![0, 1, 2, 3, 999, 1 << 52, (1 << 53) - 1, 1 << 53, (1 << 53) + 1,
        (1 << 53) + 2, (1 << 53) + 3, (1 << 54) + 2, (1 << 54) + 6, u64::MAX, u64::MAX - 1023, u64::MAX - 1024, u64::MAX - 1025];
    for shift in 0..64 {
        all.push(noise.next() >> shift);
    }
    for n in all {
        assert_eq!(Binary64::from_count(n).bits, (n as f64).to_bits(), "{n}");
    }
}
