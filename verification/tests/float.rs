use rish_softvm_core::ops::float::{
    compare, encode, finite, integer_to_float, nan, round_integral, round_quotient, round_to_integer, split_float,
    subnormal, widen_single, FloatOrder,
};
use rish_softvm_core::ops::precision::{extended80_to_f64, f64_to_extended80, narrow};
use rish_softvm_core::ops::x87_remainder::reduce;

/// Numbers without a pattern, always the same ones.
struct Numbers(u64);

impl Numbers {
    fn next(&mut self) -> u64 {
        self.0 = self.0.wrapping_mul(6_364_136_223_846_793_005).wrapping_add(1_442_695_040_888_963_407);
        self.0 ^ (self.0 >> 29)
    }
}

const EDGES: [u64; 16] = [
    0,
    1,
    0x000F_FFFF_FFFF_FFFF,
    0x0010_0000_0000_0000,
    0x3FD0_0000_0000_0000,
    0x3FE0_0000_0000_0000,
    0x3FE0_0000_0000_0001,
    0x3FF0_0000_0000_0000,
    0x3FF8_0000_0000_0000,
    0x4004_0000_0000_0000,
    0x4330_0000_0000_0001,
    0x43E0_0000_0000_0000,
    0x47EF_FFFF_F000_0000,
    0x36A0_0000_0000_0000,
    0x7FEF_FFFF_FFFF_FFFF,
    0x7FF0_0000_0000_0000,
];

fn doubles() -> Vec<u64> {
    let mut all: Vec<u64> = EDGES.iter().flat_map(|bits| [*bits, bits | 1 << 63]).collect();
    let mut numbers = Numbers(7);
    for _ in 0..400 {
        let bits = numbers.next();
        all.push(bits);
        // Near one, where rounding has something to do.
        all.push((bits & 0x800F_FFFF_FFFF_FFFF) | ((1000 + (bits >> 52) % 90) << 52));
    }
    all
}

#[test]
fn the_order_is_the_order_of_the_numbers() {
    let all = doubles();
    for pair in all.windows(2) {
        let (a, b) = (f64::from_bits(pair[0]), f64::from_bits(pair[1]));
        let expected = if a < b {
            FloatOrder::Less
        } else if a > b {
            FloatOrder::Greater
        } else if a == b {
            FloatOrder::Equal
        } else {
            FloatOrder::Unordered
        };
        assert_eq!(compare(pair[0], pair[1], true), expected, "{a} {b}");
        assert_eq!(nan(pair[0], true), a.is_nan());
        assert_eq!(finite(pair[0], true), a.is_finite());
        assert_eq!(subnormal(pair[0], true), a.is_subnormal());
    }
    assert_eq!(compare(0, 1 << 63, true), FloatOrder::Equal);
    assert_eq!(compare(0x7FC0_0000, 0, false), FloatOrder::Unordered);
    assert_eq!(compare(0xBF80_0000, 0x3F80_0000, false), FloatOrder::Less);
}

#[test]
fn rounding_gives_the_integral_number_of_the_mode() {
    for bits in doubles() {
        let value = f64::from_bits(bits);
        if value.is_nan() {
            continue;
        }
        let floor = value.floor();
        let nearest = if value - floor == 0.5 {
            2.0 * (value / 2.0).round()
        } else {
            value.round()
        };
        for (mode, expected) in [(0, nearest), (1, floor), (2, value.ceil()), (3, value.trunc())] {
            let rounded = f64::from_bits(round_integral(bits, true, mode));
            assert_eq!(rounded, expected, "{value} in mode {mode}");
            assert_eq!(rounded.is_sign_negative(), value.is_sign_negative());
            if value.is_finite() {
                let (size, inexact) = round_to_integer(bits, true, mode);
                assert_eq!(inexact, expected != value);
                if expected.abs() < 9.0e18 {
                    assert_eq!(size, Some(expected.abs() as u64));
                } else if expected.abs() >= 1.9e19 {
                    assert_eq!(size, None);
                }
            }
        }
    }
}

#[test]
fn integers_round_to_the_nearest_number() {
    let mut numbers = Numbers(11);
    let mut all = vec![0_i64, 1, -1, i64::MAX, i64::MIN, (1 << 53) + 1, (1 << 53) + 3, (1 << 24) + 1];
    for shift in 0..64 {
        all.push((numbers.next() >> shift) as i64);
    }
    for value in all {
        let (double, inexact) = integer_to_float(value, true, 0);
        assert_eq!(double, (value as f64).to_bits());
        assert_eq!(inexact, value as f64 as i128 != i128::from(value));
        let (single, inexact) = integer_to_float(value, false, 0);
        assert_eq!(single, u64::from((value as f32).to_bits()));
        assert_eq!(inexact, value as f32 as i128 != i128::from(value));
        let down = f64::from_bits(integer_to_float(value, true, 1).0) as i128;
        let up = f64::from_bits(integer_to_float(value, true, 2).0) as i128;
        assert!(down <= i128::from(value) && i128::from(value) <= up);
    }
}

#[test]
fn narrowing_rounds_as_the_host_does() {
    for bits in doubles() {
        let value = f64::from_bits(bits);
        if !value.is_nan() {
            assert_eq!(narrow(bits), u64::from((value as f32).to_bits()), "{value:e}");
        }
    }
}

#[test]
fn widening_keeps_the_number() {
    let mut numbers = Numbers(3);
    for _ in 0..400 {
        let single = numbers.next() >> 32;
        let value = f32::from_bits(single as u32);
        let (double, exceptions) = widen_single(single, false);
        if value.is_nan() {
            assert!(nan(double, true));
        } else {
            assert_eq!(double, f64::from(value).to_bits());
            assert_eq!(exceptions & 2 != 0, value.is_subnormal());
        }
    }
    assert_eq!(widen_single(0x8000_0001, true).0, 1 << 63);
    assert_eq!(widen_single(0x7F80_0001, false).1, 1);
}

#[test]
fn digits_and_scale_put_a_double_together_again() {
    for bits in doubles() {
        if finite(bits, true) {
            let (digits, scale) = split_float(bits, true);
            assert_eq!(encode(digits, scale), bits & !(1 << 63));
        }
    }
}

#[test]
fn the_ten_byte_format_holds_every_double() {
    for bits in doubles() {
        if !nan(bits, true) {
            let (digits, word) = f64_to_extended80(bits);
            assert_eq!(extended80_to_f64(digits, word), bits);
        }
    }
    assert_eq!(f64_to_extended80(1.0_f64.to_bits()), (1 << 63, 0x3FFF));
    assert_eq!(f64_to_extended80((-2.5_f64).to_bits()), (0xA000_0000_0000_0000, 0xC000));
    assert_eq!(extended80_to_f64(0xC000_0000_0000_0000, 0x7FFF), f64::NAN.to_bits());
}

#[test]
fn the_remainder_is_that_of_the_host() {
    let all = doubles();
    let mut close = 0;
    for pair in all.windows(2) {
        let (a, b) = (f64::from_bits(pair[0]), f64::from_bits(pair[1]));
        if !a.is_finite() || !b.is_finite() || a == 0.0 || b == 0.0 {
            continue;
        }
        let (left, _, partial) = reduce(pair[0], pair[1]);
        if !partial {
            assert_eq!(f64::from_bits(left), a % b, "{a:e} % {b:e}");
            close += 1;
        }
    }
    assert!(close > 100);
    let (left, quotient, partial) = reduce(17.0_f64.to_bits(), 5.0_f64.to_bits());
    assert_eq!((f64::from_bits(left), partial), (2.0, false));
    assert_eq!(quotient, reduce(3.5_f64.to_bits(), 1.0_f64.to_bits()).1);
}

#[test]
fn quotients_round_by_their_mode() {
    for (mode, negative, expected) in [
        (0, false, 2),
        (1, false, 1),
        (1, true, 2),
        (2, false, 2),
        (2, true, 1),
        (3, false, 1),
    ] {
        assert_eq!(round_quotient(6, 4, mode, negative), expected);
    }
    assert_eq!(round_quotient(10, 4, 0, false), 2);
    assert_eq!(round_quotient(11, 4, 0, false), 3);
}

#[test]
fn incomplete_reductions_are_exact_and_end() {
    let far = 2.0_f64.powi(200);
    let (left, quotient, partial) = reduce(far.to_bits(), 3.0_f64.to_bits());
    // The unit is 3 * 2^167: it goes 2863311530 times, and two thirds of it are left.
    assert_eq!((quotient, partial), (2, true));
    assert_eq!(f64::from_bits(left), 2.0_f64.powi(168));
    // The unit is 1.25 * 2^38: it goes 5153960755 times, and a fifth of it is left.
    let (left, quotient, partial) = reduce((1.5 * 2.0_f64.powi(70)).to_bits(), 1.25_f64.to_bits());
    assert_eq!((f64::from_bits(left), quotient, partial), (2.0_f64.powi(36), 3, true));
    // A subnormal divisor, in multiples of the smallest double: 2^65 over 3 * 2^32.
    assert_eq!(reduce(14 << 52, 3), (1 << 33, 2, true));
    let mut numbers = Numbers(23);
    for _ in 0..200 {
        let (mut a, b) = (numbers.next() & !(1 << 62), (numbers.next() & 0x800F_FFFF_FFFF_FFFF) | (1 << 52));
        let whole = f64::from_bits(a);
        if whole == 0.0 {
            continue;
        }
        let mut rounds = 0;
        loop {
            let (left, _, partial) = reduce(a, b);
            rounds += 1;
            assert!(rounds < 67);
            assert_eq!(f64::from_bits(left).is_sign_negative(), whole.is_sign_negative());
            if !partial || f64::from_bits(left) == 0.0 {
                assert_eq!(f64::from_bits(left), whole % f64::from_bits(b));
                break;
            }
            assert!(f64::from_bits(left).abs() < f64::from_bits(a).abs());
            a = left;
        }
    }
}
