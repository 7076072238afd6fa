//! Doubles on their way to narrower and wider formats.

use vstd::arithmetic::power2::{
    lemma2_to64, lemma_pow2_adds, lemma_pow2_pos, lemma_pow2_strictly_increases, lemma_pow2_unfold, pow2,
};
use vstd::prelude::*;

use crate::arith::highest_bit;
use crate::ops::float::{
    double_of_size, encode, infinity, is_finite, is_nan, is_negative, lemma_double_bound, lemma_parts,
    lemma_rounded_factor, lemma_top, lemma_top_between, lemma_top_scaled, magnitude, nan, negative, parts,
    round_quotient, rounded_quotient, signed_bits, size_of, size_of_float, split_float, with_sign,
};

verus! {

/// The magnitude of the single nearest to `size` times the smallest double, ties to
/// even. What is too large becomes infinite.
pub open spec fn single_of_size(size: nat) -> int {
    let top = highest_bit(size);
    let nearest = if top >= 948 {
        (top - 948) * 0x80_0000 + rounded_quotient(size as int, pow2((top - 23) as nat) as int, 0, false)
    } else {
        rounded_quotient(size as int, pow2(925) as int, 0, false)
    };
    if nearest > infinity(false) {
        infinity(false) as int
    } else {
        nearest
    }
}

/// The single nearest to a double. A NaN keeps the upper part of its payload and becomes
/// quiet.
pub open spec fn narrowed(bits: u64) -> u64 {
    let sign = is_negative(bits, true);
    let m = magnitude(bits, true);
    if is_nan(bits, true) {
        with_sign(sign, 0x7FC0_0000 + (m as int % 0x8_0000_0000_0000) / 0x2000_0000, false)
    } else if m == infinity(true) {
        with_sign(sign, infinity(false) as int, false)
    } else {
        with_sign(sign, single_of_size(size_of(m as int, true) as nat), false)
    }
}

pub fn narrow(bits: u64) -> (single: u64)
    ensures
        single == narrowed(bits),
        single < 0x1_0000_0000,
{
    let sign = negative(bits, true);
    let size = size_of_float(bits, true);
    if nan(bits, true) {
        return signed_bits(sign, 0x7FC0_0000 + (size % 0x8_0000_0000_0000) / 0x2000_0000, false);
    }
    if size == 0x7FF0_0000_0000_0000 {
        return signed_bits(sign, 0x7F80_0000, false);
    }
    let (digits, scale) = split_float(bits, true);
    proof {
        lemma_parts(bits, true);
        lemma2_to64();
        vstd::arithmetic::power2::lemma2_to64_rest();
        lemma_pow2_pos(scale as nat);
    }
    let ghost whole = (digits * pow2(scale as nat)) as nat;
    if scale >= 896 {
        proof {
            lemma_top_between(digits as nat, 52);
            lemma_top_scaled(digits as nat, scale as nat);
            lemma_pow2_adds(29, scale as nat);
            lemma_rounded_factor(digits as int, 0x2000_0000, pow2(scale as nat) as int, 0, false);
        }
        let quotient = round_quotient(digits, 0x2000_0000, 0, false);
        let nearest = (scale as u64 - 896) * 0x80_0000 + quotient;
        if nearest > 0x7F80_0000 {
            signed_bits(sign, 0x7F80_0000, false)
        } else {
            signed_bits(sign, nearest, false)
        }
    } else {
        proof {
            if digits > 0 {
                lemma_top_scaled(digits as nat, scale as nat);
                lemma_top(digits as nat);
                if highest_bit(digits as nat) > 52 {
                    if highest_bit(digits as nat) > 53 {
                        lemma_pow2_strictly_increases(53, highest_bit(digits as nat));
                    }
                }
            } else {
                assert(digits * pow2(scale as nat) == 0) by (nonlinear_arith)
                    requires
                        digits == 0,
                ;
            }
            lemma_pow2_adds((925 - scale) as nat, scale as nat);
            lemma_pow2_pos((925 - scale) as nat);
            lemma_rounded_factor(
                digits as int,
                pow2((925 - scale) as nat) as int,
                pow2(scale as nat) as int,
                0,
                false,
            );
        }
        let place = 925 - scale;
        if place > 54 {
            proof {
                lemma_pow2_strictly_increases(54, place as nat);
                vstd::arithmetic::div_mod::lemma_small_mod(digits as nat, pow2(place as nat));
                vstd::arithmetic::div_mod::lemma_basic_div(digits as int, pow2(place as nat) as int);
            }
            signed_bits(sign, 0, false)
        } else {
            let unit = crate::arith::power_of_two(place);
            proof {
                if place > 29 {
                    lemma_pow2_strictly_increases(29, place as nat);
                }
                let d = digits as int;
                let u = unit as int;
                assert(d / u < 0x100_0000) by (nonlinear_arith)
                    requires
                        d < 0x20_0000_0000_0000,
                        u >= 0x2000_0000,
                ;
            }
            signed_bits(sign, round_quotient(digits, unit, 0, false), false)
        }
    }
}

/// The ten-byte format of a double: the significand with its leading bit, then sign and
/// exponent. Exact for every finite double; every NaN becomes the default one.
pub open spec fn extended(bits: u64) -> (u64, u16) {
    let sign = if is_negative(bits, true) {
        0x8000int
    } else {
        0
    };
    let m = magnitude(bits, true);
    let (digits, scale) = parts(bits, true);
    let top = highest_bit(digits as nat);
    if is_nan(bits, true) {
        (0xC000_0000_0000_0000, (sign + 0x7FFF) as u16)
    } else if m == infinity(true) {
        (0x8000_0000_0000_0000, (sign + 0x7FFF) as u16)
    } else if m == 0 {
        (0, sign as u16)
    } else {
        ((digits * pow2((63 - top) as nat)) as u64, (sign + top + scale + 15309) as u16)
    }
}

pub fn f64_to_extended80(bits: u64) -> (result: (u64, u16))
    ensures
        result == extended(bits),
{
    let sign: u16 = if negative(bits, true) { 0x8000 } else { 0 };
    let size = size_of_float(bits, true);
    if nan(bits, true) {
        return (0xC000_0000_0000_0000, sign + 0x7FFF);
    }
    if size == 0x7FF0_0000_0000_0000 {
        return (0x8000_0000_0000_0000, sign + 0x7FFF);
    }
    if size == 0 {
        return (0, sign);
    }
    let (digits, scale) = split_float(bits, true);
    let top = crate::arith::top_bit(digits);
    let factor = crate::arith::power_of_two_u64((63 - top) as u32);
    proof {
        lemma_extended_digits(digits, top as nat);
    }
    (digits * factor, sign + top as u16 + scale as u16 + 15309)
}

/// A significand moved up until its leading bit is the highest of a word.
proof fn lemma_extended_digits(digits: u64, top: nat)
    requires
        0 < digits < 0x20_0000_0000_0000,
        top == highest_bit(digits as nat),
    ensures
        top <= 52,
        0x8000_0000_0000_0000 <= digits * pow2((63 - top) as nat) < 0x1_0000_0000_0000_0000,
        highest_bit((digits * pow2((63 - top) as nat)) as nat) == 63,
{
    lemma2_to64();
    vstd::arithmetic::power2::lemma2_to64_rest();
    lemma_top(digits as nat);
    if top > 52 {
        if top > 53 {
            lemma_pow2_strictly_increases(53, top);
        }
    }
    lemma_top_scaled(digits as nat, (63 - top) as nat);
    lemma_top((digits * pow2((63 - top) as nat)) as nat);
}

/// The rounded significand and the scale of a ten-byte number, as a multiple of the
/// smallest double: 53 bits, or fewer where the result is subnormal.
pub open spec fn extended_parts(digits: u64, field: nat) -> (int, int) {
    let top = highest_bit(digits as nat);
    let scale = field - 15372;
    if top > 52 && scale + top >= 52 {
        (rounded_quotient(digits as int, pow2((top - 52) as nat) as int, 0, false), scale + top - 52)
    } else if scale >= 0 {
        (digits as int, scale)
    } else {
        (rounded_quotient(digits as int, pow2((-scale) as nat) as int, 0, false), 0)
    }
}

/// The double nearest to a ten-byte number, ties to even. What is too large becomes
/// infinite, and what is no number the default NaN.
pub open spec fn from_extended(digits: u64, word: u16) -> u64 {
    let sign = word >= 0x8000;
    let field = (word % 0x8000) as nat;
    let (rounded, scale) = extended_parts(digits, field);
    if field == 0x7FFF {
        if digits % 0x8000_0000_0000_0000 == 0 {
            with_sign(sign, infinity(true) as int, true)
        } else {
            0x7FF8_0000_0000_0000
        }
    } else if digits == 0 {
        with_sign(sign, 0, true)
    } else {
        let size = double_of_size((rounded * pow2(scale as nat)) as nat);
        with_sign(
            sign,
            if size > infinity(true) {
                infinity(true) as int
            } else {
                size
            },
            true,
        )
    }
}

/// Encodes a significand of 53 bits, or the one that rounding up makes of it.
fn encode_rounded(digits: u64, scale: u32) -> (size: u64)
    requires
        digits <= 0x20_0000_0000_0000,
        scale <= 0x7FFF,
    ensures
        size == {
            let exact = double_of_size((digits * pow2(scale as nat)) as nat);
            if exact > infinity(true) {
                infinity(true) as int
            } else {
                exact
            }
        },
{
    proof {
        lemma2_to64();
        vstd::arithmetic::power2::lemma2_to64_rest();
        lemma_pow2_pos(scale as nat);
    }
    if digits == 0x20_0000_0000_0000 {
        proof {
            lemma_pow2_unfold((scale + 1) as nat);
            let p = pow2(scale as nat) as int;
            let p2 = pow2((scale + 1) as nat) as int;
            assert(0x20_0000_0000_0000 * p == 0x10_0000_0000_0000 * p2);
        }
        return encode_rounded_below(0x10_0000_0000_0000, scale + 1);
    }
    encode_rounded_below(digits, scale)
}

fn encode_rounded_below(digits: u64, scale: u32) -> (size: u64)
    requires
        digits < 0x20_0000_0000_0000,
        scale <= 0x8000,
    ensures
        size == {
            let exact = double_of_size((digits * pow2(scale as nat)) as nat);
            if exact > infinity(true) {
                infinity(true) as int
            } else {
                exact
            }
        },
{
    proof {
        lemma2_to64();
        vstd::arithmetic::power2::lemma2_to64_rest();
        lemma_pow2_pos(scale as nat);
    }
    if digits == 0 {
        assert(digits * pow2(scale as nat) == 0) by (nonlinear_arith)
            requires
                digits == 0,
        ;
        return 0;
    }
    if scale <= 2045 {
        proof {
            lemma_double_bound(digits as nat, scale as nat);
        }
        return encode(digits, scale);
    }
    let top = crate::arith::top_bit(digits);
    proof {
        lemma_top_scaled(digits as nat, scale as nat);
        lemma_top(digits as nat);
        if top > 52 {
            if top > 53 {
                lemma_pow2_strictly_increases(53, top as nat);
            }
        }
    }
    let field = top as u32 + scale - 52;
    let ghost whole = (digits * pow2(scale as nat)) as nat;
    proof {
        let n = whole as int;
        lemma_top(whole);
        lemma_pow2_strictly_increases(52, (top + scale) as nat);
        lemma_pow2_adds((52 - top) as nat, field as nat);
        lemma_pow2_pos(field as nat);
        lemma_pow2_adds((52 - top) as nat, top as nat);
        lemma_pow2_adds((52 - top) as nat, (top + 1) as nat);
        let d = digits as int;
        let f = pow2((52 - top) as nat) as int;
        let q = pow2(field as nat) as int;
        let t = pow2(top as nat) as int;
        let u = pow2((top + 1) as nat) as int;
        assert(d * (f * q) == (d * f) * q) by (nonlinear_arith);
        vstd::arithmetic::div_mod::lemma_div_multiples_vanish(d * f, q);
        assert(q * (d * f) == (d * f) * q) by (nonlinear_arith);
        assert(0x10_0000_0000_0000 <= d * f < 0x20_0000_0000_0000) by (nonlinear_arith)
            requires
                t <= d < u,
                f > 0,
                f * t == 0x10_0000_0000_0000,
                f * u == 0x20_0000_0000_0000,
        ;
        assert(double_of_size(whole) == field * 0x10_0000_0000_0000 + d * f);
    }
    if field > 2045 {
        0x7FF0_0000_0000_0000
    } else {
        let factor = crate::arith::power_of_two_u64((52 - top) as u32);
        field as u64 * 0x10_0000_0000_0000 + digits * factor
    }
}

pub fn extended80_to_f64(digits: u64, word: u16) -> (bits: u64)
    ensures
        bits == from_extended(digits, word),
{
    let sign = word >= 0x8000;
    let field = (word % 0x8000) as u32;
    if field == 0x7FFF {
        return if digits % 0x8000_0000_0000_0000 == 0 {
            signed_bits(sign, 0x7FF0_0000_0000_0000, true)
        } else {
            0x7FF8_0000_0000_0000
        };
    }
    if digits == 0 {
        return signed_bits(sign, 0, true);
    }
    let top = crate::arith::top_bit(digits) as u32;
    proof {
        lemma2_to64();
        vstd::arithmetic::power2::lemma2_to64_rest();
        lemma_top(digits as nat);
    }
    if top > 52 && field + top >= 15372 + 52 {
        let unit = crate::arith::power_of_two(top - 52);
        proof {
            lemma_unit_bounds(digits, top as nat);
        }
        let rounded = round_quotient(digits, unit, 0, false);
        return signed_bits(sign, encode_rounded(rounded, field + top - 15372 - 52), true);
    }
    if field >= 15372 {
        proof {
            assert(top <= 52);
            lemma_pow2_unfold(53);
            if top < 52 {
                lemma_pow2_strictly_increases((top + 1) as nat, 53);
            }
        }
        return signed_bits(sign, encode_rounded(digits, field - 15372), true);
    }
    let place = 15372 - field;
    proof {
        let n = place as nat;
        lemma_pow2_pos(n);
        if place > 1 {
            lemma_pow2_strictly_increases(1, n);
        }
    }
    if place > 65 {
        proof {
            lemma_pow2_strictly_increases(65, place as nat);
            lemma_pow2_unfold(65);
            vstd::arithmetic::div_mod::lemma_small_mod(digits as nat, pow2(place as nat));
            vstd::arithmetic::div_mod::lemma_basic_div(digits as int, pow2(place as nat) as int);
        }
        return signed_bits(sign, encode_rounded(0, 0), true);
    }
    let unit = crate::arith::power_of_two(place);
    proof {
        // Below the smallest normal double, at most 52 bits are left.
        let n = place as nat;
        let u = unit as int;
        let d = digits as int;
        if top <= 52 {
            if top < 52 {
                lemma_pow2_strictly_increases((top + 1) as nat, 53);
            }
            assert(d / u <= d / 2) by {
                vstd::arithmetic::div_mod::lemma_div_is_ordered_by_denominator(d, 2, u);
            }
        } else {
            lemma_pow2_adds(n, 52);
            if top + 1 < n + 52 {
                lemma_pow2_strictly_increases((top + 1) as nat, (n + 52) as nat);
            }
            assert(d / u < 0x10_0000_0000_0000) by (nonlinear_arith)
                requires
                    0 <= d < u * 0x10_0000_0000_0000,
                    u > 0,
            ;
        }
    }
    let rounded = round_quotient(digits, unit, 0, false);
    signed_bits(sign, encode_rounded(rounded, 0), true)
}

proof fn lemma_unit_bounds(digits: u64, top: nat)
    requires
        52 < top <= 63,
        pow2(top) <= digits < pow2((top + 1) as nat),
    ensures
        pow2((top - 52) as nat) >= 2,
        digits as int / (pow2((top - 52) as nat) as int) < 0x20_0000_0000_0000,
{
    lemma2_to64();
    vstd::arithmetic::power2::lemma2_to64_rest();
    if top > 53 {
        lemma_pow2_strictly_increases(1, (top - 52) as nat);
    }
    lemma_pow2_adds((top - 52) as nat, 53);
    let u = pow2((top - 52) as nat) as int;
    let d = digits as int;
    assert(d / u < 0x20_0000_0000_0000) by (nonlinear_arith)
        requires
            0 <= d < u * 0x20_0000_0000_0000,
            u > 0,
    ;
}

/// A multiple of the unit is rounded to itself.
proof fn lemma_rounds_to_itself(count: int, unit: int)
    requires
        unit > 0,
    ensures
        rounded_quotient(count * unit, unit, 0, false) == count,
{
    vstd::arithmetic::div_mod::lemma_fundamental_div_mod_converse(count * unit, unit, count, 0);
}

/// What the stored significand is rounded to has the size of the double.
proof fn lemma_stored_parts(digits: u64, scale: nat, field: nat)
    requires
        0 < digits < 0x20_0000_0000_0000,
        scale > 0 ==> digits >= 0x10_0000_0000_0000,
        field == highest_bit(digits as nat) + scale + 15309,
    ensures
        ({
            let stored = (digits * pow2((63 - highest_bit(digits as nat)) as nat)) as u64;
            let (rounded, places) = extended_parts(stored, field);
            rounded * pow2(places as nat) == digits * pow2(scale)
        }),
{
    let top = highest_bit(digits as nat);
    lemma_extended_digits(digits, top);
    lemma2_to64();
    vstd::arithmetic::power2::lemma2_to64_rest();
    let up = (63 - top) as nat;
    let stored = (digits * pow2(up)) as u64;
    let d = digits as int;
    let f = pow2(up) as int;
    lemma_pow2_pos(up);
    if top + scale >= 52 {
        lemma_pow2_adds((52 - top) as nat, 11);
        let g = pow2((52 - top) as nat) as int;
        assert(d * f == (d * g) * 0x800) by (nonlinear_arith)
            requires
                f == g * 0x800,
        ;
        lemma_rounds_to_itself(d * g, 0x800);
        lemma_pow2_adds((52 - top) as nat, (top + scale - 52) as nat);
        let rest = pow2((top + scale - 52) as nat) as int;
        let p = pow2(scale) as int;
        assert((d * g) * rest == d * p) by (nonlinear_arith)
            requires
                p == g * rest,
        ;
    } else {
        // A subnormal: the whole of it lies above the unit.
        assert(scale == 0) by {
            if scale > 0 {
                lemma_top_between(digits as nat, 52);
            }
        }
        lemma_rounds_to_itself(d, f);
    }
}

/// The ten-byte format holds every double but the NaNs: reading back what was stored
/// gives the same bits.
pub proof fn extended_round_trip(bits: u64)
    requires
        !is_nan(bits, true),
    ensures
        from_extended(extended(bits).0, extended(bits).1) == bits,
{
    let sign = is_negative(bits, true);
    let m = magnitude(bits, true);
    assert(with_sign(sign, m as int, true) == bits);
    if is_finite(bits, true) && m != 0 {
        lemma_parts(bits, true);
        let (digits, scale) = parts(bits, true);
        let top = highest_bit(digits as nat);
        lemma_extended_digits(digits, top);
        let (stored, word) = extended(bits);
        let field = (word % 0x8000) as nat;
        assert(field == top + scale + 15309);
        assert((word >= 0x8000) == sign);
        lemma_stored_parts(digits, scale, field);
        crate::ops::float::double_of_its_size(bits);
    }
}

} // verus!
