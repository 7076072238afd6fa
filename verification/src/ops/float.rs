//! IEEE 754 numbers as bit patterns: comparison, rounding and conversion on integers
//! alone, so that nothing depends on the host's floating-point state. A function that
//! takes `double` reads a single in the low four bytes where it is not set.

use vstd::arithmetic::power2::{
    lemma2_to64, lemma_pow2_adds, lemma_pow2_pos, lemma_pow2_strictly_increases, lemma_pow2_unfold, pow2,
};
use vstd::prelude::*;

use crate::arith::highest_bit;

verus! {

/// How many values the fraction field has.
pub open spec fn fraction_span(double: bool) -> u64 {
    if double {
        0x10_0000_0000_0000
    } else {
        0x80_0000
    }
}

/// The bits of the fraction field.
pub open spec fn fraction_bits(double: bool) -> nat {
    if double {
        52
    } else {
        23
    }
}

/// The exponent field of one.
pub open spec fn bias(double: bool) -> u64 {
    if double {
        1023
    } else {
        127
    }
}

/// The sign bit.
pub open spec fn sign_bit(double: bool) -> u64 {
    if double {
        0x8000_0000_0000_0000
    } else {
        0x8000_0000
    }
}

/// The bits of positive infinity.
pub open spec fn infinity(double: bool) -> u64 {
    if double {
        0x7FF0_0000_0000_0000
    } else {
        0x7F80_0000
    }
}

/// The bits without the sign.
pub open spec fn magnitude(bits: u64, double: bool) -> u64 {
    bits % sign_bit(double)
}

/// Whether the sign bit is set.
pub open spec fn is_negative(bits: u64, double: bool) -> bool {
    (bits / sign_bit(double)) % 2 == 1
}

/// The bit pattern with this sign and magnitude.
pub open spec fn with_sign(negative: bool, magnitude: int, double: bool) -> u64 {
    (if negative {
        sign_bit(double) + magnitude
    } else {
        magnitude
    }) as u64
}

pub open spec fn is_nan(bits: u64, double: bool) -> bool {
    magnitude(bits, double) > infinity(double)
}

pub open spec fn is_finite(bits: u64, double: bool) -> bool {
    magnitude(bits, double) < infinity(double)
}

pub open spec fn is_subnormal(bits: u64, double: bool) -> bool {
    0 < magnitude(bits, double) < fraction_span(double)
}

/// A finite number as a multiple of the smallest one of its format.
pub open spec fn scaled(bits: u64, double: bool) -> int {
    let exponent = magnitude(bits, double) / fraction_span(double);
    let fraction = magnitude(bits, double) % fraction_span(double);
    let size = if exponent == 0 {
        fraction as int
    } else {
        (fraction_span(double) + fraction) * pow2((exponent - 1) as nat)
    };
    if is_negative(bits, double) {
        -size
    } else {
        size
    }
}

fn span_of(double: bool) -> (span: u64)
    ensures
        span == fraction_span(double),
{
    if double {
        0x10_0000_0000_0000
    } else {
        0x80_0000
    }
}

fn bias_of(double: bool) -> (value: u64)
    ensures
        value == bias(double),
{
    if double {
        1023
    } else {
        127
    }
}

fn sign_of(double: bool) -> (value: u64)
    ensures
        value == sign_bit(double),
{
    if double {
        0x8000_0000_0000_0000
    } else {
        0x8000_0000
    }
}

fn infinity_of(double: bool) -> (value: u64)
    ensures
        value == infinity(double),
{
    if double {
        0x7FF0_0000_0000_0000
    } else {
        0x7F80_0000
    }
}

pub fn size_of_float(bits: u64, double: bool) -> (size: u64)
    ensures
        size == magnitude(bits, double),
{
    bits % sign_of(double)
}

pub fn negative(bits: u64, double: bool) -> (held: bool)
    ensures
        held == is_negative(bits, double),
{
    (bits / sign_of(double)) % 2 == 1
}

pub fn signed_bits(negative: bool, size: u64, double: bool) -> (bits: u64)
    requires
        size < sign_bit(double),
    ensures
        bits == with_sign(negative, size as int, double),
{
    if negative {
        sign_of(double) + size
    } else {
        size
    }
}

pub fn nan(bits: u64, double: bool) -> (held: bool)
    ensures
        held == is_nan(bits, double),
{
    bits % sign_of(double) > infinity_of(double)
}

pub fn finite(bits: u64, double: bool) -> (held: bool)
    ensures
        held == is_finite(bits, double),
{
    bits % sign_of(double) < infinity_of(double)
}

pub fn subnormal(bits: u64, double: bool) -> (held: bool)
    ensures
        held == is_subnormal(bits, double),
{
    let size = bits % sign_of(double);
    size > 0 && size < span_of(double)
}

/// How two numbers compare. A number that is none compares with nothing.
#[derive(Clone, Copy, PartialEq, Eq, Structural, Debug)]
pub enum FloatOrder {
    Less,
    Equal,
    Greater,
    Unordered,
}

/// The magnitude with its sign: the numbers of a format in their order, both zeros
/// alike.
pub open spec fn ordered(bits: u64, double: bool) -> int {
    if is_negative(bits, double) {
        -(magnitude(bits, double) as int)
    } else {
        magnitude(bits, double) as int
    }
}

pub open spec fn float_order(left: u64, right: u64, double: bool) -> FloatOrder {
    if is_nan(left, double) || is_nan(right, double) {
        FloatOrder::Unordered
    } else if ordered(left, double) < ordered(right, double) {
        FloatOrder::Less
    } else if ordered(left, double) > ordered(right, double) {
        FloatOrder::Greater
    } else {
        FloatOrder::Equal
    }
}

pub fn compare(left: u64, right: u64, double: bool) -> (order: FloatOrder)
    ensures
        order == float_order(left, right, double),
{
    if nan(left, double) || nan(right, double) {
        return FloatOrder::Unordered;
    }
    let a: i128 = if negative(left, double) {
        -(size_of_float(left, double) as i128)
    } else {
        size_of_float(left, double) as i128
    };
    let b: i128 = if negative(right, double) {
        -(size_of_float(right, double) as i128)
    } else {
        size_of_float(right, double) as i128
    };
    if a < b {
        FloatOrder::Less
    } else if a > b {
        FloatOrder::Greater
    } else {
        FloatOrder::Equal
    }
}

/// The order of the bit patterns is the order of the numbers they stand for. An infinity
/// counts as the number that would follow the largest one.
pub proof fn order_is_numeric(left: u64, right: u64, double: bool)
    requires
        !is_nan(left, double),
        !is_nan(right, double),
    ensures
        (float_order(left, right, double) == FloatOrder::Less) == (scaled(left, double) < scaled(right, double)),
        (float_order(left, right, double) == FloatOrder::Equal) == (scaled(left, double) == scaled(right, double)),
        (float_order(left, right, double) == FloatOrder::Greater) == (scaled(left, double) > scaled(right, double)),
{
    let a = magnitude(left, double) as int;
    let b = magnitude(right, double) as int;
    lemma_size_grows(a, b, double);
    lemma_size_grows(b, a, double);
    lemma_size_sign(a, double);
    lemma_size_sign(b, double);
}

/// The size of a number with this magnitude, as a multiple of the smallest one.
pub open spec fn size_of(magnitude: int, double: bool) -> int {
    let span = fraction_span(double) as int;
    if magnitude / span == 0 {
        magnitude % span
    } else {
        (span + magnitude % span) * pow2((magnitude / span - 1) as nat)
    }
}

proof fn lemma_size_sign(m: int, double: bool)
    requires
        0 <= m,
    ensures
        size_of(m, double) >= 0,
        (size_of(m, double) == 0) == (m == 0),
{
    let span = fraction_span(double) as int;
    assert(m == span * (m / span) + m % span) by {
        vstd::arithmetic::div_mod::lemma_fundamental_div_mod(m, span);
    }
    if m / span > 0 {
        let p = pow2((m / span - 1) as nat) as int;
        lemma_pow2_pos((m / span - 1) as nat);
        let f = span + m % span;
        assert(f * p > 0) by (nonlinear_arith)
            requires
                f > 0,
                p > 0,
        ;
    }
}

/// A greater magnitude stands for a greater number.
proof fn lemma_size_grows(a: int, b: int, double: bool)
    requires
        0 <= a,
        0 <= b,
    ensures
        a < b ==> size_of(a, double) < size_of(b, double),
{
    if a < b {
        let span = fraction_span(double) as int;
        let ea = a / span;
        let eb = b / span;
        assert(ea <= eb) by (nonlinear_arith)
            requires
                ea == a / span,
                eb == b / span,
                a < b,
                span > 0,
        ;
        vstd::arithmetic::div_mod::lemma_fundamental_div_mod(a, span);
        vstd::arithmetic::div_mod::lemma_fundamental_div_mod(b, span);
        if ea == eb {
            if ea > 0 {
                let p = pow2((ea - 1) as nat) as int;
                lemma_pow2_pos((ea - 1) as nat);
                let x = span + a % span;
                let y = span + b % span;
                assert(x * p < y * p) by (nonlinear_arith)
                    requires
                        x < y,
                        p > 0,
                ;
            }
        } else {
            let q = pow2((eb - 1) as nat) as int;
            lemma_pow2_pos((eb - 1) as nat);
            let y = span + b % span;
            assert(y * q >= span * q) by (nonlinear_arith)
                requires
                    y >= span,
                    q > 0,
            ;
            if ea == 0 {
                assert(span * q >= span) by (nonlinear_arith)
                    requires
                        span > 0,
                        q >= 1,
                ;
            } else {
                let p = pow2((ea - 1) as nat) as int;
                lemma_pow2_pos((ea - 1) as nat);
                if eb - 1 > ea {
                    lemma_pow2_strictly_increases(ea as nat, (eb - 1) as nat);
                }
                lemma_pow2_unfold(ea as nat);
                let x = span + a % span;
                assert(x * p < span * q) by (nonlinear_arith)
                    requires
                        0 <= x < 2 * span,
                        p > 0,
                        q >= 2 * p,
                ;
            }
        }
    }
}

/// Whether `number`, a fraction of `unit` above a multiple of it, is rounded away from
/// zero: to nearest with ties to even, down, up, or never.
pub open spec fn rounds_away(number: int, unit: int, mode: u32, negative: bool) -> bool {
    let rest = number % unit;
    match mode {
        0 => 2 * rest > unit || (2 * rest == unit && (number / unit) % 2 == 1),
        1 => negative && rest != 0,
        2 => !negative && rest != 0,
        _ => false,
    }
}

/// `number / unit`, rounded. `negative` is the sign that the number will carry.
pub open spec fn rounded_quotient(number: int, unit: int, mode: u32, negative: bool) -> int {
    number / unit + if rounds_away(number, unit, mode, negative) {
        1int
    } else {
        0
    }
}

pub fn round_quotient(number: u64, unit: u128, mode: u32, negative: bool) -> (quotient: u64)
    requires
        unit >= 2,
    ensures
        quotient == rounded_quotient(number as int, unit as int, mode, negative),
        quotient <= number / 2 + 1,
{
    let wide = number as u128;
    let rest = wide % unit;
    let whole = (wide / unit) as u64;
    proof {
        vstd::arithmetic::div_mod::lemma_div_is_ordered_by_denominator(number as int, 2, unit as int);
    }
    let away = match mode {
        0 => rest > unit - rest || (rest == unit - rest && whole % 2 == 1),
        1 => negative && rest != 0,
        2 => !negative && rest != 0,
        _ => false,
    };
    if away {
        whole + 1
    } else {
        whole
    }
}

/// The exponent field.
pub open spec fn exponent(bits: u64, double: bool) -> u64 {
    magnitude(bits, double) / fraction_span(double)
}

/// The significand of a normal number, hidden bit and all.
pub open spec fn significand(bits: u64, double: bool) -> u64 {
    (fraction_span(double) + magnitude(bits, double) % fraction_span(double)) as u64
}

/// What one counts in the last place of the magnitude of a number that is at least one
/// and has a fraction.
pub open spec fn integral_unit(bits: u64, double: bool) -> int {
    pow2((fraction_bits(double) + bias(double) - exponent(bits, double)) as nat) as int
}

/// Whether a number below one is rounded to one.
pub open spec fn small_rounds_away(bits: u64, double: bool, mode: u32) -> bool {
    let m = magnitude(bits, double);
    match mode {
        0 => m > (bias(double) - 1) * fraction_span(double),
        1 => is_negative(bits, double) && m != 0,
        2 => !is_negative(bits, double) && m != 0,
        _ => false,
    }
}

/// The number rounded to an integer of its own format: mode zero to nearest with ties to
/// even, one down, two up, anything else towards zero. Infinities stay, and so does
/// anything without a fraction; zeros keep their sign.
pub open spec fn integral(bits: u64, double: bool, mode: u32) -> u64 {
    let m = magnitude(bits, double);
    let sign = is_negative(bits, double);
    if exponent(bits, double) >= bias(double) + fraction_bits(double) {
        with_sign(sign, m as int, double)
    } else if exponent(bits, double) < bias(double) {
        with_sign(
            sign,
            if small_rounds_away(bits, double, mode) {
                bias(double) * fraction_span(double)
            } else {
                0
            },
            double,
        )
    } else {
        let unit = integral_unit(bits, double);
        with_sign(
            sign,
            m as int - m as int % unit + if rounds_away(m as int, unit, mode, sign) {
                unit
            } else {
                0
            },
            double,
        )
    }
}

fn small_away(size: u64, sign: bool, double: bool, mode: u32) -> (away: bool)
    requires
        size < sign_bit(double),
    ensures
        away == match mode {
            0 => size > (bias(double) - 1) * fraction_span(double),
            1 => sign && size != 0,
            2 => !sign && size != 0,
            _ => false,
        },
{
    let half: u64 = if double { 0x3FE0_0000_0000_0000 } else { 0x3F00_0000 };
    match mode {
        0 => size > half,
        1 => sign && size != 0,
        2 => !sign && size != 0,
        _ => false,
    }
}

fn bits_of_fraction(double: bool) -> (bits: u64)
    ensures
        bits == fraction_bits(double),
{
    if double {
        52
    } else {
        23
    }
}

pub fn round_integral(bits: u64, double: bool, mode: u32) -> (rounded: u64)
    ensures
        rounded == integral(bits, double, mode),
{
    let size = size_of_float(bits, double);
    let sign = negative(bits, double);
    let field = size / span_of(double);
    let one = bias_of(double);
    let width = bits_of_fraction(double);
    if field >= one + width {
        signed_bits(sign, size, double)
    } else if field < one {
        let whole: u64 = if small_away(size, sign, double, mode) {
            if double {
                0x3FF0_0000_0000_0000
            } else {
                0x3F80_0000
            }
        } else {
            0
        };
        signed_bits(sign, whole, double)
    } else {
        let place = (width + one - field) as u32;
        let unit = crate::arith::power_of_two_u64(place);
        proof {
            lemma_unit(place as nat, double);
        }
        let rest = size % unit;
        let away = match mode {
            0 => rest > unit - rest || (rest == unit - rest && (size / unit) % 2 == 1),
            1 => sign && rest != 0,
            2 => !sign && rest != 0,
            _ => false,
        };
        let extra: u64 = if away { unit } else { 0 };
        signed_bits(sign, size - rest + extra, double)
    }
}

proof fn lemma_unit(place: nat, double: bool)
    requires
        1 <= place <= fraction_bits(double),
    ensures
        2 <= pow2(place) <= fraction_span(double),
{
    lemma2_to64();
    vstd::arithmetic::power2::lemma2_to64_rest();
    if place < fraction_bits(double) {
        lemma_pow2_strictly_increases(place, fraction_bits(double));
    }
    if place > 1 {
        lemma_pow2_strictly_increases(1, place);
    }
}

/// The size of the integer that a finite number is rounded to.
pub open spec fn integer_size(bits: u64, double: bool, mode: u32) -> int {
    let sign = is_negative(bits, double);
    let field = exponent(bits, double);
    if field < bias(double) {
        if small_rounds_away(bits, double, mode) {
            1
        } else {
            0
        }
    } else if field < bias(double) + fraction_bits(double) {
        rounded_quotient(significand(bits, double) as int, integral_unit(bits, double), mode, sign)
    } else {
        significand(bits, double) * pow2((field - bias(double) - fraction_bits(double)) as nat)
    }
}

/// The integer that a finite number is rounded to.
pub open spec fn integer_value(bits: u64, double: bool, mode: u32) -> int {
    if is_negative(bits, double) {
        -integer_size(bits, double, mode)
    } else {
        integer_size(bits, double, mode)
    }
}

/// Whether a finite number is an integer.
pub open spec fn is_integral(bits: u64, double: bool) -> bool {
    let field = exponent(bits, double);
    if field < bias(double) {
        magnitude(bits, double) == 0
    } else if field < bias(double) + fraction_bits(double) {
        significand(bits, double) as int % integral_unit(bits, double) == 0
    } else {
        true
    }
}

/// The size of the integer, where it has at most 64 bits, and whether rounding lost
/// something.
pub fn round_to_integer(bits: u64, double: bool, mode: u32) -> (result: (Option<u64>, bool))
    requires
        is_finite(bits, double),
    ensures
        match result.0 {
            Some(size) => size == integer_size(bits, double, mode),
            None => integer_size(bits, double, mode) >= 0x1_0000_0000_0000_0000,
        },
        result.1 == !is_integral(bits, double),
{
    let size = size_of_float(bits, double);
    let sign = negative(bits, double);
    let span = span_of(double);
    let field = size / span;
    let one = bias_of(double);
    let width = bits_of_fraction(double);
    if field < one {
        let whole: u64 = if small_away(size, sign, double, mode) { 1 } else { 0 };
        return (Some(whole), size != 0);
    }
    let digits = span + size % span;
    if field < one + width {
        let place = (width + one - field) as u32;
        let unit = crate::arith::power_of_two(place);
        proof {
            lemma_unit(place as nat, double);
        }
        let quotient = round_quotient(digits, unit, mode, sign);
        return (Some(quotient), digits as u128 % unit != 0);
    }
    let up = field - one - width;
    proof {
        lemma2_to64();
        vstd::arithmetic::power2::lemma2_to64_rest();
        lemma_pow2_pos(up as nat);
    }
    let room: u64 = if double { 11 } else { 40 };
    if up > room {
        proof {
            lemma_pow2_strictly_increases(room as nat, up as nat);
            let p = pow2(up as nat) as int;
            let q = pow2(room as nat) as int;
            let d = digits as int;
            lemma_pow2_unfold(room as nat + 1);
            if up > room + 1 {
                lemma_pow2_strictly_increases(room as nat + 1, up as nat);
            }
            assert(d * p >= span * (2 * q)) by (nonlinear_arith)
                requires
                    d >= span,
                    p >= 2 * q,
                    q > 0,
                    span > 0,
            ;
            assert(span * (2 * q) >= 0x1_0000_0000_0000_0000) by {
                if double {
                    assert(q == 0x800);
                } else {
                    assert(q == 0x100_0000_0000);
                }
            }
        }
        return (None, false);
    }
    let factor = crate::arith::power_of_two(up as u32);
    proof {
        if up < room {
            lemma_pow2_strictly_increases(up as nat, room as nat);
        }
        let p = pow2(up as nat) as int;
        let d = digits as int;
        let q = pow2(room as nat) as int;
        assert(d * p < 2 * span * q) by (nonlinear_arith)
            requires
                0 <= d < 2 * span,
                0 < p <= q,
        ;
        if double {
            assert(q == 0x800);
        } else {
            assert(q == 0x100_0000_0000);
        }
    }
    (Some((digits as u128 * factor) as u64), false)
}

/// The number nearest to an integer in the given mode, and whether it differs from it.
pub open spec fn float_of_integer(value: int, double: bool, mode: u32) -> (u64, bool) {
    let sign = value < 0;
    let size = if sign {
        -value
    } else {
        value
    };
    let width = fraction_bits(double);
    let top = highest_bit(size as nat);
    if value == 0 {
        (0, false)
    } else if top <= width {
        (
            with_sign(
                sign,
                (top + bias(double) - 1) * fraction_span(double) + size * pow2((width - top) as nat),
                double,
            ),
            false,
        )
    } else {
        let unit = pow2((top - width) as nat) as int;
        (
            with_sign(
                sign,
                (top + bias(double) - 1) * fraction_span(double) + rounded_quotient(size, unit, mode, sign),
                double,
            ),
            size % unit != 0,
        )
    }
}

pub fn integer_to_float(value: i64, double: bool, mode: u32) -> (result: (u64, bool))
    ensures
        result == float_of_integer(value as int, double, mode),
{
    if value == 0 {
        return (0, false);
    }
    let sign = value < 0;
    let size: u64 = if sign {
        (-(value as i128)) as u64
    } else {
        value as u64
    };
    let top = crate::arith::top_bit(size);
    let width = bits_of_fraction(double);
    let base: u64 = top + bias_of(double) - 1;
    let span = span_of(double);
    proof {
        lemma2_to64();
        vstd::arithmetic::power2::lemma2_to64_rest();
    }
    if top <= width {
        let factor = crate::arith::power_of_two_u64((width - top) as u32);
        proof {
            lemma_pow2_adds((width - top) as nat, top as nat);
            lemma_pow2_unfold((top + 1) as nat);
            let f = factor as int;
            let t = pow2(top as nat) as int;
            let n = size as int;
            assert(n * f < 2 * (f * t)) by (nonlinear_arith)
                requires
                    n < 2 * t,
                    f > 0,
            ;
        }
        (signed_bits(sign, base * span + size * factor, double), false)
    } else {
        let place = (top - width) as u32;
        let unit = crate::arith::power_of_two(place);
        proof {
            if place > 1 {
                lemma_pow2_strictly_increases(1, place as nat);
            }
            lemma_pow2_adds(place as nat, (width + 1) as nat);
            let u = unit as int;
            let w = pow2((width + 1) as nat) as int;
            let n = size as int;
            assert(n / u < w) by (nonlinear_arith)
                requires
                    n < u * w,
                    u > 0,
            ;
        }
        let quotient = round_quotient(size, unit, mode, sign);
        (signed_bits(sign, base * span + quotient, double), size as u128 % unit != 0)
    }
}

pub proof fn lemma_top(size: nat)
    requires
        0 < size,
    ensures
        pow2(highest_bit(size)) <= size < pow2((highest_bit(size) + 1) as nat),
    decreases size,
{
    lemma_pow2_unfold((highest_bit(size) + 1) as nat);
    lemma2_to64();
    if size > 1 {
        lemma_top(size / 2);
        lemma_pow2_unfold(highest_bit(size));
    }
}

/// A number between two powers of two has its highest bit there.
pub proof fn lemma_top_between(size: nat, top: nat)
    requires
        pow2(top) <= size < pow2((top + 1) as nat),
    ensures
        highest_bit(size) == top,
{
    lemma_pow2_pos(top);
    lemma_top(size);
    let found = highest_bit(size);
    if found < top {
        if found + 1 < top {
            lemma_pow2_strictly_increases((found + 1) as nat, top);
        }
    } else if found > top {
        if top + 1 < found {
            lemma_pow2_strictly_increases((top + 1) as nat, found);
        }
    }
}

/// Doubling `places` times moves the highest bit up by as much.
pub proof fn lemma_top_scaled(size: nat, places: nat)
    requires
        size > 0,
    ensures
        highest_bit(size * pow2(places)) == highest_bit(size) + places,
        size * pow2(places) > 0,
{
    let top = highest_bit(size);
    lemma_top(size);
    lemma_pow2_pos(places);
    lemma_pow2_adds(top, places);
    lemma_pow2_adds((top + 1) as nat, places);
    let p = pow2(places) as int;
    let low = pow2(top) as int;
    let high = pow2((top + 1) as nat) as int;
    let n = size as int;
    assert(low * p <= n * p < high * p) by (nonlinear_arith)
        requires
            low <= n < high,
            p > 0,
    ;
    assert(n * p > 0) by (nonlinear_arith)
        requires
            n > 0,
            p > 0,
    ;
    lemma_top_between((n * p) as nat, top + places);
}

/// Division does not see a common factor.
pub proof fn lemma_common_factor(number: int, unit: int, factor: int)
    requires
        unit > 0,
        factor > 0,
    ensures
        (number * factor) / (unit * factor) == number / unit,
        (number * factor) % (unit * factor) == (number % unit) * factor,
        unit * factor > 0,
{
    vstd::arithmetic::div_mod::lemma_fundamental_div_mod(number, unit);
    vstd::arithmetic::div_mod::lemma_mod_bound(number, unit);
    let q = number / unit;
    let r = number % unit;
    assert(number * factor == q * (unit * factor) + r * factor) by (nonlinear_arith)
        requires
            number == unit * q + r,
    ;
    assert(0 <= r * factor < unit * factor) by (nonlinear_arith)
        requires
            0 <= r < unit,
            factor > 0,
    ;
    vstd::arithmetic::div_mod::lemma_fundamental_div_mod_converse(number * factor, unit * factor, q, r * factor);
}

/// Rounding does not see a common factor.
pub proof fn lemma_rounded_factor(number: int, unit: int, factor: int, mode: u32, negative: bool)
    requires
        unit > 0,
        factor > 0,
    ensures
        rounded_quotient(number * factor, unit * factor, mode, negative) == rounded_quotient(number, unit, mode, negative),
        ((number * factor) % (unit * factor) == 0) == (number % unit == 0),
{
    lemma_common_factor(number, unit, factor);
    let r = number % unit;
    assert((2 * (r * factor) > unit * factor) == (2 * r > unit)) by (nonlinear_arith)
        requires
            factor > 0,
    ;
    assert((2 * (r * factor) == unit * factor) == (2 * r == unit)) by (nonlinear_arith)
        requires
            factor > 0,
    ;
    assert((r * factor == 0) == (r == 0)) by (nonlinear_arith)
        requires
            factor > 0,
    ;
}

/// The magnitude of the double that is `size` times the smallest one, for a size of at
/// most 53 significant bits.
pub open spec fn double_of_size(size: nat) -> int {
    let top = highest_bit(size);
    if size < 0x10_0000_0000_0000 {
        size as int
    } else {
        (top - 52) * 0x10_0000_0000_0000 + size as int / (pow2((top - 52) as nat) as int)
    }
}

/// The significand and the scale of a finite number: its size is the one times two to
/// the power of the other.
pub open spec fn parts(bits: u64, double: bool) -> (u64, nat) {
    let field = exponent(bits, double);
    if field == 0 {
        (magnitude(bits, double), 0)
    } else {
        (significand(bits, double), (field - 1) as nat)
    }
}

pub proof fn lemma_parts(bits: u64, double: bool)
    ensures
        size_of(magnitude(bits, double) as int, double) == parts(bits, double).0 * pow2(parts(bits, double).1),
        parts(bits, double).0 < 2 * fraction_span(double),
        parts(bits, double).1 > 0 ==> parts(bits, double).0 >= fraction_span(double),
        scaled(bits, double) == if is_negative(bits, double) {
            -size_of(magnitude(bits, double) as int, double)
        } else {
            size_of(magnitude(bits, double) as int, double)
        },
{
    lemma2_to64();
    let m = magnitude(bits, double) as int;
    let span = fraction_span(double) as int;
    if exponent(bits, double) == 0 {
        assert(m / span == 0);
        assert(m % span == m);
        let p = pow2(0) as int;
        assert(m * p == m) by (nonlinear_arith)
            requires
                p == 1,
        ;
    } else {
        assert(m / span == exponent(bits, double));
        assert(m % span == magnitude(bits, double) % fraction_span(double));
    }
}

pub fn split_float(bits: u64, double: bool) -> (result: (u64, u32))
    requires
        is_finite(bits, double),
    ensures
        result.0 == parts(bits, double).0,
        result.1 == parts(bits, double).1,
        result.0 < 2 * fraction_span(double),
        result.1 > 0 ==> result.0 >= fraction_span(double),
        result.1 <= 2 * bias(double) - 1,
{
    let size = size_of_float(bits, double);
    let span = span_of(double);
    let field = size / span;
    if field == 0 {
        (size, 0)
    } else {
        (span + size % span, (field - 1) as u32)
    }
}

/// The magnitude of the double of size `digits * 2^scale`.
pub fn encode(digits: u64, scale: u32) -> (size: u64)
    requires
        digits < 0x20_0000_0000_0000,
        scale <= 2045,
    ensures
        size == double_of_size((digits * pow2(scale as nat)) as nat),
{
    proof {
        lemma_pow2_pos(scale as nat);
        lemma2_to64();
        vstd::arithmetic::power2::lemma2_to64_rest();
    }
    if digits == 0 {
        assert(digits * pow2(scale as nat) == 0) by (nonlinear_arith)
            requires
                digits == 0,
        ;
        return 0;
    }
    let top = crate::arith::top_bit(digits);
    proof {
        lemma_top_scaled(digits as nat, scale as nat);
        lemma_top((digits * pow2(scale as nat)) as nat);
        assert(top <= 52) by {
            if top > 52 {
                if top > 53 {
                    lemma_pow2_strictly_increases(53, top as nat);
                }
            }
        }
    }
    let ghost whole = (digits * pow2(scale as nat)) as nat;
    if top + (scale as u64) < 52 {
        let factor = crate::arith::power_of_two_u64(scale);
        proof {
            if top + scale + 1 < 52 {
                lemma_pow2_strictly_increases((top + scale + 1) as nat, 52);
            }
        }
        digits * factor
    } else {
        let field = top + scale as u64 - 52;
        let factor = crate::arith::power_of_two_u64((52 - top) as u32);
        proof {
            if top + scale > 52 {
                lemma_pow2_strictly_increases(52, (top + scale) as nat);
            }
            lemma_pow2_adds((52 - top) as nat, field as nat);
            lemma_pow2_pos(field as nat);
            let d = digits as int;
            let f = factor as int;
            let q = pow2(field as nat) as int;
            assert(d * (f * q) == (d * f) * q) by (nonlinear_arith);
            vstd::arithmetic::div_mod::lemma_div_multiples_vanish(d * f, q);
            assert(q * (d * f) == (d * f) * q) by (nonlinear_arith);
            lemma_pow2_adds((52 - top) as nat, (top + 1) as nat);
            let t = pow2((top + 1) as nat) as int;
            assert(d * f < 0x20_0000_0000_0000) by (nonlinear_arith)
                requires
                    d < t,
                    f > 0,
                    f * t == 0x20_0000_0000_0000,
            ;
        }
        field * 0x10_0000_0000_0000 + digits * factor
    }
}

/// Every finite double is the double of its size.
pub proof fn double_of_its_size(bits: u64)
    requires
        is_finite(bits, true),
    ensures
        double_of_size(size_of(magnitude(bits, true) as int, true) as nat) == magnitude(bits, true),
{
    lemma_parts(bits, true);
    lemma2_to64();
    vstd::arithmetic::power2::lemma2_to64_rest();
    let (digits, scale) = parts(bits, true);
    let m = magnitude(bits, true) as int;
    if scale == 0 && digits < 0x10_0000_0000_0000 {
        assert(digits * pow2(0) == digits);
    } else {
        lemma_top_between(digits as nat, 52);
        lemma_top_scaled(digits as nat, scale);
        let whole = (digits * pow2(scale)) as nat;
        lemma_pow2_pos(scale);
        let d = digits as int;
        let q = pow2(scale) as int;
        assert(d * q >= d) by (nonlinear_arith)
            requires
                q >= 1,
                d >= 0,
        ;
        vstd::arithmetic::div_mod::lemma_div_multiples_vanish(d, q);
        assert(q * d == d * q) by (nonlinear_arith);
    }
}

/// The double that equals a single, and the exceptions of the step: invalid for a
/// signalling NaN, which becomes quiet, denormal for a subnormal, which counts as zero
/// where `flush` is set.
pub open spec fn widened(single: u64, flush: bool) -> (u64, u32) {
    let sign = is_negative(single, false);
    let m = magnitude(single, false);
    if is_nan(single, false) {
        (
            with_sign(sign, 0x7FF8_0000_0000_0000 + (m as int % 0x40_0000) * 0x2000_0000, true),
            if (m / 0x40_0000) % 2 == 0 {
                1u32
            } else {
                0
            },
        )
    } else if m == infinity(false) {
        (with_sign(sign, infinity(true) as int, true), 0)
    } else if is_subnormal(single, false) && flush {
        (with_sign(sign, 0, true), 0)
    } else {
        (
            with_sign(sign, double_of_size((size_of(m as int, false) * pow2(925)) as nat), true),
            if is_subnormal(single, false) {
                2u32
            } else {
                0
            },
        )
    }
}

pub fn widen_single(single: u64, flush: bool) -> (result: (u64, u32))
    ensures
        result == widened(single, flush),
{
    let sign = negative(single, false);
    let size = size_of_float(single, false);
    if nan(single, false) {
        let quieted: u32 = if (size / 0x40_0000) % 2 == 0 { 1 } else { 0 };
        return (signed_bits(sign, 0x7FF8_0000_0000_0000 + (size % 0x40_0000) * 0x2000_0000, true), quieted);
    }
    if size == 0x7F80_0000 {
        return (signed_bits(sign, 0x7FF0_0000_0000_0000, true), 0);
    }
    let tiny = subnormal(single, false);
    if tiny && flush {
        return (signed_bits(sign, 0, true), 0);
    }
    let (digits, scale) = split_float(single, false);
    proof {
        lemma_parts(single, false);
        lemma_pow2_adds(scale as nat, 925);
        let d = digits as int;
        let p = pow2(scale as nat) as int;
        let q = pow2(925) as int;
        assert((d * p) * q == d * (p * q)) by (nonlinear_arith);
    }
    let wide = encode(digits, scale + 925);
    proof {
        lemma_double_bound(digits as nat, (scale + 925) as nat);
    }
    let denormal: u32 = if tiny { 2 } else { 0 };
    (signed_bits(sign, wide, true), denormal)
}

/// A size below the format's limit has a magnitude below infinity.
pub proof fn lemma_double_bound(digits: nat, scale: nat)
    requires
        digits < 0x20_0000_0000_0000,
        scale <= 2045,
    ensures
        0 <= double_of_size((digits * pow2(scale)) as nat) < 0x7FF0_0000_0000_0000,
{
    lemma_pow2_pos(scale);
    lemma2_to64();
    vstd::arithmetic::power2::lemma2_to64_rest();
    let whole = (digits * pow2(scale)) as nat;
    if digits > 0 {
        lemma_top_scaled(digits, scale);
        lemma_top(digits);
        lemma_top(whole);
        let top = highest_bit(digits);
        if top > 52 {
            if top > 53 {
                lemma_pow2_strictly_increases(53, top);
            }
        }
        if whole >= 0x10_0000_0000_0000 {
            let high = highest_bit(whole);
            if high < 52 {
                if high + 1 < 52 {
                    lemma_pow2_strictly_increases((high + 1) as nat, 52);
                }
            }
            lemma_pow2_adds((high - 52) as nat, 53);
            lemma_pow2_pos((high - 52) as nat);
            let q = pow2((high - 52) as nat) as int;
            let n = whole as int;
            assert(0 <= n / q < 0x20_0000_0000_0000) by (nonlinear_arith)
                requires
                    0 <= n < q * 0x20_0000_0000_0000,
                    q > 0,
            ;
        }
    } else {
        assert(digits * pow2(scale) == 0) by (nonlinear_arith)
            requires
                digits == 0,
        ;
    }
}

/// Widening a finite single keeps its value.
pub proof fn widening_is_exact(single: u64)
    requires
        is_finite(single, false),
    ensures
        scaled(widened(single, false).0, true) == scaled(single, false) * pow2(925),
{
    lemma_parts(single, false);
    let (digits, scale) = parts(single, false);
    lemma_pow2_adds(scale, 925);
    let d = digits as int;
    let p = pow2(scale) as int;
    let q = pow2(925) as int;
    assert((d * p) * q == d * (p * q)) by (nonlinear_arith);
    lemma_double_bound(digits as nat, scale + 925);
    lemma_size_of_double(digits as nat, scale + 925);
    let m = double_of_size((digits * pow2(scale + 925)) as nat);
    let sign = is_negative(single, false);
    let wide = with_sign(sign, m, true);
    assert(magnitude(wide, true) == m);
    assert(is_negative(wide, true) == sign);
    lemma_parts(wide, true);
    assert((-(d * p)) * q == -((d * p) * q)) by (nonlinear_arith);
}

/// The double of a size has that size.
pub proof fn lemma_size_of_double(digits: nat, scale: nat)
    requires
        digits < 0x20_0000_0000_0000,
    ensures
        size_of(double_of_size((digits * pow2(scale)) as nat), true) == digits * pow2(scale),
{
    lemma_pow2_pos(scale);
    lemma2_to64();
    vstd::arithmetic::power2::lemma2_to64_rest();
    let whole = (digits * pow2(scale)) as nat;
    if digits == 0 {
        assert(digits * pow2(scale) == 0) by (nonlinear_arith)
            requires
                digits == 0,
        ;
    } else {
        let top = highest_bit(digits);
        lemma_top_scaled(digits, scale);
        lemma_top(digits);
        lemma_top(whole);
        if top > 52 {
            if top > 53 {
                lemma_pow2_strictly_increases(53, top);
            }
        }
        if whole >= 0x10_0000_0000_0000 {
            if top + scale < 52 {
                if top + scale + 1 < 52 {
                    lemma_pow2_strictly_increases((top + scale + 1) as nat, 52);
                }
            }
            let field = (top + scale - 52) as nat;
            lemma_pow2_adds((52 - top) as nat, field);
            lemma_pow2_pos(field);
            lemma_pow2_adds((52 - top) as nat, (top + 1) as nat);
            lemma_pow2_adds((52 - top) as nat, top);
            let d = digits as int;
            let f = pow2((52 - top) as nat) as int;
            let q = pow2(field) as int;
            let t = pow2(top) as int;
            let u = pow2((top + 1) as nat) as int;
            assert(d * (f * q) == (d * f) * q) by (nonlinear_arith);
            vstd::arithmetic::div_mod::lemma_div_multiples_vanish(d * f, q);
            assert(q * (d * f) == (d * f) * q) by (nonlinear_arith);
            assert(0x10_0000_0000_0000 <= d * f < 0x20_0000_0000_0000) by (nonlinear_arith)
                requires
                    t <= d < u,
                    f > 0,
                    f * t == 0x10_0000_0000_0000,
                    f * u == 0x20_0000_0000_0000,
            ;
            let m = double_of_size(whole);
            assert(m == field * 0x10_0000_0000_0000 + d * f);
            assert(m / 0x10_0000_0000_0000 == field + 1);
            assert(m % 0x10_0000_0000_0000 == d * f - 0x10_0000_0000_0000);
        } else {
            assert(whole as int / 0x10_0000_0000_0000 == 0);
        }
    }
}

/// One, as a multiple of the smallest number of its format.
pub open spec fn one_size(double: bool) -> int {
    pow2((bias(double) + fraction_bits(double) - 1) as nat) as int
}

proof fn lemma_small(bits: u64, double: bool)
    requires
        exponent(bits, double) < bias(double),
    ensures
        size_of(magnitude(bits, double) as int, double) < one_size(double),
        (magnitude(bits, double) > (bias(double) - 1) * fraction_span(double)) == (2 * size_of(
            magnitude(bits, double) as int,
            double,
        ) > one_size(double)),
{
    lemma2_to64();
    vstd::arithmetic::power2::lemma2_to64_rest();
    let m = magnitude(bits, double) as int;
    let span = fraction_span(double) as int;
    let one = bias(double) * span;
    let half = (bias(double) - 1) * span;
    lemma_size_grows(m, one, double);
    lemma_size_grows(half, m, double);
    lemma_size_grows(m, half, double);
    assert(one / span == bias(double) && one % span == 0);
    assert(half / span == bias(double) - 1 && half % span == 0);
    lemma_pow2_adds(fraction_bits(double), (bias(double) - 1) as nat);
    lemma_pow2_adds(fraction_bits(double), (bias(double) - 2) as nat);
    lemma_pow2_unfold((bias(double) + fraction_bits(double) - 1) as nat);
    assert(pow2(fraction_bits(double)) == span);
}

proof fn lemma_middle(bits: u64, double: bool)
    requires
        bias(double) <= exponent(bits, double) < bias(double) + fraction_bits(double),
    ensures
        integral_unit(bits, double) * pow2((exponent(bits, double) - 1) as nat) == one_size(double),
        size_of(magnitude(bits, double) as int, double) == significand(bits, double) * pow2(
            (exponent(bits, double) - 1) as nat,
        ),
        integral_unit(bits, double) >= 2,
        pow2((exponent(bits, double) - 1) as nat) > 0,
{
    let field = exponent(bits, double);
    lemma_parts(bits, double);
    lemma_unit((fraction_bits(double) + bias(double) - field) as nat, double);
    lemma_pow2_adds((fraction_bits(double) + bias(double) - field) as nat, (field - 1) as nat);
    lemma_pow2_pos((field - 1) as nat);
}

proof fn lemma_large(bits: u64, double: bool)
    requires
        exponent(bits, double) >= bias(double) + fraction_bits(double),
    ensures
        size_of(magnitude(bits, double) as int, double) == one_size(double) * integer_size(bits, double, 0),
{
    let field = exponent(bits, double);
    lemma_parts(bits, double);
    let up = (field - bias(double) - fraction_bits(double)) as nat;
    let base = (bias(double) + fraction_bits(double) - 1) as nat;
    lemma_pow2_adds(base, up);
    let d = significand(bits, double) as int;
    let p = pow2(base) as int;
    let q = pow2(up) as int;
    assert(d * (p * q) == p * (d * q)) by (nonlinear_arith);
}

/// Rounding moves a number by less than one: to nearest by at most a half, down never
/// up, up never down, and towards zero never away from it.
pub proof fn rounding_stays_close(bits: u64, double: bool, mode: u32)
    requires
        is_finite(bits, double),
    ensures
        ({
            let exact = scaled(bits, double);
            let one = one_size(double);
            let rounded = one * integer_value(bits, double, mode);
            &&& -one < rounded - exact < one
            &&& mode == 0 ==> -one <= 2 * (rounded - exact) <= one
            &&& mode == 1 ==> rounded <= exact
            &&& mode == 2 ==> rounded >= exact
            &&& mode >= 3 ==> (if exact < 0 {
                exact <= rounded <= 0
            } else {
                0 <= rounded <= exact
            })
        }),
        is_integral(bits, double) ==> scaled(bits, double) == one_size(double) * integer_value(bits, double, mode),
{
    let one = one_size(double);
    lemma_pow2_pos((bias(double) + fraction_bits(double) - 1) as nat);
    lemma_parts(bits, double);
    let m = magnitude(bits, double) as int;
    let size = size_of(m, double);
    lemma_size_sign(m, double);
    let field = exponent(bits, double);
    let count = integer_size(bits, double, mode);
    if field < bias(double) {
        lemma_small(bits, double);
        assert(one * 1 == one);
        assert(one * 0 == 0);
        assert(one * (-1int) == -one) by (nonlinear_arith);
        assert(one * (-0int) == 0) by (nonlinear_arith);
        assert(count == 0 || count == 1);
    } else if field < bias(double) + fraction_bits(double) {
        lemma_middle(bits, double);
        let d = significand(bits, double) as int;
        let unit = integral_unit(bits, double);
        let p = pow2((field - 1) as nat) as int;
        lemma_rounding(d, unit, p, mode, is_negative(bits, double));
        assert(one * count == (unit * count) * p) by (nonlinear_arith)
            requires
                one == unit * p,
        ;
        assert(one * (-count) == -(one * count)) by (nonlinear_arith);
    } else {
        lemma_large(bits, double);
        assert(one * (-count) == -(one * count)) by (nonlinear_arith);
    }
}

proof fn lemma_rounding(digits: int, unit: int, factor: int, mode: u32, negative: bool)
    requires
        digits >= 0,
        unit >= 2,
        factor > 0,
    ensures
        ({
            let rounded = (unit * rounded_quotient(digits, unit, mode, negative)) * factor;
            let exact = digits * factor;
            let one = unit * factor;
            &&& -one < rounded - exact < one
            &&& mode == 0 ==> -one <= 2 * (rounded - exact) <= one
            &&& (mode == 1 && negative) || (mode == 2 && !negative) ==> rounded >= exact
            &&& (mode == 1 && !negative) || (mode == 2 && negative) || mode >= 3 ==> 0 <= rounded <= exact
            &&& digits % unit == 0 ==> rounded == exact
        }),
{
    vstd::arithmetic::div_mod::lemma_fundamental_div_mod(digits, unit);
    vstd::arithmetic::div_mod::lemma_mod_bound(digits, unit);
    let q = digits / unit;
    let r = digits % unit;
    assert(q >= 0) by (nonlinear_arith)
        requires
            digits >= 0,
            unit > 0,
            q == digits / unit,
    ;
    let rounded = unit * rounded_quotient(digits, unit, mode, negative);
    let gap = rounded - digits;
    assert(unit * (q + 1) == unit * q + unit) by (nonlinear_arith);
    assert(unit * (q + 0) == unit * q) by (nonlinear_arith);
    assert(unit * q >= 0) by (nonlinear_arith)
        requires
            unit > 0,
            q >= 0,
    ;
    assert(gap == -r || gap == unit - r);
    assert(rounded >= 0);
    assert(rounded * factor - digits * factor == gap * factor) by (nonlinear_arith)
        requires
            gap == rounded - digits,
    ;
    assert(-(unit * factor) < gap * factor < unit * factor) by (nonlinear_arith)
        requires
            -unit < gap < unit,
            factor > 0,
    ;
    assert(gap >= 0 ==> gap * factor >= 0) by (nonlinear_arith)
        requires
            factor > 0,
    ;
    assert(gap <= 0 ==> gap * factor <= 0) by (nonlinear_arith)
        requires
            factor > 0,
    ;
    assert(rounded * factor >= 0) by (nonlinear_arith)
        requires
            rounded >= 0,
            factor > 0,
    ;
    if mode == 0 {
        assert(-unit <= 2 * gap <= unit);
        assert(-(unit * factor) <= 2 * (gap * factor) <= unit * factor) by (nonlinear_arith)
            requires
                -unit <= 2 * gap <= unit,
                factor > 0,
        ;
    }
}

/// The magnitude and its significand leave the same rest, and round the same way.
proof fn lemma_same_rounding(bits: u64, double: bool, mode: u32, sign: bool)
    requires
        bias(double) <= exponent(bits, double) < bias(double) + fraction_bits(double),
    ensures
        ({
            let m = magnitude(bits, double) as int;
            let d = significand(bits, double) as int;
            let unit = integral_unit(bits, double);
            &&& m % unit == d % unit
            &&& rounds_away(m, unit, mode, sign) == rounds_away(d, unit, mode, sign)
        }),
{
    lemma2_to64();
    vstd::arithmetic::power2::lemma2_to64_rest();
    let m = magnitude(bits, double) as int;
    let d = significand(bits, double) as int;
    let unit = integral_unit(bits, double);
    let field = exponent(bits, double) as int;
    let span = fraction_span(double) as int;
    let k = (field - bias(double)) as nat;
    lemma_middle(bits, double);
    lemma_pow2_adds((fraction_bits(double) + bias(double) - field) as nat, k);
    assert(pow2(fraction_bits(double)) == span);
    let c = pow2(k) as int;
    // The part above the significand is an even multiple of the unit.
    let extra = (field - 1) * c;
    assert(extra % 2 == 0) by {
        if k == 0 {
            assert(c == 1);
            assert(extra == field - 1) by (nonlinear_arith)
                requires
                    c == 1,
                    extra == (field - 1) * c,
            ;
        } else {
            lemma_pow2_unfold(k);
            let h = pow2((k - 1) as nat) as int;
            assert(extra == 2 * ((field - 1) * h)) by (nonlinear_arith)
                requires
                    c == 2 * h,
                    extra == (field - 1) * c,
            ;
        }
    }
    assert(m == (field - 1) * span + d);
    assert((field - 1) * span == extra * unit) by (nonlinear_arith)
        requires
            span == unit * c,
            extra == (field - 1) * c,
    ;
    vstd::arithmetic::div_mod::lemma_fundamental_div_mod(d, unit);
    vstd::arithmetic::div_mod::lemma_mod_bound(d, unit);
    let q = d / unit;
    let r = d % unit;
    assert(m == (extra + q) * unit + r) by (nonlinear_arith)
        requires
            m == extra * unit + d,
            d == unit * q + r,
    ;
    vstd::arithmetic::div_mod::lemma_fundamental_div_mod_converse(m, unit, extra + q, r);
    assert((extra + q) % 2 == q % 2);
}

pub proof fn lemma_with_sign(negative: bool, size: int, double: bool)
    requires
        0 <= size < sign_bit(double),
    ensures
        magnitude(with_sign(negative, size, double), double) == size,
        is_negative(with_sign(negative, size, double), double) == negative,
{
}

proof fn lemma_integral_small(bits: u64, double: bool, mode: u32)
    requires
        exponent(bits, double) < bias(double),
    ensures
        scaled(integral(bits, double, mode), double) == one_size(double) * integer_value(bits, double, mode),
{
    lemma2_to64();
    vstd::arithmetic::power2::lemma2_to64_rest();
    let one = one_size(double);
    let span = fraction_span(double) as int;
    let sign = is_negative(bits, double);
    let result = integral(bits, double, mode);
    let whole = bias(double) * span;
    lemma_pow2_adds(fraction_bits(double), (bias(double) - 1) as nat);
    assert(whole / span == bias(double) && whole % span == 0);
    assert(one * 1 == one && one * 0 == 0 && one * (-1int) == -one) by (nonlinear_arith);
    if small_rounds_away(bits, double, mode) {
        lemma_with_sign(sign, whole, double);
    } else {
        lemma_with_sign(sign, 0, double);
    }
    lemma_parts(result, double);
}

/// The size of a magnitude whose significand is `sum`, up to the next power of two.
proof fn lemma_size_of_sum(field: int, sum: int, double: bool)
    requires
        field >= 1,
        fraction_span(double) <= sum <= 2 * fraction_span(double),
    ensures
        size_of((field - 1) * fraction_span(double) + sum, double) == sum * pow2((field - 1) as nat),
{
    let span = fraction_span(double) as int;
    let changed = (field - 1) * span + sum;
    let p = pow2((field - 1) as nat) as int;
    if sum < 2 * span {
        assert(changed == field * span + (sum - span));
        vstd::arithmetic::div_mod::lemma_fundamental_div_mod_converse(changed, span, field, sum - span);
    } else {
        assert(changed == (field + 1) * span + 0);
        vstd::arithmetic::div_mod::lemma_fundamental_div_mod_converse(changed, span, field + 1, 0);
        lemma_pow2_unfold(field as nat);
        let p2 = pow2(field as nat) as int;
        assert(span * p2 == (2 * span) * p) by (nonlinear_arith)
            requires
                p2 == 2 * p,
        ;
    }
}

/// What the significand is rounded to lies between it and the next power of two.
pub proof fn lemma_rounded_significand(bits: u64, double: bool, mode: u32, sign: bool)
    requires
        bias(double) <= exponent(bits, double) < bias(double) + fraction_bits(double),
    ensures
        ({
            let m = magnitude(bits, double) as int;
            let d = significand(bits, double) as int;
            let unit = integral_unit(bits, double);
            let sum = unit * rounded_quotient(d, unit, mode, sign);
            &&& fraction_span(double) <= sum <= 2 * fraction_span(double)
            &&& m - m % unit + (if rounds_away(m, unit, mode, sign) {
                unit
            } else {
                0
            }) == (exponent(bits, double) - 1) * fraction_span(double) + sum
        }),
{
    lemma2_to64();
    vstd::arithmetic::power2::lemma2_to64_rest();
    lemma_middle(bits, double);
    lemma_same_rounding(bits, double, mode, sign);
    let m = magnitude(bits, double) as int;
    let field = exponent(bits, double) as int;
    let span = fraction_span(double) as int;
    let d = significand(bits, double) as int;
    let unit = integral_unit(bits, double);
    let q = d / unit;
    let count = rounded_quotient(d, unit, mode, sign);
    vstd::arithmetic::div_mod::lemma_fundamental_div_mod(d, unit);
    vstd::arithmetic::div_mod::lemma_mod_bound(d, unit);
    assert(unit * (q + 1) == unit * q + unit) by (nonlinear_arith);
    let k = (field - bias(double)) as nat;
    lemma_pow2_adds((fraction_bits(double) + bias(double) - field) as nat, k);
    let c = pow2(k) as int;
    assert(pow2(fraction_bits(double)) == span);
    assert(span == unit * c);
    assert(c <= q < 2 * c) by (nonlinear_arith)
        requires
            q == d / unit,
            span <= d < 2 * span,
            span == unit * c,
            unit > 0,
    ;
    let sum = unit * count;
    assert(span <= sum <= 2 * span) by (nonlinear_arith)
        requires
            sum == unit * count,
            span == unit * c,
            c <= count <= 2 * c,
            unit > 0,
    ;
    assert(m == (field - 1) * span + d);
}

proof fn lemma_integral_middle(bits: u64, double: bool, mode: u32)
    requires
        bias(double) <= exponent(bits, double) < bias(double) + fraction_bits(double),
    ensures
        scaled(integral(bits, double, mode), double) == one_size(double) * integer_value(bits, double, mode),
{
    let sign = is_negative(bits, double);
    let field = exponent(bits, double) as int;
    lemma_rounded_significand(bits, double, mode, sign);
    lemma_middle(bits, double);
    let one = one_size(double);
    let d = significand(bits, double) as int;
    let unit = integral_unit(bits, double);
    let count = rounded_quotient(d, unit, mode, sign);
    let sum = unit * count;
    let changed = (field - 1) * fraction_span(double) + sum;
    lemma_size_of_sum(field, sum, double);
    lemma_with_sign(sign, changed, double);
    lemma_parts(integral(bits, double, mode), double);
    let p = pow2((field - 1) as nat) as int;
    assert(sum * p == one * count) by (nonlinear_arith)
        requires
            sum == unit * count,
            one == unit * p,
    ;
    assert(one * (-count) == -(one * count)) by (nonlinear_arith);
}

/// A rounded number is the integer it was rounded to.
pub proof fn rounding_gives_the_integer(bits: u64, double: bool, mode: u32)
    requires
        is_finite(bits, double),
    ensures
        scaled(integral(bits, double, mode), double) == one_size(double) * integer_value(bits, double, mode),
{
    let field = exponent(bits, double);
    if field < bias(double) {
        lemma_integral_small(bits, double, mode);
    } else if field < bias(double) + fraction_bits(double) {
        lemma_integral_middle(bits, double, mode);
    } else {
        let one = one_size(double);
        let count = integer_size(bits, double, mode);
        lemma_large(bits, double);
        lemma_with_sign(is_negative(bits, double), magnitude(bits, double) as int, double);
        lemma_parts(integral(bits, double, mode), double);
        assert(one * (-count) == -(one * count)) by (nonlinear_arith);
    }
}

/// A small integer as a double is that integer again, whatever the modes.
pub proof fn lemma_integer_round_trip(number: int, mode: u32, back: u32)
    requires
        -0x8000_0000 <= number <= 0x8000_0000,
    ensures
        !float_of_integer(number, true, mode).1,
        ({
            let bits = float_of_integer(number, true, mode).0;
            &&& integer_value(bits, true, back) == number
            &&& is_integral(bits, true)
            &&& is_finite(bits, true)
            &&& !is_subnormal(bits, true)
        }),
{
    lemma2_to64();
    vstd::arithmetic::power2::lemma2_to64_rest();
    if number != 0 {
        let sign = number < 0;
        let size = if sign {
            -number
        } else {
            number
        };
        let top = highest_bit(size as nat);
        lemma_top(size as nat);
        if top > 32 {
            lemma_pow2_strictly_increases(32, top);
        }
        let up = (52 - top) as nat;
        lemma_pow2_adds(up, top);
        lemma_pow2_unfold((top + 1) as nat);
        lemma_pow2_pos(up);
        let f = pow2(up) as int;
        let t = pow2(top) as int;
        let digits = size * f;
        assert(0x10_0000_0000_0000 <= digits < 0x20_0000_0000_0000) by (nonlinear_arith)
            requires
                digits == size * f,
                t <= size < 2 * t,
                f * t == 0x10_0000_0000_0000,
                f > 0,
        ;
        let m = (top + 1022) * 0x10_0000_0000_0000 + digits;
        lemma_with_sign(sign, m, true);
        let bits = float_of_integer(number, true, mode).0;
        assert(bits == with_sign(sign, m, true));
        assert(magnitude(bits, true) == m);
        assert(exponent(bits, true) == top + 1023);
        assert(significand(bits, true) == digits);
        vstd::arithmetic::div_mod::lemma_fundamental_div_mod_converse(digits, f, size, 0);
        if top == 0 {
            assert(integral_unit(bits, true) == f);
        }
        assert(integral_unit(bits, true) == f);
    }
}

} // verus!
