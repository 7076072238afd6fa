//! Arithmetic on machine words: powers of two, low bits, two's complement
//! readings, little-endian bytes and population counts.

use vstd::arithmetic::div_mod::{lemma_add_mod_noop, lemma_fundamental_div_mod, lemma_mod_bound, lemma_mod_mod};
use vstd::arithmetic::power2::{lemma2_to64, lemma2_to64_rest, lemma_pow2_adds, lemma_pow2_pos, lemma_pow2_unfold, pow2};
use vstd::prelude::*;

verus! {

/// The low `bits` bits of `value`, as a number.
pub open spec fn low_bits(value: int, bits: nat) -> int {
    value % (pow2(bits) as int)
}

/// The two's complement reading of the low `bits` bits of `value`.
pub open spec fn signed_of(value: int, bits: nat) -> int {
    let low = low_bits(value, bits);
    if 2 * low >= pow2(bits) {
        low - pow2(bits)
    } else {
        low
    }
}

/// The number of one bits of `value`.
pub open spec fn ones(value: nat) -> nat
    decreases value,
{
    if value == 0 {
        0
    } else {
        value % 2 + ones(value / 2)
    }
}

/// The position of the lowest one bit of `value`, for a nonzero `value`.
pub open spec fn lowest_bit(value: nat) -> nat
    decreases value,
{
    if value == 0 || value % 2 == 1 {
        0
    } else {
        1 + lowest_bit(value / 2)
    }
}

/// The position of the highest one bit of `value`, for a nonzero `value`.
pub open spec fn highest_bit(value: nat) -> nat
    decreases value,
{
    if value <= 1 {
        0
    } else {
        1 + highest_bit(value / 2)
    }
}

/// Bit `index` of `value`.
pub open spec fn bit_of(value: int, index: nat) -> bool {
    (value / (pow2(index) as int)) % 2 == 1
}

/// The number that little-endian `bytes` spell.
pub open spec fn le_value(bytes: Seq<u8>) -> nat
    decreases bytes.len(),
{
    if bytes.len() == 0 {
        0
    } else {
        bytes[0] as nat + 256 * le_value(bytes.skip(1))
    }
}

/// The low `count` bytes of `value`, lowest first.
pub open spec fn le_bytes(value: nat, count: nat) -> Seq<u8>
    decreases count,
{
    if count == 0 {
        seq![]
    } else {
        seq![(value % 256) as u8] + le_bytes(value / 256, (count - 1) as nat)
    }
}

/// `256` to the power `count`.
pub open spec fn byte_span(count: nat) -> nat {
    pow2(8 * count)
}

pub proof fn lemma_byte_span_step(count: nat)
    requires
        count > 0,
    ensures
        byte_span(count) == 256 * byte_span((count - 1) as nat),
        byte_span((count - 1) as nat) > 0,
        byte_span(0) == 1,
{
    lemma2_to64();
    lemma_pow2_adds(8, 8 * (count - 1) as nat);
    assert(8 + 8 * ((count - 1) as nat) == 8 * count);
    lemma_pow2_pos(8 * (count - 1) as nat);
}

/// Bytes spell less than the span of their count.
pub proof fn lemma_le_value_bound(bytes: Seq<u8>)
    ensures
        le_value(bytes) < byte_span(bytes.len()),
    decreases bytes.len(),
{
    lemma2_to64();
    if bytes.len() > 0 {
        lemma_byte_span_step(bytes.len());
        lemma_le_value_bound(bytes.skip(1));
    }
}

pub proof fn lemma_le_bytes_len(value: nat, count: nat)
    ensures
        le_bytes(value, count).len() == count,
    decreases count,
{
    if count > 0 {
        lemma_le_bytes_len(value / 256, (count - 1) as nat);
    }
}

/// Reading back the bytes of a number gives its low bytes.
pub proof fn lemma_le_round_trip(value: nat, count: nat)
    ensures
        le_value(le_bytes(value, count)) == value % byte_span(count),
    decreases count,
{
    lemma2_to64();
    if count > 0 {
        let rest = le_bytes(value / 256, (count - 1) as nat);
        let bytes = le_bytes(value, count);
        assert(bytes.skip(1) =~= rest);
        lemma_le_round_trip(value / 256, (count - 1) as nat);
        lemma_byte_span_step(count);
        let span = byte_span((count - 1) as nat);
        let high = value / 256;
        assert(value % (256 * span) == 256 * (high % span) + value % 256) by {
            lemma_split_mod(value, span);
        }
    } else {
        assert(value % 1 == 0);
    }
}

proof fn lemma_split_mod(value: nat, span: nat)
    requires
        span > 0,
    ensures
        value % (256 * span) == 256 * ((value / 256) % span) + value % 256,
{
    let high = value / 256;
    lemma_fundamental_div_mod(high as int, span as int);
    let whole = 256 * span;
    let quotient = high / span;
    let low = 256 * (high % span) + value % 256;
    lemma_mod_bound(high as int, span as int);
    assert(value == 256 * high + value % 256);
    assert(whole * quotient == 256 * (span * quotient)) by (nonlinear_arith)
        requires
            whole == 256 * span,
    ;
    assert(value == whole * quotient + low);
    assert(0 <= low < whole) by {
        assert(high % span <= span - 1);
        assert(256 * (high % span) <= 256 * span - 256);
    }
    vstd::arithmetic::div_mod::lemma_fundamental_div_mod_converse(value as int, whole as int, quotient as int, low as int);
}

/// Writing back the number that bytes spell gives the bytes.
pub proof fn lemma_le_bytes_of_value(bytes: Seq<u8>)
    ensures
        le_bytes(le_value(bytes), bytes.len()) == bytes,
    decreases bytes.len(),
{
    if bytes.len() > 0 {
        let rest = bytes.skip(1);
        lemma_le_bytes_of_value(rest);
        let value = le_value(bytes);
        assert(value == bytes[0] as nat + 256 * le_value(rest));
        assert(value % 256 == bytes[0] as nat);
        assert(value / 256 == le_value(rest));
        assert(le_bytes(value, bytes.len()) =~= seq![bytes[0]] + rest);
        assert(seq![bytes[0]] + rest =~= bytes);
    } else {
        assert(le_bytes(le_value(bytes), 0) =~= bytes);
    }
}

/// Two to the power `exponent`.
pub fn power_of_two(exponent: u32) -> (power: u128)
    requires
        exponent < 128,
    ensures
        power == pow2(exponent as nat),
        power > 0,
{
    let mut power: u128 = 1;
    let mut done: u32 = 0;
    proof {
        lemma2_to64();
    }
    while done < exponent
        invariant
            done <= exponent < 128,
            power == pow2(done as nat),
        decreases exponent - done,
    {
        proof {
            lemma_pow2_unfold((done + 1) as nat);
            lemma_pow2_127_bound((done + 1) as nat);
        }
        power = power * 2;
        done = done + 1;
    }
    proof {
        lemma_pow2_pos(exponent as nat);
    }
    power
}

proof fn lemma_pow2_127_bound(exponent: nat)
    requires
        exponent < 128,
    ensures
        pow2(exponent) <= 0x8000_0000_0000_0000_0000_0000_0000_0000,
{
    lemma2_to64();
    lemma2_to64_rest();
    lemma_pow2_adds(64, 63);
    if exponent < 127 {
        vstd::arithmetic::power2::lemma_pow2_strictly_increases(exponent, 127);
    }
    assert(pow2(127) == 0x8000_0000_0000_0000_0000_0000_0000_0000) by {
        assert(0x1_0000_0000_0000_0000nat * 0x8000_0000_0000_0000nat
            == 0x8000_0000_0000_0000_0000_0000_0000_0000nat) by (nonlinear_arith);
    }
}

/// Two to the power `exponent`, for an exponent below 64.
pub fn power_of_two_u64(exponent: u32) -> (power: u64)
    requires
        exponent < 64,
    ensures
        power == pow2(exponent as nat),
        power > 0,
{
    proof {
        lemma2_to64_rest();
        if exponent < 63 {
            vstd::arithmetic::power2::lemma_pow2_strictly_increases(exponent as nat, 63);
        }
    }
    power_of_two(exponent) as u64
}

/// The low `bits` bits of `value`.
pub fn truncate(value: u64, bits: u32) -> (low: u64)
    requires
        bits <= 64,
    ensures
        low == low_bits(value as int, bits as nat),
        bits == 64 ==> low == value,
        low < pow2(bits as nat),
{
    proof {
        lemma2_to64();
        lemma_pow2_pos(bits as nat);
        lemma_mod_bound(value as int, pow2(bits as nat) as int);
    }
    if bits == 64 {
        assert(value as int % 0x1_0000_0000_0000_0000 == value);
        value
    } else {
        value % power_of_two_u64(bits)
    }
}

/// Whether the top one of the low `bits` bits of `value` is set.
pub fn is_negative(value: u64, bits: u32) -> (negative: bool)
    requires
        1 <= bits <= 64,
    ensures
        negative == (signed_of(value as int, bits as nat) < 0),
        negative == (2 * low_bits(value as int, bits as nat) >= pow2(bits as nat)),
{
    let low = truncate(value, bits);
    let half = power_of_two_u64(bits - 1);
    proof {
        lemma_pow2_unfold(bits as nat);
    }
    low >= half
}

/// The two's complement reading of the low `bits` bits of `value`.
pub fn signed(value: u64, bits: u32) -> (number: i128)
    requires
        1 <= bits <= 64,
    ensures
        number == signed_of(value as int, bits as nat),
        -pow2((bits - 1) as nat) <= number < pow2((bits - 1) as nat),
{
    let low = truncate(value, bits);
    let half = power_of_two_u64(bits - 1);
    proof {
        lemma_pow2_unfold(bits as nat);
    }
    if low >= half {
        low as i128 - 2 * (half as i128)
    } else {
        low as i128
    }
}

/// The low 64 bits of `number` in two's complement.
pub fn word_of(number: i128) -> (word: u64)
    ensures
        word == low_bits(number as int, 64),
{
    proof {
        lemma2_to64();
        assert(number as int % 0x1_0000_0000_0000_0000int == (number as u64) as int) by {
            assert((number as u64) as i128 == (if number >= 0 {
                number % 0x1_0000_0000_0000_0000i128
            } else {
                number % 0x1_0000_0000_0000_0000i128
            })) by (bit_vector);
        }
    }
    number as u64
}

/// How many of the bits of `value` are one.
pub fn count_ones(value: u64) -> (count: u64)
    ensures
        count == ones(value as nat),
        count <= 64,
{
    let mut rest = value;
    let mut count: u64 = 0;
    let mut left: u64 = 64;
    proof {
        lemma2_to64();
    }
    while rest > 0
        invariant
            count + ones(rest as nat) == ones(value as nat),
            left <= 64,
            count + left <= 64,
            rest < pow2(left as nat),
        decreases rest,
    {
        proof {
            lemma2_to64();
            if left > 0 {
                lemma_pow2_unfold(left as nat);
            }
        }
        count = count + rest % 2;
        rest = rest / 2;
        left = left - 1;
    }
    count
}

/// The position of the lowest one bit of a nonzero `value`.
pub fn trailing_zeros(value: u64) -> (position: u64)
    requires
        value != 0,
    ensures
        position == lowest_bit(value as nat),
        position < 64,
{
    let mut rest = value;
    let mut position: u64 = 0;
    proof {
        lemma2_to64();
    }
    while rest % 2 == 0
        invariant
            rest > 0,
            position + lowest_bit(rest as nat) == lowest_bit(value as nat),
            position < 64,
            rest < pow2((64 - position) as nat),
        decreases rest,
    {
        proof {
            lemma2_to64();
            lemma_pow2_unfold((64 - position) as nat);
            if position == 63 {
                assert(rest == 1);
            }
        }
        rest = rest / 2;
        position = position + 1;
    }
    position
}

/// The position of the highest one bit of a nonzero `value`.
pub fn top_bit(value: u64) -> (position: u64)
    requires
        value != 0,
    ensures
        position == highest_bit(value as nat),
        position < 64,
        pow2(position as nat) <= value < pow2((position + 1) as nat),
{
    let mut rest = value;
    let mut position: u64 = 0;
    proof {
        lemma2_to64();
    }
    while rest > 1
        invariant
            rest > 0,
            position + highest_bit(rest as nat) == highest_bit(value as nat),
            position < 64,
            rest < pow2((64 - position) as nat),
            pow2(position as nat) * rest <= value,
            value < pow2(position as nat) * (rest + 1),
        decreases rest,
    {
        proof {
            lemma2_to64();
            lemma_pow2_unfold((64 - position) as nat);
            lemma_pow2_unfold((position + 1) as nat);
            let p = pow2(position as nat);
            let half = rest / 2;
            assert(2 * p * half <= p * rest) by (nonlinear_arith)
                requires
                    2 * half <= rest,
                    p >= 0,
            ;
            assert(p * (rest + 1) <= 2 * p * (half + 1)) by (nonlinear_arith)
                requires
                    rest + 1 <= 2 * (half + 1),
                    p >= 0,
            ;
            if position == 63 {
                assert(rest < pow2(1));
            }
        }
        rest = rest / 2;
        position = position + 1;
    }
    proof {
        lemma_pow2_unfold((position + 1) as nat);
        assert(pow2(position as nat) * 1 == pow2(position as nat)) by (nonlinear_arith);
        assert(pow2(position as nat) * 2 == 2 * pow2(position as nat)) by (nonlinear_arith);
        assert(rest == 1);
    }
    position
}

/// The number that at most sixteen little-endian bytes spell.
pub fn from_le(bytes: &[u8]) -> (value: u128)
    requires
        bytes@.len() <= 16,
    ensures
        value == le_value(bytes@),
{
    let mut index: usize = bytes.len();
    let mut value: u128 = 0;
    assert(bytes@.skip(index as int) =~= Seq::<u8>::empty());
    while index > 0
        invariant
            index <= bytes@.len() <= 16,
            value == le_value(bytes@.skip(index as int)),
        decreases index,
    {
        index = index - 1;
        proof {
            let tail = bytes@.skip(index as int);
            assert(tail.skip(1) =~= bytes@.skip(index + 1));
            lemma_le_value_bound(tail);
            lemma_span_16(tail.len());
        }
        value = value * 256 + bytes[index] as u128;
    }
    assert(bytes@.skip(0) =~= bytes@);
    value
}

pub proof fn lemma_span_16(count: nat)
    requires
        count <= 16,
    ensures
        byte_span(count) <= 0x1_0000_0000_0000_0000_0000_0000_0000_0000,
        byte_span(16) == 0x1_0000_0000_0000_0000_0000_0000_0000_0000,
        byte_span(8) == 0x1_0000_0000_0000_0000,
        byte_span(4) == 0x1_0000_0000,
        byte_span(2) == 0x1_0000,
        byte_span(1) == 0x100,
        count <= 8 ==> byte_span(count) <= 0x1_0000_0000_0000_0000,
{
    lemma2_to64();
    lemma_pow2_adds(64, 64);
    assert(0x1_0000_0000_0000_0000nat * 0x1_0000_0000_0000_0000nat
        == 0x1_0000_0000_0000_0000_0000_0000_0000_0000nat) by (nonlinear_arith);
    if count < 16 {
        vstd::arithmetic::power2::lemma_pow2_strictly_increases(8 * count, 128);
    }
    if count < 8 {
        vstd::arithmetic::power2::lemma_pow2_strictly_increases(8 * count, 64);
    }
}

/// The low `count` bytes of `value`, lowest first.
pub fn to_le(value: u128, count: usize) -> (bytes: Vec<u8>)
    ensures
        bytes@ == le_bytes(value as nat, count as nat),
        bytes@.len() == count,
{
    let mut bytes: Vec<u8> = Vec::new();
    let mut rest = value;
    let mut index: usize = 0;
    while index < count
        invariant
            index <= count,
            bytes@.len() == index,
            bytes@ + le_bytes(rest as nat, (count - index) as nat) == le_bytes(value as nat, count as nat),
        decreases count - index,
    {
        let ghost before = bytes@;
        bytes.push((rest % 256) as u8);
        proof {
            let tail = le_bytes((rest / 256) as nat, (count - index - 1) as nat);
            assert(before + (seq![(rest % 256) as u8] + tail) =~= bytes@ + tail);
        }
        rest = rest / 256;
        index = index + 1;
    }
    assert(bytes@ + Seq::<u8>::empty() =~= bytes@);
    bytes
}

/// Adding inside a wider power of two changes nothing below.
pub proof fn lemma_low_bits_of_wide(value: int, bits: nat, wide: nat)
    requires
        bits <= wide,
    ensures
        low_bits(low_bits(value, wide), bits) == low_bits(value, bits),
{
    lemma_pow2_adds(bits, (wide - bits) as nat);
    lemma_pow2_pos(bits);
    lemma_pow2_pos((wide - bits) as nat);
    lemma_mod_mod(value, pow2(bits) as int, pow2((wide - bits) as nat) as int);
}

pub proof fn lemma_low_bits_of_sum(left: int, right: int, bits: nat)
    ensures
        low_bits(left + right, bits) == low_bits(low_bits(left, bits) + low_bits(right, bits), bits),
{
    lemma_pow2_pos(bits);
    lemma_add_mod_noop(left, right, pow2(bits) as int);
}

} // verus!
