//! Packed instructions as functions from vectors to a vector.

use vstd::arithmetic::power2::{lemma2_to64, lemma_pow2_adds, lemma_pow2_pos, lemma_pow2_strictly_increases, pow2};
use vstd::prelude::*;

use crate::arith::{signed, signed_of, word_of};
use crate::ops::lanes::{
    bits_of_lane, clamped, fit, glue, glued, gluing_undoes_splitting, lane_bits, lane_span, lane_total, lanes, split,
    total_of,
};

verus! {

/// `number` between `low` and `high`, as the low bits of a lane of `bits` bits.
fn clamp_to_lane(number: i128, low: i128, high: i128, bits: u32) -> (lane: u64)
    requires
        bits == 8 || bits == 16,
        low <= high,
        -0x8000 <= low,
        high <= 0xFFFF,
    ensures
        lane == clamped(number as int, low as int, high as int) % (pow2(bits as nat) as int),
        lane < pow2(bits as nat),
{
    let bounded = if number < low {
        low
    } else if number > high {
        high
    } else {
        number
    };
    let word = word_of(bounded);
    proof {
        crate::arith::lemma_low_bits_of_wide(bounded as int, bits as nat, 64);
    }
    crate::arith::truncate(word, bits)
}

/// Both vectors' lanes of `width` bytes read as signed numbers, brought between `low`
/// and `high` and stored in half the width, the left vector's first.
pub open spec fn saturated(left: u128, right: u128, width: u8, low: int, high: int) -> u128 {
    let pool = lanes(left, width) + lanes(right, width);
    let half = (width / 2) as u8;
    glued(
        Seq::new(
            lane_total(half),
            |i: int|
                (clamped(signed_of(pool[i] as int, lane_bits(width) as nat), low, high) % (lane_span(half) as int)) as u64,
        ),
        half,
    )
}

pub fn saturate(left: u128, right: u128, width: u8, low: i128, high: i128) -> (vector: u128)
    requires
        width == 2 || width == 4,
        low <= high,
        -0x8000 <= low,
        high <= 0xFFFF,
    ensures
        vector == saturated(left, right, width, low as int, high as int),
{
    let mut pool = split(left, width);
    let mut tail = split(right, width);
    let ghost all = lanes(left, width) + lanes(right, width);
    pool.append(&mut tail);
    assert(pool@ =~= all);
    let half = width / 2;
    let bits = bits_of_lane(width);
    let short = bits_of_lane(half);
    let total = total_of(half);
    let mut parts: Vec<u64> = Vec::new();
    let mut index: usize = 0;
    while index < total
        invariant
            index <= total,
            width == 2 || width == 4,
            half == width / 2,
            total == lane_total(half),
            pool@.len() == total,
            bits == lane_bits(width),
            short == lane_bits(half),
            pow2(short as nat) == lane_span(half),
            low <= high,
            -0x8000 <= low,
            high <= 0xFFFF,
            parts@.len() == index,
            fit(parts@, half),
            forall|i: int|
                0 <= i < index ==> #[trigger] parts@[i] == (clamped(
                    signed_of(pool@[i] as int, bits as nat),
                    low as int,
                    high as int,
                ) % (lane_span(half) as int)) as u64,
        decreases total - index,
    {
        let number = signed(pool[index], bits);
        parts.push(clamp_to_lane(number, low, high, short));
        index = index + 1;
    }
    assert(parts@ =~= Seq::new(
        lane_total(half),
        |i: int|
            (clamped(signed_of(all[i] as int, lane_bits(width) as nat), low as int, high as int) % (lane_span(half) as int)) as u64,
    ));
    glue(&parts, half)
}

/// Adjacent products of signed words, added in pairs.
pub open spec fn multiplied_words(left: u128, right: u128) -> u128 {
    let a = lanes(left, 2);
    let b = lanes(right, 2);
    glued(
        Seq::new(
            4,
            |i: int|
                ((signed_of(a[2 * i] as int, 16) * signed_of(b[2 * i] as int, 16) + signed_of(a[2 * i + 1] as int, 16)
                    * signed_of(b[2 * i + 1] as int, 16)) % 0x1_0000_0000) as u64,
        ),
        4,
    )
}

proof fn lemma_product(a: int, b: int, limit: int)
    requires
        -limit <= a <= limit,
        -limit <= b <= limit,
        0 <= limit,
    ensures
        -(limit * limit) <= a * b <= limit * limit,
{
    assert(-(limit * limit) <= a * b <= limit * limit) by (nonlinear_arith)
        requires
            -limit <= a <= limit,
            -limit <= b <= limit,
            0 <= limit,
    ;
}

pub fn multiply_words(left: u128, right: u128) -> (vector: u128)
    ensures
        vector == multiplied_words(left, right),
{
    let a = split(left, 2);
    let b = split(right, 2);
    let mut parts: Vec<u64> = Vec::new();
    let mut index: usize = 0;
    while index < 4
        invariant
            index <= 4,
            a@.len() == 8,
            b@.len() == 8,
            parts@.len() == index,
            fit(parts@, 4),
            forall|i: int|
                0 <= i < index ==> #[trigger] parts@[i] == ((signed_of(a@[2 * i] as int, 16) * signed_of(
                    b@[2 * i] as int,
                    16,
                ) + signed_of(a@[2 * i + 1] as int, 16) * signed_of(b@[2 * i + 1] as int, 16)) % 0x1_0000_0000) as u64,
        decreases 4 - index,
    {
        proof {
            lemma2_to64();
        }
        let a0 = signed(a[2 * index], 16);
        let b0 = signed(b[2 * index], 16);
        let a1 = signed(a[2 * index + 1], 16);
        let b1 = signed(b[2 * index + 1], 16);
        proof {
            lemma_product(a0 as int, b0 as int, 0x8000);
            lemma_product(a1 as int, b1 as int, 0x8000);
            crate::arith::lemma_low_bits_of_wide(a0 * b0 + a1 * b1, 32, 64);
        }
        parts.push(crate::arith::truncate(word_of(a0 * b0 + a1 * b1), 32));
        index = index + 1;
    }
    assert(parts@ =~= Seq::new(
        4,
        |i: int|
            ((signed_of(lanes(left, 2)[2 * i] as int, 16) * signed_of(lanes(right, 2)[2 * i] as int, 16) + signed_of(
                lanes(left, 2)[2 * i + 1] as int,
                16,
            ) * signed_of(lanes(right, 2)[2 * i + 1] as int, 16)) % 0x1_0000_0000) as u64,
    ));
    glue(&parts, 4)
}

/// Adjacent products of unsigned bytes on the left with signed ones on the right, added
/// in pairs and saturated to signed words.
pub open spec fn multiplied_bytes(left: u128, right: u128) -> u128 {
    let a = lanes(left, 1);
    let b = lanes(right, 1);
    glued(
        Seq::new(
            8,
            |i: int|
                (clamped(
                    a[2 * i] * signed_of(b[2 * i] as int, 8) + a[2 * i + 1] * signed_of(b[2 * i + 1] as int, 8),
                    -0x8000,
                    0x7FFF,
                ) % 0x1_0000) as u64,
        ),
        2,
    )
}

pub fn multiply_bytes(left: u128, right: u128) -> (vector: u128)
    ensures
        vector == multiplied_bytes(left, right),
{
    let a = split(left, 1);
    let b = split(right, 1);
    let mut parts: Vec<u64> = Vec::new();
    let mut index: usize = 0;
    while index < 8
        invariant
            index <= 8,
            a@.len() == 16,
            b@.len() == 16,
            fit(a@, 1),
            parts@.len() == index,
            fit(parts@, 2),
            forall|i: int|
                0 <= i < index ==> #[trigger] parts@[i] == (clamped(
                    a@[2 * i] * signed_of(b@[2 * i] as int, 8) + a@[2 * i + 1] * signed_of(b@[2 * i + 1] as int, 8),
                    -0x8000,
                    0x7FFF,
                ) % 0x1_0000) as u64,
        decreases 8 - index,
    {
        proof {
            lemma2_to64();
            assert(a@[2 * index] < 0x100);
            assert(a@[2 * index + 1] < 0x100);
        }
        let a0 = a[2 * index] as i128;
        let b0 = signed(b[2 * index], 8);
        let a1 = a[2 * index + 1] as i128;
        let b1 = signed(b[2 * index + 1], 8);
        proof {
            lemma_product(a0 as int, b0 as int, 0x100);
            lemma_product(a1 as int, b1 as int, 0x100);
        }
        parts.push(clamp_to_lane(a0 * b0 + a1 * b1, -0x8000, 0x7FFF, 16));
        index = index + 1;
    }
    assert(parts@ =~= Seq::new(
        8,
        |i: int|
            (clamped(
                lanes(left, 1)[2 * i] * signed_of(lanes(right, 1)[2 * i] as int, 8) + lanes(left, 1)[2 * i + 1]
                    * signed_of(lanes(right, 1)[2 * i + 1] as int, 8),
                -0x8000,
                0x7FFF,
            ) % 0x1_0000) as u64,
    ));
    glue(&parts, 2)
}

/// The distance of two numbers.
pub open spec fn distance(a: int, b: int) -> int {
    if a < b {
        b - a
    } else {
        a - b
    }
}

/// The distances of the lanes from `from` up to `to`, added up.
pub open spec fn distances(a: Seq<u64>, b: Seq<u64>, from: int, to: int) -> int
    decreases to - from,
{
    if to <= from {
        0
    } else {
        distances(a, b, from, to - 1) + distance(a[to - 1] as int, b[to - 1] as int)
    }
}

/// For each half, the sum of the distances of its bytes.
pub open spec fn summed_differences(left: u128, right: u128) -> u128 {
    let a = lanes(left, 1);
    let b = lanes(right, 1);
    glued(seq![distances(a, b, 0, 8) as u64, distances(a, b, 8, 16) as u64], 8)
}

fn add_distances(a: &Vec<u64>, b: &Vec<u64>, from: usize) -> (sum: u64)
    requires
        from == 0 || from == 8,
        a@.len() == 16,
        b@.len() == 16,
        fit(a@, 1),
        fit(b@, 1),
    ensures
        sum == distances(a@, b@, from as int, from + 8),
{
    let mut sum: u64 = 0;
    let mut index: usize = from;
    while index < from + 8
        invariant
            from == 0 || from == 8,
            from <= index <= from + 8,
            a@.len() == 16,
            b@.len() == 16,
            fit(a@, 1),
            fit(b@, 1),
            sum == distances(a@, b@, from as int, index as int),
            sum <= 0x100 * (index - from),
        decreases from + 8 - index,
    {
        assert(a@[index as int] < 0x100);
        assert(b@[index as int] < 0x100);
        let step = if a[index] < b[index] {
            b[index] - a[index]
        } else {
            a[index] - b[index]
        };
        sum = sum + step;
        index = index + 1;
    }
    sum
}

pub fn sum_differences(left: u128, right: u128) -> (vector: u128)
    ensures
        vector == summed_differences(left, right),
{
    let a = split(left, 1);
    let b = split(right, 1);
    let low = add_distances(&a, &b, 0);
    let high = add_distances(&a, &b, 8);
    let parts: Vec<u64> = vec![low, high];
    assert(parts@ =~= seq![low, high]);
    glue(&parts, 8)
}

/// Each byte of the left vector that a control byte names; zero where the control
/// byte's top bit is set.
pub open spec fn shuffled_bytes(left: u128, right: u128) -> u128 {
    let a = lanes(left, 1);
    let b = lanes(right, 1);
    glued(
        Seq::new(
            16,
            |i: int|
                if b[i] >= 0x80 {
                    0
                } else {
                    a[(b[i] % 16) as int]
                },
        ),
        1,
    )
}

pub fn shuffle_bytes(left: u128, right: u128) -> (vector: u128)
    ensures
        vector == shuffled_bytes(left, right),
{
    let a = split(left, 1);
    let b = split(right, 1);
    let mut parts: Vec<u64> = Vec::new();
    let mut index: usize = 0;
    while index < 16
        invariant
            index <= 16,
            a@.len() == 16,
            b@.len() == 16,
            fit(a@, 1),
            parts@.len() == index,
            fit(parts@, 1),
            forall|i: int|
                0 <= i < index ==> #[trigger] parts@[i] == (if b@[i] >= 0x80 {
                    0
                } else {
                    a@[(b@[i] % 16) as int]
                }),
        decreases 16 - index,
    {
        let control = b[index];
        let byte: u64 = if control >= 0x80 {
            0
        } else {
            let from = (control % 16) as usize;
            assert(a@[from as int] < 0x100);
            a[from]
        };
        parts.push(byte);
        index = index + 1;
    }
    assert(parts@ =~= Seq::new(
        16,
        |i: int|
            if lanes(right, 1)[i] >= 0x80 {
                0
            } else {
                lanes(left, 1)[(lanes(right, 1)[i] % 16) as int]
            },
    ));
    glue(&parts, 1)
}

/// Sums of adjacent lanes of four bytes, the left vector's first.
pub open spec fn added_pairs(left: u128, right: u128) -> u128 {
    let pool = lanes(left, 4) + lanes(right, 4);
    glued(Seq::new(4, |i: int| ((pool[2 * i] + pool[2 * i + 1]) % 0x1_0000_0000) as u64), 4)
}

pub fn add_pairs(left: u128, right: u128) -> (vector: u128)
    ensures
        vector == added_pairs(left, right),
{
    let mut pool = split(left, 4);
    let mut tail = split(right, 4);
    pool.append(&mut tail);
    assert(pool@ =~= lanes(left, 4) + lanes(right, 4));
    let mut parts: Vec<u64> = Vec::new();
    let mut index: usize = 0;
    while index < 4
        invariant
            index <= 4,
            pool@.len() == 8,
            parts@.len() == index,
            fit(parts@, 4),
            forall|i: int|
                0 <= i < index ==> #[trigger] parts@[i] == ((pool@[2 * i] + pool@[2 * i + 1]) % 0x1_0000_0000) as u64,
        decreases 4 - index,
    {
        let sum: u128 = pool[2 * index] as u128 + pool[2 * index + 1] as u128;
        parts.push((sum % 0x1_0000_0000) as u64);
        index = index + 1;
    }
    assert(parts@ =~= Seq::new(
        4,
        |i: int|
            (((lanes(left, 4) + lanes(right, 4))[2 * i] + (lanes(left, 4) + lanes(right, 4))[2 * i + 1]) % 0x1_0000_0000) as u64,
    ));
    glue(&parts, 4)
}

/// The products of the even lanes of four bytes, in eight bytes each.
pub open spec fn multiplied_even(left: u128, right: u128) -> u128 {
    let a = lanes(left, 4);
    let b = lanes(right, 4);
    glued(seq![(a[0] * b[0]) as u64, (a[2] * b[2]) as u64], 8)
}

fn multiply_lanes(a: u64, b: u64) -> (product: u64)
    requires
        a < 0x1_0000_0000,
        b < 0x1_0000_0000,
    ensures
        product == a * b,
{
    assert(a * b <= 0xFFFF_FFFF * 0xFFFF_FFFF) by (nonlinear_arith)
        requires
            0 <= a <= 0xFFFF_FFFF,
            0 <= b <= 0xFFFF_FFFF,
    ;
    a * b
}

pub fn multiply_even(left: u128, right: u128) -> (vector: u128)
    ensures
        vector == multiplied_even(left, right),
{
    let a = split(left, 4);
    let b = split(right, 4);
    assert(a@[0] < 0x1_0000_0000 && b@[0] < 0x1_0000_0000 && a@[2] < 0x1_0000_0000 && b@[2] < 0x1_0000_0000);
    let low = multiply_lanes(a[0], b[0]);
    let high = multiply_lanes(a[2], b[2]);
    let parts: Vec<u64> = vec![low, high];
    assert(parts@ =~= seq![low, high]);
    glue(&parts, 8)
}

/// How a packed shift moves the bits of a lane.
#[derive(Clone, Copy, PartialEq, Eq, Structural, Debug)]
pub enum LaneShift {
    Left,
    Right,
    /// To the right, with copies of the sign.
    Arithmetic,
}

/// One lane after a shift by `count`. A count of the lane's width or more leaves nothing
/// of it but, for the arithmetic shift, its sign.
pub open spec fn shifted_lane(shift: LaneShift, lane: u64, count: u64, bits: u32) -> u64 {
    let span = pow2(bits as nat) as int;
    let distance = if count >= bits {
        bits as nat
    } else {
        count as nat
    };
    match shift {
        LaneShift::Left => ((lane * pow2(distance)) % span) as u64,
        LaneShift::Right => (lane as int / (pow2(distance) as int)) as u64,
        LaneShift::Arithmetic => ((signed_of(lane as int, bits as nat) / (pow2(distance) as int)) % span) as u64,
    }
}

proof fn lemma_low_product(lane: int, span: int, bits: nat, distance: nat)
    requires
        0 <= lane < pow2(bits),
        span == pow2(bits),
        distance <= bits <= 64,
    ensures
        0 <= lane * pow2(distance) < 0x1_0000_0000_0000_0000_0000_0000_0000_0000,
        0 <= lane / (pow2(distance) as int) < span,
{
    lemma2_to64();
    lemma_pow2_pos(distance);
    vstd::arithmetic::power2::lemma2_to64_rest();
    if bits < 64 {
        lemma_pow2_strictly_increases(bits, 64);
    }
    if distance < 64 {
        lemma_pow2_strictly_increases(distance, 64);
    }
    let p = pow2(distance) as int;
    assert(0 <= lane * p < 0x1_0000_0000_0000_0000 * 0x1_0000_0000_0000_0000) by (nonlinear_arith)
        requires
            0 <= lane < 0x1_0000_0000_0000_0000,
            1 <= p <= 0x1_0000_0000_0000_0000,
    ;
    assert(0 <= lane / p <= lane) by (nonlinear_arith)
        requires
            0 <= lane,
            1 <= p,
    ;
}

/// A negative number divided by a power of two, in two's complement.
proof fn lemma_arithmetic_shift(lane: int, bits: nat, distance: nat)
    requires
        1 <= bits <= 64,
        distance <= bits,
        pow2(bits) <= 2 * lane < 2 * pow2(bits),
    ensures
        ({
            let span = pow2(bits) as int;
            let p = pow2(distance) as int;
            ((lane - span) / p) % span == span - (span - 1 - lane) / p - 1
        }),
        0 <= (pow2(bits) - 1 - lane) / (pow2(distance) as int) < pow2(bits),
{
    lemma_pow2_pos(distance);
    lemma_pow2_pos(bits);
    let span = pow2(bits) as int;
    let p = pow2(distance) as int;
    let m = span - 1 - lane;
    assert(0 <= m < span);
    let q = m / p;
    let r = m % p;
    vstd::arithmetic::div_mod::lemma_fundamental_div_mod(m, p);
    vstd::arithmetic::div_mod::lemma_mod_bound(m, p);
    assert(lane - span == -1 - m);
    assert(-1 - m == p * (-q - 1) + (p - 1 - r)) by (nonlinear_arith)
        requires
            m == p * q + r,
    ;
    assert(p * (-q - 1) == (-q - 1) * p) by (nonlinear_arith);
    vstd::arithmetic::div_mod::lemma_fundamental_div_mod_converse(-1 - m, p, -q - 1, p - 1 - r);
    assert(0 <= q <= m) by (nonlinear_arith)
        requires
            m == p * q + r,
            p >= 1,
            0 <= r < p,
            m >= 0,
    ;
    vstd::arithmetic::div_mod::lemma_fundamental_div_mod_converse(-q - 1, span, -1, span - q - 1);
}

fn shift_one(shift: LaneShift, lane: u64, count: u64, bits: u32) -> (shifted: u64)
    requires
        bits == 16 || bits == 32 || bits == 64,
        lane < pow2(bits as nat),
    ensures
        shifted == shifted_lane(shift, lane, count, bits),
        shifted < pow2(bits as nat),
{
    let distance: u32 = if count >= bits as u64 { bits } else { count as u32 };
    let span: u128 = crate::arith::power_of_two(bits);
    let part: u128 = crate::arith::power_of_two(distance);
    proof {
        lemma2_to64();
        lemma_low_product(lane as int, span as int, bits as nat, distance as nat);
        vstd::arithmetic::power2::lemma_pow2_unfold(bits as nat);
        vstd::arithmetic::div_mod::lemma_small_mod(lane as nat, pow2(bits as nat));
    }
    match shift {
        LaneShift::Left => ((lane as u128 * part) % span) as u64,
        LaneShift::Right => (lane as u128 / part) as u64,
        LaneShift::Arithmetic => {
            if lane as u128 >= span / 2 {
                proof {
                    lemma_arithmetic_shift(lane as int, bits as nat, distance as nat);
                }
                (span - (span - 1 - lane as u128) / part - 1) as u64
            } else {
                proof {
                    vstd::arithmetic::div_mod::lemma_small_mod((lane as int / (part as int)) as nat, pow2(bits as nat));
                }
                (lane as u128 / part) as u64
            }
        },
    }
}

/// A packed shift: every lane on its own.
pub open spec fn shifted_lanes(shift: LaneShift, vector: u128, count: u64, width: u8) -> u128 {
    let a = lanes(vector, width);
    glued(Seq::new(lane_total(width), |i: int| shifted_lane(shift, a[i], count, lane_bits(width))), width)
}

pub fn shift_lanes(shift: LaneShift, vector: u128, count: u64, width: u8) -> (shifted: u128)
    requires
        width == 2 || width == 4 || width == 8,
    ensures
        shifted == shifted_lanes(shift, vector, count, width),
{
    let a = split(vector, width);
    let bits = bits_of_lane(width);
    let total = total_of(width);
    let mut parts: Vec<u64> = Vec::new();
    let mut index: usize = 0;
    while index < total
        invariant
            index <= total,
            width == 2 || width == 4 || width == 8,
            total == lane_total(width),
            a@.len() == total,
            fit(a@, width),
            bits == lane_bits(width),
            pow2(bits as nat) == lane_span(width),
            parts@.len() == index,
            fit(parts@, width),
            forall|i: int| 0 <= i < index ==> #[trigger] parts@[i] == shifted_lane(shift, a@[i], count, bits),
        decreases total - index,
    {
        assert(a@[index as int] < lane_span(width));
        parts.push(shift_one(shift, a[index], count, bits));
        index = index + 1;
    }
    assert(parts@ =~= Seq::new(
        lane_total(width),
        |i: int| shifted_lane(shift, lanes(vector, width)[i], count, lane_bits(width)),
    ));
    glue(&parts, width)
}

/// The vector moved by whole bytes; sixteen or more leave nothing.
pub open spec fn byte_shifted(vector: u128, count: u64, left: bool) -> u128 {
    if count >= 16 {
        0
    } else if left {
        ((vector * pow2((8 * count) as nat)) % 0x1_0000_0000_0000_0000_0000_0000_0000_0000int) as u128
    } else {
        (vector as int / (pow2((8 * count) as nat) as int)) as u128
    }
}

pub fn shift_bytes(vector: u128, count: u64, left: bool) -> (shifted: u128)
    ensures
        shifted == byte_shifted(vector, count, left),
{
    if count >= 16 {
        return 0;
    }
    let distance = count as u32 * 8;
    let part: u128 = crate::arith::power_of_two(distance);
    if left {
        let whole: u128 = crate::arith::power_of_two(128 - distance - 1);
        proof {
            lemma_left_bytes(vector as int, distance as nat);
            lemma_pow2_adds(1, (128 - distance - 1) as nat);
            lemma2_to64();
        }
        // The bits that stay, moved up: what is above them would leave the vector.
        let kept = if distance == 0 {
            vector
        } else {
            vector % (2 * whole)
        };
        kept * part
    } else {
        proof {
            lemma_pow2_pos(distance as nat);
            let p = part as int;
            assert(0 <= vector as int / p <= vector) by (nonlinear_arith)
                requires
                    p >= 1,
            ;
        }
        vector / part
    }
}

proof fn lemma_left_bytes(vector: int, distance: nat)
    requires
        0 <= vector < 0x1_0000_0000_0000_0000_0000_0000_0000_0000int,
        distance <= 120,
    ensures
        pow2((128 - distance) as nat) > 0,
        (vector * pow2(distance)) % 0x1_0000_0000_0000_0000_0000_0000_0000_0000int == (vector % (pow2(
            (128 - distance) as nat,
        ) as int)) * pow2(distance),
        0 <= (vector % (pow2((128 - distance) as nat) as int)) * pow2(distance)
            < 0x1_0000_0000_0000_0000_0000_0000_0000_0000int,
        distance > 0 ==> pow2((128 - distance) as nat) <= 0x8000_0000_0000_0000_0000_0000_0000_0000,
        distance == 0 ==> pow2((128 - distance) as nat) == 0x1_0000_0000_0000_0000_0000_0000_0000_0000int,
        distance == 0 ==> pow2(distance) == 1,
{
    lemma2_to64();
    lemma_pow2_adds(64, 64);
    assert(pow2(128) == 0x1_0000_0000_0000_0000_0000_0000_0000_0000int) by {
        vstd::arithmetic::power2::lemma2_to64_rest();
        assert(0x1_0000_0000_0000_0000int * 0x1_0000_0000_0000_0000int
            == 0x1_0000_0000_0000_0000_0000_0000_0000_0000int);
    }
    let rest = (128 - distance) as nat;
    lemma_pow2_adds(rest, distance);
    lemma_pow2_pos(rest);
    lemma_pow2_pos(distance);
    let a = pow2(rest) as int;
    let b = pow2(distance) as int;
    let q = vector / a;
    let r = vector % a;
    vstd::arithmetic::div_mod::lemma_fundamental_div_mod(vector, a);
    vstd::arithmetic::div_mod::lemma_mod_bound(vector, a);
    assert(vector * b == q * (a * b) + r * b) by (nonlinear_arith)
        requires
            vector == a * q + r,
    ;
    assert(0 <= r * b < a * b) by (nonlinear_arith)
        requires
            0 <= r < a,
            b > 0,
    ;
    vstd::arithmetic::div_mod::lemma_fundamental_div_mod_converse(vector * b, a * b, q, r * b);
    if distance > 0 {
        vstd::arithmetic::power2::lemma_pow2_unfold(128);
        if distance > 1 {
            lemma_pow2_strictly_increases(rest, 127);
        }
    }
}

/// The low lanes of `from` bytes, each extended to `to` bytes.
pub open spec fn widened(vector: u128, from: u8, to: u8, sign: bool) -> u128 {
    let a = lanes(vector, from);
    glued(
        Seq::new(
            lane_total(to),
            |i: int|
                if sign {
                    (signed_of(a[i] as int, lane_bits(from) as nat) % (lane_span(to) as int)) as u64
                } else {
                    a[i]
                },
        ),
        to,
    )
}

pub fn widen(vector: u128, from: u8, to: u8, sign: bool) -> (wide: u128)
    requires
        from == 1 || from == 2 || from == 4,
        to == 2 || to == 4 || to == 8,
        from < to,
    ensures
        wide == widened(vector, from, to, sign),
{
    let a = split(vector, from);
    let bits = bits_of_lane(from);
    let long = bits_of_lane(to);
    let total = total_of(to);
    let mut parts: Vec<u64> = Vec::new();
    let mut index: usize = 0;
    while index < total
        invariant
            index <= total,
            from == 1 || from == 2 || from == 4,
            to == 2 || to == 4 || to == 8,
            from < to,
            total == lane_total(to),
            a@.len() == lane_total(from),
            fit(a@, from),
            bits == lane_bits(from),
            long == lane_bits(to),
            pow2(bits as nat) == lane_span(from),
            pow2(long as nat) == lane_span(to),
            parts@.len() == index,
            fit(parts@, to),
            forall|i: int|
                0 <= i < index ==> #[trigger] parts@[i] == (if sign {
                    (signed_of(a@[i] as int, bits as nat) % (lane_span(to) as int)) as u64
                } else {
                    a@[i]
                }),
        decreases total - index,
    {
        assert(a@[index as int] < lane_span(from));
        let lane = a[index];
        let wide = if sign {
            let number = signed(lane, bits);
            let word = word_of(number);
            proof {
                crate::arith::lemma_low_bits_of_wide(number as int, long as nat, 64);
            }
            crate::arith::truncate(word, long)
        } else {
            lane
        };
        parts.push(wide);
        index = index + 1;
    }
    assert(parts@ =~= Seq::new(
        lane_total(to),
        |i: int|
            if sign {
                (signed_of(lanes(vector, from)[i] as int, lane_bits(from) as nat) % (lane_span(to) as int)) as u64
            } else {
                lanes(vector, from)[i]
            },
    ));
    glue(&parts, to)
}

/// The vector with `value` in one lane.
pub open spec fn with_lane(vector: u128, width: u8, index: int, value: u64) -> u128 {
    glued(lanes(vector, width).update(index, (value as nat % lane_span(width)) as u64), width)
}

pub fn set_lane(vector: u128, width: u8, index: usize, value: u64) -> (changed: u128)
    requires
        index < lane_total(width),
    ensures
        changed == with_lane(vector, width, index as int, value),
{
    let mut parts = split(vector, width);
    let bits = bits_of_lane(width);
    let lane = crate::arith::truncate(value, bits);
    parts.set(index, lane);
    assert(fit(parts@, width)) by {
        assert forall|i: int| 0 <= i < parts@.len() implies #[trigger] parts@[i] < lane_span(width) by {
            if i != index {
                assert(lanes(vector, width)[i] < lane_span(width));
            }
        }
    }
    glue(&parts, width)
}

/// Reading a lane gives what was put there; the other lanes stay.
pub proof fn lane_after_set(vector: u128, width: u8, index: int, value: u64, other: int)
    requires
        0 <= index < lane_total(width),
        0 <= other < lane_total(width),
    ensures
        lanes(with_lane(vector, width, index, value), width)[other] == if other == index {
            (value as nat % lane_span(width)) as u64
        } else {
            lanes(vector, width)[other]
        },
{
    gluing_undoes_splitting(vector, width);
    let parts = lanes(vector, width).update(index, (value as nat % lane_span(width)) as u64);
    assert(fit(parts, width));
    crate::ops::lanes::splitting_undoes_gluing(parts, width);
}

/// The lanes of INSERTPS: `single` where bits four and five of the control say, then
/// zeros in the lanes that the low bits name.
pub open spec fn single_lanes(vector: u128, single: u64, control: u8) -> Seq<u64> {
    let a = lanes(vector, 4);
    Seq::new(
        4,
        |i: int|
            if (control as int / (pow2(i as nat) as int)) % 2 == 1 {
                0
            } else if i == (control / 16) % 4 {
                single
            } else {
                a[i]
            },
    )
}

/// INSERTPS of `single`.
pub open spec fn with_single(vector: u128, single: u64, control: u8) -> u128 {
    glued(single_lanes(vector, single, control), 4)
}

pub fn insert_single(vector: u128, single: u64, control: u8) -> (changed: u128)
    requires
        single < 0x1_0000_0000,
    ensures
        changed == with_single(vector, single, control),
{
    let a = split(vector, 4);
    let target = ((control / 16) % 4) as usize;
    let mut parts: Vec<u64> = Vec::new();
    let mut index: usize = 0;
    while index < 4
        invariant
            index <= 4,
            a@.len() == 4,
            fit(a@, 4),
            single < 0x1_0000_0000,
            target == (control / 16) % 4,
            parts@.len() == index,
            fit(parts@, 4),
            forall|i: int|
                0 <= i < index ==> #[trigger] parts@[i] == (if (control as int / (pow2(i as nat) as int)) % 2 == 1 {
                    0
                } else if i == target {
                    single
                } else {
                    a@[i]
                }),
        decreases 4 - index,
    {
        assert(a@[index as int] < 0x1_0000_0000);
        let part = crate::arith::power_of_two_u64(index as u32);
        let lane = if (control as u64 / part) % 2 == 1 {
            0
        } else if index == target {
            single
        } else {
            a[index]
        };
        parts.push(lane);
        index = index + 1;
    }
    assert(parts@ =~= single_lanes(vector, single, control));
    glue(&parts, 4)
}

} // verus!
