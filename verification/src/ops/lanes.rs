//! Vectors as lanes: splitting, gluing, lane-wise arithmetic and rearrangement.

use vstd::arithmetic::power2::{lemma2_to64, lemma_pow2_unfold, pow2};
use vstd::prelude::*;

use crate::arith::{low_bits, signed, signed_of, word_of};

verus! {

/// How many values a lane of `width` bytes can take. A width that is not one, two or
/// four stands for eight.
pub open spec fn lane_span(width: u8) -> nat {
    match width {
        1 => 0x100,
        2 => 0x1_0000,
        4 => 0x1_0000_0000,
        _ => 0x1_0000_0000_0000_0000,
    }
}

/// How many lanes of `width` bytes a vector has.
pub open spec fn lane_total(width: u8) -> nat {
    match width {
        1 => 16,
        2 => 8,
        4 => 4,
        _ => 2,
    }
}

/// The bits of a lane of `width` bytes.
pub open spec fn lane_bits(width: u8) -> u32 {
    match width {
        1 => 8,
        2 => 16,
        4 => 32,
        _ => 64,
    }
}

fn span_of(width: u8) -> (span: u128)
    ensures
        span == lane_span(width),
{
    match width {
        1 => 0x100,
        2 => 0x1_0000,
        4 => 0x1_0000_0000,
        _ => 0x1_0000_0000_0000_0000,
    }
}

pub fn total_of(width: u8) -> (total: usize)
    ensures
        total == lane_total(width),
{
    match width {
        1 => 16,
        2 => 8,
        4 => 4,
        _ => 2,
    }
}

pub fn bits_of_lane(width: u8) -> (bits: u32)
    ensures
        bits == lane_bits(width),
        pow2(bits as nat) == lane_span(width),
{
    proof {
        lemma2_to64();
    }
    match width {
        1 => 8,
        2 => 16,
        4 => 32,
        _ => 64,
    }
}

/// The lowest `count` digits of `value` to the base `span`, lowest first.
pub open spec fn digits(value: nat, count: nat, span: nat) -> Seq<u64>
    decreases count,
{
    if count == 0 {
        seq![]
    } else {
        seq![(value % span) as u64] + digits(value / span, (count - 1) as nat, span)
    }
}

/// The number that digits to the base `span` spell.
pub open spec fn spelled(lanes: Seq<u64>, span: nat) -> nat
    decreases lanes.len(),
{
    if lanes.len() == 0 {
        0
    } else {
        lanes[0] as nat + span * spelled(lanes.skip(1), span)
    }
}

/// `span` to the power `count`.
pub open spec fn power(span: nat, count: nat) -> nat
    decreases count,
{
    if count == 0 {
        1
    } else {
        span * power(span, (count - 1) as nat)
    }
}

/// The lanes of a vector, lowest first.
pub open spec fn lanes(vector: u128, width: u8) -> Seq<u64> {
    digits(vector as nat, lane_total(width), lane_span(width))
}

/// The vector that has these lanes.
pub open spec fn glued(lanes: Seq<u64>, width: u8) -> u128 {
    spelled(lanes, lane_span(width)) as u128
}

/// Whether every lane fits its width.
pub open spec fn fit(lanes: Seq<u64>, width: u8) -> bool {
    forall|i: int| 0 <= i < lanes.len() ==> #[trigger] lanes[i] < lane_span(width)
}

proof fn lemma_digits(value: nat, count: nat, span: nat)
    requires
        1 < span <= 0x1_0000_0000_0000_0000,
    ensures
        digits(value, count, span).len() == count,
        forall|i: int| 0 <= i < count ==> #[trigger] digits(value, count, span)[i] < span,
        spelled(digits(value, count, span), span) == value % power(span, count),
        power(span, count) > 0,
    decreases count,
{
    if count > 0 {
        let rest = digits(value / span, (count - 1) as nat, span);
        lemma_digits(value / span, (count - 1) as nat, span);
        vstd::arithmetic::div_mod::lemma_mod_bound(value as int, span as int);
        let all = digits(value, count, span);
        assert(all.skip(1) =~= rest);
        assert(all[0] == (value % span) as u64);
        let p = power(span, (count - 1) as nat);
        assert(span * p > 0) by (nonlinear_arith)
            requires
                span > 0,
                p > 0,
        ;
        vstd::arithmetic::div_mod::lemma_breakdown(value as int, span as int, p as int);
        assert(value % (span * p) == span * ((value / span) % p) + value % span);
    } else {
        assert(value % 1 == 0);
    }
}

proof fn lemma_spelled_bound(lanes: Seq<u64>, span: nat)
    requires
        span > 0,
        forall|i: int| 0 <= i < lanes.len() ==> #[trigger] lanes[i] < span,
    ensures
        spelled(lanes, span) < power(span, lanes.len()),
    decreases lanes.len(),
{
    if lanes.len() > 0 {
        lemma_spelled_bound(lanes.skip(1), span);
        let rest = spelled(lanes.skip(1), span);
        let p = power(span, (lanes.len() - 1) as nat);
        assert(lanes[0] < span);
        assert(span * rest + span <= span * p) by (nonlinear_arith)
            requires
                rest + 1 <= p,
        ;
    }
}

proof fn lemma_digits_of_spelled(lanes: Seq<u64>, span: nat)
    requires
        1 < span,
        forall|i: int| 0 <= i < lanes.len() ==> #[trigger] lanes[i] < span,
    ensures
        digits(spelled(lanes, span), lanes.len(), span) == lanes,
    decreases lanes.len(),
{
    if lanes.len() > 0 {
        let rest = lanes.skip(1);
        lemma_digits_of_spelled(rest, span);
        let value = spelled(lanes, span);
        assert(lanes[0] < span);
        assert(span * spelled(rest, span) == spelled(rest, span) * span) by (nonlinear_arith);
        vstd::arithmetic::div_mod::lemma_fundamental_div_mod_converse(
            value as int,
            span as int,
            spelled(rest, span) as int,
            lanes[0] as int,
        );
        assert(digits(value, lanes.len(), span) =~= seq![lanes[0]] + rest);
        assert(seq![lanes[0]] + rest =~= lanes);
    } else {
        assert(digits(spelled(lanes, span), 0, span) =~= lanes);
    }
}

proof fn lemma_power_total(width: u8)
    ensures
        power(lane_span(width), lane_total(width)) == 0x1_0000_0000_0000_0000_0000_0000_0000_0000int,
{
    let span = lane_span(width);
    reveal_with_fuel(power, 17);
    if width == 1 {
        assert(power(0x100, 4) == 0x1_0000_0000);
        assert(power(0x100, 8) == 0x1_0000_0000_0000_0000);
        assert(power(0x100, 12) == 0x1_0000_0000_0000_0000_0000_0000int);
        assert(power(0x100, 16) == 0x1_0000_0000_0000_0000_0000_0000_0000_0000int);
    } else if width == 2 {
        assert(power(0x1_0000, 4) == 0x1_0000_0000_0000_0000);
        assert(power(0x1_0000, 8) == 0x1_0000_0000_0000_0000_0000_0000_0000_0000int);
    } else if width == 4 {
        assert(power(0x1_0000_0000, 4) == 0x1_0000_0000_0000_0000_0000_0000_0000_0000int);
    } else {
        assert(power(0x1_0000_0000_0000_0000, 2) == 0x1_0000_0000_0000_0000_0000_0000_0000_0000int);
    }
}

/// Gluing the lanes of a vector gives it back.
pub proof fn gluing_undoes_splitting(vector: u128, width: u8)
    ensures
        glued(lanes(vector, width), width) == vector,
        lanes(vector, width).len() == lane_total(width),
        fit(lanes(vector, width), width),
{
    lemma_digits(vector as nat, lane_total(width), lane_span(width));
    lemma_power_total(width);
    vstd::arithmetic::div_mod::lemma_small_mod(vector as nat, power(lane_span(width), lane_total(width)));
}

/// Splitting glued lanes gives them back.
pub proof fn splitting_undoes_gluing(parts: Seq<u64>, width: u8)
    requires
        parts.len() == lane_total(width),
        fit(parts, width),
    ensures
        lanes(glued(parts, width), width) == parts,
        spelled(parts, lane_span(width)) <= 0xFFFF_FFFF_FFFF_FFFF_FFFF_FFFF_FFFF_FFFF,
{
    lemma_spelled_bound(parts, lane_span(width));
    lemma_power_total(width);
    lemma_digits_of_spelled(parts, lane_span(width));
}

/// The lanes of a vector.
pub fn split(vector: u128, width: u8) -> (parts: Vec<u64>)
    ensures
        parts@ == lanes(vector, width),
        parts@.len() == lane_total(width),
        fit(parts@, width),
{
    let span = span_of(width);
    let total = total_of(width);
    let mut parts: Vec<u64> = Vec::new();
    let mut rest = vector;
    let mut index: usize = 0;
    while index < total
        invariant
            index <= total,
            total == lane_total(width),
            span == lane_span(width),
            parts@.len() == index,
            parts@ + digits(rest as nat, (total - index) as nat, span as nat) == digits(
                vector as nat,
                total as nat,
                span as nat,
            ),
        decreases total - index,
    {
        let ghost before = parts@;
        parts.push((rest % span) as u64);
        proof {
            let tail = digits((rest / span) as nat, (total - index - 1) as nat, span as nat);
            assert(before + (seq![(rest % span) as u64] + tail) =~= parts@ + tail);
        }
        rest = rest / span;
        index = index + 1;
    }
    proof {
        assert(parts@ + Seq::<u64>::empty() =~= parts@);
        gluing_undoes_splitting(vector, width);
    }
    parts
}

/// The vector that has these lanes.
pub fn glue(parts: &Vec<u64>, width: u8) -> (vector: u128)
    requires
        parts@.len() == lane_total(width),
        fit(parts@, width),
    ensures
        vector == glued(parts@, width),
{
    let span = span_of(width);
    let mut index: usize = parts.len();
    let mut vector: u128 = 0;
    assert(parts@.skip(index as int) =~= Seq::<u64>::empty());
    while index > 0
        invariant
            index <= parts@.len(),
            parts@.len() == lane_total(width),
            fit(parts@, width),
            span == lane_span(width),
            vector == spelled(parts@.skip(index as int), span as nat),
        decreases index,
    {
        index = index - 1;
        proof {
            let tail = parts@.skip(index as int);
            assert(tail.skip(1) =~= parts@.skip(index + 1));
            assert forall|i: int| 0 <= i < tail.len() implies #[trigger] tail[i] < span by {
                assert(parts@[i + index] < lane_span(width));
            }
            lemma_spelled_bound(tail, span as nat);
            lemma_power_below(span as nat, tail.len(), lane_total(width));
            lemma_power_total(width);
            assert(span * vector == vector * span) by (nonlinear_arith);
        }
        vector = vector * span + parts[index] as u128;
    }
    assert(parts@.skip(0) =~= parts@);
    vector
}

proof fn lemma_power_below(span: nat, count: nat, total: nat)
    requires
        span > 0,
        count <= total,
    ensures
        power(span, count) <= power(span, total),
    decreases total - count,
{
    if count < total {
        lemma_power_below(span, (count + 1) as nat, total);
        let p = power(span, count);
        assert(p <= span * p) by (nonlinear_arith)
            requires
                span >= 1,
                p >= 0,
        ;
    }
}

/// What a packed instruction does with each pair of lanes.
#[derive(Clone, Copy, PartialEq, Eq, Structural, Debug)]
pub enum LaneOp {
    AddWrap,
    SubWrap,
    Equal,
    GreaterSigned,
    MinUnsigned,
    MaxUnsigned,
    MinSigned,
    MaxSigned,
    AddSaturateUnsigned,
    SubSaturateUnsigned,
    AddSaturateSigned,
    SubSaturateSigned,
    Average,
    MultiplyLow,
    MultiplyHighUnsigned,
    MultiplyHighSigned,
}

/// `number` brought between `low` and `high`.
pub open spec fn clamped(number: int, low: int, high: int) -> int {
    if number < low {
        low
    } else if number > high {
        high
    } else {
        number
    }
}

/// The result of one lane of `bits` bits: modular, saturating, ordered or averaged.
pub open spec fn lane_result(op: LaneOp, left: u64, right: u64, bits: u32) -> u64 {
    let n = bits as nat;
    let span = pow2(n) as int;
    let a = signed_of(left as int, n);
    let b = signed_of(right as int, n);
    let result = match op {
        LaneOp::AddWrap => (left + right) % span,
        LaneOp::SubWrap => (left - right) % span,
        LaneOp::Equal => if left == right {
            span - 1
        } else {
            0
        },
        LaneOp::GreaterSigned => if a > b {
            span - 1
        } else {
            0
        },
        LaneOp::MinUnsigned => if left <= right {
            left as int
        } else {
            right as int
        },
        LaneOp::MaxUnsigned => if left >= right {
            left as int
        } else {
            right as int
        },
        LaneOp::MinSigned => if a <= b {
            left as int
        } else {
            right as int
        },
        LaneOp::MaxSigned => if a >= b {
            left as int
        } else {
            right as int
        },
        LaneOp::AddSaturateUnsigned => clamped(left + right, 0, span - 1),
        LaneOp::SubSaturateUnsigned => clamped(left - right, 0, span - 1),
        LaneOp::AddSaturateSigned => clamped(a + b, -span / 2, span / 2 - 1) % span,
        LaneOp::SubSaturateSigned => clamped(a - b, -span / 2, span / 2 - 1) % span,
        LaneOp::Average => (left + right + 1) / 2,
        LaneOp::MultiplyLow => (left * right) % span,
        LaneOp::MultiplyHighUnsigned => (left * right) / span,
        LaneOp::MultiplyHighSigned => ((a * b) / span) % span,
    };
    result as u64
}

/// `number`, which lies in the signed range of `bits` bits, as a lane.
fn signed_lane(number: i128, bits: u32) -> (lane: u64)
    requires
        1 <= bits <= 64,
        -pow2((bits - 1) as nat) <= number < pow2((bits - 1) as nat),
    ensures
        lane == number as int % (pow2(bits as nat) as int),
        lane < pow2(bits as nat),
{
    let word = word_of(number);
    proof {
        crate::arith::lemma_low_bits_of_wide(number as int, bits as nat, 64);
    }
    crate::arith::truncate(word, bits)
}

/// One lane of a packed instruction.
pub fn lane_of(op: LaneOp, left: u64, right: u64, bits: u32) -> (lane: u64)
    requires
        bits == 8 || bits == 16 || bits == 32 || bits == 64,
        left < pow2(bits as nat),
        right < pow2(bits as nat),
        op == LaneOp::MultiplyHighSigned ==> bits <= 32,
    ensures
        lane == lane_result(op, left, right, bits),
        lane < pow2(bits as nat),
{
    let span: u128 = crate::arith::power_of_two(bits);
    proof {
        lemma2_to64();
        lemma_pow2_unfold(bits as nat);
        vstd::arithmetic::div_mod::lemma_small_mod(left as nat, pow2(bits as nat));
        vstd::arithmetic::div_mod::lemma_small_mod(right as nat, pow2(bits as nat));
    }
    let a = signed(left, bits);
    let b = signed(right, bits);
    let half: i128 = (span / 2) as i128;
    let l = left as u128;
    let r = right as u128;
    assert(left * right < span * span) by (nonlinear_arith)
        requires
            0 <= left < span,
            0 <= right < span,
    ;
    assert(span * span <= 0x1_0000_0000_0000_0000 * 0x1_0000_0000_0000_0000) by (nonlinear_arith)
        requires
            0 <= span <= 0x1_0000_0000_0000_0000,
    ;
    match op {
        LaneOp::AddWrap => ((l + r) % span) as u64,
        LaneOp::SubWrap => {
            proof {
                crate::ops::lemma_mod_once(left - right, span as int);
                crate::ops::lemma_mod_once(left + span - right, span as int);
            }
            ((l + span - r) % span) as u64
        },
        LaneOp::Equal => if left == right { (span - 1) as u64 } else { 0 },
        LaneOp::GreaterSigned => if a > b { (span - 1) as u64 } else { 0 },
        LaneOp::MinUnsigned => if left <= right { left } else { right },
        LaneOp::MaxUnsigned => if left >= right { left } else { right },
        LaneOp::MinSigned => if a <= b { left } else { right },
        LaneOp::MaxSigned => if a >= b { left } else { right },
        LaneOp::AddSaturateUnsigned => if l + r > span - 1 { (span - 1) as u64 } else { (l + r) as u64 },
        LaneOp::SubSaturateUnsigned => if left < right { 0 } else { left - right },
        LaneOp::AddSaturateSigned => {
            let sum = a + b;
            let bounded = if sum < -half { -half } else if sum > half - 1 { half - 1 } else { sum };
            signed_lane(bounded, bits)
        },
        LaneOp::SubSaturateSigned => {
            let difference = a - b;
            let bounded = if difference < -half { -half } else if difference > half - 1 { half - 1 } else { difference };
            signed_lane(bounded, bits)
        },
        LaneOp::Average => ((l + r + 1) / 2) as u64,
        LaneOp::MultiplyLow => ((l * r) % span) as u64,
        LaneOp::MultiplyHighUnsigned => {
            proof {
                lemma_high_part(left as int, right as int, span as int);
            }
            ((l * r) / span) as u64
        },
        LaneOp::MultiplyHighSigned => {
            proof {
                assert(-0x4000_0000_0000_0000 <= a * b <= 0x4000_0000_0000_0000) by (nonlinear_arith)
                    requires
                        -0x8000_0000 <= a <= 0x8000_0000,
                        -0x8000_0000 <= b <= 0x8000_0000,
                ;
                lemma_signed_high(a * b, bits as nat);
            }
            let word = word_of(a * b);
            ((word as u128 / span) % span) as u64
        },
    }
}

proof fn lemma_high_part(left: int, right: int, span: int)
    requires
        0 <= left < span,
        0 <= right < span,
    ensures
        0 <= (left * right) / span < span,
{
    assert(0 <= left * right < span * span) by (nonlinear_arith)
        requires
            0 <= left < span,
            0 <= right < span,
    ;
    assert(0 <= (left * right) / span < span) by (nonlinear_arith)
        requires
            0 <= left * right < span * span,
            span > 0,
    ;
}

/// The upper half of a product can be taken from its low 64 bits.
proof fn lemma_signed_high(number: int, bits: nat)
    requires
        bits == 8 || bits == 16 || bits == 32,
    ensures
        (low_bits(number, 64) / (pow2(bits) as int)) % (pow2(bits) as int) == (number / (pow2(bits) as int)) % (
        pow2(bits) as int),
{
    lemma2_to64();
    let whole = 0x1_0000_0000_0000_0000int;
    let r = number % whole;
    let q = number / whole;
    if bits == 8 {
        assert(number / 0x100 == q * 0x100_0000_0000_0000 + r / 0x100);
        assert((q * 0x100_0000_0000_0000 + r / 0x100) % 0x100 == (r / 0x100) % 0x100);
    } else if bits == 16 {
        assert(number / 0x1_0000 == q * 0x1_0000_0000_0000 + r / 0x1_0000);
        assert((q * 0x1_0000_0000_0000 + r / 0x1_0000) % 0x1_0000 == (r / 0x1_0000) % 0x1_0000);
    } else {
        assert(number / 0x1_0000_0000 == q * 0x1_0000_0000 + r / 0x1_0000_0000);
        assert((q * 0x1_0000_0000 + r / 0x1_0000_0000) % 0x1_0000_0000 == (r / 0x1_0000_0000) % 0x1_0000_0000);
    }
}

/// A packed instruction: every lane on its own.
pub open spec fn lanewise(op: LaneOp, left: u128, right: u128, width: u8) -> u128 {
    let a = lanes(left, width);
    let b = lanes(right, width);
    glued(Seq::new(lane_total(width), |i: int| lane_result(op, a[i], b[i], lane_bits(width))), width)
}

pub fn apply_lanewise(op: LaneOp, left: u128, right: u128, width: u8) -> (vector: u128)
    requires
        op == LaneOp::MultiplyHighSigned ==> width == 1 || width == 2 || width == 4,
    ensures
        vector == lanewise(op, left, right, width),
{
    let a = split(left, width);
    let b = split(right, width);
    let bits = bits_of_lane(width);
    let total = total_of(width);
    let mut parts: Vec<u64> = Vec::new();
    let mut index: usize = 0;
    while index < total
        invariant
            index <= total,
            total == lane_total(width),
            a@ == lanes(left, width),
            b@ == lanes(right, width),
            a@.len() == total,
            b@.len() == total,
            fit(a@, width),
            fit(b@, width),
            bits == lane_bits(width),
            pow2(bits as nat) == lane_span(width),
            op == LaneOp::MultiplyHighSigned ==> bits <= 32,
            parts@.len() == index,
            fit(parts@, width),
            forall|i: int| 0 <= i < index ==> #[trigger] parts@[i] == lane_result(op, a@[i], b@[i], bits),
        decreases total - index,
    {
        assert(a@[index as int] < lane_span(width));
        assert(b@[index as int] < lane_span(width));
        parts.push(lane_of(op, a[index], b[index], bits));
        index = index + 1;
    }
    proof {
        let expected = Seq::new(
            lane_total(width),
            |i: int| lane_result(op, lanes(left, width)[i], lanes(right, width)[i], lane_bits(width)),
        );
        assert(parts@ =~= expected);
    }
    glue(&parts, width)
}

/// Where the lanes of a rearranged vector come from.
#[derive(Clone, Copy, PartialEq, Eq, Structural, Debug)]
pub enum Arrangement {
    /// The low or the high halves of both vectors, lane by lane in turn.
    Interleave { high: bool },
    /// Each lane of the right vector that two control bits name.
    Shuffle { control: u8 },
    /// The same inside one half of eight lanes; the other half stays.
    ShuffleHalf { control: u8, high: bool },
    /// The lower half of the lanes from the left vector, the upper from the right, each
    /// as its control bits name it.
    ShuffleBoth { control: u8 },
    /// The right lane where its mask bit is set, else the left one.
    Blend { mask: u16 },
    /// The lanes of the right vector followed by those of the left, from `shift` on.
    Align { shift: u8 },
    /// Pairs of one lane of the right vector: the even one or the odd one.
    Duplicate { odd: bool },
    /// The high lane of the right vector under the high lane of the left.
    HighToLow,
    /// The low lane of the left vector under the low lane of the right.
    LowToHigh,
}

/// Bits `2 * index` and `2 * index + 1` of `control`.
pub open spec fn two_bits(control: u8, index: int) -> int {
    (control as int / (pow2((2 * index) as nat) as int)) % 4
}

/// Which lane of the left vector followed by the right one goes to lane `index`, of
/// `total`; none for a lane that becomes zero.
pub open spec fn source_lane(arrangement: Arrangement, index: int, total: int) -> Option<int> {
    match arrangement {
        Arrangement::Interleave { high } => {
            let from = if high {
                total / 2
            } else {
                0
            } + index / 2;
            Some(if index % 2 == 0 {
                from
            } else {
                total + from
            })
        },
        Arrangement::Shuffle { control } => Some(total + two_bits(control, index)),
        Arrangement::ShuffleHalf { control, high } => if high == (index >= 4) {
            let base = if high {
                4int
            } else {
                0
            };
            Some(total + base + two_bits(control, index - base))
        } else {
            Some(total + index)
        },
        Arrangement::ShuffleBoth { control } => {
            let pick = if total == 4 {
                two_bits(control, index)
            } else {
                (control as int / (pow2(index as nat) as int)) % 2
            };
            Some(if index < total / 2 {
                pick
            } else {
                total + pick
            })
        },
        Arrangement::Blend { mask } => if (mask as int / (pow2(index as nat) as int)) % 2 == 1 {
            Some(total + index)
        } else {
            Some(index)
        },
        Arrangement::Align { shift } => {
            let place = shift + index;
            if place < total {
                Some(total + place)
            } else if place < 2 * total {
                Some(place - total)
            } else {
                None
            }
        },
        Arrangement::Duplicate { odd } => Some(total + index - index % 2 + if odd {
            1int
        } else {
            0
        }),
        Arrangement::HighToLow => Some(if index == 0 {
            total + 1
        } else {
            1
        }),
        Arrangement::LowToHigh => Some(if index == 0 {
            0
        } else {
            total
        }),
    }
}

/// A rearranged vector.
pub open spec fn arranged(arrangement: Arrangement, left: u128, right: u128, width: u8) -> u128 {
    let pool = lanes(left, width) + lanes(right, width);
    glued(
        Seq::new(
            lane_total(width),
            |i: int|
                match source_lane(arrangement, i, lane_total(width) as int) {
                    Some(from) => pool[from],
                    None => 0,
                },
        ),
        width,
    )
}

/// Whether the arrangement is one for lanes of `width` bytes.
pub open spec fn suits(arrangement: Arrangement, width: u8) -> bool {
    match arrangement {
        Arrangement::Shuffle { .. } => lane_total(width) == 4,
        Arrangement::ShuffleHalf { .. } => lane_total(width) == 8,
        Arrangement::ShuffleBoth { .. } => lane_total(width) == 4 || lane_total(width) == 2,
        Arrangement::HighToLow | Arrangement::LowToHigh => lane_total(width) == 2,
        _ => true,
    }
}

fn pair_of_bits(control: u8, index: usize) -> (bits: usize)
    requires
        index < 4,
    ensures
        bits == two_bits(control, index as int),
        bits < 4,
{
    proof {
        lemma2_to64();
        assert(control as int / 1 == control);
    }
    match index {
        0 => (control % 4) as usize,
        1 => ((control / 4) % 4) as usize,
        2 => ((control / 16) % 4) as usize,
        _ => ((control / 64) % 4) as usize,
    }
}

fn one_bit(control: u16, index: usize) -> (set: bool)
    requires
        index < 16,
    ensures
        set == ((control as int / (pow2(index as nat) as int)) % 2 == 1),
{
    let part = crate::arith::power_of_two_u64(index as u32);
    (control as u64 / part) % 2 == 1
}

fn source_of(arrangement: Arrangement, index: usize, total: usize, width: u8) -> (from: Option<usize>)
    requires
        total == lane_total(width),
        index < total,
        suits(arrangement, width),
    ensures
        match source_lane(arrangement, index as int, total as int) {
            Some(lane) => from == Some(lane as usize) && 0 <= lane < 2 * total,
            None => from is None,
        },
{
    match arrangement {
        Arrangement::Interleave { high } => {
            let start: usize = if high { total / 2 } else { 0 };
            let from = start + index / 2;
            Some(if index % 2 == 0 { from } else { total + from })
        },
        Arrangement::Shuffle { control } => Some(total + pair_of_bits(control, index)),
        Arrangement::ShuffleHalf { control, high } => {
            if high == (index >= 4) {
                let base: usize = if high { 4 } else { 0 };
                Some(total + base + pair_of_bits(control, index - base))
            } else {
                Some(total + index)
            }
        },
        Arrangement::ShuffleBoth { control } => {
            let pick: usize = if total == 4 {
                pair_of_bits(control, index)
            } else if one_bit(control as u16, index) {
                1
            } else {
                0
            };
            Some(if index < total / 2 { pick } else { total + pick })
        },
        Arrangement::Blend { mask } => if one_bit(mask, index) {
            Some(total + index)
        } else {
            Some(index)
        },
        Arrangement::Align { shift } => {
            let place = shift as usize + index;
            if place < total {
                Some(total + place)
            } else if place < 2 * total {
                Some(place - total)
            } else {
                None
            }
        },
        Arrangement::Duplicate { odd } => {
            let extra: usize = if odd { 1 } else { 0 };
            Some(total + index - index % 2 + extra)
        },
        Arrangement::HighToLow => Some(if index == 0 { total + 1 } else { 1 }),
        Arrangement::LowToHigh => Some(if index == 0 { 0 } else { total }),
    }
}

pub fn arrange(arrangement: Arrangement, left: u128, right: u128, width: u8) -> (vector: u128)
    requires
        suits(arrangement, width),
    ensures
        vector == arranged(arrangement, left, right, width),
{
    let a = split(left, width);
    let b = split(right, width);
    let total = total_of(width);
    let mut parts: Vec<u64> = Vec::new();
    let mut index: usize = 0;
    let ghost pool = a@ + b@;
    while index < total
        invariant
            index <= total,
            total == lane_total(width),
            suits(arrangement, width),
            a@.len() == total,
            b@.len() == total,
            pool == a@ + b@,
            fit(a@, width),
            fit(b@, width),
            parts@.len() == index,
            fit(parts@, width),
            forall|i: int|
                0 <= i < index ==> #[trigger] parts@[i] == (match source_lane(arrangement, i, total as int) {
                    Some(from) => pool[from],
                    None => 0,
                }),
        decreases total - index,
    {
        let lane = match source_of(arrangement, index, total, width) {
            Some(from) => if from < total {
                assert(a@[from as int] < lane_span(width));
                a[from]
            } else {
                assert(b@[from - total] < lane_span(width));
                b[from - total]
            },
            None => 0,
        };
        parts.push(lane);
        index = index + 1;
    }
    proof {
        let all = lanes(left, width) + lanes(right, width);
        let expected = Seq::new(
            lane_total(width),
            |i: int|
                match source_lane(arrangement, i, lane_total(width) as int) {
                    Some(from) => all[from],
                    None => 0,
                },
        );
        assert(parts@ =~= expected);
    }
    glue(&parts, width)
}

/// The top bits of the lanes as a number, lowest lane first.
pub open spec fn sign_mask(parts: Seq<u64>, width: u8) -> nat
    decreases parts.len(),
{
    if parts.len() == 0 {
        0
    } else {
        (if 2 * parts[0] >= lane_span(width) {
            1nat
        } else {
            0
        }) + 2 * sign_mask(parts.skip(1), width)
    }
}

/// The top bits of the lanes of a vector.
pub open spec fn top_bits(vector: u128, width: u8) -> u64 {
    sign_mask(lanes(vector, width), width) as u64
}

pub fn gather_top_bits(vector: u128, width: u8) -> (mask: u64)
    ensures
        mask == top_bits(vector, width),
        mask < 0x1_0000,
{
    let parts = split(vector, width);
    let half = span_of(width) / 2;
    let mut index: usize = parts.len();
    let mut mask: u64 = 0;
    assert(parts@.skip(index as int) =~= Seq::<u64>::empty());
    proof {
        lemma2_to64();
    }
    while index > 0
        invariant
            index <= parts@.len() <= 16,
            half == lane_span(width) / 2,
            mask == sign_mask(parts@.skip(index as int), width),
            mask < pow2((parts@.len() - index) as nat),
        decreases index,
    {
        index = index - 1;
        proof {
            assert(parts@.skip(index as int).skip(1) =~= parts@.skip(index + 1));
            lemma_pow2_unfold((parts@.len() - index) as nat);
            lemma2_to64();
            if parts@.len() - index < 16 {
                vstd::arithmetic::power2::lemma_pow2_strictly_increases((parts@.len() - index) as nat, 16);
            }
        }
        let bit: u64 = if parts[index] as u128 >= half { 1 } else { 0 };
        mask = bit + 2 * mask;
    }
    proof {
        assert(parts@.skip(0) =~= parts@);
        if parts@.len() < 16 {
            vstd::arithmetic::power2::lemma_pow2_strictly_increases(parts@.len(), 16);
        }
    }
    mask
}

} // verus!
