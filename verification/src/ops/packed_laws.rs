//! Packed integer instructions, lane by lane and told by mnemonics.

use vstd::arithmetic::power2::{lemma2_to64, pow2};
use vstd::prelude::*;

use crate::cpu::step::{dispatch_spec, route_of, Route};
use crate::cpu::{CpuError, Machine};
use crate::decode::{mnemonic, op_kind, Instruction};
use crate::ops::effect::{done, Effect};
use crate::ops::lanes::{
    arranged, fit, glued, gluing_undoes_splitting, lane_bits, lane_result, lane_span, lane_total, lanes, lanewise,
    source_lane, splitting_undoes_gluing, two_bits, Arrangement, LaneOp,
};
use crate::ops::packed::{
    multiplied_words, saturated, shifted_lane, shifted_lanes, shuffled_bytes, LaneShift,
};
use crate::ops::sse::{arrangement_of, combine_spec, combined, integer_op, lane_operation, shift_of, sse_op_spec};
use crate::ops::sse_integer::{apply_spec, control_byte, packed_result};
use crate::ops::xmm::is_xmm_spec;

verus! {

/// How many bytes the lanes of a packed instruction have; zero for any other instruction.
pub open spec fn lane_width(code: u16) -> u8 {
    if code == mnemonic::PADDB || code == mnemonic::PSUBB || code == mnemonic::PADDUSB || code == mnemonic::PSUBUSB || code
        == mnemonic::PADDSB || code == mnemonic::PSUBSB || code == mnemonic::PCMPEQB || code == mnemonic::PCMPGTB || code
        == mnemonic::PMINUB || code == mnemonic::PMAXUB || code == mnemonic::PMINSB || code == mnemonic::PMAXSB {
        1
    } else if code == mnemonic::PADDW || code == mnemonic::PSUBW || code == mnemonic::PADDUSW || code == mnemonic::PSUBUSW
        || code == mnemonic::PADDSW || code == mnemonic::PSUBSW || code == mnemonic::PCMPEQW || code == mnemonic::PCMPGTW
        || code == mnemonic::PMINSW || code == mnemonic::PMAXSW || code == mnemonic::PMINUW || code == mnemonic::PMAXUW {
        2
    } else if code == mnemonic::PADDD || code == mnemonic::PSUBD || code == mnemonic::PCMPEQD || code == mnemonic::PCMPGTD
        || code == mnemonic::PMINSD || code == mnemonic::PMAXSD || code == mnemonic::PMINUD || code == mnemonic::PMAXUD {
        4
    } else if code == mnemonic::PADDQ || code == mnemonic::PSUBQ || code == mnemonic::PCMPEQQ {
        8
    } else {
        0
    }
}

/// One past the largest number of a lane.
pub open spec fn span(width: u8) -> int {
    if width == 1 {
        0x100
    } else if width == 2 {
        0x1_0000
    } else if width == 4 {
        0x1_0000_0000
    } else {
        0x1_0000_0000_0000_0000
    }
}

/// A lane read with sign.
pub open spec fn with_sign(lane: u64, width: u8) -> int {
    if 2 * lane >= span(width) {
        lane - span(width)
    } else {
        lane as int
    }
}

/// `number`, or the nearer bound where it lies outside of them.
pub open spec fn bounded(number: int, low: int, high: int) -> int {
    if number < low {
        low
    } else if number > high {
        high
    } else {
        number
    }
}

/// What a packed instruction makes of two lanes. Plain sums and differences wrap, those with
/// US stop at the bounds without sign and those with S at the bounds with it; comparisons
/// give all ones or zero.
pub open spec fn lane_value(code: u16, left: u64, right: u64) -> int {
    let width = lane_width(code);
    let all = span(width);
    let l = with_sign(left, width);
    let r = with_sign(right, width);
    if code == mnemonic::PADDB || code == mnemonic::PADDW || code == mnemonic::PADDD || code == mnemonic::PADDQ {
        (left + right) % all
    } else if code == mnemonic::PSUBB || code == mnemonic::PSUBW || code == mnemonic::PSUBD || code == mnemonic::PSUBQ {
        (left - right) % all
    } else if code == mnemonic::PADDUSB || code == mnemonic::PADDUSW {
        bounded(left + right, 0, all - 1)
    } else if code == mnemonic::PSUBUSB || code == mnemonic::PSUBUSW {
        bounded(left - right, 0, all - 1)
    } else if code == mnemonic::PADDSB || code == mnemonic::PADDSW {
        bounded(l + r, -all / 2, all / 2 - 1) % all
    } else if code == mnemonic::PSUBSB || code == mnemonic::PSUBSW {
        bounded(l - r, -all / 2, all / 2 - 1) % all
    } else if code == mnemonic::PCMPEQB || code == mnemonic::PCMPEQW || code == mnemonic::PCMPEQD || code
        == mnemonic::PCMPEQQ {
        if left == right { all - 1 } else { 0 }
    } else if code == mnemonic::PCMPGTB || code == mnemonic::PCMPGTW || code == mnemonic::PCMPGTD {
        if l > r { all - 1 } else { 0 }
    } else if code == mnemonic::PMINUB || code == mnemonic::PMINUW || code == mnemonic::PMINUD {
        if left < right { left as int } else { right as int }
    } else if code == mnemonic::PMAXUB || code == mnemonic::PMAXUW || code == mnemonic::PMAXUD {
        if left > right { left as int } else { right as int }
    } else if code == mnemonic::PMINSB || code == mnemonic::PMINSW || code == mnemonic::PMINSD {
        if l < r { left as int } else { right as int }
    } else {
        if l > r { left as int } else { right as int }
    }
}

proof fn lemma_lane_code(code: u16) -> (op: LaneOp)
    requires
        lane_width(code) != 0,
    ensures
        route_of(code) == Route::Vector,
        lane_operation(code) == Some((op, lane_width(code))),
        crate::ops::sse::logic_of(code) is None,
        forall|control: u8| arrangement_of(code, control) is None,
        !crate::ops::sse::reads_register(code),
        is_plain(code),
{
    let (op, width) = lane_operation(code)->0;
    op
}

/// Whether the vector dispatcher combines two vectors for this mnemonic.
pub open spec fn is_plain(code: u16) -> bool {
    &&& crate::ops::sse::comparison_of(code) is None
    &&& forall|control: u8| crate::ops::sse_numeric::pick_of(code, control) is None
    &&& crate::ops::sse_numeric::arithmetic_of(code) is None
    &&& !crate::ops::sse_convert::is_conversion(code)
    &&& crate::ops::sse::move_of(code) is None
    &&& shift_of(code) is None
    &&& code != mnemonic::PSLLDQ
    &&& code != mnemonic::PSRLDQ
    &&& crate::ops::sse::mask_width(code) is None
    &&& code != mnemonic::PINSRW
    &&& code != mnemonic::PEXTRW
    &&& code != mnemonic::MOVNTI
    &&& code != mnemonic::EMMS
    &&& code != mnemonic::FEMMS
}

pub proof fn lemma_combining(machine: Machine, instruction: Instruction)
    requires
        route_of(instruction.mnemonic) == Route::Vector,
        is_plain(instruction.mnemonic),
        crate::ops::sse::is_combination(instruction.mnemonic),
    ensures
        dispatch_spec(machine, instruction) == done(combine_spec(machine, instruction)),
{
    reveal(dispatch_spec);
    let code = instruction.mnemonic;
    assert(crate::ops::sse_numeric::pick_of(code, control_byte(instruction)) is None);
    assert(sse_op_spec(machine, instruction) == done(integer_op(machine, instruction)));
    assert(integer_op(machine, instruction) == combine_spec(machine, instruction));
}

proof fn lemma_lane_value(code: u16, op: LaneOp, left: u64, right: u64)
    requires
        lane_width(code) != 0,
        lane_operation(code) == Some((op, lane_width(code))),
        left < span(lane_width(code)),
        right < span(lane_width(code)),
    ensures
        lane_result(op, left, right, lane_bits(lane_width(code))) == lane_value(code, left, right),
        0 <= lane_value(code, left, right) < span(lane_width(code)),
{
    let width = lane_width(code);
    lemma2_to64();
    lemma_lane_sign(left, width);
    lemma_lane_sign(right, width);
}

proof fn lemma_glued(parts: Seq<u64>, width: u8, machine: Machine, target: u8)
    requires
        machine.regs.xmm.len() == 16,
        is_xmm_spec(target),
        parts.len() == lane_total(width),
        forall|k: int| 0 <= k < parts.len() ==> #[trigger] parts[k] < lane_span(width),
    ensures
        lanes(machine.write_xmm(target, glued(parts, width)).xmm(target), width) == parts,
{
    assert(fit(parts, width));
    splitting_undoes_gluing(parts, width);
}

/// Every lane of a packed instruction is computed from the two lanes at its place alone, and
/// nothing but the target register changes.
pub proof fn packed_lanes_are_computed(machine: Machine, instruction: Instruction, right: u128, i: int)
    requires
        machine.regs.xmm.len() == 16,
        is_xmm_spec(instruction.op0_register),
        lane_width(instruction.mnemonic) != 0,
        machine.vector_source(instruction) == Ok::<u128, CpuError>(right),
        0 <= i < 16int / (lane_width(instruction.mnemonic) as int),
    ensures
        ({
            let (after, result) = dispatch_spec(machine, instruction);
            let target = instruction.op0_register;
            let width = lane_width(instruction.mnemonic);
            &&& result == Ok::<Effect, CpuError>(Effect::Done)
            &&& after == machine.write_xmm(target, after.xmm(target))
            &&& lanes(after.xmm(target), width)[i] == lane_value(
                instruction.mnemonic,
                lanes(machine.xmm(target), width)[i],
                lanes(right, width)[i],
            )
        }),
{
    let code = instruction.mnemonic;
    let width = lane_width(code);
    let target = instruction.op0_register;
    let left = machine.xmm(target);
    let op = lemma_lane_code(code);
    lemma_total(width);
    lemma_combining(machine, instruction);
    assert(combined(code, left, right, control_byte(instruction)) == Some(lanewise(op, left, right, width)));
    let a = lanes(left, width);
    let b = lanes(right, width);
    gluing_undoes_splitting(left, width);
    gluing_undoes_splitting(right, width);
    let parts = Seq::new(lane_total(width), |k: int| lane_result(op, a[k], b[k], lane_bits(width)));
    assert forall|k: int| 0 <= k < parts.len() implies #[trigger] parts[k] < lane_span(width) by {
        assert(a[k] < lane_span(width) && b[k] < lane_span(width));
        lemma_lane_value(code, op, a[k], b[k]);
    }
    lemma_glued(parts, width, machine, target);
    assert(a[i] < lane_span(width) && b[i] < lane_span(width));
    lemma_lane_value(code, op, a[i], b[i]);
    assert(dispatch_spec(machine, instruction).0 == machine.write_xmm(target, glued(parts, width)));
}

/// How many bytes the lanes of a rearranging instruction have; zero for any other one.
pub open spec fn moved_width(code: u16) -> u8 {
    if code == mnemonic::PUNPCKLBW || code == mnemonic::PUNPCKHBW {
        1
    } else if code == mnemonic::PUNPCKLWD || code == mnemonic::PUNPCKHWD || code == mnemonic::PSHUFLW || code
        == mnemonic::PSHUFHW {
        2
    } else if code == mnemonic::PUNPCKLDQ || code == mnemonic::PUNPCKHDQ || code == mnemonic::UNPCKLPS || code
        == mnemonic::UNPCKHPS || code == mnemonic::PSHUFD || code == mnemonic::SHUFPS {
        4
    } else if code == mnemonic::PUNPCKLQDQ || code == mnemonic::PUNPCKHQDQ || code == mnemonic::UNPCKLPD || code
        == mnemonic::UNPCKHPD || code == mnemonic::SHUFPD {
        8
    } else {
        0
    }
}

/// Two bits of a control byte, from the lowest pair up.
pub open spec fn control_pair(control: u8, index: int) -> int {
    if index == 0 {
        control as int % 4
    } else if index == 1 {
        (control as int / 4) % 4
    } else if index == 2 {
        (control as int / 16) % 4
    } else {
        (control as int / 64) % 4
    }
}

/// The lane that a rearranging instruction puts at place `i` of `total`, out of the lanes of
/// the target and those of the source. The unpacking ones take lanes of the low or the high
/// halves in turn; PSHUFD, and PSHUFLW and PSHUFHW in one half, take the lanes of the source
/// that the control byte names; SHUFPS and SHUFPD take the lower half from the target and
/// the upper one from the source.
pub open spec fn moved_lane(code: u16, control: u8, left: Seq<u64>, right: Seq<u64>, i: int) -> u64 {
    let total = left.len() as int;
    if code == mnemonic::PSHUFD {
        right[control_pair(control, i)]
    } else if code == mnemonic::PSHUFLW {
        if i < 4 { right[control_pair(control, i)] } else { right[i] }
    } else if code == mnemonic::PSHUFHW {
        if i < 4 { right[i] } else { right[4 + control_pair(control, i - 4)] }
    } else if code == mnemonic::SHUFPS {
        if i < 2 { left[control_pair(control, i)] } else { right[control_pair(control, i)] }
    } else if code == mnemonic::SHUFPD {
        if i == 0 { left[control as int % 2] } else { right[(control as int / 2) % 2] }
    } else if code == mnemonic::PUNPCKHBW || code == mnemonic::PUNPCKHWD || code == mnemonic::PUNPCKHDQ || code
        == mnemonic::PUNPCKHQDQ || code == mnemonic::UNPCKHPS || code == mnemonic::UNPCKHPD {
        if i % 2 == 0 { left[total / 2 + i / 2] } else { right[total / 2 + i / 2] }
    } else {
        if i % 2 == 0 { left[i / 2] } else { right[i / 2] }
    }
}

proof fn lemma_moved_code(code: u16, control: u8) -> (arrangement: Arrangement)
    requires
        moved_width(code) != 0,
    ensures
        route_of(code) == Route::Vector,
        crate::ops::sse::logic_of(code) is None,
        arrangement_of(code, control) == Some((arrangement, moved_width(code))),
        arrangement_of(code, 0) is Some,
        !crate::ops::sse::reads_register(code),
        is_plain(code),
{
    let (arrangement, width) = arrangement_of(code, control)->0;
    arrangement
}

proof fn lemma_pair(control: u8, index: int)
    requires
        0 <= index < 4,
    ensures
        two_bits(control, index) == control_pair(control, index),
        0 <= control_pair(control, index) < 4,
{
    lemma2_to64();
    assert(control as int / 1 == control);
    if index == 0 {
        assert(pow2((2 * index) as nat) == 1);
    } else if index == 1 {
        assert(pow2((2 * index) as nat) == 4);
    } else if index == 2 {
        assert(pow2((2 * index) as nat) == 16);
    } else {
        assert(pow2((2 * index) as nat) == 64);
    }
}

proof fn lemma_moved_lane(code: u16, control: u8, arrangement: Arrangement, left: Seq<u64>, right: Seq<u64>, i: int)
    requires
        moved_width(code) != 0,
        arrangement_of(code, control) == Some((arrangement, moved_width(code))),
        left.len() == lane_total(moved_width(code)),
        right.len() == left.len(),
        0 <= i < left.len(),
    ensures
        ({
            let from = source_lane(arrangement, i, lane_total(moved_width(code)) as int);
            &&& from is Some
            &&& 0 <= from->0 < 2 * left.len()
            &&& (left + right)[from->0] == moved_lane(code, control, left, right, i)
        }),
{
    lemma2_to64();
    if 0 <= i < 4 {
        lemma_pair(control, i);
    } else if i < 8 {
        lemma_pair(control, i - 4);
    }
}

/// The rearranging instructions put lanes where their names and control bytes say.
pub proof fn packed_lanes_are_moved(machine: Machine, instruction: Instruction, right: u128, i: int)
    requires
        machine.regs.xmm.len() == 16,
        is_xmm_spec(instruction.op0_register),
        moved_width(instruction.mnemonic) != 0,
        machine.vector_source(instruction) == Ok::<u128, CpuError>(right),
        0 <= i < 16int / (moved_width(instruction.mnemonic) as int),
    ensures
        ({
            let (after, result) = dispatch_spec(machine, instruction);
            let target = instruction.op0_register;
            let width = moved_width(instruction.mnemonic);
            &&& result == Ok::<Effect, CpuError>(Effect::Done)
            &&& after == machine.write_xmm(target, after.xmm(target))
            &&& lanes(after.xmm(target), width)[i] == moved_lane(
                instruction.mnemonic,
                (instruction.immediate2 % 0x100) as u8,
                lanes(machine.xmm(target), width),
                lanes(right, width),
                i,
            )
        }),
{
    let code = instruction.mnemonic;
    let width = moved_width(code);
    let target = instruction.op0_register;
    let left = machine.xmm(target);
    let control = control_byte(instruction);
    let arrangement = lemma_moved_code(code, control);
    lemma_total(width);
    lemma_combining(machine, instruction);
    assert(combined(code, left, right, control) == Some(arranged(arrangement, left, right, width)));
    let a = lanes(left, width);
    let b = lanes(right, width);
    gluing_undoes_splitting(left, width);
    gluing_undoes_splitting(right, width);
    let pool = a + b;
    let parts = Seq::new(
        lane_total(width),
        |k: int|
            match source_lane(arrangement, k, lane_total(width) as int) {
                Some(from) => pool[from],
                None => 0,
            },
    );
    assert forall|k: int| 0 <= k < parts.len() implies #[trigger] parts[k] < lane_span(width) by {
        lemma_moved_lane(code, control, arrangement, a, b, k);
        let from = source_lane(arrangement, k, lane_total(width) as int)->0;
        if from < a.len() {
            assert(pool[from] == a[from]);
        } else {
            assert(pool[from] == b[from - a.len()]);
        }
    }
    lemma_glued(parts, width, machine, target);
    lemma_moved_lane(code, control, arrangement, a, b, i);
    assert(dispatch_spec(machine, instruction).0 == machine.write_xmm(target, glued(parts, width)));
}

proof fn lemma_packed_route(machine: Machine, instruction: Instruction, right: u128, vector: u128)
    requires
        is_xmm_spec(instruction.op0_register),
        crate::ops::sse_integer::strict_source(machine, instruction, 16) == Ok::<u128, CpuError>(right),
        route_of(instruction.mnemonic) == Route::PackedInteger,
        crate::ops::sse_integer::extract_width(instruction.mnemonic) is None,
        crate::ops::sse_integer::insert_width(instruction.mnemonic) is None,
        instruction.mnemonic != mnemonic::CVTTPS2DQ,
        instruction.mnemonic != mnemonic::PTEST,
        packed_result(
            instruction.mnemonic,
            machine.xmm(instruction.op0_register),
            right,
            control_byte(instruction),
            machine.regs.xmm[0],
        ) == Some(vector),
    ensures
        dispatch_spec(machine, instruction) == (
            machine.write_xmm(instruction.op0_register, vector),
            Ok::<Effect, CpuError>(Effect::Done),
        ),
{
    reveal(dispatch_spec);
    assert(crate::ops::sse_integer::execute_spec(machine, instruction) == apply_spec(machine, instruction, right));
}

/// The second operand of the packing and multiplying instructions: a vector register, or
/// sixteen bytes of memory.
pub open spec fn has_source(machine: Machine, instruction: Instruction, right: u128) -> bool {
    if instruction.op1_kind == op_kind::REGISTER {
        is_xmm_spec(instruction.op1_register) && right == machine.xmm(instruction.op1_register)
    } else {
        instruction.op1_kind == op_kind::MEMORY && machine.linear_load(
            machine.effective_address(instruction),
            16,
            machine.regs.cpl() == 3,
        ) == Ok::<u128, CpuError>(right)
    }
}

/// The packing instructions halve the lanes of the target, then those of the source, each
/// read with sign and stopped at the bounds of the narrow lane: with sign for PACKSS,
/// without for PACKUS.
pub proof fn packing_stops_at_the_bounds(machine: Machine, instruction: Instruction, right: u128, i: int)
    requires
        machine.regs.xmm.len() == 16,
        is_xmm_spec(instruction.op0_register),
        has_source(machine, instruction, right),
        instruction.mnemonic == mnemonic::PACKSSDW || instruction.mnemonic == mnemonic::PACKSSWB || instruction.mnemonic
            == mnemonic::PACKUSDW || instruction.mnemonic == mnemonic::PACKUSWB,
        0 <= i < if instruction.mnemonic == mnemonic::PACKSSDW || instruction.mnemonic == mnemonic::PACKUSDW {
            8int
        } else {
            16
        },
    ensures
        ({
            let code = instruction.mnemonic;
            let (after, result) = dispatch_spec(machine, instruction);
            let target = instruction.op0_register;
            let wide = if code == mnemonic::PACKSSDW || code == mnemonic::PACKUSDW { 4u8 } else { 2u8 };
            let narrow = if code == mnemonic::PACKSSDW || code == mnemonic::PACKUSDW { 2u8 } else { 1u8 };
            let half = if wide == 4 { 4int } else { 8 };
            let from = if i < half { lanes(machine.xmm(target), wide)[i] } else { lanes(right, wide)[i - half] };
            let all = span(narrow);
            let signed = code == mnemonic::PACKSSDW || code == mnemonic::PACKSSWB;
            &&& result == Ok::<Effect, CpuError>(Effect::Done)
            &&& after == machine.write_xmm(target, after.xmm(target))
            &&& lanes(after.xmm(target), narrow)[i] == (if signed {
                bounded(with_sign(from, wide), -all / 2, all / 2 - 1)
            } else {
                bounded(with_sign(from, wide), 0, all - 1)
            }) % all
        }),
{
    let code = instruction.mnemonic;
    let target = instruction.op0_register;
    let left = machine.xmm(target);
    let wide = if code == mnemonic::PACKSSDW || code == mnemonic::PACKUSDW { 4u8 } else { 2u8 };
    let narrow = if code == mnemonic::PACKSSDW || code == mnemonic::PACKUSDW { 2u8 } else { 1u8 };
    let (low, high): (int, int) = if code == mnemonic::PACKSSDW {
        (-0x8000, 0x7FFF)
    } else if code == mnemonic::PACKSSWB {
        (-0x80, 0x7F)
    } else if code == mnemonic::PACKUSDW {
        (0, 0xFFFF)
    } else {
        (0, 0xFF)
    };
    assert(route_of(code) == Route::PackedInteger);
    lemma_packed_route(machine, instruction, right, saturated(left, right, wide, low, high));
    gluing_undoes_splitting(left, wide);
    gluing_undoes_splitting(right, wide);
    lemma2_to64();
    let pool = lanes(left, wide) + lanes(right, wide);
    let parts = Seq::new(
        lane_total(narrow),
        |k: int|
            (crate::ops::lanes::clamped(
                crate::arith::signed_of(pool[k] as int, lane_bits(wide) as nat),
                low,
                high,
            ) % (lane_span(narrow) as int)) as u64,
    );
    lemma_glued(parts, narrow, machine, target);
    assert(wide / 2 == narrow);
    assert(saturated(left, right, wide, low, high) == glued(parts, narrow));
    let half = if wide == 4 { 4int } else { 8 };
    let from = if i < half { lanes(left, wide)[i] } else { lanes(right, wide)[i - half] };
    assert(pool[i] == from);
    assert(from < lane_span(wide));
    lemma_total(wide);
    lemma_lane_sign(from, wide);
}

/// PSHUFB puts at each place the byte of the target that the low four bits of the source's
/// byte there name, or zero where its high bit is set; PMADDWD adds the products of two
/// neighbouring signed words.
pub proof fn bytes_are_shuffled_and_words_multiplied(
    machine: Machine,
    instruction: Instruction,
    right: u128,
    i: int,
)
    requires
        machine.regs.xmm.len() == 16,
        is_xmm_spec(instruction.op0_register),
        has_source(machine, instruction, right),
        instruction.mnemonic == mnemonic::PSHUFB && 0 <= i < 16 || instruction.mnemonic == mnemonic::PMADDWD && 0 <= i
            < 4,
    ensures
        ({
            let (after, result) = dispatch_spec(machine, instruction);
            let target = instruction.op0_register;
            let left = machine.xmm(target);
            &&& result == Ok::<Effect, CpuError>(Effect::Done)
            &&& after == machine.write_xmm(target, after.xmm(target))
            &&& instruction.mnemonic == mnemonic::PSHUFB ==> lanes(after.xmm(target), 1)[i] == if lanes(right, 1)[i]
                >= 0x80 {
                0u64
            } else {
                lanes(left, 1)[lanes(right, 1)[i] as int % 16]
            }
            &&& instruction.mnemonic == mnemonic::PMADDWD ==> lanes(after.xmm(target), 4)[i] == (with_sign(
                lanes(left, 2)[2 * i],
                2,
            ) * with_sign(lanes(right, 2)[2 * i], 2) + with_sign(lanes(left, 2)[2 * i + 1], 2) * with_sign(
                lanes(right, 2)[2 * i + 1],
                2,
            )) % 0x1_0000_0000
        }),
{
    let code = instruction.mnemonic;
    let target = instruction.op0_register;
    let left = machine.xmm(target);
    lemma2_to64();
    assert(route_of(code) == Route::PackedInteger);
    if code == mnemonic::PSHUFB {
        lemma_packed_route(machine, instruction, right, shuffled_bytes(left, right));
        let a = lanes(left, 1);
        let b = lanes(right, 1);
        gluing_undoes_splitting(left, 1);
        gluing_undoes_splitting(right, 1);
        let parts = Seq::new(16, |k: int| if b[k] >= 0x80 { 0u64 } else { a[(b[k] % 16) as int] });
        lemma_glued(parts, 1, machine, target);
        assert(shuffled_bytes(left, right) == glued(parts, 1));
    } else {
        lemma_packed_route(machine, instruction, right, multiplied_words(left, right));
        let a = lanes(left, 2);
        let b = lanes(right, 2);
        gluing_undoes_splitting(left, 2);
        gluing_undoes_splitting(right, 2);
        let parts = Seq::new(
            4,
            |k: int|
                ((crate::arith::signed_of(a[2 * k] as int, 16) * crate::arith::signed_of(b[2 * k] as int, 16)
                    + crate::arith::signed_of(a[2 * k + 1] as int, 16) * crate::arith::signed_of(
                    b[2 * k + 1] as int,
                    16,
                )) % 0x1_0000_0000) as u64,
        );
        lemma_glued(parts, 4, machine, target);
        assert(multiplied_words(left, right) == glued(parts, 4));
        lemma_word(a, 2 * i);
        lemma_word(a, 2 * i + 1);
        lemma_word(b, 2 * i);
        lemma_word(b, 2 * i + 1);
    }
}

proof fn lemma_word(words: Seq<u64>, i: int)
    requires
        fit(words, 2),
        0 <= i < words.len(),
    ensures
        crate::arith::signed_of(words[i] as int, 16) == with_sign(words[i], 2),
{
    lemma2_to64();
    assert(words[i] < lane_span(2));
    lemma_lane_sign(words[i], 2);
}

/// How many bytes the lanes of a packed shift have; zero for any other instruction.
pub open spec fn shifted_width(code: u16) -> u8 {
    if code == mnemonic::PSLLW || code == mnemonic::PSRLW || code == mnemonic::PSRAW {
        2
    } else if code == mnemonic::PSLLD || code == mnemonic::PSRLD || code == mnemonic::PSRAD {
        4
    } else if code == mnemonic::PSLLQ || code == mnemonic::PSRLQ {
        8
    } else {
        0
    }
}

proof fn lemma_shift_code(code: u16) -> (shift: LaneShift)
    requires
        shifted_width(code) != 0,
    ensures
        route_of(code) == Route::Vector,
        shift_of(code) == Some((shift, shifted_width(code))),
        crate::ops::sse::comparison_of(code) is None,
        forall|control: u8| crate::ops::sse_numeric::pick_of(code, control) is None,
        crate::ops::sse_numeric::arithmetic_of(code) is None,
        !crate::ops::sse_convert::is_conversion(code),
        crate::ops::sse::move_of(code) is None,
        shift == if code == mnemonic::PSLLW || code == mnemonic::PSLLD || code == mnemonic::PSLLQ {
            LaneShift::Left
        } else if code == mnemonic::PSRAW || code == mnemonic::PSRAD {
            LaneShift::Arithmetic
        } else {
            LaneShift::Right
        },
{
    let (shift, width) = shift_of(code)->0;
    shift
}

/// Packed shifts by an immediate: PSLL multiplies every lane by a power of two, PSRL divides
/// it without sign and PSRA with it; a count past the lane's width empties it, or leaves
/// its sign.
pub proof fn packed_shifts_multiply_and_divide(machine: Machine, instruction: Instruction, i: int)
    requires
        machine.regs.xmm.len() == 16,
        is_xmm_spec(instruction.op0_register),
        shifted_width(instruction.mnemonic) != 0,
        instruction.op1_kind == op_kind::IMMEDIATE8,
        0 <= i < 16int / (shifted_width(instruction.mnemonic) as int),
    ensures
        ({
            let code = instruction.mnemonic;
            let (after, result) = dispatch_spec(machine, instruction);
            let target = instruction.op0_register;
            let width = shifted_width(code);
            let bits = 8 * width as int;
            let count = if instruction.immediate1 >= bits { bits } else { instruction.immediate1 as int };
            let power = pow2(count as nat) as int;
            let lane = lanes(machine.xmm(target), width)[i];
            &&& result == Ok::<Effect, CpuError>(Effect::Done)
            &&& after == machine.write_xmm(target, after.xmm(target))
            &&& lanes(after.xmm(target), width)[i] == if code == mnemonic::PSLLW || code == mnemonic::PSLLD || code
                == mnemonic::PSLLQ {
                (lane * power) % span(width)
            } else if code == mnemonic::PSRAW || code == mnemonic::PSRAD {
                (with_sign(lane, width) / power) % span(width)
            } else {
                lane as int / power
            }
        }),
{
    let code = instruction.mnemonic;
    let target = instruction.op0_register;
    let width = shifted_width(code);
    let vector = machine.xmm(target);
    let shift = lemma_shift_code(code);
    lemma_total(width);
    let count = instruction.immediate1;
    lemma_shifting(machine, instruction, shift, width);
    let a = lanes(vector, width);
    gluing_undoes_splitting(vector, width);
    let parts = Seq::new(lane_total(width), |k: int| shifted_lane(shift, a[k], count, lane_bits(width)));
    assert forall|k: int| 0 <= k < parts.len() implies #[trigger] parts[k] < lane_span(width) by {
        assert(a[k] < lane_span(width));
        lemma_shifted_fits(shift, a[k], count, width);
    }
    lemma_glued(parts, width, machine, target);
    assert(shifted_lanes(shift, vector, count, width) == glued(parts, width));
    assert(a[i] < lane_span(width));
    lemma_shifted_fits(shift, a[i], count, width);
}

proof fn lemma_shifting(machine: Machine, instruction: Instruction, shift: LaneShift, width: u8)
    requires
        is_xmm_spec(instruction.op0_register),
        instruction.op1_kind == op_kind::IMMEDIATE8,
        route_of(instruction.mnemonic) == Route::Vector,
        shift_of(instruction.mnemonic) == Some((shift, width)),
        crate::ops::sse::comparison_of(instruction.mnemonic) is None,
        forall|control: u8| crate::ops::sse_numeric::pick_of(instruction.mnemonic, control) is None,
        crate::ops::sse_numeric::arithmetic_of(instruction.mnemonic) is None,
        !crate::ops::sse_convert::is_conversion(instruction.mnemonic),
        crate::ops::sse::move_of(instruction.mnemonic) is None,
    ensures
        dispatch_spec(machine, instruction) == (
            machine.write_xmm(
                instruction.op0_register,
                shifted_lanes(shift, machine.xmm(instruction.op0_register), instruction.immediate1, width),
            ),
            Ok::<Effect, CpuError>(Effect::Done),
        ),
{
    reveal(dispatch_spec);
    assert(crate::ops::sse_numeric::pick_of(instruction.mnemonic, control_byte(instruction)) is None);
    assert(sse_op_spec(machine, instruction) == done(integer_op(machine, instruction)));
    assert(integer_op(machine, instruction) == crate::ops::sse::shift_spec(machine, instruction));
}

proof fn lemma_shifted_fits(shift: LaneShift, lane: u64, count: u64, width: u8)
    requires
        width == 2 || width == 4 || width == 8,
        lane < span(width),
    ensures
        ({
            let bits = 8 * width as int;
            let steps = if count >= bits { bits } else { count as int };
            let power = pow2(steps as nat) as int;
            let value = if shift == LaneShift::Left {
                (lane * power) % span(width)
            } else if shift == LaneShift::Arithmetic {
                (with_sign(lane, width) / power) % span(width)
            } else {
                lane as int / power
            };
            &&& 0 <= value < span(width)
            &&& shifted_lane(shift, lane, count, lane_bits(width)) == value
        }),
{
    lemma2_to64();
    let bits = 8 * width as int;
    let steps = if count >= bits { bits } else { count as int };
    let power = pow2(steps as nat) as int;
    vstd::arithmetic::power2::lemma_pow2_pos(steps as nat);
    lemma_lane_sign(lane, width);
    assert(0 <= lane as int / power <= lane) by {
        vstd::arithmetic::div_mod::lemma_div_is_ordered_by_denominator(lane as int, 1, power);
        vstd::arithmetic::div_mod::lemma_div_pos_is_pos(lane as int, power);
    }
    vstd::arithmetic::div_mod::lemma_mod_bound(lane * power, span(width));
    vstd::arithmetic::div_mod::lemma_mod_bound(with_sign(lane, width) / power, span(width));
}

/// From how many bytes and to how many a widening instruction goes; zero for any other one.
pub open spec fn widened_from(code: u16) -> u8 {
    if code == mnemonic::PMOVSXBW || code == mnemonic::PMOVSXBD || code == mnemonic::PMOVSXBQ || code
        == mnemonic::PMOVZXBW || code == mnemonic::PMOVZXBD || code == mnemonic::PMOVZXBQ {
        1
    } else if code == mnemonic::PMOVSXWD || code == mnemonic::PMOVSXWQ || code == mnemonic::PMOVZXWD || code
        == mnemonic::PMOVZXWQ {
        2
    } else if code == mnemonic::PMOVSXDQ || code == mnemonic::PMOVZXDQ {
        4
    } else {
        0
    }
}

pub open spec fn widened_to(code: u16) -> u8 {
    if code == mnemonic::PMOVSXBW || code == mnemonic::PMOVZXBW {
        2
    } else if code == mnemonic::PMOVSXBD || code == mnemonic::PMOVZXBD || code == mnemonic::PMOVSXWD || code
        == mnemonic::PMOVZXWD {
        4
    } else {
        8
    }
}

pub open spec fn widens_with_sign(code: u16) -> bool {
    code == mnemonic::PMOVSXBW || code == mnemonic::PMOVSXBD || code == mnemonic::PMOVSXBQ || code == mnemonic::PMOVSXWD
        || code == mnemonic::PMOVSXWQ || code == mnemonic::PMOVSXDQ
}

proof fn lemma_widening_code(code: u16)
    requires
        widened_from(code) != 0,
    ensures
        route_of(code) == Route::Widen,
        crate::ops::sse_widen::widening_of(code) == Some((widened_from(code), widened_to(code), widens_with_sign(code))),
        widened_from(code) < widened_to(code),
{
}

/// The widening instructions spread the low lanes of the source over wider ones and keep
/// their values: PMOVSX with sign, PMOVZX without.
pub proof fn widening_keeps_the_lanes(machine: Machine, instruction: Instruction, i: int)
    requires
        machine.regs.xmm.len() == 16,
        is_xmm_spec(instruction.op0_register),
        instruction.op1_kind == op_kind::REGISTER,
        is_xmm_spec(instruction.op1_register),
        widened_from(instruction.mnemonic) != 0,
        0 <= i < 16int / (widened_to(instruction.mnemonic) as int),
    ensures
        ({
            let code = instruction.mnemonic;
            let (after, result) = dispatch_spec(machine, instruction);
            let target = instruction.op0_register;
            let to = widened_to(code);
            let lane = lanes(machine.xmm(instruction.op1_register), widened_from(code))[i];
            &&& result == Ok::<Effect, CpuError>(Effect::Done)
            &&& after == machine.write_xmm(target, after.xmm(target))
            &&& lanes(after.xmm(target), to)[i] == if widens_with_sign(code) {
                with_sign(lane, widened_from(code)) % span(to)
            } else {
                lane as int
            }
        }),
{
    let code = instruction.mnemonic;
    let target = instruction.op0_register;
    let from = widened_from(code);
    let to = widened_to(code);
    let sign = widens_with_sign(code);
    let source = machine.xmm(instruction.op1_register);
    lemma_widening_code(code);
    lemma_total(from);
    lemma_total(to);
    lemma_widening(machine, instruction, from, to, sign);
    let a = lanes(source, from);
    gluing_undoes_splitting(source, from);
    lemma2_to64();
    let parts = Seq::new(
        lane_total(to),
        |k: int|
            if sign {
                (crate::arith::signed_of(a[k] as int, lane_bits(from) as nat) % (lane_span(to) as int)) as u64
            } else {
                a[k]
            },
    );
    assert forall|k: int| 0 <= k < parts.len() implies #[trigger] parts[k] < lane_span(to) by {
        assert(a[k] < lane_span(from));
    }
    lemma_glued(parts, to, machine, target);
    assert(crate::ops::packed::widened(source, from, to, sign) == glued(parts, to));
    assert(a[i] < lane_span(from));
    lemma_lane_sign(a[i], from);
}

proof fn lemma_widening(machine: Machine, instruction: Instruction, from: u8, to: u8, sign: bool)
    requires
        is_xmm_spec(instruction.op0_register),
        instruction.op1_kind == op_kind::REGISTER,
        is_xmm_spec(instruction.op1_register),
        route_of(instruction.mnemonic) == Route::Widen,
        crate::ops::sse_widen::widening_of(instruction.mnemonic) == Some((from, to, sign)),
    ensures
        dispatch_spec(machine, instruction) == (
            machine.write_xmm(
                instruction.op0_register,
                crate::ops::packed::widened(machine.xmm(instruction.op1_register), from, to, sign),
            ),
            Ok::<Effect, CpuError>(Effect::Done),
        ),
{
    reveal(dispatch_spec);
}

/// PMULLW and PMULLD keep the low half of the product of two lanes; PMULHUW and PMULHW keep
/// the high half, without sign and with it; PAVGB is the mean of two bytes, rounded up.
pub proof fn packed_products_are_halved(machine: Machine, instruction: Instruction, right: u128, width: u8, i: int)
    requires
        machine.regs.xmm.len() == 16,
        is_xmm_spec(instruction.op0_register),
        has_source(machine, instruction, right),
        instruction.mnemonic == mnemonic::PMULLW && width == 2 || instruction.mnemonic == mnemonic::PMULLD && width == 4
            || instruction.mnemonic == mnemonic::PMULHUW && width == 2 || instruction.mnemonic == mnemonic::PMULHW
            && width == 2 || instruction.mnemonic == mnemonic::PAVGB && width == 1,
        0 <= i < 16int / (width as int),
    ensures
        ({
            let code = instruction.mnemonic;
            let (after, result) = dispatch_spec(machine, instruction);
            let target = instruction.op0_register;
            let l = lanes(machine.xmm(target), width)[i];
            let r = lanes(right, width)[i];
            &&& result == Ok::<Effect, CpuError>(Effect::Done)
            &&& after == machine.write_xmm(target, after.xmm(target))
            &&& lanes(after.xmm(target), width)[i] == if code == mnemonic::PMULLW || code == mnemonic::PMULLD {
                (l * r) % span(width)
            } else if code == mnemonic::PMULHUW {
                (l * r) / 0x1_0000
            } else if code == mnemonic::PMULHW {
                ((with_sign(l, 2) * with_sign(r, 2)) / 0x1_0000) % 0x1_0000
            } else {
                (l + r + 1) / 2
            }
        }),
{
    let code = instruction.mnemonic;
    let target = instruction.op0_register;
    let left = machine.xmm(target);
    assert(route_of(code) == Route::PackedInteger);
    let (op, wide) = crate::ops::sse_integer::product_of(code)->0;
    assert(wide == width);
    lemma_total(width);
    lemma_packed_route(machine, instruction, right, lanewise(op, left, right, width));
    let a = lanes(left, width);
    let b = lanes(right, width);
    gluing_undoes_splitting(left, width);
    gluing_undoes_splitting(right, width);
    let parts = Seq::new(lane_total(width), |k: int| lane_result(op, a[k], b[k], lane_bits(width)));
    assert forall|k: int| 0 <= k < parts.len() implies #[trigger] parts[k] < lane_span(width) by {
        assert(a[k] < lane_span(width) && b[k] < lane_span(width));
        lemma_product(code, op, a[k], b[k], width);
    }
    lemma_glued(parts, width, machine, target);
    assert(lanewise(op, left, right, width) == glued(parts, width));
    assert(a[i] < lane_span(width) && b[i] < lane_span(width));
    lemma_product(code, op, a[i], b[i], width);
}

proof fn lemma_product(code: u16, op: LaneOp, left: u64, right: u64, width: u8)
    requires
        crate::ops::sse_integer::product_of(code) == Some((op, width)),
        left < span(width),
        right < span(width),
    ensures
        lane_result(op, left, right, lane_bits(width)) == (if code == mnemonic::PMULLW || code == mnemonic::PMULLD {
            (left * right) % span(width)
        } else if code == mnemonic::PMULHUW {
            (left * right) / 0x1_0000
        } else if code == mnemonic::PMULHW {
            ((with_sign(left, 2) * with_sign(right, 2)) / 0x1_0000) % 0x1_0000
        } else {
            (left + right + 1) / 2
        }),
        lane_result(op, left, right, lane_bits(width)) < span(width),
{
    lemma2_to64();
    lemma_lane_sign(left, width);
    lemma_lane_sign(right, width);
    let all = span(width);
    vstd::arithmetic::div_mod::lemma_mod_bound(left * right, all);
    assert(0 <= (left * right) / all < all) by (nonlinear_arith)
        requires
            0 <= left < all,
            0 <= right < all,
    ;
}

/// What a lane reads as with sign.
proof fn lemma_lane_sign(lane: u64, width: u8)
    requires
        width == 1 || width == 2 || width == 4 || width == 8,
        lane < span(width),
    ensures
        pow2(lane_bits(width) as nat) == span(width),
        lane as int % span(width) == lane,
        crate::arith::signed_of(lane as int, lane_bits(width) as nat) == with_sign(lane, width),
{
    lemma2_to64();
    if width == 1 {
        assert(lane_bits(width) as nat == 8nat && span(width) == 0x100);
    } else if width == 2 {
        assert(lane_bits(width) as nat == 16nat && span(width) == 0x1_0000);
    } else if width == 4 {
        assert(lane_bits(width) as nat == 32nat && span(width) == 0x1_0000_0000);
    } else {
        assert(lane_bits(width) as nat == 64nat && span(width) == 0x1_0000_0000_0000_0000);
    }
    vstd::arithmetic::div_mod::lemma_small_mod(lane as nat, span(width) as nat);
}

/// How many lanes there are.
proof fn lemma_total(width: u8)
    requires
        width == 1 || width == 2 || width == 4 || width == 8,
    ensures
        lane_total(width) == 16int / (width as int),
        lane_span(width) == span(width),
{
}

} // verus!
