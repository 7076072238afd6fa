//! What floating-point comparisons and selections tell of the numbers themselves.

use vstd::arithmetic::div_mod::lemma_fundamental_div_mod_converse;
use vstd::arithmetic::power2::pow2;
use vstd::prelude::*;

use crate::arch::registers::{holds, with_flag, AF, CF, OF, PF, SF, ZF};
use crate::cpu::step::{dispatch_spec, is_text_kind, route_of, Route};
use crate::cpu::{CpuError, Machine};
use crate::decode::{mnemonic, Instruction};
use crate::ops::effect::{done, Effect};
use crate::ops::float::{float_order, is_nan, order_is_numeric, scaled, FloatOrder};
use crate::ops::lanes::{lane_span, lane_total, lanes};
use crate::ops::sse::sse_op_spec;
use crate::ops::sse_numeric::{comis_spec, order_flags, pick_of, pick_spec, picked_lane, picked_lanes, FloatPick};
use crate::ops::status_flags_are_apart;
use crate::ops::x87::{compare_flags, compared_value, source_index, x87_op_spec, Comparison};

verus! {

/// The exponent field.
pub open spec fn exponent_field(bits: u64, double: bool) -> int {
    if double {
        (bits as int / 0x10_0000_0000_0000) % 2048
    } else {
        (bits as int / 0x80_0000) % 256
    }
}

/// The fraction field.
pub open spec fn fraction_field(bits: u64, double: bool) -> int {
    if double {
        bits as int % 0x10_0000_0000_0000
    } else {
        bits as int % 0x80_0000
    }
}

/// Whether the bits are those of no number.
pub open spec fn stands_for_none(bits: u64, double: bool) -> bool {
    exponent_field(bits, double) == (if double { 2047int } else { 255 }) && fraction_field(bits, double) != 0
}

/// The number that bits stand for, in units of the smallest one of the format; an infinity
/// counts as the number that would follow the largest one.
pub open spec fn number(bits: u64, double: bool) -> int {
    let exponent = exponent_field(bits, double);
    let fraction = fraction_field(bits, double);
    let hidden = if double { 0x10_0000_0000_0000int } else { 0x80_0000 };
    let size = if exponent == 0 {
        fraction
    } else {
        (hidden + fraction) * pow2((exponent - 1) as nat)
    };
    let negative = if double { bits as int / 0x8000_0000_0000_0000 == 1 } else { (bits as int / 0x8000_0000) % 2 == 1 };
    if negative {
        -size
    } else {
        size
    }
}

/// The order of two bit patterns is the order of the numbers that they stand for.
pub proof fn order_is_that_of_the_numbers(left: u64, right: u64, double: bool)
    ensures
        ({
            let order = float_order(left, right, double);
            let none = stands_for_none(left, double) || stands_for_none(right, double);
            &&& (order == FloatOrder::Unordered) == none
            &&& (order == FloatOrder::Less) == (!none && number(left, double) < number(right, double))
            &&& (order == FloatOrder::Equal) == (!none && number(left, double) == number(right, double))
            &&& (order == FloatOrder::Greater) == (!none && number(left, double) > number(right, double))
        }),
{
    lemma_number(left, double);
    lemma_number(right, double);
    if !is_nan(left, double) && !is_nan(right, double) {
        order_is_numeric(left, right, double);
    }
}

pub proof fn lemma_number(bits: u64, double: bool)
    ensures
        stands_for_none(bits, double) == is_nan(bits, double),
        number(bits, double) == scaled(bits, double),
{
    let value = bits as int;
    if double {
        let size = value % 0x8000_0000_0000_0000;
        assert(size / 0x10_0000_0000_0000 == exponent_field(bits, double));
        assert(size % 0x10_0000_0000_0000 == fraction_field(bits, double));
    } else {
        let size = value % 0x8000_0000;
        assert(size / 0x80_0000 == exponent_field(bits, double));
        assert(size % 0x80_0000 == fraction_field(bits, double));
    }
}

/// Whether flags tell the order of two numbers: zero where they are equal, carry where the
/// left one is less, and all of zero, parity and carry where one of them is no number.
pub open spec fn flags_tell(flags: u64, left: u64, right: u64, double: bool) -> bool {
    if stands_for_none(left, double) || stands_for_none(right, double) {
        holds(flags, 0x40) && holds(flags, 0x4) && holds(flags, 0x1)
    } else {
        &&& holds(flags, 0x40) == (number(left, double) == number(right, double))
        &&& !holds(flags, 0x4)
        &&& holds(flags, 0x1) == (number(left, double) < number(right, double))
    }
}

proof fn lemma_order_flags(flags: u64, left: u64, right: u64, double: bool)
    ensures
        ({
            let after = order_flags(flags, float_order(left, right, double));
            &&& flags_tell(after, left, right, double)
            &&& !holds(after, 0x800)
            &&& !holds(after, 0x80)
            &&& !holds(after, 0x10)
            &&& after & !0x8D5 == flags & !0x8D5
        }),
{
    let order = float_order(left, right, double);
    order_is_that_of_the_numbers(left, right, double);
    let a = with_flag(flags, OF, false);
    let b = with_flag(a, SF, false);
    let c = with_flag(b, AF, false);
    let d = with_flag(c, ZF, order == FloatOrder::Equal || order == FloatOrder::Unordered);
    let e = with_flag(d, PF, order == FloatOrder::Unordered);
    status_flags_are_apart(flags, OF, false);
    status_flags_are_apart(a, SF, false);
    status_flags_are_apart(b, AF, false);
    status_flags_are_apart(c, ZF, order == FloatOrder::Equal || order == FloatOrder::Unordered);
    status_flags_are_apart(d, PF, order == FloatOrder::Unordered);
    status_flags_are_apart(e, CF, order == FloatOrder::Less || order == FloatOrder::Unordered);
}

/// The low lane of a vector register.
pub open spec fn low_bits_of(vector: u128, double: bool) -> u64 {
    (if double {
        vector as int % 0x1_0000_0000_0000_0000
    } else {
        vector as int % 0x1_0000_0000
    }) as u64
}

/// The second operand of a scalar instruction: the low lane of a register, or memory.
pub open spec fn second_number(machine: Machine, instruction: Instruction, double: bool) -> Result<u64, CpuError> {
    if instruction.op1_kind == crate::decode::op_kind::MEMORY {
        machine.read_linear(machine.effective_address(instruction), if double { 8 } else { 4 })
    } else {
        Ok(low_bits_of(machine.xmm(instruction.op1_register), double))
    }
}

pub proof fn lemma_second(machine: Machine, instruction: Instruction, double: bool)
    ensures
        match second_number(machine, instruction, double) {
            Err(error) => machine.scalar_source(instruction, double) == Err::<u64, CpuError>(error),
            Ok(bits) => machine.scalar_source(instruction, double) is Ok && crate::ops::sse_convert::lane_of(
                machine.scalar_source(instruction, double)->Ok_0,
                double,
            ) == bits,
        },
{
    if instruction.op1_kind == crate::decode::op_kind::MEMORY && !double {
        let linear = machine.effective_address(instruction);
        let user = machine.regs.cpl() == 3;
        crate::cpu::linear::lemma_bytes_read(machine, linear, 4, user);
        vstd::arithmetic::power2::lemma2_to64();
        if let Ok(bytes) = machine.linear_bytes(linear, 4, user) {
            crate::arith::lemma_le_value_bound(bytes);
        }
    }
}

proof fn lemma_routed_vector(machine: Machine, instruction: Instruction)
    requires
        route_of(instruction.mnemonic) == Route::Vector || route_of(instruction.mnemonic) == Route::TextOrScalar
            && !is_text_kind(instruction.op0_kind),
    ensures
        dispatch_spec(machine, instruction) == sse_op_spec(machine, instruction),
{
    reveal(dispatch_spec);
}

/// UCOMIS and COMIS tell the order of the low lanes: below, equal, above, or unordered where
/// one of them is no number. The other status flags are clear, and nothing else changes.
pub proof fn scalar_comparisons_tell_the_order(machine: Machine, instruction: Instruction, double: bool, right: u64)
    requires
        if double {
            instruction.mnemonic == mnemonic::UCOMISD || instruction.mnemonic == mnemonic::COMISD
        } else {
            instruction.mnemonic == mnemonic::UCOMISS || instruction.mnemonic == mnemonic::COMISS
        },
        second_number(machine, instruction, double) == Ok::<u64, CpuError>(right),
    ensures
        ({
            let (after, result) = dispatch_spec(machine, instruction);
            let left = low_bits_of(machine.xmm(instruction.op0_register), double);
            let flags = after.regs.rflags;
            &&& result == Ok::<Effect, CpuError>(Effect::Done)
            &&& after == machine.set_flags(flags)
            &&& flags_tell(flags, left, right, double)
            &&& !holds(flags, 0x800) && !holds(flags, 0x80) && !holds(flags, 0x10)
            &&& flags & !0x8D5 == machine.regs.rflags & !0x8D5
        }),
{
    lemma_routed_vector(machine, instruction);
    lemma_second(machine, instruction, double);
    let left = low_bits_of(machine.xmm(instruction.op0_register), double);
    assert(sse_op_spec(machine, instruction) == done(comis_spec(machine, instruction, double)));
    assert(crate::ops::sse_numeric::low_lane(machine.xmm(instruction.op0_register), double) == left);
    lemma_order_flags(machine.regs.rflags, left, right, double);
}

/// What the control byte of a comparison asks of two numbers.
pub open spec fn control_asks(control: int, left: u64, right: u64, double: bool) -> bool {
    let none = stands_for_none(left, double) || stands_for_none(right, double);
    let less = !none && number(left, double) < number(right, double);
    let equal = !none && number(left, double) == number(right, double);
    let asked = control % 8;
    if asked == 0 {
        equal
    } else if asked == 1 {
        less
    } else if asked == 2 {
        less || equal
    } else if asked == 3 {
        none
    } else if asked == 4 {
        !equal
    } else if asked == 5 {
        !less
    } else if asked == 6 {
        !(less || equal)
    } else {
        !none
    }
}

/// What a comparison or a selection makes of two lanes: all ones where what the control
/// byte asks for is so, else zero; the lesser or the greater number, and the right one
/// where they are equal or one of them is none.
pub open spec fn selected(code: u16, control: int, left: u64, right: u64, double: bool) -> int {
    let none = stands_for_none(left, double) || stands_for_none(right, double);
    if code == mnemonic::CMPSS || code == mnemonic::CMPSD || code == mnemonic::CMPPS || code == mnemonic::CMPPD {
        if !control_asks(control, left, right, double) {
            0
        } else if double {
            0xFFFF_FFFF_FFFF_FFFF
        } else {
            0xFFFF_FFFF
        }
    } else if code == mnemonic::MINSS || code == mnemonic::MINSD || code == mnemonic::MINPS || code == mnemonic::MINPD {
        if !none && number(left, double) < number(right, double) {
            left as int
        } else {
            right as int
        }
    } else {
        if !none && number(left, double) > number(right, double) {
            left as int
        } else {
            right as int
        }
    }
}

proof fn lemma_selected(pick: FloatPick, code: u16, control: u8, left: u64, right: u64, double: bool)
    requires
        is_pick(pick, code, control),
    ensures
        picked_lane(pick, left, right, double) == selected(code, control as int, left, right, double),
{
    order_is_that_of_the_numbers(left, right, double);
}

/// Whether a mnemonic compares or selects numbers of the format, in the low lane or in all.
pub open spec fn selects(code: u16, double: bool, scalar: bool) -> bool {
    if double {
        if scalar {
            code == mnemonic::CMPSD || code == mnemonic::MINSD || code == mnemonic::MAXSD
        } else {
            code == mnemonic::CMPPD || code == mnemonic::MINPD || code == mnemonic::MAXPD
        }
    } else {
        if scalar {
            code == mnemonic::CMPSS || code == mnemonic::MINSS || code == mnemonic::MAXSS
        } else {
            code == mnemonic::CMPPS || code == mnemonic::MINPS || code == mnemonic::MAXPS
        }
    }
}

proof fn lemma_pick_code(code: u16, control: u8, double: bool, scalar: bool) -> (pick: FloatPick)
    requires
        selects(code, double, scalar),
    ensures
        if code == mnemonic::CMPSD {
            route_of(code) == Route::TextOrScalar
        } else {
            route_of(code) == Route::Vector
        },
        crate::ops::sse::comparison_of(code) is None,
        pick_of(code, control) == Some((pick, double, scalar)),
        is_pick(pick, code, control),
{
    let (pick, wide, low) = pick_of(code, control)->0;
    pick
}

/// Whether a mnemonic asks for a comparison or a selection.
spec fn is_pick(pick: FloatPick, code: u16, control: u8) -> bool {
    match pick {
        FloatPick::Mask { predicate } => predicate == control && (code == mnemonic::CMPSS || code == mnemonic::CMPSD
            || code == mnemonic::CMPPS || code == mnemonic::CMPPD),
        FloatPick::Min => code == mnemonic::MINSS || code == mnemonic::MINSD || code == mnemonic::MINPS || code
            == mnemonic::MINPD,
        FloatPick::Max => code == mnemonic::MAXSS || code == mnemonic::MAXSD || code == mnemonic::MAXPS || code
            == mnemonic::MAXPD,
    }
}

proof fn lemma_pick(machine: Machine, instruction: Instruction, double: bool, scalar: bool) -> (pick: FloatPick)
    requires
        selects(instruction.mnemonic, double, scalar),
        instruction.mnemonic == mnemonic::CMPSD ==> !is_text_kind(instruction.op0_kind),
    ensures
        dispatch_spec(machine, instruction) == done(pick_spec(machine, instruction, pick, double, scalar)),
        is_pick(pick, instruction.mnemonic, crate::ops::sse_integer::control_byte(instruction)),
{
    let control = crate::ops::sse_integer::control_byte(instruction);
    let pick = lemma_pick_code(instruction.mnemonic, control, double, scalar);
    lemma_routed_vector(machine, instruction);
    lemma_picking(machine, instruction, pick, double, scalar);
    pick
}

proof fn lemma_picking(machine: Machine, instruction: Instruction, pick: FloatPick, double: bool, scalar: bool)
    requires
        crate::ops::sse::comparison_of(instruction.mnemonic) is None,
        pick_of(instruction.mnemonic, crate::ops::sse_integer::control_byte(instruction)) == Some((pick, double, scalar)),
    ensures
        sse_op_spec(machine, instruction) == done(pick_spec(machine, instruction, pick, double, scalar)),
{
}

pub proof fn lemma_low_replaced(vector: u128, lane: u64, double: bool)
    requires
        double || lane < 0x1_0000_0000,
    ensures
        ({
            let value = crate::ops::effect::with_low(vector, lane as u128, double);
            let span = if double { 0x1_0000_0000_0000_0000int } else { 0x1_0000_0000int };
            &&& value as int % span == lane
            &&& value as int / span == vector as int / span
        }),
{
    let whole = vector as int;
    let value = crate::ops::effect::with_low(vector, lane as u128, double) as int;
    if double {
        let high = whole / 0x1_0000_0000_0000_0000;
        assert(whole == 0x1_0000_0000_0000_0000 * high + whole % 0x1_0000_0000_0000_0000);
        assert(value == 0x1_0000_0000_0000_0000 * high + lane);
        lemma_fundamental_div_mod_converse(value, 0x1_0000_0000_0000_0000, high, lane as int);
    } else {
        let high = whole / 0x1_0000_0000;
        assert(whole == 0x1_0000_0000 * high + whole % 0x1_0000_0000);
        assert(value == 0x1_0000_0000 * high + lane);
        lemma_fundamental_div_mod_converse(value, 0x1_0000_0000, high, lane as int);
    }
}

/// A scalar comparison or selection changes the low lane of its register to what it selects
/// and leaves the rest of the register and all else alone.
#[verifier::rlimit(30)]
pub proof fn scalar_selections_are_numeric(machine: Machine, instruction: Instruction, double: bool, right: u64)
    requires
        machine.regs.xmm.len() == 16,
        crate::ops::xmm::is_xmm_spec(instruction.op0_register),
        selects(instruction.mnemonic, double, true),
        instruction.mnemonic == mnemonic::CMPSD ==> !is_text_kind(instruction.op0_kind),
        second_number(machine, instruction, double) == Ok::<u64, CpuError>(right),
    ensures
        ({
            let (after, result) = dispatch_spec(machine, instruction);
            let target = instruction.op0_register;
            let before = machine.xmm(target);
            let left = low_bits_of(before, double);
            let span = if double { 0x1_0000_0000_0000_0000int } else { 0x1_0000_0000int };
            &&& result == Ok::<Effect, CpuError>(Effect::Done)
            &&& after == machine.write_xmm(target, after.xmm(target))
            &&& after.xmm(target) as int % span == selected(
                instruction.mnemonic,
                instruction.immediate2 as int % 0x100,
                left,
                right,
                double,
            )
            &&& after.xmm(target) as int / span == before as int / span
        }),
{
    let pick = lemma_pick(machine, instruction, double, true);
    let target = instruction.op0_register;
    let before = machine.xmm(target);
    let left = low_bits_of(before, double);
    let control = crate::ops::sse_integer::control_byte(instruction);
    let lane = picked_lane(pick, left, right, double);
    lemma_scalar_pick(machine, instruction, pick, double, right);
    lemma_selected(pick, instruction.mnemonic, control, left, right, double);
    lemma_low_replaced(before, lane, double);
    lemma_written(machine, target, crate::ops::effect::with_low(before, lane as u128, double));
}

proof fn lemma_scalar_pick(machine: Machine, instruction: Instruction, pick: FloatPick, double: bool, right: u64)
    requires
        second_number(machine, instruction, double) == Ok::<u64, CpuError>(right),
    ensures
        ({
            let target = instruction.op0_register;
            let before = machine.xmm(target);
            let lane = picked_lane(pick, low_bits_of(before, double), right, double);
            &&& pick_spec(machine, instruction, pick, double, true) == (
                machine.write_xmm(target, crate::ops::effect::with_low(before, lane as u128, double)),
                Ok::<(), CpuError>(()),
            )
            &&& double || lane < 0x1_0000_0000
        }),
{
    lemma_second(machine, instruction, double);
    lemma_second_fits(machine, instruction, double);
    let before = machine.xmm(instruction.op0_register);
    assert(crate::ops::sse_numeric::low_lane(before, double) == low_bits_of(before, double));
}

proof fn lemma_written(machine: Machine, target: u8, value: u128)
    requires
        machine.regs.xmm.len() == 16,
        crate::ops::xmm::is_xmm_spec(target),
    ensures
        machine.write_xmm(target, value).xmm(target) == value,
{
}

proof fn lemma_second_fits(machine: Machine, instruction: Instruction, double: bool)
    ensures
        second_number(machine, instruction, double) matches Ok(bits) ==> (double || bits < 0x1_0000_0000),
{
    if instruction.op1_kind == crate::decode::op_kind::MEMORY && !double {
        let linear = machine.effective_address(instruction);
        let user = machine.regs.cpl() == 3;
        crate::cpu::linear::lemma_bytes_read(machine, linear, 4, user);
        vstd::arithmetic::power2::lemma2_to64();
        if let Ok(bytes) = machine.linear_bytes(linear, 4, user) {
            crate::arith::lemma_le_value_bound(bytes);
        }
    }
}

/// A packed comparison or selection does the same in every lane.
pub proof fn packed_selections_are_numeric(machine: Machine, instruction: Instruction, double: bool, right: u128, i: int)
    requires
        machine.regs.xmm.len() == 16,
        crate::ops::xmm::is_xmm_spec(instruction.op0_register),
        selects(instruction.mnemonic, double, false),
        machine.vector_source(instruction) == Ok::<u128, CpuError>(right),
        0 <= i < if double { 2int } else { 4 },
    ensures
        ({
            let (after, result) = dispatch_spec(machine, instruction);
            let target = instruction.op0_register;
            let width = if double { 8u8 } else { 4u8 };
            &&& result == Ok::<Effect, CpuError>(Effect::Done)
            &&& after == machine.write_xmm(target, after.xmm(target))
            &&& lanes(after.xmm(target), width)[i] == selected(
                instruction.mnemonic,
                instruction.immediate2 as int % 0x100,
                lanes(machine.xmm(target), width)[i],
                lanes(right, width)[i],
                double,
            )
        }),
{
    let pick = lemma_pick(machine, instruction, double, false);
    let target = instruction.op0_register;
    let left = machine.xmm(target);
    let control = (instruction.immediate2 % 0x100) as u8;
    let width = if double { 8u8 } else { 4u8 };
    let a = lanes(left, width);
    let b = lanes(right, width);
    crate::ops::lanes::gluing_undoes_splitting(left, width);
    crate::ops::lanes::gluing_undoes_splitting(right, width);
    let parts = Seq::new(lane_total(width), |k: int| picked_lane(pick, a[k], b[k], double));
    assert forall|k: int| 0 <= k < parts.len() implies #[trigger] parts[k] < lane_span(width) by {
        assert(a[k] < lane_span(width));
        assert(b[k] < lane_span(width));
    }
    crate::ops::lanes::splitting_undoes_gluing(parts, width);
    assert(picked_lanes(pick, left, right, double) == crate::ops::lanes::glued(parts, width));
    lemma_written(machine, target, picked_lanes(pick, left, right, double));
    lemma_selected(pick, instruction.mnemonic, control, a[i], b[i], double);
}

proof fn lemma_routed_x87(machine: Machine, instruction: Instruction)
    requires
        route_of(instruction.mnemonic) == Route::Float,
    ensures
        dispatch_spec(machine, instruction) == x87_op_spec(machine, instruction),
{
    reveal(dispatch_spec);
}

proof fn lemma_x87_code(code: u16)
    requires
        crate::ops::x87::comparison_of(code) is Some,
    ensures
        route_of(code) == Route::Float,
        crate::ops::x87::arithmetic_of(code) is None,
        crate::ops::x87::constant_of(code) is None,
        crate::ops::x87::store_of(code) is None,
        code != mnemonic::FSQRT,
        code != mnemonic::FLD,
        code != mnemonic::FILD,
{
}

proof fn lemma_x87_comparison(machine: Machine, instruction: Instruction, comparison: Comparison, count: u8)
    requires
        crate::ops::x87::comparison_of(instruction.mnemonic) == Some((comparison, count)),
    ensures
        dispatch_spec(machine, instruction) == done(
            crate::ops::x87::compare_spec(machine, instruction, comparison, count),
        ),
{
    lemma_x87_code(instruction.mnemonic);
    lemma_routed_x87(machine, instruction);
    lemma_comparing(machine, instruction, comparison, count);
}

proof fn lemma_comparing(machine: Machine, instruction: Instruction, comparison: Comparison, count: u8)
    requires
        crate::ops::x87::comparison_of(instruction.mnemonic) == Some((comparison, count)),
        crate::ops::x87::arithmetic_of(instruction.mnemonic) is None,
        crate::ops::x87::constant_of(instruction.mnemonic) is None,
        crate::ops::x87::store_of(instruction.mnemonic) is None,
        instruction.mnemonic != mnemonic::FSQRT,
        instruction.mnemonic != mnemonic::FLD,
        instruction.mnemonic != mnemonic::FILD,
    ensures
        x87_op_spec(machine, instruction) == done(
            crate::ops::x87::compare_spec(machine, instruction, comparison, count),
        ),
{
}

proof fn lemma_compare_flags(flags: u64, left: u64, right: u64)
    ensures
        ({
            let after = compare_flags(flags, float_order(left, right, true));
            &&& flags_tell(after, left, right, true)
            &&& !holds(after, 0x800)
            &&& !holds(after, 0x80)
            &&& holds(after, 0x10) == holds(flags, 0x10)
            &&& after & !0x8D5 == flags & !0x8D5
        }),
{
    let order = float_order(left, right, true);
    order_is_that_of_the_numbers(left, right, true);
    let a = with_flag(flags, ZF, order == FloatOrder::Equal || order == FloatOrder::Unordered);
    let b = with_flag(a, PF, order == FloatOrder::Unordered);
    let c = with_flag(b, CF, order == FloatOrder::Less || order == FloatOrder::Unordered);
    let d = with_flag(c, OF, false);
    status_flags_are_apart(flags, ZF, order == FloatOrder::Equal || order == FloatOrder::Unordered);
    status_flags_are_apart(a, PF, order == FloatOrder::Unordered);
    status_flags_are_apart(b, CF, order == FloatOrder::Less || order == FloatOrder::Unordered);
    status_flags_are_apart(c, OF, false);
    status_flags_are_apart(d, SF, false);
}

/// FCOMI and its like tell the order of the top and another register in the flags, and
/// those that pop drop the top.
pub proof fn stack_comparisons_tell_the_order(machine: Machine, instruction: Instruction)
    requires
        instruction.mnemonic == mnemonic::FCOMI || instruction.mnemonic == mnemonic::FUCOMI || instruction.mnemonic
            == mnemonic::FCOMIP || instruction.mnemonic == mnemonic::FUCOMIP,
    ensures
        ({
            let (after, result) = dispatch_spec(machine, instruction);
            let pops = instruction.mnemonic == mnemonic::FCOMIP || instruction.mnemonic == mnemonic::FUCOMIP;
            let flags = after.regs.rflags;
            &&& result == Ok::<Effect, CpuError>(Effect::Done)
            &&& after == machine.set_flags(flags).set_fpu(after.fpu)
            &&& after.fpu == if pops { machine.fpu.popped() } else { machine.fpu }
            &&& flags_tell(flags, machine.fpu.st(0), machine.fpu.st(source_index(instruction)), true)
            &&& !holds(flags, 0x800) && !holds(flags, 0x80)
            &&& flags & !0x8D5 == machine.regs.rflags & !0x8D5
        }),
{
    let pops = instruction.mnemonic == mnemonic::FCOMIP || instruction.mnemonic == mnemonic::FUCOMIP;
    lemma_x87_comparison(machine, instruction, Comparison::Flags, if pops { 1 } else { 0 });
    lemma_compare_flags(machine.regs.rflags, machine.fpu.st(0), machine.fpu.st(source_index(instruction)));
}

/// What FCOM and its like compare the top with: memory or a register, the register below
/// the top, or zero.
pub open spec fn compared_with(machine: Machine, instruction: Instruction) -> Result<u64, CpuError> {
    let code = instruction.mnemonic;
    if code == mnemonic::FTST {
        Ok(0)
    } else if code == mnemonic::FCOMPP || code == mnemonic::FUCOMPP {
        Ok(machine.fpu.st(1))
    } else if code == mnemonic::FICOM || code == mnemonic::FICOMP || instruction.op0_kind
        == crate::decode::op_kind::MEMORY {
        crate::ops::x87::memory_value(machine, instruction)
    } else {
        Ok(machine.fpu.st(source_index(instruction)))
    }
}

/// FCOM and its like tell the order of the top and their operand in the status word: bit 8
/// where the top is less, bit 14 where they are equal, both and bit 10 where one of them is
/// no number. Those that pop drop one register, FCOMPP and FUCOMPP two.
pub proof fn status_comparisons_tell_the_order(machine: Machine, instruction: Instruction, other: u64)
    requires
        instruction.mnemonic == mnemonic::FCOM || instruction.mnemonic == mnemonic::FUCOM || instruction.mnemonic
            == mnemonic::FCOMP || instruction.mnemonic == mnemonic::FUCOMP || instruction.mnemonic == mnemonic::FCOMPP
            || instruction.mnemonic == mnemonic::FUCOMPP || instruction.mnemonic == mnemonic::FICOM
            || instruction.mnemonic == mnemonic::FICOMP || instruction.mnemonic == mnemonic::FTST,
        compared_with(machine, instruction) == Ok::<u64, CpuError>(other),
        machine.fpu.top < 8,
    ensures
        ({
            let code = instruction.mnemonic;
            let (after, result) = dispatch_spec(machine, instruction);
            let top = machine.fpu.st(0);
            let status = after.fpu.status;
            let none = stands_for_none(top, true) || stands_for_none(other, true);
            let dropped = if code == mnemonic::FCOMPP || code == mnemonic::FUCOMPP {
                2int
            } else if code == mnemonic::FCOMP || code == mnemonic::FUCOMP || code == mnemonic::FICOMP {
                1
            } else {
                0
            };
            &&& result == Ok::<Effect, CpuError>(Effect::Done)
            &&& after == machine.set_fpu(after.fpu)
            &&& after.fpu.stack == machine.fpu.stack
            &&& after.fpu.control == machine.fpu.control
            &&& after.fpu.top == (machine.fpu.top + dropped) % 8
            &&& (status & 0x100 == 0x100) == (none || number(top, true) < number(other, true))
            &&& (status & 0x4000 == 0x4000) == (none || number(top, true) == number(other, true))
            &&& (status & 0x400 == 0x400) == none
            &&& status & !0x4700 == machine.fpu.status & !0x4700
            &&& status & 0x200 == 0
        }),
{
    let code = instruction.mnemonic;
    let (comparison, count) = crate::ops::x87::comparison_of(code)->0;
    lemma_x87_comparison(machine, instruction, comparison, count);
    assert(compared_value(machine, instruction, comparison) == compared_with(machine, instruction));
    let top = machine.fpu.st(0);
    order_is_that_of_the_numbers(top, other, true);
    let order = float_order(top, other, true);
    let codes = crate::ops::x87::order_codes(order);
    let before = machine.fpu.status;
    assert(({
        let status = (before & !0x4700u16) | codes;
        &&& (status & 0x100 == 0x100) == (codes & 0x100 == 0x100)
        &&& (status & 0x4000 == 0x4000) == (codes & 0x4000 == 0x4000)
        &&& (status & 0x400 == 0x400) == (codes & 0x400 == 0x400)
        &&& status & !0x4700 == before & !0x4700
        &&& status & 0x200 == 0
    })) by (bit_vector)
        requires
            codes == 0x4500 || codes == 0 || codes == 0x100 || codes == 0x4000,
    ;
    assert(0x4500u16 & 0x100 == 0x100 && 0x4500u16 & 0x4000 == 0x4000 && 0x4500u16 & 0x400 == 0x400 && 0u16 & 0x100 == 0
        && 0u16 & 0x4000 == 0 && 0u16 & 0x400 == 0 && 0x100u16 & 0x100 == 0x100 && 0x100u16 & 0x4000 == 0 && 0x100u16
        & 0x400 == 0 && 0x4000u16 & 0x100 == 0 && 0x4000u16 & 0x4000 == 0x4000 && 0x4000u16 & 0x400 == 0) by (bit_vector);
}

} // verus!
