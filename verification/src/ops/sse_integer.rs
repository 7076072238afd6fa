//! Packed integer operations of SSE2 and later on XMM registers. The legacy forms that
//! alias the floating-point stack stay closed.

use vstd::prelude::*;

use crate::arch::registers::{set_flag, with_flag, AF, CF, OF, PF, SF, ZF};
use crate::cpu::{Cpu, CpuError, GuestFault, Machine};
use crate::decode::{mnemonic, op_kind, Instruction};
use crate::ops::float::{integer_value, is_finite, is_integral, is_subnormal, round_to_integer};
use crate::ops::lanes::{
    apply_lanewise, arrange, arranged, gather_top_bits, glue, glued, lane_total, lanes, lanewise, split, top_bits,
    Arrangement, LaneOp,
};
use crate::ops::packed::{
    add_pairs, added_pairs, multiplied_bytes, multiplied_words, multiply_bytes, multiply_words, saturate, saturated,
    set_lane, shuffle_bytes, shuffled_bytes, sum_differences, summed_differences, with_lane,
};
use crate::ops::xmm::{read_operand_vector, unknown, xmm_index, xmm_index_spec};
use crate::ops::{read_register, reg_read, write_register};

verus! {

/// The low byte of the immediate in operand two.
pub open spec fn control_byte(instruction: Instruction) -> u8 {
    (instruction.immediate2 % 0x100) as u8
}

pub fn control_of(instruction: &Instruction) -> (control: u8)
    ensures
        control == control_byte(*instruction),
{
    (instruction.immediate2 % 0x100) as u8
}

/// The bytes that an insertion moves.
pub open spec fn insert_width(code: u16) -> Option<u8> {
    match code {
        mnemonic::PINSRB => Some(1),
        mnemonic::PINSRD => Some(4),
        mnemonic::PINSRQ => Some(8),
        _ => None,
    }
}

pub fn width_inserted(code: u16) -> (width: Option<u8>)
    ensures
        width == insert_width(code),
{
    match code {
        mnemonic::PINSRB => Some(1),
        mnemonic::PINSRD => Some(4),
        mnemonic::PINSRQ => Some(8),
        _ => None,
    }
}

/// The lane that the control byte names, of lanes of `width` bytes.
pub open spec fn named_lane(instruction: Instruction, width: u8) -> int {
    control_byte(instruction) as int % lane_total(width) as int
}

/// What an insertion takes from its second operand.
pub open spec fn inserted_value(machine: Machine, instruction: Instruction, width: u8) -> Result<u64, CpuError> {
    if instruction.op1_kind == op_kind::REGISTER {
        Ok(reg_read(machine.regs, instruction.op1_register, width))
    } else if instruction.op1_kind == op_kind::MEMORY {
        machine.read_linear(machine.effective_address(instruction), width as nat)
    } else {
        Err(machine.unknown(instruction))
    }
}

/// Puts a general register or memory in one lane.
pub open spec fn insert_spec(machine: Machine, instruction: Instruction, width: u8) -> (Machine, Result<(), CpuError>) {
    match inserted_value(machine, instruction, width) {
        Err(error) => (machine, Err(error)),
        Ok(value) => (
            machine.write_xmm(
                instruction.op0_register,
                with_lane(machine.xmm(instruction.op0_register), width, named_lane(instruction, width), value),
            ),
            Ok(()),
        ),
    }
}

pub fn insert(cpu: &mut Cpu, instruction: &Instruction, width: u8) -> (result: Result<(), CpuError>)
    requires
        width == 1 || width == 4 || width == 8,
    ensures
        (final(cpu)@, result) == insert_spec(old(cpu)@, *instruction, width),
{
    let value = if instruction.op1_kind == op_kind::REGISTER {
        read_register(&cpu.regs, instruction.op1_register, width)
    } else if instruction.op1_kind == op_kind::MEMORY {
        cpu.read_linear(cpu.effective_address(instruction), width as usize)?
    } else {
        return Err(unknown(cpu, instruction));
    };
    let lane = control_of(instruction) as usize % crate::ops::lanes::total_of(width);
    let before = crate::ops::xmm::read_xmm(&cpu.regs, instruction.op0_register);
    let after = set_lane(before, width, lane, value);
    crate::ops::xmm::write_xmm(&mut cpu.regs, instruction.op0_register, after);
    Ok(())
}

/// Takes one lane to memory, or to a general register with zeros above it.
pub open spec fn extract_spec(machine: Machine, instruction: Instruction, width: u8) -> (Machine, Result<(), CpuError>) {
    match xmm_index_spec(instruction.op1_register) {
        None => (machine, Err(machine.unknown(instruction))),
        Some(index) => {
            let value = lanes(machine.regs.xmm[index], width)[named_lane(instruction, width)];
            if instruction.op0_kind == op_kind::MEMORY {
                machine.write_linear(machine.effective_address(instruction), width as nat, value as u128)
            } else {
                (
                    machine.reg_write(
                        instruction.op0_register,
                        if width == 8 {
                            8
                        } else {
                            4
                        },
                        value,
                    ),
                    Ok(()),
                )
            }
        },
    }
}

pub fn extract(cpu: &mut Cpu, instruction: &Instruction, width: u8) -> (result: Result<(), CpuError>)
    requires
        width == 1 || width == 2 || width == 4 || width == 8,
    ensures
        (final(cpu)@, result) == extract_spec(old(cpu)@, *instruction, width),
{
    match xmm_index(instruction.op1_register) {
        None => Err(unknown(cpu, instruction)),
        Some(index) => {
            let parts = split(cpu.regs.xmm[index], width);
            let lane = control_of(instruction) as usize % crate::ops::lanes::total_of(width);
            let value = parts[lane];
            if instruction.op0_kind == op_kind::MEMORY {
                let linear = cpu.effective_address(instruction);
                cpu.write_linear(linear, width as usize, value as u128)
            } else {
                let size: u8 = if width == 8 { 8 } else { 4 };
                write_register(&mut cpu.regs, instruction.op0_register, size, value);
                Ok(())
            }
        },
    }
}

/// The second operand of an instruction that takes nothing but XMM registers and
/// memory.
pub open spec fn strict_source(machine: Machine, instruction: Instruction, count: nat) -> Result<u128, CpuError> {
    if instruction.op1_kind == op_kind::REGISTER {
        match xmm_index_spec(instruction.op1_register) {
            Some(index) => Ok(machine.regs.xmm[index]),
            None => Err(machine.unknown(instruction)),
        }
    } else if instruction.op1_kind == op_kind::MEMORY {
        machine.operand_vector(instruction, count)
    } else {
        Err(machine.unknown(instruction))
    }
}

pub fn read_strict_source(cpu: &Cpu, instruction: &Instruction, count: usize) -> (value: Result<u128, CpuError>)
    requires
        count <= 16,
    ensures
        value == strict_source(cpu@, *instruction, count as nat),
{
    if instruction.op1_kind == op_kind::REGISTER {
        match xmm_index(instruction.op1_register) {
            Some(index) => Ok(cpu.regs.xmm[index]),
            None => Err(unknown(cpu, instruction)),
        }
    } else if instruction.op1_kind == op_kind::MEMORY {
        read_operand_vector(cpu, instruction, count)
    } else {
        Err(unknown(cpu, instruction))
    }
}

/// The blends by control bits or by the sign bits of XMM0: the lane width, and whether
/// the signs choose.
pub open spec fn blend_of(code: u16) -> Option<(u8, bool)> {
    match code {
        mnemonic::PBLENDW => Some((2, false)),
        mnemonic::BLENDPS => Some((4, false)),
        mnemonic::BLENDPD => Some((8, false)),
        mnemonic::PBLENDVB => Some((1, true)),
        mnemonic::BLENDVPS => Some((4, true)),
        mnemonic::BLENDVPD => Some((8, true)),
        _ => None,
    }
}

pub fn find_blend(code: u16) -> (blend: Option<(u8, bool)>)
    ensures
        blend == blend_of(code),
{
    match code {
        mnemonic::PBLENDW => Some((2, false)),
        mnemonic::BLENDPS => Some((4, false)),
        mnemonic::BLENDPD => Some((8, false)),
        mnemonic::PBLENDVB => Some((1, true)),
        mnemonic::BLENDVPS => Some((4, true)),
        mnemonic::BLENDVPD => Some((8, true)),
        _ => None,
    }
}

/// The lane-wise operations of this family.
pub open spec fn product_of(code: u16) -> Option<(LaneOp, u8)> {
    match code {
        mnemonic::PMULHUW => Some((LaneOp::MultiplyHighUnsigned, 2)),
        mnemonic::PMULHW => Some((LaneOp::MultiplyHighSigned, 2)),
        mnemonic::PMULLW => Some((LaneOp::MultiplyLow, 2)),
        mnemonic::PMULLD => Some((LaneOp::MultiplyLow, 4)),
        mnemonic::PAVGB => Some((LaneOp::Average, 1)),
        _ => None,
    }
}

fn find_product(code: u16) -> (product: Option<(LaneOp, u8)>)
    ensures
        product == product_of(code),
{
    match code {
        mnemonic::PMULHUW => Some((LaneOp::MultiplyHighUnsigned, 2)),
        mnemonic::PMULHW => Some((LaneOp::MultiplyHighSigned, 2)),
        mnemonic::PMULLW => Some((LaneOp::MultiplyLow, 2)),
        mnemonic::PMULLD => Some((LaneOp::MultiplyLow, 4)),
        mnemonic::PAVGB => Some((LaneOp::Average, 1)),
        _ => None,
    }
}

/// The vector that an instruction of this family makes of two vectors, its control byte
/// and XMM0.
pub open spec fn packed_result(code: u16, left: u128, right: u128, control: u8, mask: u128) -> Option<u128> {
    if blend_of(code) is Some {
        let (width, by_sign) = blend_of(code)->0;
        let chosen = if by_sign {
            top_bits(mask, width) as u16
        } else {
            control as u16
        };
        Some(arranged(Arrangement::Blend { mask: chosen }, left, right, width))
    } else if product_of(code) is Some {
        let (op, width) = product_of(code)->0;
        Some(lanewise(op, left, right, width))
    } else {
        match code {
            mnemonic::PALIGNR => Some(arranged(Arrangement::Align { shift: control }, left, right, 1)),
            mnemonic::PMADDWD => Some(multiplied_words(left, right)),
            mnemonic::PMADDUBSW => Some(multiplied_bytes(left, right)),
            mnemonic::PACKSSDW => Some(saturated(left, right, 4, -0x8000, 0x7FFF)),
            mnemonic::PACKSSWB => Some(saturated(left, right, 2, -0x80, 0x7F)),
            mnemonic::PACKUSDW => Some(saturated(left, right, 4, 0, 0xFFFF)),
            mnemonic::PACKUSWB => Some(saturated(left, right, 2, 0, 0xFF)),
            mnemonic::PHADDD => Some(added_pairs(left, right)),
            mnemonic::PSHUFB => Some(shuffled_bytes(left, right)),
            mnemonic::PSADBW => Some(summed_differences(left, right)),
            _ => None,
        }
    }
}

pub fn compute_packed(code: u16, left: u128, right: u128, control: u8, mask: u128) -> (vector: Option<u128>)
    ensures
        vector == packed_result(code, left, right, control, mask),
{
    if let Some((width, by_sign)) = find_blend(code) {
        let chosen: u16 = if by_sign {
            gather_top_bits(mask, width) as u16
        } else {
            control as u16
        };
        return Some(arrange(Arrangement::Blend { mask: chosen }, left, right, width));
    }
    if let Some((op, width)) = find_product(code) {
        return Some(apply_lanewise(op, left, right, width));
    }
    match code {
        mnemonic::PALIGNR => Some(arrange(Arrangement::Align { shift: control }, left, right, 1)),
        mnemonic::PMADDWD => Some(multiply_words(left, right)),
        mnemonic::PMADDUBSW => Some(multiply_bytes(left, right)),
        mnemonic::PACKSSDW => Some(saturate(left, right, 4, -0x8000, 0x7FFF)),
        mnemonic::PACKSSWB => Some(saturate(left, right, 2, -0x80, 0x7F)),
        mnemonic::PACKUSDW => Some(saturate(left, right, 4, 0, 0xFFFF)),
        mnemonic::PACKUSWB => Some(saturate(left, right, 2, 0, 0xFF)),
        mnemonic::PHADDD => Some(add_pairs(left, right)),
        mnemonic::PSHUFB => Some(shuffle_bytes(left, right)),
        mnemonic::PSADBW => Some(sum_differences(left, right)),
        _ => None,
    }
}

/// The flags after PTEST: zero for no common bit, carry for no bit of the right operand
/// outside the left one; the other arithmetic flags are clear.
pub open spec fn test_flags(flags: u64, left: u128, right: u128) -> u64 {
    let cleared = with_flag(with_flag(with_flag(with_flag(flags, OF, false), SF, false), AF, false), PF, false);
    with_flag(with_flag(cleared, ZF, left & right == 0), CF, !left & right == 0)
}

pub fn set_test_flags(flags: u64, left: u128, right: u128) -> (changed: u64)
    ensures
        changed == test_flags(flags, left, right),
{
    let mut changed = set_flag(flags, OF, false);
    changed = set_flag(changed, SF, false);
    changed = set_flag(changed, AF, false);
    changed = set_flag(changed, PF, false);
    changed = set_flag(changed, ZF, left & right == 0);
    set_flag(changed, CF, !left & right == 0)
}

/// A single truncated to an integer of four bytes, or the indefinite integer.
pub open spec fn truncated_lane(lane: u64, flush: bool) -> u64 {
    let value = integer_value(lane, false, 3);
    if flush && is_subnormal(lane, false) {
        0
    } else if is_finite(lane, false) && -0x8000_0000 <= value < 0x8000_0000 {
        (value % 0x1_0000_0000) as u64
    } else {
        0x8000_0000
    }
}

/// Invalid where the integer does not fit, inexact where a fraction was dropped.
pub open spec fn truncation_exception(lane: u64, flush: bool) -> u32 {
    let value = integer_value(lane, false, 3);
    if flush && is_subnormal(lane, false) {
        0
    } else if !is_finite(lane, false) || !(-0x8000_0000 <= value < 0x8000_0000) {
        1
    } else if !is_integral(lane, false) {
        0x20
    } else {
        0
    }
}

fn truncate_lane(lane: u64, flush: bool) -> (result: (u64, u32))
    requires
        lane < 0x1_0000_0000,
    ensures
        result == (truncated_lane(lane, flush), truncation_exception(lane, flush)),
        result.0 < 0x1_0000_0000,
{
    if flush && crate::ops::float::subnormal(lane, false) {
        return (0, 0);
    }
    if !crate::ops::float::finite(lane, false) {
        return (0x8000_0000, 1);
    }
    let sign = crate::ops::float::negative(lane, false);
    let (size, inexact) = round_to_integer(lane, false, 3);
    let flag: u32 = if inexact { 0x20 } else { 0 };
    match size {
        None => (0x8000_0000, 1),
        Some(size) => {
            if sign {
                if size > 0x8000_0000 {
                    (0x8000_0000, 1)
                } else if size == 0 {
                    (0, flag)
                } else {
                    (0x1_0000_0000 - size, flag)
                }
            } else if size >= 0x8000_0000 {
                (0x8000_0000, 1)
            } else {
                (size, flag)
            }
        },
    }
}

/// All four singles of a vector truncated.
pub open spec fn truncated_lanes(vector: u128, flush: bool) -> u128 {
    let a = lanes(vector, 4);
    glued(Seq::new(4, |i: int| truncated_lane(a[i], flush)), 4)
}

/// The exceptions of all four lanes.
pub open spec fn truncation_exceptions(vector: u128, flush: bool) -> u32 {
    let a = lanes(vector, 4);
    truncation_exception(a[0], flush) | truncation_exception(a[1], flush) | truncation_exception(a[2], flush)
        | truncation_exception(a[3], flush)
}

fn truncate_lanes(vector: u128, flush: bool) -> (result: (u128, u32))
    ensures
        result == (truncated_lanes(vector, flush), truncation_exceptions(vector, flush)),
{
    let a = split(vector, 4);
    assert(a@[0] < 0x1_0000_0000 && a@[1] < 0x1_0000_0000 && a@[2] < 0x1_0000_0000 && a@[3] < 0x1_0000_0000);
    let (l0, e0) = truncate_lane(a[0], flush);
    let (l1, e1) = truncate_lane(a[1], flush);
    let (l2, e2) = truncate_lane(a[2], flush);
    let (l3, e3) = truncate_lane(a[3], flush);
    let parts: Vec<u64> = vec![l0, l1, l2, l3];
    assert(parts@ =~= Seq::new(4, |i: int| truncated_lane(lanes(vector, 4)[i], flush)));
    (glue(&parts, 4), e0 | e1 | e2 | e3)
}

/// Whether one of the exceptions is not masked in MXCSR.
pub open spec fn unmasked(mxcsr: u32, exceptions: u32) -> bool {
    exceptions & !(mxcsr >> 7) != 0
}

/// CVTTPS2DQ: the exceptions stick; an unmasked one leaves the destination alone.
pub open spec fn truncate_spec(machine: Machine, instruction: Instruction, right: u128) -> (Machine, Result<(), CpuError>) {
    let flush = (machine.mxcsr / 0x40) % 2 == 1;
    let exceptions = truncation_exceptions(right, flush);
    let noted = Machine { mxcsr: machine.mxcsr | exceptions, ..machine };
    if unmasked(noted.mxcsr, exceptions) {
        (noted, Err(CpuError::GuestFault { reason: GuestFault::Conversion }))
    } else {
        (noted.write_xmm(instruction.op0_register, truncated_lanes(right, flush)), Ok(()))
    }
}

fn convert_truncated(cpu: &mut Cpu, instruction: &Instruction, right: u128) -> (result: Result<(), CpuError>)
    ensures
        (final(cpu)@, result) == truncate_spec(old(cpu)@, *instruction, right),
{
    let flush = (cpu.mxcsr / 0x40) % 2 == 1;
    let (vector, exceptions) = truncate_lanes(right, flush);
    cpu.mxcsr = cpu.mxcsr | exceptions;
    if exceptions & !(cpu.mxcsr >> 7) != 0 {
        return Err(CpuError::GuestFault { reason: GuestFault::Conversion });
    }
    crate::ops::xmm::write_xmm(&mut cpu.regs, instruction.op0_register, vector);
    Ok(())
}

/// What is done once the second operand is there.
pub open spec fn apply_spec(machine: Machine, instruction: Instruction, right: u128) -> (Machine, Result<(), CpuError>) {
    let left = machine.xmm(instruction.op0_register);
    if instruction.mnemonic == mnemonic::CVTTPS2DQ {
        truncate_spec(machine, instruction, right)
    } else if instruction.mnemonic == mnemonic::PTEST {
        (machine.set_flags(test_flags(machine.regs.rflags, left, right)), Ok(()))
    } else {
        match packed_result(
            instruction.mnemonic,
            left,
            right,
            control_byte(instruction),
            machine.regs.xmm[0],
        ) {
            Some(vector) => (machine.write_xmm(instruction.op0_register, vector), Ok(())),
            None => (machine, Err(machine.unknown(instruction))),
        }
    }
}

pub fn apply(cpu: &mut Cpu, instruction: &Instruction, right: u128) -> (result: Result<(), CpuError>)
    ensures
        (final(cpu)@, result) == apply_spec(old(cpu)@, *instruction, right),
{
    let left = crate::ops::xmm::read_xmm(&cpu.regs, instruction.op0_register);
    if instruction.mnemonic == mnemonic::CVTTPS2DQ {
        return convert_truncated(cpu, instruction, right);
    }
    if instruction.mnemonic == mnemonic::PTEST {
        cpu.regs.rflags = set_test_flags(cpu.regs.rflags, left, right);
        return Ok(());
    }
    match compute_packed(instruction.mnemonic, left, right, control_of(instruction), cpu.regs.xmm[0]) {
        Some(vector) => {
            crate::ops::xmm::write_xmm(&mut cpu.regs, instruction.op0_register, vector);
            Ok(())
        },
        None => Err(unknown(cpu, instruction)),
    }
}

/// The bytes that an extraction of this family moves.
pub open spec fn extract_width(code: u16) -> Option<u8> {
    match code {
        mnemonic::PEXTRB => Some(1),
        mnemonic::PEXTRD | mnemonic::EXTRACTPS => Some(4),
        mnemonic::PEXTRQ => Some(8),
        _ => None,
    }
}

pub fn width_extracted(code: u16) -> (width: Option<u8>)
    ensures
        width == extract_width(code),
{
    match code {
        mnemonic::PEXTRB => Some(1),
        mnemonic::PEXTRD | mnemonic::EXTRACTPS => Some(4),
        mnemonic::PEXTRQ => Some(8),
        _ => None,
    }
}

/// The whole family: the source is read before anything changes.
pub open spec fn execute_spec(machine: Machine, instruction: Instruction) -> (Machine, Result<(), CpuError>) {
    if extract_width(instruction.mnemonic) is Some {
        extract_spec(machine, instruction, extract_width(instruction.mnemonic)->0)
    } else if xmm_index_spec(instruction.op0_register) is None {
        (machine, Err(machine.unknown(instruction)))
    } else if insert_width(instruction.mnemonic) is Some {
        insert_spec(machine, instruction, insert_width(instruction.mnemonic)->0)
    } else {
        match strict_source(machine, instruction, 16) {
            Err(error) => (machine, Err(error)),
            Ok(right) => apply_spec(machine, instruction, right),
        }
    }
}

pub fn execute(cpu: &mut Cpu, instruction: &Instruction) -> (result: Result<(), CpuError>)
    ensures
        (final(cpu)@, result) == execute_spec(old(cpu)@, *instruction),
{
    if let Some(width) = width_extracted(instruction.mnemonic) {
        return extract(cpu, instruction, width);
    }
    if xmm_index(instruction.op0_register).is_none() {
        return Err(unknown(cpu, instruction));
    }
    if let Some(width) = width_inserted(instruction.mnemonic) {
        return insert(cpu, instruction, width);
    }
    let right = read_strict_source(cpu, instruction, 16)?;
    apply(cpu, instruction, right)
}

/// An instruction of this family that fails leaves the processor as it was, but for the
/// exceptions that a refused conversion records in MXCSR, and for an extraction to memory,
/// which fails as that write does.
pub proof fn failures_change_no_register(machine: Machine, instruction: Instruction)
    requires
        execute_spec(machine, instruction).1 is Err,
        extract_width(instruction.mnemonic) is None || instruction.op0_kind != op_kind::MEMORY,
    ensures
        execute_spec(machine, instruction).0 == (Machine {
            mxcsr: execute_spec(machine, instruction).0.mxcsr,
            ..machine
        }),
        instruction.mnemonic != mnemonic::CVTTPS2DQ || strict_source(machine, instruction, 16) is Err ==> execute_spec(
            machine,
            instruction,
        ).0 == machine,
{
}

/// A source that cannot be read leaves the processor as it was.
pub proof fn failed_source_changes_nothing(machine: Machine, instruction: Instruction)
    requires
        extract_width(instruction.mnemonic) is None,
        insert_width(instruction.mnemonic) is None,
        strict_source(machine, instruction, 16) is Err,
    ensures
        execute_spec(machine, instruction).0 == machine,
        execute_spec(machine, instruction).1 is Err,
{
}

} // verus!
