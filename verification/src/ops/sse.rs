//! SSE and SSE2 on 128-bit lanes. Memory operands may be unaligned. A register that is
//! no XMM register reads as zero and takes no result.

use vstd::prelude::*;

use crate::cpu::{Cpu, CpuError, Machine};
use crate::decode::{mnemonic, op_kind, Instruction};
use crate::ops::effect::{done, finished, replace_low, with_low, Effect};
use crate::ops::lanes::{
    apply_lanewise, arrange, arranged, gather_top_bits, lanewise, suits, top_bits, Arrangement, LaneOp,
};
use crate::ops::packed::{
    byte_shifted, multiplied_even, multiply_even, set_lane, shift_bytes, shift_lanes, shifted_lanes, with_lane,
    LaneShift,
};
use crate::ops::sse_convert::{converts, is_conversion};
use crate::ops::sse_int::{extremum_of, find_extremum};
use crate::ops::sse_integer::{control_byte, control_of, extract, extract_spec};
use crate::ops::sse_numeric::{
    arithmetic_of, arithmetic_spec, ask_arithmetic, comis, comis_spec, find_arithmetic, find_pick, pick_of, pick_spec,
    run_pick,
};
use crate::ops::xmm::{
    is_xmm, is_xmm_spec, read_operand_vector, read_vector_source, read_xmm, unknown, write_xmm, xmm_index,
    xmm_index_spec,
};
use crate::ops::{operand_size, operand_size_spec, read_register, reg_read, write_register};

verus! {

/// How a move changes its destination register.
#[derive(Clone, Copy, PartialEq, Eq, Structural, Debug)]
pub enum Move {
    /// The whole register.
    Whole,
    /// Eight bytes between any two registers, with zeros above them in a vector.
    Quad,
    /// Four bytes, likewise.
    Double,
    /// The low eight or four bytes: memory clears the rest, a register keeps it.
    Scalar { double: bool },
    /// The low half; memory only.
    Low,
    /// The high half; memory only.
    High,
}

pub open spec fn move_of(code: u16) -> Option<Move> {
    match code {
        mnemonic::MOVAPS | mnemonic::MOVUPS | mnemonic::MOVAPD | mnemonic::MOVUPD | mnemonic::MOVDQA | mnemonic::MOVDQU
        | mnemonic::MOVNTDQ | mnemonic::MOVNTPS | mnemonic::MOVNTQ => Some(Move::Whole),
        mnemonic::MOVQ => Some(Move::Quad),
        mnemonic::MOVD => Some(Move::Double),
        mnemonic::MOVSS => Some(Move::Scalar { double: false }),
        mnemonic::MOVSD => Some(Move::Scalar { double: true }),
        mnemonic::MOVLPS | mnemonic::MOVLPD => Some(Move::Low),
        mnemonic::MOVHPS | mnemonic::MOVHPD => Some(Move::High),
        _ => None,
    }
}

fn find_move(code: u16) -> (found: Option<Move>)
    ensures
        found == move_of(code),
{
    match code {
        mnemonic::MOVAPS | mnemonic::MOVUPS | mnemonic::MOVAPD | mnemonic::MOVUPD | mnemonic::MOVDQA | mnemonic::MOVDQU
        | mnemonic::MOVNTDQ | mnemonic::MOVNTPS | mnemonic::MOVNTQ => Some(Move::Whole),
        mnemonic::MOVQ => Some(Move::Quad),
        mnemonic::MOVD => Some(Move::Double),
        mnemonic::MOVSS => Some(Move::Scalar { double: false }),
        mnemonic::MOVSD => Some(Move::Scalar { double: true }),
        mnemonic::MOVLPS | mnemonic::MOVLPD => Some(Move::Low),
        mnemonic::MOVHPS | mnemonic::MOVHPD => Some(Move::High),
        _ => None,
    }
}

/// The bytes that a move transfers to or from memory.
pub open spec fn moved_bytes(kind: Move) -> nat {
    match kind {
        Move::Whole => 16,
        Move::Quad | Move::Low | Move::High | Move::Scalar { double: true } => 8,
        Move::Double | Move::Scalar { double: false } => 4,
    }
}

fn bytes_moved(kind: Move) -> (count: usize)
    ensures
        count == moved_bytes(kind),
{
    match kind {
        Move::Whole => 16,
        Move::Quad | Move::Low | Move::High | Move::Scalar { double: true } => 8,
        Move::Double | Move::Scalar { double: false } => 4,
    }
}

/// A destination that held `before`, after a load of `value`.
pub open spec fn loaded(kind: Move, before: u128, value: u128) -> u128 {
    match kind {
        Move::Low => with_low(before, value, true),
        Move::High => (before % 0x1_0000_0000_0000_0000 + (value % 0x1_0000_0000_0000_0000) * 0x1_0000_0000_0000_0000) as u128,
        _ => value,
    }
}

/// A load from memory.
pub open spec fn load_spec(machine: Machine, instruction: Instruction, kind: Move) -> (Machine, Result<(), CpuError>) {
    let target = instruction.op0_register;
    match machine.operand_vector(instruction, moved_bytes(kind)) {
        Err(error) => (machine, Err(error)),
        Ok(value) => (machine.write_xmm(target, loaded(kind, machine.xmm(target), value)), Ok(())),
    }
}

fn load(cpu: &mut Cpu, instruction: &Instruction, kind: Move) -> (result: Result<(), CpuError>)
    ensures
        (final(cpu)@, result) == load_spec(old(cpu)@, *instruction, kind),
{
    let target = instruction.op0_register;
    let value = read_operand_vector(cpu, instruction, bytes_moved(kind))?;
    let before = read_xmm(&cpu.regs, target);
    let after = match kind {
        Move::Low => replace_low(before, value, true),
        Move::High => before % 0x1_0000_0000_0000_0000 + (value % 0x1_0000_0000_0000_0000) * 0x1_0000_0000_0000_0000,
        _ => value,
    };
    write_xmm(&mut cpu.regs, target, after);
    Ok(())
}

/// The bytes that a store takes from its register, lowest first.
pub open spec fn stored(kind: Move, vector: u128) -> u128 {
    if kind == Move::High {
        (vector / 0x1_0000_0000_0000_0000) as u128
    } else {
        vector
    }
}

/// A store to memory.
pub open spec fn store_spec(machine: Machine, instruction: Instruction, kind: Move) -> (Machine, Result<(), CpuError>) {
    machine.write_linear(
        machine.effective_address(instruction),
        moved_bytes(kind),
        stored(kind, machine.xmm(instruction.op1_register)),
    )
}

fn store(cpu: &mut Cpu, instruction: &Instruction, kind: Move) -> (result: Result<(), CpuError>)
    ensures
        (final(cpu)@, result) == store_spec(old(cpu)@, *instruction, kind),
{
    let vector = read_xmm(&cpu.regs, instruction.op1_register);
    let value = if kind == Move::High { vector / 0x1_0000_0000_0000_0000 } else { vector };
    let linear = cpu.effective_address(instruction);
    cpu.write_linear(linear, bytes_moved(kind), value)
}

/// A move between registers.
pub open spec fn transfer_spec(machine: Machine, instruction: Instruction, kind: Move) -> (Machine, Result<(), CpuError>) {
    let target = instruction.op0_register;
    let source = instruction.op1_register;
    let value = machine.xmm(source);
    match kind {
        Move::Whole => (machine.write_xmm(target, value), Ok(())),
        Move::Quad => if is_xmm_spec(target) && !is_xmm_spec(source) {
            (machine.write_xmm(target, reg_read(machine.regs, source, 8) as u128), Ok(()))
        } else if !is_xmm_spec(target) && is_xmm_spec(source) {
            (machine.reg_write(target, 8, (value % 0x1_0000_0000_0000_0000) as u64), Ok(()))
        } else {
            (machine.write_xmm(target, (value % 0x1_0000_0000_0000_0000) as u128), Ok(()))
        },
        Move::Double => if is_xmm_spec(target) {
            (machine.write_xmm(target, reg_read(machine.regs, source, 4) as u128), Ok(()))
        } else {
            (machine.reg_write(target, 4, (value % 0x1_0000_0000) as u64), Ok(()))
        },
        Move::Scalar { double } => (machine.write_xmm(target, with_low(machine.xmm(target), value, double)), Ok(())),
        Move::Low | Move::High => (machine, Err(machine.unknown(instruction))),
    }
}

fn transfer(cpu: &mut Cpu, instruction: &Instruction, kind: Move) -> (result: Result<(), CpuError>)
    ensures
        (final(cpu)@, result) == transfer_spec(old(cpu)@, *instruction, kind),
{
    let target = instruction.op0_register;
    let source = instruction.op1_register;
    let value = read_xmm(&cpu.regs, source);
    match kind {
        Move::Whole => {
            write_xmm(&mut cpu.regs, target, value);
        },
        Move::Quad => {
            if is_xmm(target) && !is_xmm(source) {
                let word = read_register(&cpu.regs, source, 8);
                write_xmm(&mut cpu.regs, target, word as u128);
            } else if !is_xmm(target) && is_xmm(source) {
                write_register(&mut cpu.regs, target, 8, (value % 0x1_0000_0000_0000_0000) as u64);
            } else {
                write_xmm(&mut cpu.regs, target, value % 0x1_0000_0000_0000_0000);
            }
        },
        Move::Double => {
            if is_xmm(target) {
                let word = read_register(&cpu.regs, source, 4);
                write_xmm(&mut cpu.regs, target, word as u128);
            } else {
                write_register(&mut cpu.regs, target, 4, (value % 0x1_0000_0000) as u64);
            }
        },
        Move::Scalar { double } => {
            let before = read_xmm(&cpu.regs, target);
            write_xmm(&mut cpu.regs, target, replace_low(before, value, double));
        },
        Move::Low | Move::High => {
            return Err(unknown(cpu, instruction));
        },
    }
    Ok(())
}

pub open spec fn move_spec(machine: Machine, instruction: Instruction, kind: Move) -> (Machine, Result<(), CpuError>) {
    if instruction.op0_kind == op_kind::REGISTER && instruction.op1_kind == op_kind::REGISTER {
        transfer_spec(machine, instruction, kind)
    } else if instruction.op0_kind == op_kind::REGISTER && instruction.op1_kind == op_kind::MEMORY {
        load_spec(machine, instruction, kind)
    } else if instruction.op0_kind == op_kind::MEMORY && instruction.op1_kind == op_kind::REGISTER {
        store_spec(machine, instruction, kind)
    } else {
        (machine, Err(machine.unknown(instruction)))
    }
}

fn run_move(cpu: &mut Cpu, instruction: &Instruction, kind: Move) -> (result: Result<(), CpuError>)
    ensures
        (final(cpu)@, result) == move_spec(old(cpu)@, *instruction, kind),
{
    if instruction.op0_kind == op_kind::REGISTER && instruction.op1_kind == op_kind::REGISTER {
        transfer(cpu, instruction, kind)
    } else if instruction.op0_kind == op_kind::REGISTER && instruction.op1_kind == op_kind::MEMORY {
        load(cpu, instruction, kind)
    } else if instruction.op0_kind == op_kind::MEMORY && instruction.op1_kind == op_kind::REGISTER {
        store(cpu, instruction, kind)
    } else {
        Err(unknown(cpu, instruction))
    }
}

/// A scalar move between registers keeps everything above the lane; a scalar load clears
/// it.
pub proof fn scalar_moves(machine: Machine, instruction: Instruction, double: bool)
    requires
        machine.regs.xmm.len() == 16,
        is_xmm_spec(instruction.op0_register),
    ensures
        ({
            let span = if double {
                0x1_0000_0000_0000_0000int
            } else {
                0x1_0000_0000
            };
            let target = instruction.op0_register;
            let after = transfer_spec(machine, instruction, Move::Scalar { double }).0;
            &&& after.xmm(target) as int / span == machine.xmm(target) as int / span
            &&& after.xmm(target) as int % span == machine.xmm(instruction.op1_register) as int % span
        }),
        load_spec(machine, instruction, Move::Scalar { double }).1 is Ok ==> load_spec(
            machine,
            instruction,
            Move::Scalar { double },
        ).0.xmm(instruction.op0_register) == machine.operand_vector(
            instruction,
            moved_bytes(Move::Scalar { double }),
        )->Ok_0,
{
}

/// A bitwise operation on whole vectors.
#[derive(Clone, Copy, PartialEq, Eq, Structural, Debug)]
pub enum VectorLogic {
    And,
    AndNot,
    Or,
    Xor,
}

pub open spec fn logic_of(code: u16) -> Option<VectorLogic> {
    match code {
        mnemonic::XORPS | mnemonic::XORPD | mnemonic::PXOR => Some(VectorLogic::Xor),
        mnemonic::ANDPS | mnemonic::ANDPD | mnemonic::PAND => Some(VectorLogic::And),
        mnemonic::ANDNPS | mnemonic::ANDNPD | mnemonic::PANDN => Some(VectorLogic::AndNot),
        mnemonic::ORPS | mnemonic::ORPD | mnemonic::POR => Some(VectorLogic::Or),
        _ => None,
    }
}

fn find_logic(code: u16) -> (found: Option<VectorLogic>)
    ensures
        found == logic_of(code),
{
    match code {
        mnemonic::XORPS | mnemonic::XORPD | mnemonic::PXOR => Some(VectorLogic::Xor),
        mnemonic::ANDPS | mnemonic::ANDPD | mnemonic::PAND => Some(VectorLogic::And),
        mnemonic::ANDNPS | mnemonic::ANDNPD | mnemonic::PANDN => Some(VectorLogic::AndNot),
        mnemonic::ORPS | mnemonic::ORPD | mnemonic::POR => Some(VectorLogic::Or),
        _ => None,
    }
}

pub open spec fn logic_result(op: VectorLogic, left: u128, right: u128) -> u128 {
    match op {
        VectorLogic::And => left & right,
        VectorLogic::AndNot => !left & right,
        VectorLogic::Or => left | right,
        VectorLogic::Xor => left ^ right,
    }
}

/// How the instruction rearranges lanes, and their width.
pub open spec fn arrangement_of(code: u16, control: u8) -> Option<(Arrangement, u8)> {
    match code {
        mnemonic::PSHUFD => Some((Arrangement::Shuffle { control }, 4)),
        mnemonic::PSHUFLW => Some((Arrangement::ShuffleHalf { control, high: false }, 2)),
        mnemonic::PSHUFHW => Some((Arrangement::ShuffleHalf { control, high: true }, 2)),
        mnemonic::SHUFPS => Some((Arrangement::ShuffleBoth { control }, 4)),
        mnemonic::SHUFPD => Some((Arrangement::ShuffleBoth { control }, 8)),
        mnemonic::PUNPCKLBW => Some((Arrangement::Interleave { high: false }, 1)),
        mnemonic::PUNPCKLWD => Some((Arrangement::Interleave { high: false }, 2)),
        mnemonic::PUNPCKLDQ | mnemonic::UNPCKLPS => Some((Arrangement::Interleave { high: false }, 4)),
        mnemonic::PUNPCKLQDQ | mnemonic::UNPCKLPD => Some((Arrangement::Interleave { high: false }, 8)),
        mnemonic::PUNPCKHBW => Some((Arrangement::Interleave { high: true }, 1)),
        mnemonic::PUNPCKHWD => Some((Arrangement::Interleave { high: true }, 2)),
        mnemonic::PUNPCKHDQ | mnemonic::UNPCKHPS => Some((Arrangement::Interleave { high: true }, 4)),
        mnemonic::PUNPCKHQDQ | mnemonic::UNPCKHPD => Some((Arrangement::Interleave { high: true }, 8)),
        mnemonic::MOVDDUP => Some((Arrangement::Duplicate { odd: false }, 8)),
        mnemonic::MOVSLDUP => Some((Arrangement::Duplicate { odd: false }, 4)),
        mnemonic::MOVSHDUP => Some((Arrangement::Duplicate { odd: true }, 4)),
        mnemonic::MOVHLPS => Some((Arrangement::HighToLow, 8)),
        mnemonic::MOVLHPS => Some((Arrangement::LowToHigh, 8)),
        _ => None,
    }
}

fn find_arrangement(code: u16, control: u8) -> (found: Option<(Arrangement, u8)>)
    ensures
        found == arrangement_of(code, control),
        found matches Some((arrangement, width)) ==> suits(arrangement, width),
{
    match code {
        mnemonic::PSHUFD => Some((Arrangement::Shuffle { control }, 4)),
        mnemonic::PSHUFLW => Some((Arrangement::ShuffleHalf { control, high: false }, 2)),
        mnemonic::PSHUFHW => Some((Arrangement::ShuffleHalf { control, high: true }, 2)),
        mnemonic::SHUFPS => Some((Arrangement::ShuffleBoth { control }, 4)),
        mnemonic::SHUFPD => Some((Arrangement::ShuffleBoth { control }, 8)),
        mnemonic::PUNPCKLBW => Some((Arrangement::Interleave { high: false }, 1)),
        mnemonic::PUNPCKLWD => Some((Arrangement::Interleave { high: false }, 2)),
        mnemonic::PUNPCKLDQ | mnemonic::UNPCKLPS => Some((Arrangement::Interleave { high: false }, 4)),
        mnemonic::PUNPCKLQDQ | mnemonic::UNPCKLPD => Some((Arrangement::Interleave { high: false }, 8)),
        mnemonic::PUNPCKHBW => Some((Arrangement::Interleave { high: true }, 1)),
        mnemonic::PUNPCKHWD => Some((Arrangement::Interleave { high: true }, 2)),
        mnemonic::PUNPCKHDQ | mnemonic::UNPCKHPS => Some((Arrangement::Interleave { high: true }, 4)),
        mnemonic::PUNPCKHQDQ | mnemonic::UNPCKHPD => Some((Arrangement::Interleave { high: true }, 8)),
        mnemonic::MOVDDUP => Some((Arrangement::Duplicate { odd: false }, 8)),
        mnemonic::MOVSLDUP => Some((Arrangement::Duplicate { odd: false }, 4)),
        mnemonic::MOVSHDUP => Some((Arrangement::Duplicate { odd: true }, 4)),
        mnemonic::MOVHLPS => Some((Arrangement::HighToLow, 8)),
        mnemonic::MOVLHPS => Some((Arrangement::LowToHigh, 8)),
        _ => None,
    }
}

/// The lane-wise arithmetic of SSE2.
pub open spec fn lane_operation(code: u16) -> Option<(LaneOp, u8)> {
    match code {
        mnemonic::PCMPEQB => Some((LaneOp::Equal, 1)),
        mnemonic::PCMPEQW => Some((LaneOp::Equal, 2)),
        mnemonic::PCMPEQD => Some((LaneOp::Equal, 4)),
        mnemonic::PCMPEQQ => Some((LaneOp::Equal, 8)),
        mnemonic::PADDB => Some((LaneOp::AddWrap, 1)),
        mnemonic::PADDW => Some((LaneOp::AddWrap, 2)),
        mnemonic::PADDD => Some((LaneOp::AddWrap, 4)),
        mnemonic::PADDQ => Some((LaneOp::AddWrap, 8)),
        mnemonic::PSUBB => Some((LaneOp::SubWrap, 1)),
        mnemonic::PSUBW => Some((LaneOp::SubWrap, 2)),
        mnemonic::PSUBD => Some((LaneOp::SubWrap, 4)),
        mnemonic::PSUBQ => Some((LaneOp::SubWrap, 8)),
        mnemonic::PCMPGTB => Some((LaneOp::GreaterSigned, 1)),
        mnemonic::PCMPGTW => Some((LaneOp::GreaterSigned, 2)),
        mnemonic::PCMPGTD => Some((LaneOp::GreaterSigned, 4)),
        mnemonic::PMINUB => Some((LaneOp::MinUnsigned, 1)),
        mnemonic::PMAXUB => Some((LaneOp::MaxUnsigned, 1)),
        mnemonic::PMINSW => Some((LaneOp::MinSigned, 2)),
        mnemonic::PMAXSW => Some((LaneOp::MaxSigned, 2)),
        mnemonic::PADDUSB => Some((LaneOp::AddSaturateUnsigned, 1)),
        mnemonic::PADDUSW => Some((LaneOp::AddSaturateUnsigned, 2)),
        mnemonic::PSUBUSB => Some((LaneOp::SubSaturateUnsigned, 1)),
        mnemonic::PSUBUSW => Some((LaneOp::SubSaturateUnsigned, 2)),
        mnemonic::PADDSB => Some((LaneOp::AddSaturateSigned, 1)),
        mnemonic::PADDSW => Some((LaneOp::AddSaturateSigned, 2)),
        mnemonic::PSUBSB => Some((LaneOp::SubSaturateSigned, 1)),
        mnemonic::PSUBSW => Some((LaneOp::SubSaturateSigned, 2)),
        _ => extremum_of(code),
    }
}

fn find_lane_operation(code: u16) -> (found: Option<(LaneOp, u8)>)
    ensures
        found == lane_operation(code),
        found matches Some((op, width)) ==> op != LaneOp::MultiplyHighSigned,
{
    match code {
        mnemonic::PCMPEQB => Some((LaneOp::Equal, 1)),
        mnemonic::PCMPEQW => Some((LaneOp::Equal, 2)),
        mnemonic::PCMPEQD => Some((LaneOp::Equal, 4)),
        mnemonic::PCMPEQQ => Some((LaneOp::Equal, 8)),
        mnemonic::PADDB => Some((LaneOp::AddWrap, 1)),
        mnemonic::PADDW => Some((LaneOp::AddWrap, 2)),
        mnemonic::PADDD => Some((LaneOp::AddWrap, 4)),
        mnemonic::PADDQ => Some((LaneOp::AddWrap, 8)),
        mnemonic::PSUBB => Some((LaneOp::SubWrap, 1)),
        mnemonic::PSUBW => Some((LaneOp::SubWrap, 2)),
        mnemonic::PSUBD => Some((LaneOp::SubWrap, 4)),
        mnemonic::PSUBQ => Some((LaneOp::SubWrap, 8)),
        mnemonic::PCMPGTB => Some((LaneOp::GreaterSigned, 1)),
        mnemonic::PCMPGTW => Some((LaneOp::GreaterSigned, 2)),
        mnemonic::PCMPGTD => Some((LaneOp::GreaterSigned, 4)),
        mnemonic::PMINUB => Some((LaneOp::MinUnsigned, 1)),
        mnemonic::PMAXUB => Some((LaneOp::MaxUnsigned, 1)),
        mnemonic::PMINSW => Some((LaneOp::MinSigned, 2)),
        mnemonic::PMAXSW => Some((LaneOp::MaxSigned, 2)),
        mnemonic::PADDUSB => Some((LaneOp::AddSaturateUnsigned, 1)),
        mnemonic::PADDUSW => Some((LaneOp::AddSaturateUnsigned, 2)),
        mnemonic::PSUBUSB => Some((LaneOp::SubSaturateUnsigned, 1)),
        mnemonic::PSUBUSW => Some((LaneOp::SubSaturateUnsigned, 2)),
        mnemonic::PADDSB => Some((LaneOp::AddSaturateSigned, 1)),
        mnemonic::PADDSW => Some((LaneOp::AddSaturateSigned, 2)),
        mnemonic::PSUBSB => Some((LaneOp::SubSaturateSigned, 1)),
        mnemonic::PSUBSW => Some((LaneOp::SubSaturateSigned, 2)),
        _ => find_extremum(code),
    }
}

/// The vector that an instruction makes of two vectors and its control byte.
pub open spec fn combined(code: u16, left: u128, right: u128, control: u8) -> Option<u128> {
    if logic_of(code) is Some {
        Some(logic_result(logic_of(code)->0, left, right))
    } else if arrangement_of(code, control) is Some {
        let (arrangement, width) = arrangement_of(code, control)->0;
        Some(arranged(arrangement, left, right, width))
    } else if lane_operation(code) is Some {
        let (op, width) = lane_operation(code)->0;
        Some(lanewise(op, left, right, width))
    } else if code == mnemonic::PMULUDQ {
        Some(multiplied_even(left, right))
    } else {
        None
    }
}

fn combine(code: u16, left: u128, right: u128, control: u8) -> (vector: Option<u128>)
    ensures
        vector == combined(code, left, right, control),
{
    if let Some(op) = find_logic(code) {
        return Some(
            match op {
                VectorLogic::And => left & right,
                VectorLogic::AndNot => !left & right,
                VectorLogic::Or => left | right,
                VectorLogic::Xor => left ^ right,
            },
        );
    }
    if let Some((arrangement, width)) = find_arrangement(code, control) {
        return Some(arrange(arrangement, left, right, width));
    }
    if let Some((op, width)) = find_lane_operation(code) {
        return Some(apply_lanewise(op, left, right, width));
    }
    if code == mnemonic::PMULUDQ {
        return Some(multiply_even(left, right));
    }
    None
}

/// Whether the instruction combines two vectors.
pub open spec fn is_combination(code: u16) -> bool {
    combined(code, 0, 0, 0) is Some
}

/// The moves that read registers alone.
pub open spec fn reads_register(code: u16) -> bool {
    match code {
        mnemonic::MOVDDUP | mnemonic::MOVSLDUP | mnemonic::MOVSHDUP | mnemonic::MOVHLPS | mnemonic::MOVLHPS => true,
        _ => false,
    }
}

fn only_reads_register(code: u16) -> (held: bool)
    ensures
        held == reads_register(code),
{
    match code {
        mnemonic::MOVDDUP | mnemonic::MOVSLDUP | mnemonic::MOVSHDUP | mnemonic::MOVHLPS | mnemonic::MOVLHPS => true,
        _ => false,
    }
}

/// Combines the destination with the second operand.
pub open spec fn combine_spec(machine: Machine, instruction: Instruction) -> (Machine, Result<(), CpuError>) {
    let target = instruction.op0_register;
    let source = if reads_register(instruction.mnemonic) {
        Ok(machine.xmm(instruction.op1_register))
    } else {
        machine.vector_source(instruction)
    };
    match source {
        Err(error) => (machine, Err(error)),
        Ok(right) => match combined(instruction.mnemonic, machine.xmm(target), right, control_byte(instruction)) {
            Some(vector) => (machine.write_xmm(target, vector), Ok(())),
            None => (machine, Err(machine.unknown(instruction))),
        },
    }
}

fn run_combination(cpu: &mut Cpu, instruction: &Instruction) -> (result: Result<(), CpuError>)
    ensures
        (final(cpu)@, result) == combine_spec(old(cpu)@, *instruction),
{
    let target = instruction.op0_register;
    let right = if only_reads_register(instruction.mnemonic) {
        read_xmm(&cpu.regs, instruction.op1_register)
    } else {
        read_vector_source(cpu, instruction)?
    };
    let left = read_xmm(&cpu.regs, target);
    match combine(instruction.mnemonic, left, right, control_of(instruction)) {
        Some(vector) => {
            write_xmm(&mut cpu.regs, target, vector);
            Ok(())
        },
        None => Err(unknown(cpu, instruction)),
    }
}

/// How the instruction shifts lanes, and their width.
pub open spec fn shift_of(code: u16) -> Option<(LaneShift, u8)> {
    match code {
        mnemonic::PSLLW => Some((LaneShift::Left, 2)),
        mnemonic::PSLLD => Some((LaneShift::Left, 4)),
        mnemonic::PSLLQ => Some((LaneShift::Left, 8)),
        mnemonic::PSRLW => Some((LaneShift::Right, 2)),
        mnemonic::PSRLD => Some((LaneShift::Right, 4)),
        mnemonic::PSRLQ => Some((LaneShift::Right, 8)),
        mnemonic::PSRAW => Some((LaneShift::Arithmetic, 2)),
        mnemonic::PSRAD => Some((LaneShift::Arithmetic, 4)),
        _ => None,
    }
}

fn find_shift(code: u16) -> (found: Option<(LaneShift, u8)>)
    ensures
        found == shift_of(code),
{
    match code {
        mnemonic::PSLLW => Some((LaneShift::Left, 2)),
        mnemonic::PSLLD => Some((LaneShift::Left, 4)),
        mnemonic::PSLLQ => Some((LaneShift::Left, 8)),
        mnemonic::PSRLW => Some((LaneShift::Right, 2)),
        mnemonic::PSRLD => Some((LaneShift::Right, 4)),
        mnemonic::PSRLQ => Some((LaneShift::Right, 8)),
        mnemonic::PSRAW => Some((LaneShift::Arithmetic, 2)),
        mnemonic::PSRAD => Some((LaneShift::Arithmetic, 4)),
        _ => None,
    }
}

/// The count of a shift: an immediate, or the low eight bytes of a vector. Shifts of the
/// legacy registers stay closed.
pub open spec fn shift_count_spec(machine: Machine, instruction: Instruction) -> Result<u64, CpuError> {
    if xmm_index_spec(instruction.op0_register) is None {
        Err(machine.unknown(instruction))
    } else if instruction.op1_kind == op_kind::IMMEDIATE8 {
        Ok(instruction.immediate1)
    } else if instruction.op1_kind == op_kind::REGISTER {
        match xmm_index_spec(instruction.op1_register) {
            Some(index) => Ok((machine.regs.xmm[index] % 0x1_0000_0000_0000_0000) as u64),
            None => Err(machine.unknown(instruction)),
        }
    } else if instruction.op1_kind == op_kind::MEMORY {
        match machine.operand_vector(instruction, 16) {
            Err(error) => Err(error),
            Ok(value) => Ok((value % 0x1_0000_0000_0000_0000) as u64),
        }
    } else {
        Err(machine.unknown(instruction))
    }
}

fn shift_count(cpu: &Cpu, instruction: &Instruction) -> (count: Result<u64, CpuError>)
    ensures
        count == shift_count_spec(cpu@, *instruction),
{
    if xmm_index(instruction.op0_register).is_none() {
        Err(unknown(cpu, instruction))
    } else if instruction.op1_kind == op_kind::IMMEDIATE8 {
        Ok(instruction.immediate1)
    } else if instruction.op1_kind == op_kind::REGISTER {
        match xmm_index(instruction.op1_register) {
            Some(index) => Ok((cpu.regs.xmm[index] % 0x1_0000_0000_0000_0000) as u64),
            None => Err(unknown(cpu, instruction)),
        }
    } else if instruction.op1_kind == op_kind::MEMORY {
        let value = read_operand_vector(cpu, instruction, 16)?;
        Ok((value % 0x1_0000_0000_0000_0000) as u64)
    } else {
        Err(unknown(cpu, instruction))
    }
}

/// Shifts lanes, or the whole vector by bytes.
pub open spec fn shift_spec(machine: Machine, instruction: Instruction) -> (Machine, Result<(), CpuError>) {
    let target = instruction.op0_register;
    let value = machine.xmm(target);
    match shift_of(instruction.mnemonic) {
        Some((shift, width)) => match shift_count_spec(machine, instruction) {
            Err(error) => (machine, Err(error)),
            Ok(count) => (machine.write_xmm(target, shifted_lanes(shift, value, count, width)), Ok(())),
        },
        None => (
            machine.write_xmm(
                target,
                byte_shifted(value, instruction.immediate1, instruction.mnemonic == mnemonic::PSLLDQ),
            ),
            Ok(()),
        ),
    }
}

fn run_shift(cpu: &mut Cpu, instruction: &Instruction) -> (result: Result<(), CpuError>)
    ensures
        (final(cpu)@, result) == shift_spec(old(cpu)@, *instruction),
{
    let target = instruction.op0_register;
    let value = read_xmm(&cpu.regs, target);
    match find_shift(instruction.mnemonic) {
        Some((shift, width)) => {
            let count = shift_count(cpu, instruction)?;
            write_xmm(&mut cpu.regs, target, shift_lanes(shift, value, count, width));
        },
        None => {
            let left = instruction.mnemonic == mnemonic::PSLLDQ;
            write_xmm(&mut cpu.regs, target, shift_bytes(value, instruction.immediate1, left));
        },
    }
    Ok(())
}

/// PINSRW: a word from a general register or memory into one of the eight lanes.
pub open spec fn pinsrw_spec(machine: Machine, instruction: Instruction) -> (Machine, Result<(), CpuError>) {
    let target = instruction.op0_register;
    let word = if instruction.op1_kind == op_kind::MEMORY {
        machine.read_linear(machine.effective_address(instruction), 2)
    } else {
        Ok(reg_read(machine.regs, instruction.op1_register, 4))
    };
    match word {
        Err(error) => (machine, Err(error)),
        Ok(value) => (
            machine.write_xmm(
                target,
                with_lane(machine.xmm(target), 2, (control_byte(instruction) % 8) as int, value),
            ),
            Ok(()),
        ),
    }
}

fn pinsrw(cpu: &mut Cpu, instruction: &Instruction) -> (result: Result<(), CpuError>)
    ensures
        (final(cpu)@, result) == pinsrw_spec(old(cpu)@, *instruction),
{
    let target = instruction.op0_register;
    let value = if instruction.op1_kind == op_kind::MEMORY {
        cpu.read_linear(cpu.effective_address(instruction), 2)?
    } else {
        read_register(&cpu.regs, instruction.op1_register, 4)
    };
    let lane = (control_of(instruction) % 8) as usize;
    let vector = set_lane(read_xmm(&cpu.regs, target), 2, lane, value);
    write_xmm(&mut cpu.regs, target, vector);
    Ok(())
}

/// The lane width of PMOVMSKB, MOVMSKPS and MOVMSKPD.
pub open spec fn mask_width(code: u16) -> Option<u8> {
    match code {
        mnemonic::PMOVMSKB => Some(1),
        mnemonic::MOVMSKPS => Some(4),
        mnemonic::MOVMSKPD => Some(8),
        _ => None,
    }
}

fn find_mask_width(code: u16) -> (width: Option<u8>)
    ensures
        width == mask_width(code),
{
    match code {
        mnemonic::PMOVMSKB => Some(1),
        mnemonic::MOVMSKPS => Some(4),
        mnemonic::MOVMSKPD => Some(8),
        _ => None,
    }
}

/// Gathers the top bits of the lanes in a general register.
pub open spec fn gather_spec(machine: Machine, instruction: Instruction, width: u8) -> (Machine, Result<(), CpuError>) {
    (
        machine.reg_write(
            instruction.op0_register,
            operand_size_spec(instruction, 0),
            top_bits(machine.xmm(instruction.op1_register), width),
        ),
        Ok(()),
    )
}

/// MOVNTI: a general register to memory.
pub open spec fn movnti_spec(machine: Machine, instruction: Instruction) -> (Machine, Result<(), CpuError>) {
    let size = operand_size_spec(instruction, 1);
    machine.write_operand(instruction, size, reg_read(machine.regs, instruction.op1_register, size))
}

fn movnti(cpu: &mut Cpu, instruction: &Instruction) -> (result: Result<(), CpuError>)
    ensures
        (final(cpu)@, result) == movnti_spec(old(cpu)@, *instruction),
{
    let size = operand_size(instruction, 1);
    let value = read_register(&cpu.regs, instruction.op1_register, size);
    cpu.write_operand(instruction, size, value)
}

/// The integer side of the dispatcher.
pub open spec fn integer_op(machine: Machine, instruction: Instruction) -> (Machine, Result<(), CpuError>) {
    let code = instruction.mnemonic;
    if move_of(code) is Some {
        move_spec(machine, instruction, move_of(code)->0)
    } else if shift_of(code) is Some || code == mnemonic::PSLLDQ || code == mnemonic::PSRLDQ {
        shift_spec(machine, instruction)
    } else if mask_width(code) is Some {
        gather_spec(machine, instruction, mask_width(code)->0)
    } else if code == mnemonic::PINSRW {
        pinsrw_spec(machine, instruction)
    } else if code == mnemonic::PEXTRW {
        extract_spec(machine, instruction, 2)
    } else if code == mnemonic::MOVNTI {
        movnti_spec(machine, instruction)
    } else if code == mnemonic::EMMS || code == mnemonic::FEMMS {
        (machine, Ok(()))
    } else {
        combine_spec_if_known(machine, instruction)
    }
}

/// Combines vectors; anything else is not known.
pub open spec fn combine_spec_if_known(machine: Machine, instruction: Instruction) -> (Machine, Result<(), CpuError>) {
    if is_combination(instruction.mnemonic) {
        combine_spec(machine, instruction)
    } else {
        (machine, Err(machine.unknown(instruction)))
    }
}

fn run_integer_op(cpu: &mut Cpu, instruction: &Instruction) -> (result: Result<(), CpuError>)
    ensures
        (final(cpu)@, result) == integer_op(old(cpu)@, *instruction),
{
    let code = instruction.mnemonic;
    if let Some(kind) = find_move(code) {
        return run_move(cpu, instruction, kind);
    }
    if find_shift(code).is_some() || code == mnemonic::PSLLDQ || code == mnemonic::PSRLDQ {
        return run_shift(cpu, instruction);
    }
    if let Some(width) = find_mask_width(code) {
        let mask = gather_top_bits(read_xmm(&cpu.regs, instruction.op1_register), width);
        write_register(&mut cpu.regs, instruction.op0_register, operand_size(instruction, 0), mask);
        return Ok(());
    }
    if code == mnemonic::PINSRW {
        return pinsrw(cpu, instruction);
    }
    if code == mnemonic::PEXTRW {
        return extract(cpu, instruction, 2);
    }
    if code == mnemonic::MOVNTI {
        return movnti(cpu, instruction);
    }
    if code == mnemonic::EMMS || code == mnemonic::FEMMS {
        return Ok(());
    }
    if find_logic(code).is_some() || find_arrangement(code, 0).is_some() || find_lane_operation(code).is_some() || code
        == mnemonic::PMULUDQ {
        run_combination(cpu, instruction)
    } else {
        Err(unknown(cpu, instruction))
    }
}

/// The comparisons that set flags, by format.
pub open spec fn comparison_of(code: u16) -> Option<bool> {
    match code {
        mnemonic::UCOMISD | mnemonic::COMISD => Some(true),
        mnemonic::UCOMISS | mnemonic::COMISS => Some(false),
        _ => None,
    }
}

fn find_comparison(code: u16) -> (found: Option<bool>)
    ensures
        found == comparison_of(code),
{
    match code {
        mnemonic::UCOMISD | mnemonic::COMISD => Some(true),
        mnemonic::UCOMISS | mnemonic::COMISS => Some(false),
        _ => None,
    }
}

/// SSE and SSE2 by mnemonic.
pub open spec fn sse_op_spec(machine: Machine, instruction: Instruction) -> (Machine, Result<Effect, CpuError>) {
    let code = instruction.mnemonic;
    let pick = pick_of(code, control_byte(instruction));
    if comparison_of(code) is Some {
        done(comis_spec(machine, instruction, comparison_of(code)->0))
    } else if pick is Some {
        let (picked, double, scalar) = pick->0;
        done(pick_spec(machine, instruction, picked, double, scalar))
    } else if arithmetic_of(code) is Some {
        let (operation, double, scalar) = arithmetic_of(code)->0;
        arithmetic_spec(machine, instruction, operation, double, scalar)
    } else if is_conversion(code) {
        done(crate::ops::sse_convert::execute_spec(machine, instruction))
    } else {
        done(integer_op(machine, instruction))
    }
}

pub fn sse_op(cpu: &mut Cpu, instruction: &Instruction) -> (result: Result<Effect, CpuError>)
    ensures
        (final(cpu)@, result) == sse_op_spec(old(cpu)@, *instruction),
{
    let code = instruction.mnemonic;
    if let Some(double) = find_comparison(code) {
        return finished(comis(cpu, instruction, double));
    }
    if let Some((pick, double, scalar)) = find_pick(code, control_of(instruction)) {
        return finished(run_pick(cpu, instruction, pick, double, scalar));
    }
    if let Some((operation, double, scalar)) = find_arithmetic(code) {
        return ask_arithmetic(cpu, instruction, operation, double, scalar);
    }
    if converts(code) {
        return finished(crate::ops::sse_convert::execute(cpu, instruction));
    }
    finished(run_integer_op(cpu, instruction))
}

} // verus!
