//! Packed integer instructions shared by SSE2 and later processors, with registers that
//! are no XMM register read as zero.

use vstd::prelude::*;

use crate::cpu::{Cpu, CpuError, Machine};
use crate::decode::{mnemonic, op_kind, Instruction};
use crate::ops::lanes::{apply_lanewise, lanes, lanewise, split, total_of, LaneOp};
use crate::ops::packed::{insert_single, widen, widened, with_single};
use crate::ops::sse3::{plain_source, read_plain_source};
use crate::ops::sse_integer::{
    apply, apply_spec, control_byte, control_of, extract_width, insert, insert_spec, insert_width, named_lane,
    width_extracted, width_inserted,
};
use crate::ops::sse_widen::{bytes_needed, find_widening, source_bytes, widening_of};
use crate::ops::xmm::{read_operand_vector, read_xmm, unknown, write_xmm};
use crate::ops::{operand_size, operand_size_spec, write_register};

verus! {

/// The minima and maxima that SSE4.1 adds.
pub open spec fn extremum_of(code: u16) -> Option<(LaneOp, u8)> {
    match code {
        mnemonic::PMINSB => Some((LaneOp::MinSigned, 1)),
        mnemonic::PMINSD => Some((LaneOp::MinSigned, 4)),
        mnemonic::PMINUW => Some((LaneOp::MinUnsigned, 2)),
        mnemonic::PMINUD => Some((LaneOp::MinUnsigned, 4)),
        mnemonic::PMAXSB => Some((LaneOp::MaxSigned, 1)),
        mnemonic::PMAXSD => Some((LaneOp::MaxSigned, 4)),
        mnemonic::PMAXUW => Some((LaneOp::MaxUnsigned, 2)),
        mnemonic::PMAXUD => Some((LaneOp::MaxUnsigned, 4)),
        _ => None,
    }
}

pub fn find_extremum(code: u16) -> (found: Option<(LaneOp, u8)>)
    ensures
        found == extremum_of(code),
{
    match code {
        mnemonic::PMINSB => Some((LaneOp::MinSigned, 1)),
        mnemonic::PMINSD => Some((LaneOp::MinSigned, 4)),
        mnemonic::PMINUW => Some((LaneOp::MinUnsigned, 2)),
        mnemonic::PMINUD => Some((LaneOp::MinUnsigned, 4)),
        mnemonic::PMAXSB => Some((LaneOp::MaxSigned, 1)),
        mnemonic::PMAXSD => Some((LaneOp::MaxSigned, 4)),
        mnemonic::PMAXUW => Some((LaneOp::MaxUnsigned, 2)),
        mnemonic::PMAXUD => Some((LaneOp::MaxUnsigned, 4)),
        _ => None,
    }
}

/// The rest of the family.
pub open spec fn is_rearrangement(code: u16) -> bool {
    match code {
        mnemonic::PACKUSWB | mnemonic::PALIGNR | mnemonic::PSHUFB | mnemonic::PTEST => true,
        _ => false,
    }
}

fn rearranges(code: u16) -> (held: bool)
    ensures
        held == is_rearrangement(code),
{
    match code {
        mnemonic::PACKUSWB | mnemonic::PALIGNR | mnemonic::PSHUFB | mnemonic::PTEST => true,
        _ => false,
    }
}

/// Takes one lane to a general register or to memory.
pub open spec fn extract_spec(machine: Machine, instruction: Instruction, width: u8) -> (Machine, Result<(), CpuError>) {
    let value = lanes(machine.xmm(instruction.op1_register), width)[named_lane(instruction, width)];
    if instruction.op1_kind != op_kind::REGISTER {
        (machine, Err(machine.unknown(instruction)))
    } else if instruction.op0_kind == op_kind::REGISTER {
        (machine.reg_write(instruction.op0_register, operand_size_spec(instruction, 0), value), Ok(()))
    } else if instruction.op0_kind == op_kind::MEMORY {
        machine.write_operand(instruction, width, value)
    } else {
        (machine, Err(machine.unknown(instruction)))
    }
}

fn extract_lane(cpu: &mut Cpu, instruction: &Instruction, width: u8) -> (result: Result<(), CpuError>)
    requires
        width == 1 || width == 4 || width == 8,
    ensures
        (final(cpu)@, result) == extract_spec(old(cpu)@, *instruction, width),
{
    if instruction.op1_kind != op_kind::REGISTER {
        return Err(unknown(cpu, instruction));
    }
    let parts = split(read_xmm(&cpu.regs, instruction.op1_register), width);
    let value = parts[control_of(instruction) as usize % total_of(width)];
    if instruction.op0_kind == op_kind::REGISTER {
        write_register(&mut cpu.regs, instruction.op0_register, operand_size(instruction, 0), value);
        Ok(())
    } else if instruction.op0_kind == op_kind::MEMORY {
        cpu.write_operand(instruction, width, value)
    } else {
        Err(unknown(cpu, instruction))
    }
}

/// The single that INSERTPS moves: a lane of a register, or four bytes of memory.
pub open spec fn moved_single(machine: Machine, instruction: Instruction) -> Result<u64, CpuError> {
    if instruction.op1_kind == op_kind::REGISTER {
        Ok(lanes(machine.xmm(instruction.op1_register), 4)[(control_byte(instruction) / 64) as int])
    } else if instruction.op1_kind == op_kind::MEMORY {
        match machine.operand_vector(instruction, 4) {
            Err(error) => Err(error),
            Ok(value) => Ok((value % 0x1_0000_0000) as u64),
        }
    } else {
        Err(machine.unknown(instruction))
    }
}

fn read_single(cpu: &Cpu, instruction: &Instruction) -> (value: Result<u64, CpuError>)
    ensures
        value == moved_single(cpu@, *instruction),
        value matches Ok(single) ==> single < 0x1_0000_0000,
{
    if instruction.op1_kind == op_kind::REGISTER {
        let parts = split(read_xmm(&cpu.regs, instruction.op1_register), 4);
        let lane = (control_of(instruction) / 64) as usize;
        assert(parts@[lane as int] < 0x1_0000_0000);
        Ok(parts[lane])
    } else if instruction.op1_kind == op_kind::MEMORY {
        let value = read_operand_vector(cpu, instruction, 4)?;
        Ok((value % 0x1_0000_0000) as u64)
    } else {
        Err(unknown(cpu, instruction))
    }
}

/// The forms with a vector in a register as destination.
pub open spec fn vector_op(machine: Machine, instruction: Instruction) -> (Machine, Result<(), CpuError>) {
    let code = instruction.mnemonic;
    let target = instruction.op0_register;
    if insert_width(code) is Some {
        insert_spec(machine, instruction, insert_width(code)->0)
    } else if code == mnemonic::INSERTPS {
        match moved_single(machine, instruction) {
            Err(error) => (machine, Err(error)),
            Ok(single) => (
                machine.write_xmm(target, with_single(machine.xmm(target), single, control_byte(instruction))),
                Ok(()),
            ),
        }
    } else if widening_of(code) is Some {
        let (from, to, sign) = widening_of(code)->0;
        match plain_source(machine, instruction, source_bytes(from, to)) {
            Err(error) => (machine, Err(error)),
            Ok(source) => (machine.write_xmm(target, widened(source, from, to, sign)), Ok(())),
        }
    } else if extremum_of(code) is Some {
        let (op, width) = extremum_of(code)->0;
        match plain_source(machine, instruction, 16) {
            Err(error) => (machine, Err(error)),
            Ok(right) => (machine.write_xmm(target, lanewise(op, machine.xmm(target), right, width)), Ok(())),
        }
    } else if is_rearrangement(code) {
        match plain_source(machine, instruction, 16) {
            Err(error) => (machine, Err(error)),
            Ok(right) => apply_spec(machine, instruction, right),
        }
    } else {
        (machine, Err(machine.unknown(instruction)))
    }
}

fn run_vector_op(cpu: &mut Cpu, instruction: &Instruction) -> (result: Result<(), CpuError>)
    ensures
        (final(cpu)@, result) == vector_op(old(cpu)@, *instruction),
{
    let code = instruction.mnemonic;
    let target = instruction.op0_register;
    if let Some(width) = width_inserted(code) {
        return insert(cpu, instruction, width);
    }
    if code == mnemonic::INSERTPS {
        let single = read_single(cpu, instruction)?;
        let vector = insert_single(read_xmm(&cpu.regs, target), single, control_of(instruction));
        write_xmm(&mut cpu.regs, target, vector);
        return Ok(());
    }
    if let Some((from, to, sign)) = find_widening(code) {
        let count = bytes_needed(from, to);
        let source = read_plain_source(cpu, instruction, count)?;
        write_xmm(&mut cpu.regs, target, widen(source, from, to, sign));
        return Ok(());
    }
    if let Some((op, width)) = find_extremum(code) {
        let right = read_plain_source(cpu, instruction, 16)?;
        let vector = apply_lanewise(op, read_xmm(&cpu.regs, target), right, width);
        write_xmm(&mut cpu.regs, target, vector);
        return Ok(());
    }
    if rearranges(code) {
        let right = read_plain_source(cpu, instruction, 16)?;
        return apply(cpu, instruction, right);
    }
    Err(unknown(cpu, instruction))
}

pub open spec fn packed_integer_op_spec(machine: Machine, instruction: Instruction) -> (Machine, Result<(), CpuError>) {
    if extract_width(instruction.mnemonic) is Some {
        extract_spec(machine, instruction, extract_width(instruction.mnemonic)->0)
    } else if instruction.op0_kind != op_kind::REGISTER {
        (machine, Err(machine.unknown(instruction)))
    } else {
        vector_op(machine, instruction)
    }
}

pub fn packed_integer_op(cpu: &mut Cpu, instruction: &Instruction) -> (result: Result<(), CpuError>)
    ensures
        (final(cpu)@, result) == packed_integer_op_spec(old(cpu)@, *instruction),
{
    if let Some(width) = width_extracted(instruction.mnemonic) {
        return extract_lane(cpu, instruction, width);
    }
    if instruction.op0_kind != op_kind::REGISTER {
        return Err(unknown(cpu, instruction));
    }
    run_vector_op(cpu, instruction)
}

} // verus!
