//! Data movement: mov, lea, movzx/movsx, xchg, xadd, cmpxchg, xlat.

use vstd::prelude::*;

use crate::arch::registers::{set_flag, with_flag, ZF};
use crate::cpu::linear::AccessKind;
use crate::cpu::memory::load_word;
use crate::cpu::{Cpu, CpuError, Machine};
use crate::decode::{mnemonic, op_kind, register, Instruction};
use crate::ops::arithmetic::{accumulator, accumulator_spec, sign_extend, sign_extended};
use crate::ops::{
    add_result, add_with_flags, arithmetic_flags, bits_of, memory_size, memory_size_spec, operand_size, operand_size_spec,
    read_operand0, read_operand1, read_register, reg_read, set_arithmetic, sub_result, sub_with_flags, width_bits,
    write_operand0, write_register,
};

verus! {

/// The codes of the moves from the accumulator to an absolute address.
pub const MOV_MOFFS8_AL: u16 = 327;
pub const MOV_MOFFS64_RAX: u16 = 330;

/// The codes of the moves from an absolute address to the accumulator.
pub const MOV_AL_MOFFS8: u16 = 323;
pub const MOV_RAX_MOFFS64: u16 = 326;

/// How many bytes an absolute move of `size` touches.
pub open spec fn move_bytes(size: u8) -> nat {
    match size {
        1 => 1,
        2 => 2,
        4 => 4,
        _ => 8,
    }
}

fn moved_bytes(size: u8) -> (bytes: usize)
    ensures
        bytes == move_bytes(size),
        bytes <= 8,
{
    match size {
        1 => 1,
        2 => 2,
        4 => 4,
        _ => 8,
    }
}

impl Machine {
    /// The accumulator at `size` bytes.
    pub open spec fn read_accumulator(self, size: u8) -> u64 {
        reg_read(self.regs, accumulator_spec(size), size)
    }

    pub open spec fn write_accumulator(self, size: u8, value: u64) -> Machine {
        self.reg_write(accumulator_spec(size), size, value)
    }
}

pub fn read_accumulator(cpu: &Cpu, size: u8) -> (value: u64)
    ensures
        value == cpu@.read_accumulator(size),
{
    read_register(&cpu.regs, accumulator(size), size)
}

pub fn write_accumulator(cpu: &mut Cpu, size: u8, value: u64)
    ensures
        final(cpu)@ == old(cpu)@.write_accumulator(size, value),
{
    write_register(&mut cpu.regs, accumulator(size), size, value);
}

/// Moves the second operand to the first. The absolute forms move the accumulator
/// to or from the displacement, taken as a linear address.
pub open spec fn mov_spec(machine: Machine, instruction: Instruction) -> (Machine, Result<(), CpuError>) {
    let size = memory_size_spec(instruction);
    if MOV_MOFFS8_AL <= instruction.code <= MOV_MOFFS64_RAX {
        match machine.translate(instruction.memory_displacement, AccessKind::Write) {
            Err(error) => (machine, Err(error)),
            Ok(physical) => machine.store_physical(physical, move_bytes(size), machine.read_accumulator(size) as u128),
        }
    } else if MOV_AL_MOFFS8 <= instruction.code <= MOV_RAX_MOFFS64 {
        match machine.translate(instruction.memory_displacement, AccessKind::Read) {
            Err(error) => (machine, Err(error)),
            Ok(physical) => match load_word(machine.memory, physical, move_bytes(size)) {
                Err(error) => (machine, Err(error)),
                Ok(value) => (machine.write_accumulator(size, value), Ok(())),
            },
        }
    } else {
        match machine.read_operand1(instruction) {
            Err(error) => (machine, Err(error)),
            Ok(value) => machine.write_operand0(instruction, value),
        }
    }
}

pub fn mov(cpu: &mut Cpu, instruction: &Instruction) -> (result: Result<(), CpuError>)
    ensures
        (final(cpu)@, result) == mov_spec(old(cpu)@, *instruction),
{
    let code = instruction.code;
    if MOV_MOFFS8_AL <= code && code <= MOV_MOFFS64_RAX {
        let size = memory_size(instruction);
        let value = read_accumulator(cpu, size);
        let physical = cpu.translate(instruction.memory_displacement, AccessKind::Write)?;
        return cpu.store_physical(physical, moved_bytes(size), value as u128);
    }
    if MOV_AL_MOFFS8 <= code && code <= MOV_RAX_MOFFS64 {
        let size = memory_size(instruction);
        let physical = cpu.translate(instruction.memory_displacement, AccessKind::Read)?;
        let value = cpu.memory.load_word(physical, moved_bytes(size))?;
        write_accumulator(cpu, size, value);
        return Ok(());
    }
    let value = read_operand1(cpu, instruction)?;
    write_operand0(cpu, instruction, value)
}

/// Writes the address of the memory operand to the first operand.
pub fn lea(cpu: &mut Cpu, instruction: &Instruction) -> (result: Result<(), CpuError>)
    ensures
        final(cpu)@ == old(cpu)@.reg_write(
            instruction.op0_register,
            operand_size_spec(*instruction, 0),
            old(cpu)@.effective_address(*instruction),
        ),
        result is Ok,
{
    let address = cpu.effective_address(instruction);
    write_register(&mut cpu.regs, instruction.op0_register, operand_size(instruction, 0), address);
    Ok(())
}

/// The bytes of the source of a widening move: one or two as the form says, else
/// four.
pub open spec fn movx_source_size(instruction: Instruction) -> u8 {
    if instruction.mnemonic == mnemonic::MOVZX || instruction.mnemonic == mnemonic::MOVSX {
        match instruction.memory_size {
            op_kind::SIZE_UINT8 | op_kind::SIZE_INT8 => 1,
            op_kind::SIZE_UINT16 | op_kind::SIZE_INT16 => 2,
            _ => 4,
        }
    } else {
        4
    }
}

pub open spec fn movx_spec(machine: Machine, instruction: Instruction) -> (Machine, Result<(), CpuError>) {
    let size = movx_source_size(instruction);
    let source = if instruction.op1_kind == op_kind::MEMORY {
        machine.read_operand(instruction, size)
    } else {
        Ok(reg_read(machine.regs, instruction.op1_register, size))
    };
    match source {
        Err(error) => (machine, Err(error)),
        Ok(value) => {
            let signed = instruction.mnemonic == mnemonic::MOVSX || instruction.mnemonic == mnemonic::MOVSXD;
            let widened = if signed {
                sign_extended(value, width_bits(size))
            } else {
                value
            };
            (machine.reg_write(instruction.op0_register, operand_size_spec(instruction, 0), widened), Ok(()))
        },
    }
}

pub fn movx(cpu: &mut Cpu, instruction: &Instruction) -> (result: Result<(), CpuError>)
    ensures
        (final(cpu)@, result) == movx_spec(old(cpu)@, *instruction),
{
    let size: u8 = if instruction.mnemonic == mnemonic::MOVZX || instruction.mnemonic == mnemonic::MOVSX {
        match instruction.memory_size {
            op_kind::SIZE_UINT8 | op_kind::SIZE_INT8 => 1,
            op_kind::SIZE_UINT16 | op_kind::SIZE_INT16 => 2,
            _ => 4,
        }
    } else {
        4
    };
    let value = if instruction.op1_kind == op_kind::MEMORY {
        cpu.read_operand(instruction, size)?
    } else {
        read_register(&cpu.regs, instruction.op1_register, size)
    };
    let signed = instruction.mnemonic == mnemonic::MOVSX || instruction.mnemonic == mnemonic::MOVSXD;
    let widened = if signed { sign_extend(value, bits_of(size)) } else { value };
    write_register(&mut cpu.regs, instruction.op0_register, operand_size(instruction, 0), widened);
    Ok(())
}

impl Machine {
    /// Writes the second operand: memory at its own size, a register at `size`.
    pub open spec fn write_operand1(self, instruction: Instruction, size: u8, value: u64) -> (Machine, Result<(), CpuError>) {
        if instruction.op1_kind == op_kind::MEMORY {
            self.write_operand(instruction, memory_size_spec(instruction), value)
        } else {
            (self.reg_write(instruction.op1_register, size, value), Ok(()))
        }
    }
}

fn write_operand1(cpu: &mut Cpu, instruction: &Instruction, size: u8, value: u64) -> (result: Result<(), CpuError>)
    ensures
        (final(cpu)@, result) == old(cpu)@.write_operand1(*instruction, size, value),
{
    if instruction.op1_kind == op_kind::MEMORY {
        cpu.write_operand(instruction, memory_size(instruction), value)
    } else {
        write_register(&mut cpu.regs, instruction.op1_register, size, value);
        Ok(())
    }
}

/// Exchanges the operands.
pub open spec fn xchg_spec(machine: Machine, instruction: Instruction) -> (Machine, Result<(), CpuError>) {
    match machine.read_operand0(instruction) {
        Err(error) => (machine, Err(error)),
        Ok(left) => match machine.read_operand1(instruction) {
            Err(error) => (machine, Err(error)),
            Ok(right) => match machine.write_operand0(instruction, right) {
                (written, Err(error)) => (written, Err(error)),
                (written, Ok(done)) => written.write_operand1(instruction, operand_size_spec(instruction, 0), left),
            },
        },
    }
}

pub fn xchg(cpu: &mut Cpu, instruction: &Instruction) -> (result: Result<(), CpuError>)
    ensures
        (final(cpu)@, result) == xchg_spec(old(cpu)@, *instruction),
{
    let size = operand_size(instruction, 0);
    let left = read_operand0(cpu, instruction)?;
    let right = read_operand1(cpu, instruction)?;
    write_operand0(cpu, instruction, right)?;
    write_operand1(cpu, instruction, size, left)
}

/// Adds the operands into the first and leaves the old first in the second.
pub open spec fn xadd_spec(machine: Machine, instruction: Instruction) -> (Machine, Result<(), CpuError>) {
    match machine.read_operand0(instruction) {
        Err(error) => (machine, Err(error)),
        Ok(left) => match machine.read_operand1(instruction) {
            Err(error) => (machine, Err(error)),
            Ok(right) => {
                let bits = width_bits(operand_size_spec(instruction, 0));
                let sum = add_result(left, right, false, bits);
                let flagged = machine.set_flags(arithmetic_flags(machine.regs.rflags, sum, bits));
                match flagged.write_operand0(instruction, sum.result) {
                    (written, Err(error)) => (written, Err(error)),
                    (written, Ok(done)) => written.write_operand1(instruction, operand_size_spec(instruction, 0), left),
                }
            },
        },
    }
}

pub fn xadd(cpu: &mut Cpu, instruction: &Instruction) -> (result: Result<(), CpuError>)
    ensures
        (final(cpu)@, result) == xadd_spec(old(cpu)@, *instruction),
{
    let size = operand_size(instruction, 0);
    let left = read_operand0(cpu, instruction)?;
    let right = read_operand1(cpu, instruction)?;
    let bits = bits_of(size);
    let sum = add_with_flags(left, right, false, bits);
    set_arithmetic(&mut cpu.regs, sum, bits);
    write_operand0(cpu, instruction, sum.result)?;
    write_operand1(cpu, instruction, size, left)
}

/// Compares the accumulator with the first operand; where they are equal the second
/// goes to the first, else the first to the accumulator. Memory of eight or sixteen
/// bytes is compared as a pair.
pub open spec fn exchange_spec(machine: Machine, instruction: Instruction) -> (Machine, Result<(), CpuError>) {
    let size = operand_size_spec(instruction, 0);
    let bits = width_bits(size);
    if instruction.op0_kind == op_kind::MEMORY && (memory_size_spec(instruction) == 8 || memory_size_spec(instruction) == 16) {
        exchange_pair_spec(machine, instruction)
    } else {
        match machine.read_operand0(instruction) {
            Err(error) => (machine, Err(error)),
            Ok(memory) => match machine.read_operand1(instruction) {
                Err(error) => (machine, Err(error)),
                Ok(replacement) => {
                    let held = machine.read_accumulator(size);
                    let flags = arithmetic_flags(machine.regs.rflags, sub_result(held, memory, false, bits), bits);
                    let flagged = machine.set_flags(flags);
                    if held == memory {
                        flagged.write_operand0(instruction, replacement)
                    } else {
                        (flagged.write_accumulator(size, memory), Ok(()))
                    }
                },
            },
        }
    }
}

pub fn cmpxchg(cpu: &mut Cpu, instruction: &Instruction) -> (result: Result<(), CpuError>)
    ensures
        (final(cpu)@, result) == exchange_spec(old(cpu)@, *instruction),
{
    if instruction.op0_kind == op_kind::MEMORY && (memory_size(instruction) == 8 || memory_size(instruction) == 16) {
        return exchange_pair(cpu, instruction);
    }
    let size = operand_size(instruction, 0);
    let held = read_accumulator(cpu, size);
    let memory = read_operand0(cpu, instruction)?;
    let replacement = read_operand1(cpu, instruction)?;
    let bits = bits_of(size);
    let outcome = sub_with_flags(held, memory, false, bits);
    set_arithmetic(&mut cpu.regs, outcome, bits);
    if held == memory {
        write_operand0(cpu, instruction, replacement)
    } else {
        write_accumulator(cpu, size, memory);
        Ok(())
    }
}

/// Compares a pair of four or eight byte halves in memory with the accumulator and
/// the data register.
pub open spec fn exchange_pair_spec(machine: Machine, instruction: Instruction) -> (Machine, Result<(), CpuError>) {
    let half: u8 = if memory_size_spec(instruction) == 16 {
        8
    } else {
        4
    };
    let (a, d, b, c) = if half == 8 {
        (register::RAX, register::RDX, register::RBX, register::RCX)
    } else {
        (register::EAX, register::EDX, register::EBX, register::ECX)
    };
    let linear = machine.effective_address(instruction);
    match machine.translate(linear, AccessKind::Read) {
        Err(error) => (machine, Err(error)),
        Ok(physical) => match load_word(machine.memory, physical, half as nat) {
            Err(error) => (machine, Err(error)),
            Ok(low) => match load_word(machine.memory, (physical + half) as u64, half as nat) {
                Err(error) => (machine, Err(error)),
                Ok(high) => {
                    let equal = low == reg_read(machine.regs, a, half) && high == reg_read(machine.regs, d, half);
                    let flagged = machine.set_flags(with_flag(machine.regs.rflags, ZF, equal));
                    if equal {
                        match flagged.translate(linear, AccessKind::Write) {
                            Err(error) => (flagged, Err(error)),
                            Ok(target) => match flagged.store_physical(
                                target,
                                half as nat,
                                reg_read(machine.regs, b, half) as u128,
                            ) {
                                (written, Err(error)) => (written, Err(error)),
                                (written, Ok(done)) => written.store_physical(
                                    (target + half) as u64,
                                    half as nat,
                                    reg_read(machine.regs, c, half) as u128,
                                ),
                            },
                        }
                    } else {
                        (flagged.write_accumulator(half, low).reg_write(d, half, high), Ok(()))
                    }
                },
            },
        },
    }
}

fn exchange_pair(cpu: &mut Cpu, instruction: &Instruction) -> (result: Result<(), CpuError>)
    ensures
        (final(cpu)@, result) == exchange_pair_spec(old(cpu)@, *instruction),
{
    let half: u8 = if memory_size(instruction) == 16 { 8 } else { 4 };
    let (a, d, b, c): (u8, u8, u8, u8) = if half == 8 {
        (register::RAX, register::RDX, register::RBX, register::RCX)
    } else {
        (register::EAX, register::EDX, register::EBX, register::ECX)
    };
    let linear = cpu.effective_address(instruction);
    let physical = cpu.translate(linear, AccessKind::Read)?;
    let low = cpu.memory.load_word(physical, half as usize)?;
    let length = cpu.memory.bytes.len();
    assert(physical + half <= length);
    let high = cpu.memory.load_word(physical + half as u64, half as usize)?;
    let equal = low == read_register(&cpu.regs, a, half) && high == read_register(&cpu.regs, d, half);
    let new_low = read_register(&cpu.regs, b, half);
    let new_high = read_register(&cpu.regs, c, half);
    cpu.regs.rflags = set_flag(cpu.regs.rflags, ZF, equal);
    if equal {
        let target = cpu.translate(linear, AccessKind::Write)?;
        cpu.store_physical(target, half as usize, new_low as u128)?;
        assert(target + half <= length) by {
            crate::arith::lemma_le_bytes_len(new_low as nat, half as nat);
        }
        cpu.store_physical(target + half as u64, half as usize, new_high as u128)
    } else {
        write_accumulator(cpu, half, low);
        write_register(&mut cpu.regs, d, half, high);
        Ok(())
    }
}

/// Loads AL from the table at RBX, indexed by AL.
pub open spec fn xlatb_spec(machine: Machine) -> (Machine, Result<(), CpuError>) {
    let linear = reg_read(machine.regs, register::RBX, 8).wrapping_add(reg_read(machine.regs, register::AL, 1));
    match machine.translate(linear, AccessKind::Read) {
        Err(error) => (machine, Err(error)),
        Ok(physical) => match load_word(machine.memory, physical, 1) {
            Err(error) => (machine, Err(error)),
            Ok(value) => (machine.reg_write(register::AL, 1, value), Ok(())),
        },
    }
}

pub fn xlatb(cpu: &mut Cpu) -> (result: Result<(), CpuError>)
    ensures
        (final(cpu)@, result) == xlatb_spec(old(cpu)@),
{
    let al = read_register(&cpu.regs, register::AL, 1);
    let base = read_register(&cpu.regs, register::RBX, 8);
    let physical = cpu.translate(base.wrapping_add(al), AccessKind::Read)?;
    let value = cpu.memory.load_word(physical, 1)?;
    write_register(&mut cpu.regs, register::AL, 1, value);
    Ok(())
}

} // verus!
