//! XMM registers and vector operands.

use vstd::prelude::*;

use crate::arch::registers::{RegisterState, Registers};
use crate::cpu::{Cpu, CpuError, Machine};
use crate::decode::{op_kind, register, Instruction};

verus! {

/// Which XMM register a register number names.
pub open spec fn xmm_index_spec(number: u8) -> Option<int> {
    if register::XMM0 <= number <= register::XMM15 {
        Some(number - register::XMM0)
    } else {
        None
    }
}

pub fn xmm_index(number: u8) -> (index: Option<usize>)
    ensures
        match xmm_index_spec(number) {
            Some(expected) => index == Some(expected as usize) && 0 <= expected < 16,
            None => index is None,
        },
{
    if register::XMM0 <= number && number <= register::XMM15 {
        Some((number - register::XMM0) as usize)
    } else {
        None
    }
}

/// Whether a register number names an XMM register.
pub open spec fn is_xmm_spec(number: u8) -> bool {
    xmm_index_spec(number) is Some
}

pub fn is_xmm(number: u8) -> (found: bool)
    ensures
        found == is_xmm_spec(number),
{
    xmm_index(number).is_some()
}

/// The XMM register, or zero for any other register.
pub open spec fn xmm_of(regs: RegisterState, number: u8) -> u128 {
    match xmm_index_spec(number) {
        Some(index) => regs.xmm[index],
        None => 0,
    }
}

/// The registers after a write of the XMM register; nothing for any other register.
pub open spec fn xmm_written(regs: RegisterState, number: u8, value: u128) -> RegisterState {
    match xmm_index_spec(number) {
        Some(index) => regs.set_xmm(index, value),
        None => regs,
    }
}

impl Machine {
    pub open spec fn xmm(self, number: u8) -> u128 {
        xmm_of(self.regs, number)
    }

    pub open spec fn write_xmm(self, number: u8, value: u128) -> Machine {
        self.set_regs(xmm_written(self.regs, number, value))
    }

    /// The low `count` bytes at the memory operand.
    pub open spec fn operand_vector(self, instruction: Instruction, count: nat) -> Result<u128, CpuError> {
        self.linear_load(self.effective_address(instruction), count, self.regs.cpl() == 3)
    }

    /// The second operand of a vector instruction: sixteen bytes of memory, or a
    /// register.
    pub open spec fn vector_source(self, instruction: Instruction) -> Result<u128, CpuError> {
        if instruction.op1_kind == op_kind::MEMORY {
            self.operand_vector(instruction, 16)
        } else {
            Ok(self.xmm(instruction.op1_register))
        }
    }

    /// The low bits of the second operand: eight or four bytes of memory, or the low
    /// eight bytes of a register.
    pub open spec fn scalar_source(self, instruction: Instruction, double: bool) -> Result<u64, CpuError> {
        if instruction.op1_kind == op_kind::MEMORY {
            self.read_linear(
                self.effective_address(instruction),
                if double {
                    8
                } else {
                    4
                },
            )
        } else {
            Ok((self.xmm(instruction.op1_register) % 0x1_0000_0000_0000_0000) as u64)
        }
    }

    /// The instruction is not one that the interpreter knows.
    pub open spec fn unknown(self, instruction: Instruction) -> CpuError {
        CpuError::UnimplementedInstruction { code: instruction.code, address: self.regs.rip }
    }
}

pub fn read_xmm(regs: &Registers, number: u8) -> (value: u128)
    ensures
        value == xmm_of(regs@, number),
{
    match xmm_index(number) {
        Some(index) => regs.xmm[index],
        None => 0,
    }
}

pub fn write_xmm(regs: &mut Registers, number: u8, value: u128)
    ensures
        final(regs)@ == xmm_written(old(regs)@, number, value),
{
    match xmm_index(number) {
        Some(index) => {
            regs.set_xmm(index, value);
        },
        None => {},
    }
}

/// What is written to an XMM register is what is read from it.
pub proof fn xmm_read_after_write(regs: RegisterState, number: u8, value: u128)
    requires
        regs.xmm.len() == 16,
        is_xmm_spec(number),
    ensures
        xmm_of(xmm_written(regs, number, value), number) == value,
{
}

pub fn read_operand_vector(cpu: &Cpu, instruction: &Instruction, count: usize) -> (value: Result<u128, CpuError>)
    requires
        count <= 16,
    ensures
        value == cpu@.operand_vector(*instruction, count as nat),
{
    let user = cpu.regs.cpl() == 3;
    cpu.linear_load(cpu.effective_address(instruction), count, user)
}

pub fn read_vector_source(cpu: &Cpu, instruction: &Instruction) -> (value: Result<u128, CpuError>)
    ensures
        value == cpu@.vector_source(*instruction),
{
    if instruction.op1_kind == op_kind::MEMORY {
        read_operand_vector(cpu, instruction, 16)
    } else {
        Ok(read_xmm(&cpu.regs, instruction.op1_register))
    }
}

pub fn read_scalar_source(cpu: &Cpu, instruction: &Instruction, double: bool) -> (value: Result<u64, CpuError>)
    ensures
        value == cpu@.scalar_source(*instruction, double),
{
    if instruction.op1_kind == op_kind::MEMORY {
        let count: usize = if double { 8 } else { 4 };
        cpu.read_linear(cpu.effective_address(instruction), count)
    } else {
        Ok((read_xmm(&cpu.regs, instruction.op1_register) % 0x1_0000_0000_0000_0000) as u64)
    }
}

pub fn unknown(cpu: &Cpu, instruction: &Instruction) -> (error: CpuError)
    ensures
        error == cpu@.unknown(*instruction),
{
    CpuError::UnimplementedInstruction { code: instruction.code, address: cpu.regs.rip }
}

} // verus!
