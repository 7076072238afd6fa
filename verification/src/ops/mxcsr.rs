//! Legacy SSE MXCSR transfers.

use vstd::prelude::*;

use crate::arch::registers::{contains, holds, CpuMode, CR0_EM, CR0_TS, CR4_OSFXSR};
use crate::cpu::interrupts::{
    VECTOR_ALIGNMENT_CHECK, VECTOR_DEVICE_NOT_AVAILABLE, VECTOR_GENERAL_PROTECTION, VECTOR_INVALID_OPCODE, VECTOR_STACK,
};
use crate::cpu::linear::AccessKind;
use crate::cpu::{Cpu, CpuError, Machine};
use crate::decode::{mnemonic, op_kind, register, Instruction};
use crate::ops::lsl::{
    alignment_checked, canonical, checks_alignment, is_canonical, linear_width, width_of_linear,
};

verus! {

/// How many values MXCSR can take: its upper half is reserved.
pub const MXCSR_SPAN: u32 = 0x1_0000;

/// Whether the four bytes at `linear` are addressable in the current mode.
pub open spec fn addressable(machine: Machine, linear: u64) -> bool {
    let width = linear_width(machine.regs.cr4);
    machine.regs.mode() == CpuMode::Long ==> is_canonical(linear, width) && is_canonical(linear.wrapping_add(3), width)
}

/// Both pages of the four bytes at `linear`, translated before anything moves.
pub open spec fn pages_reachable(machine: Machine, linear: u64, kind: AccessKind) -> Result<(), CpuError> {
    match machine.translate(linear, kind) {
        Err(error) => Err(error),
        Ok(first) => if linear % 0x1000 > 0xFFC {
            let last = linear.wrapping_add(3);
            match machine.translate((last - last % 0x1000) as u64, kind) {
                Err(error) => Err(error),
                Ok(second) => Ok(()),
            }
        } else {
            Ok(())
        },
    }
}

fn check_pages(cpu: &Cpu, linear: u64, kind: AccessKind) -> (result: Result<(), CpuError>)
    ensures
        result == pages_reachable(cpu@, linear, kind),
{
    let _first = cpu.translate(linear, kind)?;
    if linear % 0x1000 > 0xFFC {
        let last = linear.wrapping_add(3);
        let _second = cpu.translate(last - last % 0x1000, kind)?;
    }
    Ok(())
}

/// The transfer itself: a load refuses a value with a reserved bit, a store writes
/// the register without them.
pub open spec fn transfer(machine: Machine, instruction: Instruction, load: bool) -> (Machine, Result<(), CpuError>) {
    if load {
        match machine.read_operand(instruction, 4) {
            Err(error) => (machine, Err(error)),
            Ok(value) => if value as u32 >= MXCSR_SPAN {
                machine.raise(VECTOR_GENERAL_PROTECTION, Some(0))
            } else {
                (Machine { mxcsr: value as u32, ..machine }, Ok(()))
            },
        }
    } else {
        machine.write_operand(instruction, 4, (machine.mxcsr % MXCSR_SPAN) as u64)
    }
}

/// LDMXCSR and STMXCSR: the control gates come before the operand, the whole operand
/// before the transfer.
pub open spec fn execute_spec(machine: Machine, instruction: Instruction) -> (Machine, Result<(), CpuError>) {
    let load = instruction.mnemonic == mnemonic::LDMXCSR;
    let known = load || instruction.mnemonic == mnemonic::STMXCSR;
    let linear = machine.effective_address(instruction);
    let kind = if load {
        AccessKind::Read
    } else {
        AccessKind::Write
    };
    if instruction.op0_kind != op_kind::MEMORY || instruction.lock || holds(machine.regs.cr0, CR0_EM) || !holds(
        machine.regs.cr4,
        CR4_OSFXSR,
    ) {
        machine.raise(VECTOR_INVALID_OPCODE, None)
    } else if holds(machine.regs.cr0, CR0_TS) {
        machine.raise(VECTOR_DEVICE_NOT_AVAILABLE, None)
    } else if !addressable(machine, linear) {
        machine.raise(
            if instruction.memory_segment == register::SS {
                VECTOR_STACK
            } else {
                VECTOR_GENERAL_PROTECTION
            },
            Some(0),
        )
    } else if !known {
        (machine, Err(CpuError::UnimplementedInstruction { code: instruction.code, address: machine.regs.rip }))
    } else {
        match pages_reachable(machine, linear, kind) {
            Err(error) => (machine, Err(error)),
            Ok(done) => if linear % 4 != 0 && alignment_checked(machine) {
                machine.raise(VECTOR_ALIGNMENT_CHECK, Some(0))
            } else {
                transfer(machine, instruction, load)
            },
        }
    }
}

pub fn execute(cpu: &mut Cpu, instruction: &Instruction) -> (result: Result<(), CpuError>)
    ensures
        (final(cpu)@, result) == execute_spec(old(cpu)@, *instruction),
{
    if instruction.op0_kind != op_kind::MEMORY || instruction.lock || contains(cpu.regs.cr0, CR0_EM) || !contains(
        cpu.regs.cr4,
        CR4_OSFXSR,
    ) {
        return cpu.raise(VECTOR_INVALID_OPCODE, None);
    }
    if contains(cpu.regs.cr0, CR0_TS) {
        return cpu.raise(VECTOR_DEVICE_NOT_AVAILABLE, None);
    }
    let linear = cpu.effective_address(instruction);
    if cpu.regs.mode() == CpuMode::Long {
        let width = width_of_linear(cpu.regs.cr4);
        if !canonical(linear, width) || !canonical(linear.wrapping_add(3), width) {
            let vector = if instruction.memory_segment == register::SS {
                VECTOR_STACK
            } else {
                VECTOR_GENERAL_PROTECTION
            };
            return cpu.raise(vector, Some(0));
        }
    }
    let load = instruction.mnemonic == mnemonic::LDMXCSR;
    if !load && instruction.mnemonic != mnemonic::STMXCSR {
        return Err(CpuError::UnimplementedInstruction { code: instruction.code, address: cpu.regs.rip });
    }
    let kind = if load { AccessKind::Read } else { AccessKind::Write };
    check_pages(cpu, linear, kind)?;
    if linear % 4 != 0 && checks_alignment(cpu) {
        return cpu.raise(VECTOR_ALIGNMENT_CHECK, Some(0));
    }
    if load {
        let value = cpu.read_operand(instruction, 4)?;
        if value as u32 >= MXCSR_SPAN {
            return cpu.raise(VECTOR_GENERAL_PROTECTION, Some(0));
        }
        cpu.mxcsr = value as u32;
        Ok(())
    } else {
        let value = cpu.mxcsr % MXCSR_SPAN;
        cpu.write_operand(instruction, 4, value as u64)
    }
}

/// A store leaves the register itself as it was.
pub proof fn store_keeps_mxcsr(machine: Machine, instruction: Instruction)
    ensures
        transfer(machine, instruction, false).0.mxcsr == machine.mxcsr,
{
    let bytes = crate::arith::le_bytes((machine.mxcsr % MXCSR_SPAN) as nat, 4);
    crate::cpu::interrupts::lemma_store_keeps_regs(
        machine,
        machine.effective_address(instruction),
        bytes,
        machine.regs.cpl() == 3,
    );
}

} // verus!
