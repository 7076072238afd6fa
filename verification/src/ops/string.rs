//! String operations with REP/REPE/REPNE prefixes.

use vstd::prelude::*;

use crate::arch::registers::{contains, holds, CpuMode, Registers, DF, RCX, RDI, RSI, ZF};
use crate::cpu::operands::operand_bytes;
use crate::cpu::{Cpu, CpuError, Machine};
use crate::decode::{mnemonic, Instruction};
use crate::ops::data::{read_accumulator, write_accumulator};
use crate::ops::{arithmetic_flags, bits_of, memory_size, memory_size_spec, set_arithmetic, sub_result, sub_with_flags, width_bits};

verus! {

/// What a string instruction does with each element.
#[derive(Clone, Copy, PartialEq, Eq, Structural, Debug)]
pub enum StringKind {
    Move,
    Store,
    Load,
    Scan,
    Compare,
    Other,
}

pub open spec fn string_kind_spec(mnemonic: u16) -> StringKind {
    match mnemonic {
        mnemonic::MOVSB | mnemonic::MOVSW | mnemonic::MOVSD | mnemonic::MOVSQ => StringKind::Move,
        mnemonic::STOSB | mnemonic::STOSW | mnemonic::STOSD | mnemonic::STOSQ => StringKind::Store,
        mnemonic::LODSB | mnemonic::LODSW | mnemonic::LODSD | mnemonic::LODSQ => StringKind::Load,
        mnemonic::SCASB | mnemonic::SCASW | mnemonic::SCASD | mnemonic::SCASQ => StringKind::Scan,
        mnemonic::CMPSB | mnemonic::CMPSW | mnemonic::CMPSD | mnemonic::CMPSQ => StringKind::Compare,
        _ => StringKind::Other,
    }
}

pub fn string_kind(mnemonic: u16) -> (kind: StringKind)
    ensures
        kind == string_kind_spec(mnemonic),
{
    match mnemonic {
        mnemonic::MOVSB | mnemonic::MOVSW | mnemonic::MOVSD | mnemonic::MOVSQ => StringKind::Move,
        mnemonic::STOSB | mnemonic::STOSW | mnemonic::STOSD | mnemonic::STOSQ => StringKind::Store,
        mnemonic::LODSB | mnemonic::LODSW | mnemonic::LODSD | mnemonic::LODSQ => StringKind::Load,
        mnemonic::SCASB | mnemonic::SCASW | mnemonic::SCASD | mnemonic::SCASQ => StringKind::Scan,
        mnemonic::CMPSB | mnemonic::CMPSW | mnemonic::CMPSD | mnemonic::CMPSQ => StringKind::Compare,
        _ => StringKind::Other,
    }
}

/// `pointer` after one element of `size` bytes: up, or down under the direction flag.
pub open spec fn advanced(flags: u64, pointer: u64, size: u8) -> u64 {
    if holds(flags, DF) {
        pointer.wrapping_sub(size as u64)
    } else {
        pointer.wrapping_add(size as u64)
    }
}

fn advance(flags: u64, pointer: u64, size: u8) -> (moved: u64)
    ensures
        moved == advanced(flags, pointer, size),
{
    if contains(flags, DF) {
        pointer.wrapping_sub(size as u64)
    } else {
        pointer.wrapping_add(size as u64)
    }
}

impl Machine {
    /// Moves the source pointer, the destination pointer or both past an element and,
    /// in a repeated instruction, counts it.
    pub open spec fn advance(self, source: bool, destination: bool, size: u8, repeated: bool) -> Machine {
        let flags = self.regs.rflags;
        let first = if source {
            self.set_gpr(RSI as int, advanced(flags, self.regs.gpr[RSI as int], size))
        } else {
            self
        };
        let second = if destination {
            first.set_gpr(RDI as int, advanced(flags, first.regs.gpr[RDI as int], size))
        } else {
            first
        };
        if repeated {
            second.set_gpr(RCX as int, second.regs.gpr[RCX as int].wrapping_sub(1))
        } else {
            second
        }
    }
}

fn advance_pointers(regs: &mut Registers, source: bool, destination: bool, size: u8, repeated: bool)
    ensures
        forall|machine: Machine|
            machine.regs == old(regs)@ ==> final(regs)@ == #[trigger] machine.advance(source, destination, size, repeated).regs,
{
    let flags = regs.rflags;
    if source {
        let moved = advance(flags, regs.gpr[RSI], size);
        regs.set_gpr(RSI, moved);
    }
    if destination {
        let moved = advance(flags, regs.gpr[RDI], size);
        regs.set_gpr(RDI, moved);
    }
    if repeated {
        let left = regs.gpr[RCX].wrapping_sub(1);
        regs.set_gpr(RCX, left);
    }
}

pub open spec fn is_repeated(instruction: Instruction) -> bool {
    instruction.rep || instruction.repne
}

/// Whether a repeated comparison ends with the flags it has just set.
pub open spec fn comparison_ends(instruction: Instruction, flags: u64) -> bool {
    (instruction.rep && !holds(flags, ZF)) || (instruction.repne && holds(flags, ZF))
}

/// One element of a string instruction; the result tells whether the repetition ends
/// here.
#[verifier::opaque]
pub open spec fn string_element(machine: Machine, instruction: Instruction) -> (Machine, Result<bool, CpuError>) {
    let size = memory_size_spec(instruction);
    let count = operand_bytes(size);
    let repeated = is_repeated(instruction);
    let source = machine.regs.gpr[RSI as int];
    let destination = machine.regs.gpr[RDI as int];
    match string_kind_spec(instruction.mnemonic) {
        StringKind::Move => match machine.read_linear(source, count) {
            Err(error) => (machine, Err(error)),
            Ok(value) => match machine.write_linear(destination, count, value as u128) {
                (written, Err(error)) => (written, Err(error)),
                (written, Ok(done)) => (written.advance(true, true, size, repeated), Ok(false)),
            },
        },
        StringKind::Store => match machine.write_linear(destination, count, machine.read_accumulator(size) as u128) {
            (written, Err(error)) => (written, Err(error)),
            (written, Ok(done)) => (written.advance(false, true, size, repeated), Ok(false)),
        },
        StringKind::Load => match machine.read_linear(source, count) {
            Err(error) => (machine, Err(error)),
            Ok(value) => (machine.write_accumulator(size, value).advance(true, false, size, repeated), Ok(false)),
        },
        StringKind::Scan => match machine.read_linear(destination, count) {
            Err(error) => (machine, Err(error)),
            Ok(value) => compared(machine, instruction, machine.read_accumulator(size), value, false),
        },
        StringKind::Compare => match machine.read_linear(source, count) {
            Err(error) => (machine, Err(error)),
            Ok(left) => match machine.read_linear(destination, count) {
                Err(error) => (machine, Err(error)),
                Ok(right) => compared(machine, instruction, left, right, true),
            },
        },
        StringKind::Other => (machine, Ok(true)),
    }
}

/// The machine after comparing one element.
pub open spec fn compared(machine: Machine, instruction: Instruction, left: u64, right: u64, source: bool) -> (
    Machine,
    Result<bool, CpuError>,
) {
    let size = memory_size_spec(instruction);
    let bits = width_bits(size);
    let flags = arithmetic_flags(machine.regs.rflags, sub_result(left, right, false, bits), bits);
    (
        machine.set_flags(flags).advance(source, true, size, is_repeated(instruction)),
        Ok(comparison_ends(instruction, flags)),
    )
}

fn compare_element(cpu: &mut Cpu, instruction: &Instruction, left: u64, right: u64, source: bool) -> (ends: bool)
    ensures
        (final(cpu)@, Ok::<bool, CpuError>(ends)) == compared(old(cpu)@, *instruction, left, right, source),
{
    let size = memory_size(instruction);
    let bits = bits_of(size);
    let outcome = sub_with_flags(left, right, false, bits);
    set_arithmetic(&mut cpu.regs, outcome, bits);
    let flags = cpu.regs.rflags;
    let ghost before = cpu@;
    advance_pointers(&mut cpu.regs, source, true, size, instruction.rep || instruction.repne);
    assert(cpu@ == before.advance(source, true, size, is_repeated(*instruction)));
    (instruction.rep && !contains(flags, ZF)) || (instruction.repne && contains(flags, ZF))
}

fn element_bytes(size: u8) -> (bytes: usize)
    ensures
        bytes == operand_bytes(size),
        bytes <= 8,
{
    if size > 8 {
        8
    } else {
        size as usize
    }
}

fn element(cpu: &mut Cpu, instruction: &Instruction) -> (result: Result<bool, CpuError>)
    ensures
        (final(cpu)@, result) == string_element(old(cpu)@, *instruction),
{
    proof {
        reveal(string_element);
    }
    let size = memory_size(instruction);
    let count = element_bytes(size);
    let repeated = instruction.rep || instruction.repne;
    let source = cpu.regs.gpr[RSI];
    let destination = cpu.regs.gpr[RDI];
    match string_kind(instruction.mnemonic) {
        StringKind::Move => {
            let value = cpu.read_linear(source, count)?;
            cpu.write_linear(destination, count, value as u128)?;
            let ghost before = cpu@;
            advance_pointers(&mut cpu.regs, true, true, size, repeated);
            assert(cpu@ == before.advance(true, true, size, repeated));
            Ok(false)
        },
        StringKind::Store => {
            let value = read_accumulator(cpu, size);
            cpu.write_linear(destination, count, value as u128)?;
            let ghost before = cpu@;
            advance_pointers(&mut cpu.regs, false, true, size, repeated);
            assert(cpu@ == before.advance(false, true, size, repeated));
            Ok(false)
        },
        StringKind::Load => {
            let value = cpu.read_linear(source, count)?;
            write_accumulator(cpu, size, value);
            let ghost before = cpu@;
            advance_pointers(&mut cpu.regs, true, false, size, repeated);
            assert(cpu@ == before.advance(true, false, size, repeated));
            Ok(false)
        },
        StringKind::Scan => {
            let value = cpu.read_linear(destination, count)?;
            let held = read_accumulator(cpu, size);
            Ok(compare_element(cpu, instruction, held, value, false))
        },
        StringKind::Compare => {
            let left = cpu.read_linear(source, count)?;
            let right = cpu.read_linear(destination, count)?;
            Ok(compare_element(cpu, instruction, left, right, true))
        },
        StringKind::Other => Ok(true),
    }
}

/// At most `count` elements: the repetition ends early where an element faults or a
/// comparison ends it, with the pointers and the counter at that element.
pub open spec fn string_elements(machine: Machine, instruction: Instruction, count: nat) -> (Machine, Result<(), CpuError>)
    decreases count,
{
    if count == 0 {
        (machine, Ok(()))
    } else {
        match string_element(machine, instruction) {
            (after, Err(error)) => (after, Err(error)),
            (after, Ok(ends)) => if ends {
                (after, Ok(()))
            } else {
                string_elements(after, instruction, (count - 1) as nat)
            },
        }
    }
}

/// How many elements an instruction handles: one, or the counter register at the
/// mode's width.
pub open spec fn element_count(machine: Machine, instruction: Instruction) -> u64 {
    if is_repeated(instruction) {
        match machine.regs.mode() {
            CpuMode::Long => machine.regs.gpr[RCX as int],
            CpuMode::Protected32 => machine.regs.gpr[RCX as int] % 0x1_0000_0000,
            _ => machine.regs.gpr[RCX as int] % 0x1_0000,
        }
    } else {
        1
    }
}

/// A string instruction.
pub open spec fn string_op_spec(machine: Machine, instruction: Instruction) -> (Machine, Result<(), CpuError>) {
    string_elements(machine, instruction, element_count(machine, instruction) as nat)
}

pub fn string_op(cpu: &mut Cpu, instruction: &Instruction) -> (result: Result<(), CpuError>)
    ensures
        (final(cpu)@, result) == string_op_spec(old(cpu)@, *instruction),
{
    let mut left: u64 = if instruction.rep || instruction.repne {
        match cpu.regs.mode() {
            CpuMode::Long => cpu.regs.gpr[RCX],
            CpuMode::Protected32 => cpu.regs.gpr[RCX] % 0x1_0000_0000,
            _ => cpu.regs.gpr[RCX] % 0x1_0000,
        }
    } else {
        1
    };
    while left > 0
        invariant
            string_elements(cpu@, *instruction, left as nat) == string_op_spec(old(cpu)@, *instruction),
        decreases left,
    {
        let ends = element(cpu, instruction)?;
        if ends {
            return Ok(());
        }
        left = left - 1;
    }
    Ok(())
}

/// An instruction without a repeat prefix leaves the counter register alone.
pub proof fn single_element_keeps_the_counter(machine: Machine, instruction: Instruction)
    requires
        machine.regs.gpr.len() == 16,
        !is_repeated(instruction),
    ensures
        string_op_spec(machine, instruction).0.regs.gpr[RCX as int] == machine.regs.gpr[RCX as int],
{
    reveal_with_fuel(string_elements, 2);
    lemma_element_keeps_counter(machine, instruction);
}

proof fn lemma_advance_keeps_counter(machine: Machine, source: bool, destination: bool, size: u8)
    requires
        machine.regs.gpr.len() == 16,
    ensures
        machine.advance(source, destination, size, false).regs.gpr[RCX as int] == machine.regs.gpr[RCX as int],
{
}

proof fn lemma_element_keeps_counter(machine: Machine, instruction: Instruction)
    requires
        machine.regs.gpr.len() == 16,
        !is_repeated(instruction),
    ensures
        string_element(machine, instruction).0.regs.gpr[RCX as int] == machine.regs.gpr[RCX as int],
{
    reveal(string_element);
    let size = memory_size_spec(instruction);
    let count = operand_bytes(size);
    let user = machine.regs.cpl() == 3;
    let source = machine.regs.gpr[RSI as int];
    let destination = machine.regs.gpr[RDI as int];
    match string_kind_spec(instruction.mnemonic) {
        StringKind::Move => {
            if let Ok(value) = machine.read_linear(source, count) {
                let bytes = crate::arith::le_bytes(value as nat, count);
                crate::cpu::interrupts::lemma_store_keeps_regs(machine, destination, bytes, user);
                lemma_advance_keeps_counter(machine.write_linear(destination, count, value as u128).0, true, true, size);
            }
        },
        StringKind::Store => {
            let value = machine.read_accumulator(size);
            let bytes = crate::arith::le_bytes(value as nat, count);
            crate::cpu::interrupts::lemma_store_keeps_regs(machine, destination, bytes, user);
            lemma_advance_keeps_counter(machine.write_linear(destination, count, value as u128).0, false, true, size);
        },
        StringKind::Load => {
            if let Ok(value) = machine.read_linear(source, count) {
                lemma_advance_keeps_counter(machine.write_accumulator(size, value), true, false, size);
            }
        },
        StringKind::Scan => {
            if let Ok(value) = machine.read_linear(destination, count) {
                let bits = width_bits(size);
                let outcome = sub_result(machine.read_accumulator(size), value, false, bits);
                let flags = arithmetic_flags(machine.regs.rflags, outcome, bits);
                lemma_advance_keeps_counter(machine.set_flags(flags), false, true, size);
            }
        },
        StringKind::Compare => {
            if let Ok(left) = machine.read_linear(source, count) {
                if let Ok(right) = machine.read_linear(destination, count) {
                    let bits = width_bits(size);
                    let flags = arithmetic_flags(machine.regs.rflags, sub_result(left, right, false, bits), bits);
                    lemma_advance_keeps_counter(machine.set_flags(flags), true, true, size);
                }
            }
        },
        StringKind::Other => {},
    }
}

} // verus!
