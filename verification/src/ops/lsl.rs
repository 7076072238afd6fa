//! LSL descriptor inspection.

use vstd::prelude::*;

use crate::arch::registers::{
    contains, holds, set_flag, with_flag, CpuMode, AC, CR0_AM, CR4_LA57, EFER_LMA, VM, ZF,
};
use crate::arch::segments::{Descriptor, SegmentSelector};
use crate::cpu::interrupts::{
    VECTOR_ALIGNMENT_CHECK, VECTOR_GENERAL_PROTECTION, VECTOR_INVALID_OPCODE, VECTOR_STACK,
};
use crate::cpu::linear::AccessKind;
use crate::cpu::{Cpu, CpuError, Machine};
use crate::decode::{op_kind, register, Instruction};
use crate::ops::arithmetic::{sign_extend, sign_extended};
use crate::ops::{operand_size, operand_size_spec, read_register, reg_read, write_register};

verus! {

/// Whether the bits of `address` from the top one of `width` bits on are all equal.
pub open spec fn is_canonical(address: u64, width: u32) -> bool {
    sign_extended(address, width) == address
}

pub fn canonical(address: u64, width: u32) -> (held: bool)
    requires
        1 <= width <= 64,
    ensures
        held == is_canonical(address, width),
{
    sign_extend(address, width) == address
}

/// The number of bits of a linear address under CR4.
pub open spec fn linear_width(cr4: u64) -> u32 {
    if holds(cr4, CR4_LA57) {
        57
    } else {
        48
    }
}

pub fn width_of_linear(cr4: u64) -> (width: u32)
    ensures
        width == linear_width(cr4),
{
    if contains(cr4, CR4_LA57) {
        57
    } else {
        48
    }
}

/// Whether an unaligned access at the user level is refused.
pub open spec fn alignment_checked(machine: Machine) -> bool {
    machine.regs.cpl() == 3 && holds(machine.regs.cr0, CR0_AM) && holds(machine.regs.rflags, AC)
}

pub fn checks_alignment(cpu: &Cpu) -> (held: bool)
    ensures
        held == alignment_checked(cpu@),
{
    cpu.regs.cpl() == 3 && contains(cpu.regs.cr0, CR0_AM) && contains(cpu.regs.rflags, AC)
}

/// The base and the limit of the table that `selector` names; none for the local
/// table while no local table is loaded.
pub open spec fn table_of(machine: Machine, selector: SegmentSelector) -> Option<(u64, u64)> {
    if selector.table_spec() == 0 {
        Some((machine.regs.gdt_base, machine.regs.gdt_limit as u64))
    } else {
        let ldt = machine.regs.ldtr;
        if ldt.selector.is_null_spec() || !ldt.present {
            None
        } else {
            Some((ldt.base, ldt.effective_limit_spec()))
        }
    }
}

/// Whether LSL accepts a system descriptor of this type.
pub open spec fn system_type_accepted(kind: u8, ia32e: bool) -> bool {
    kind == 2 || kind == 9 || kind == 11 || (!ia32e && (kind == 1 || kind == 3))
}

/// Whether the privilege levels let the selector see the descriptor: always for
/// conforming code.
pub open spec fn visible(machine: Machine, selector: SegmentSelector, descriptor: Descriptor) -> bool {
    let conforming_code = !descriptor.system && descriptor.code && descriptor.conforming;
    conforming_code || (machine.regs.cpl() <= descriptor.dpl && selector.rpl_spec() <= descriptor.dpl)
}

/// The limit of the segment that `selector` names, or none where LSL refuses it. A
/// descriptor that cannot be read is an error.
#[verifier::opaque]
pub open spec fn descriptor_limit_spec(machine: Machine, selector: SegmentSelector) -> Result<Option<u64>, CpuError> {
    let offset = (selector.index_spec() * 8) as u64;
    let ia32e = holds(machine.regs.efer, EFER_LMA);
    match table_of(machine, selector) {
        None => Ok(None),
        Some((base, limit)) => if selector.is_null_spec() || offset + 7 > limit {
            Ok(None)
        } else {
            let address = base.wrapping_add(offset);
            match machine.linear_load(address, 8, false) {
                Err(error) => Err(error),
                Ok(raw) => {
                    let descriptor = Descriptor::decode_spec(raw as u64);
                    let allowed = if visible(machine, selector, descriptor) {
                        Some(descriptor.load_spec(selector).effective_limit_spec())
                    } else {
                        None
                    };
                    if !descriptor.system {
                        Ok(allowed)
                    } else if !system_type_accepted(descriptor.descriptor_type, ia32e) {
                        Ok(None)
                    } else if !ia32e {
                        Ok(allowed)
                    } else if offset + 15 > limit {
                        Ok(None)
                    } else {
                        match machine.linear_load(address.wrapping_add(8), 8, false) {
                            Err(error) => Err(error),
                            Ok(upper) => if (upper as u64 / 0x100_0000_0000) % 32 != 0 {
                                Ok(None)
                            } else {
                                Ok(allowed)
                            },
                        }
                    }
                },
            }
        },
    }
}

/// The limit that LSL finds. Descriptor reads are supervisor accesses at every
/// privilege level, and change nothing.
pub fn descriptor_limit(cpu: &Cpu, selector: SegmentSelector) -> (limit: Result<Option<u64>, CpuError>)
    ensures
        limit == descriptor_limit_spec(cpu@, selector),
{
    proof {
        reveal(descriptor_limit_spec);
    }
    let ia32e = contains(cpu.regs.efer, EFER_LMA);
    let (base, limit): (u64, u64) = if selector.table() == 0 {
        (cpu.regs.gdt_base, cpu.regs.gdt_limit as u64)
    } else {
        let ldt = cpu.regs.ldtr;
        if ldt.selector.is_null() || !ldt.present {
            return Ok(None);
        }
        (ldt.base, ldt.effective_limit())
    };
    if selector.is_null() {
        return Ok(None);
    }
    let offset = selector.index() as u64 * 8;
    if offset + 7 > limit {
        return Ok(None);
    }
    let address = base.wrapping_add(offset);
    let raw = cpu.linear_load(address, 8, false)?;
    let descriptor = Descriptor::decode(raw as u64);
    let kind = descriptor.descriptor_type;
    if descriptor.system {
        let valid = kind == 2 || kind == 9 || kind == 11 || (!ia32e && (kind == 1 || kind == 3));
        if !valid {
            return Ok(None);
        }
        if ia32e {
            if offset + 15 > limit {
                return Ok(None);
            }
            let upper = cpu.linear_load(address.wrapping_add(8), 8, false)?;
            if (upper as u64 / 0x100_0000_0000) % 32 != 0 {
                return Ok(None);
            }
        }
    }
    let conforming_code = !descriptor.system && descriptor.code && descriptor.conforming;
    if !conforming_code && (cpu.regs.cpl() > descriptor.dpl || selector.rpl() > descriptor.dpl) {
        return Ok(None);
    }
    Ok(Some(descriptor.load(selector).effective_limit()))
}

/// A null selector has no limit, whatever the tables hold.
pub proof fn null_selector_has_no_limit(machine: Machine, selector: SegmentSelector)
    requires
        selector.is_null_spec(),
    ensures
        descriptor_limit_spec(machine, selector) == Ok::<Option<u64>, CpuError>(None),
{
    reveal(descriptor_limit_spec);
}

/// The linear address of a two byte memory source, or none where the source leaves
/// the canonical addresses or its segment's limit. Outside long mode the segment is
/// the one that the operand implies, so the stack segment for a BP base.
pub open spec fn selector_address(machine: Machine, instruction: Instruction) -> Option<u64> {
    let shared = machine.effective_address(instruction);
    let segment = machine.regs.segment(instruction.memory_segment);
    if machine.regs.mode() == CpuMode::Long {
        let width = linear_width(machine.regs.cr4);
        if is_canonical(shared, width) && is_canonical(shared.wrapping_add(1), width) {
            Some(shared)
        } else {
            None
        }
    } else {
        let offset = shared.wrapping_sub(machine.regs.data_base(instruction.segment_prefix));
        let end = offset + 1;
        let in_limit = if !segment.code && segment.expand_down {
            offset > segment.effective_limit_spec() && end <= (if segment.default_32 {
                0xFFFF_FFFF
            } else {
                0xFFFFint
            })
        } else {
            end <= segment.effective_limit_spec()
        };
        if segment.selector.is_null_spec() || !in_limit {
            None
        } else {
            Some(segment.base.wrapping_add(offset))
        }
    }
}

fn address_of_selector(cpu: &Cpu, instruction: &Instruction) -> (address: Option<u64>)
    ensures
        address == selector_address(cpu@, *instruction),
{
    let shared = cpu.effective_address(instruction);
    let segment = cpu.regs.segment(instruction.memory_segment);
    if cpu.regs.mode() == CpuMode::Long {
        let width = width_of_linear(cpu.regs.cr4);
        if canonical(shared, width) && canonical(shared.wrapping_add(1), width) {
            Some(shared)
        } else {
            None
        }
    } else {
        let offset = shared.wrapping_sub(cpu.regs.data_base(instruction.segment_prefix));
        let in_limit = if !segment.code && segment.expand_down {
            let maximum: u64 = if segment.default_32 { 0xFFFF_FFFF } else { 0xFFFF };
            offset > segment.effective_limit() && offset < maximum
        } else {
            offset < segment.effective_limit()
        };
        if segment.selector.is_null() || !in_limit {
            None
        } else {
            Some(segment.base.wrapping_add(offset))
        }
    }
}

/// The vector of an address fault through the segment register `number`.
pub open spec fn address_fault_vector(number: u8) -> u8 {
    if number == register::SS {
        VECTOR_STACK
    } else {
        VECTOR_GENERAL_PROTECTION
    }
}

/// Raises a fault of the source; no selector comes of it.
pub open spec fn faulted(machine: Machine, vector: u8) -> (Machine, Result<Option<u16>, CpuError>) {
    match machine.raise(vector, Some(0)) {
        (after, Err(error)) => (after, Err(error)),
        (after, Ok(done)) => (after, Ok(None)),
    }
}

fn fault(cpu: &mut Cpu, vector: u8) -> (result: Result<Option<u16>, CpuError>)
    ensures
        (final(cpu)@, result) == faulted(old(cpu)@, vector),
{
    cpu.raise(vector, Some(0))?;
    Ok(None)
}

/// Reads the selector from memory. Paging is checked before alignment; the source has
/// two bytes at every operand size. None stands for a fault that was delivered.
pub open spec fn read_selector_spec(machine: Machine, instruction: Instruction) -> (Machine, Result<Option<u16>, CpuError>) {
    match selector_address(machine, instruction) {
        None => faulted(machine, address_fault_vector(instruction.memory_segment)),
        Some(linear) => match machine.translate(linear, AccessKind::Read) {
            Err(error) => (machine, Err(error)),
            Ok(first) => {
                let second = if linear % 0x1000 == 0xFFF {
                    machine.translate(linear.wrapping_add(1), AccessKind::Read)
                } else {
                    Ok(first)
                };
                match second {
                    Err(error) => (machine, Err(error)),
                    Ok(other) => if linear % 2 != 0 && alignment_checked(machine) {
                        faulted(machine, VECTOR_ALIGNMENT_CHECK)
                    } else {
                        match machine.read_linear(linear, 2) {
                            Err(error) => (machine, Err(error)),
                            Ok(value) => (machine, Ok(Some(value as u16))),
                        }
                    },
                }
            },
        },
    }
}

fn read_selector(cpu: &mut Cpu, instruction: &Instruction) -> (result: Result<Option<u16>, CpuError>)
    ensures
        (final(cpu)@, result) == read_selector_spec(old(cpu)@, *instruction),
{
    match address_of_selector(cpu, instruction) {
        None => {
            let vector = if instruction.memory_segment == register::SS {
                VECTOR_STACK
            } else {
                VECTOR_GENERAL_PROTECTION
            };
            fault(cpu, vector)
        },
        Some(linear) => {
            let _first = cpu.translate(linear, AccessKind::Read)?;
            if linear % 0x1000 == 0xFFF {
                let _second = cpu.translate(linear.wrapping_add(1), AccessKind::Read)?;
            }
            if linear % 2 != 0 && checks_alignment(cpu) {
                return fault(cpu, VECTOR_ALIGNMENT_CHECK);
            }
            let value = cpu.read_linear(linear, 2)?;
            Ok(Some(value as u16))
        },
    }
}

/// Writes the limit of the segment that `selector` names and sets ZF, or clears ZF
/// where it has none. A descriptor that cannot be read changes nothing.
pub open spec fn load_limit(machine: Machine, instruction: Instruction, selector: SegmentSelector) -> (
    Machine,
    Result<(), CpuError>,
) {
    match descriptor_limit_spec(machine, selector) {
        Err(error) => (machine, Err(error)),
        Ok(None) => (machine.set_flags(with_flag(machine.regs.rflags, ZF, false)), Ok(())),
        Ok(Some(limit)) => (
            machine.reg_write(instruction.op0_register, operand_size_spec(instruction, 0), limit).set_flags(
                with_flag(machine.regs.rflags, ZF, true),
            ),
            Ok(()),
        ),
    }
}

/// LSL. Real and virtual 8086 mode and a lock prefix are invalid before the source is
/// read.
pub open spec fn execute_spec(machine: Machine, instruction: Instruction) -> (Machine, Result<(), CpuError>) {
    if machine.regs.mode() == CpuMode::Real || holds(machine.regs.rflags, VM) || instruction.lock {
        machine.raise(VECTOR_INVALID_OPCODE, None)
    } else if instruction.op1_kind == op_kind::REGISTER {
        let value = reg_read(machine.regs, instruction.op1_register, 2);
        load_limit(machine, instruction, SegmentSelector(value as u16))
    } else if instruction.op1_kind == op_kind::MEMORY {
        match read_selector_spec(machine, instruction) {
            (after, Err(error)) => (after, Err(error)),
            (after, Ok(None)) => (after, Ok(())),
            (after, Ok(Some(value))) => load_limit(after, instruction, SegmentSelector(value)),
        }
    } else {
        machine.raise(VECTOR_INVALID_OPCODE, None)
    }
}

fn apply_limit(cpu: &mut Cpu, instruction: &Instruction, selector: SegmentSelector) -> (result: Result<(), CpuError>)
    ensures
        (final(cpu)@, result) == load_limit(old(cpu)@, *instruction, selector),
{
    let found = descriptor_limit(cpu, selector)?;
    if let Some(limit) = found {
        write_register(&mut cpu.regs, instruction.op0_register, operand_size(instruction, 0), limit);
    }
    cpu.regs.rflags = set_flag(cpu.regs.rflags, ZF, found.is_some());
    Ok(())
}

pub fn execute(cpu: &mut Cpu, instruction: &Instruction) -> (result: Result<(), CpuError>)
    ensures
        (final(cpu)@, result) == execute_spec(old(cpu)@, *instruction),
{
    if cpu.regs.mode() == CpuMode::Real || contains(cpu.regs.rflags, VM) || instruction.lock {
        return cpu.raise(VECTOR_INVALID_OPCODE, None);
    }
    if instruction.op1_kind == op_kind::REGISTER {
        let value = read_register(&cpu.regs, instruction.op1_register, 2);
        apply_limit(cpu, instruction, SegmentSelector(value as u16))
    } else if instruction.op1_kind == op_kind::MEMORY {
        let read = read_selector(cpu, instruction)?;
        match read {
            None => Ok(()),
            Some(value) => apply_limit(cpu, instruction, SegmentSelector(value)),
        }
    } else {
        cpu.raise(VECTOR_INVALID_OPCODE, None)
    }
}

} // verus!
