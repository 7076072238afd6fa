//! System instructions: port I/O, MSRs, tables, control registers, halt.

use vstd::arithmetic::power2::{lemma2_to64, lemma_pow2_adds, lemma_pow2_pos, pow2};
use vstd::prelude::*;

use crate::arch::registers::{
    contains, holds, set_flag, with_flag, RegisterState, CF, CR0_DEFINED, CR0_PG, CR0_TS, CR0_WP, CR4_DEFINED,
    EFER_DEFINED, FLAGS_DEFINED, IF, OF, VM, ZF,
};
use crate::arch::segments::{SegmentRegister, SegmentSelector};
use crate::arith::{count_ones, from_le, is_negative, le_bytes, le_value, low_bits, ones, power_of_two, to_le};
use crate::cpu::interrupts::VECTOR_INVALID_OPCODE;
use crate::cpu::linear::{lemma_same_translation, AccessKind};
use crate::cpu::memory::{fits, load_word, store_bytes};
use crate::cpu::{Cpu, CpuError, FpuState, GuestFault, Machine};
use crate::decode::{mnemonic, op_kind, register, Instruction};
use crate::ops::arithmetic::{sign_extend, sign_extended};
use crate::ops::{
    bits_of, memory_size, memory_size_spec, operand_size, operand_size_spec, read_operand0, read_operand1, read_register,
    reg_read, set_szp, szp, width_bits, write_operand0, write_register, write_sized0,
};

verus! {

/// A port access that the instruction asks the devices for.
#[derive(Clone, Copy, PartialEq, Eq, Structural, Debug)]
pub enum PortAccess {
    /// Reads `size` bytes; the answer goes to the register.
    Read { port: u16, size: u8, register: u8 },
    /// Writes the low `size` bytes of the value.
    Write { port: u16, size: u8, value: u32 },
}

/// Whether `number` is an accumulator that a port access can use.
pub open spec fn is_port_accumulator(number: u8) -> bool {
    number == register::AL || number == register::AX || number == register::EAX
}

/// The accumulator of a port access: it stands in either operand.
pub open spec fn port_accumulator(instruction: Instruction) -> u8 {
    if is_port_accumulator(instruction.op0_register) {
        instruction.op0_register
    } else if is_port_accumulator(instruction.op1_register) {
        instruction.op1_register
    } else {
        register::AL
    }
}

pub open spec fn port_size(number: u8) -> u8 {
    match number {
        register::AL => 1,
        register::AX => 2,
        _ => 4,
    }
}

/// The port: a byte immediate extended with its sign, else DX.
pub open spec fn port_of(machine: Machine, instruction: Instruction) -> u16 {
    if instruction.op0_kind == op_kind::IMMEDIATE8 {
        sign_extended(instruction.immediate0, 8) as u16
    } else if instruction.op1_kind == op_kind::IMMEDIATE8 {
        sign_extended(instruction.immediate1, 8) as u16
    } else {
        reg_read(machine.regs, register::DX, 2) as u16
    }
}

/// The port access of IN or OUT.
pub open spec fn port_access(machine: Machine, instruction: Instruction) -> PortAccess {
    let number = port_accumulator(instruction);
    let port = port_of(machine, instruction);
    let size = port_size(number);
    if instruction.mnemonic == mnemonic::IN {
        PortAccess::Read { port, size, register: number }
    } else {
        PortAccess::Write { port, size, value: reg_read(machine.regs, number, size) as u32 }
    }
}

pub fn in_out(cpu: &Cpu, instruction: &Instruction) -> (access: PortAccess)
    ensures
        access == port_access(cpu@, *instruction),
{
    let first = instruction.op0_register;
    let second = instruction.op1_register;
    let number: u8 = if first == register::AL || first == register::AX || first == register::EAX {
        first
    } else if second == register::AL || second == register::AX || second == register::EAX {
        second
    } else {
        register::AL
    };
    let size: u8 = match number {
        register::AL => 1,
        register::AX => 2,
        _ => 4,
    };
    let port: u16 = if instruction.op0_kind == op_kind::IMMEDIATE8 {
        sign_extend(instruction.immediate0, 8) as u16
    } else if instruction.op1_kind == op_kind::IMMEDIATE8 {
        sign_extend(instruction.immediate1, 8) as u16
    } else {
        read_register(&cpu.regs, register::DX, 2) as u16
    };
    if instruction.mnemonic == mnemonic::IN {
        PortAccess::Read { port, size, register: number }
    } else {
        PortAccess::Write { port, size, value: read_register(&cpu.regs, number, size) as u32 }
    }
}

/// Takes the answer to a port read.
pub fn finish_port_read(cpu: &mut Cpu, number: u8, size: u8, value: u32)
    ensures
        final(cpu)@ == old(cpu)@.reg_write(number, size, value as u64),
{
    write_register(&mut cpu.regs, number, size, value as u64);
}

/// Waits for an interrupt, or halts for good where interrupts are off.
pub open spec fn hlt_spec(machine: Machine) -> Machine {
    if holds(machine.regs.rflags, IF) {
        Machine { waiting_for_interrupt: true, ..machine }
    } else {
        Machine { halted: true, ..machine }
    }
}

pub fn hlt(cpu: &mut Cpu)
    ensures
        final(cpu)@ == hlt_spec(old(cpu)@),
{
    if contains(cpu.regs.rflags, IF) {
        cpu.waiting_for_interrupt = true;
    } else {
        cpu.halted = true;
    }
}

/// What CPUID reports of a leaf, as EAX, EBX, ECX and EDX: the vendor `GenuineIntel`,
/// the features of a plain x86-64 processor and the address sizes; zeros elsewhere.
pub open spec fn cpuid_table(leaf: u32, subleaf: u32) -> (u32, u32, u32, u32) {
    match leaf {
        0 => (0x16, 0x756E_6547, 0x4965_6E69, 0x6C65_746E),
        1 => (0x0009_0600, 0, 0x40D8_2201, 0x1788_AB71),
        7 => if subleaf == 0 {
            (0, 0x4_0108, 0, 0)
        } else {
            (0, 0, 0, 0)
        },
        0xD => if subleaf == 0 {
            (3, 0, 0, 0)
        } else {
            (0, 0, 0, 0)
        },
        0x8000_0000 => (0x8000_0008, 0, 0, 0),
        0x8000_0001 => (0, 0, 1, 0x2C10_0800),
        0x8000_0007 => (0, 0, 0, 0x100),
        0x8000_0008 => (0x3028, 0, 0, 0),
        _ => (0, 0, 0, 0),
    }
}

pub fn cpuid_leaf(leaf: u32, subleaf: u32) -> (registers: (u32, u32, u32, u32))
    ensures
        registers == cpuid_table(leaf, subleaf),
{
    match leaf {
        0 => (0x16, 0x756E_6547, 0x4965_6E69, 0x6C65_746E),
        1 => (0x0009_0600, 0, 0x40D8_2201, 0x1788_AB71),
        7 => if subleaf == 0 {
            (0, 0x4_0108, 0, 0)
        } else {
            (0, 0, 0, 0)
        },
        0xD => if subleaf == 0 {
            (3, 0, 0, 0)
        } else {
            (0, 0, 0, 0)
        },
        0x8000_0000 => (0x8000_0008, 0, 0, 0),
        0x8000_0001 => (0, 0, 1, 0x2C10_0800),
        0x8000_0007 => (0, 0, 0, 0x100),
        0x8000_0008 => (0x3028, 0, 0, 0),
        _ => (0, 0, 0, 0),
    }
}

/// CPUID: the leaf that EAX and ECX name.
pub open spec fn cpuid_spec(machine: Machine) -> Machine {
    let (a, b, c, d) = cpuid_table(
        reg_read(machine.regs, register::EAX, 4) as u32,
        reg_read(machine.regs, register::ECX, 4) as u32,
    );
    machine.reg_write(register::EAX, 4, a as u64).reg_write(register::EBX, 4, b as u64).reg_write(
        register::ECX,
        4,
        c as u64,
    ).reg_write(register::EDX, 4, d as u64)
}

pub fn cpuid(cpu: &mut Cpu)
    ensures
        final(cpu)@ == cpuid_spec(old(cpu)@),
{
    let leaf = read_register(&cpu.regs, register::EAX, 4) as u32;
    let subleaf = read_register(&cpu.regs, register::ECX, 4) as u32;
    let (a, b, c, d) = cpuid_leaf(leaf, subleaf);
    write_register(&mut cpu.regs, register::EAX, 4, a as u64);
    write_register(&mut cpu.regs, register::EBX, 4, b as u64);
    write_register(&mut cpu.regs, register::ECX, 4, c as u64);
    write_register(&mut cpu.regs, register::EDX, 4, d as u64);
}

impl Machine {
    /// `value` split over EAX and EDX.
    pub open spec fn set_edx_eax(self, value: u64) -> Machine {
        self.reg_write(register::EAX, 4, value % 0x1_0000_0000).reg_write(register::EDX, 4, value / 0x1_0000_0000)
    }

    /// The value that EDX and EAX spell.
    pub open spec fn edx_eax(self) -> u64 {
        (reg_read(self.regs, register::EAX, 4) + reg_read(self.regs, register::EDX, 4) * 0x1_0000_0000) as u64
    }
}

fn set_edx_eax(cpu: &mut Cpu, value: u64)
    ensures
        final(cpu)@ == old(cpu)@.set_edx_eax(value),
{
    write_register(&mut cpu.regs, register::EAX, 4, value % 0x1_0000_0000);
    write_register(&mut cpu.regs, register::EDX, 4, value / 0x1_0000_0000);
}

fn edx_eax(cpu: &Cpu) -> (value: u64)
    ensures
        value == cpu@.edx_eax(),
{
    let low = read_register(&cpu.regs, register::EAX, 4);
    let high = read_register(&cpu.regs, register::EDX, 4);
    low + high * 0x1_0000_0000
}

/// The time-stamp counter; RDTSCP clears ECX too.
pub open spec fn rdtsc_spec(machine: Machine, instruction: Instruction) -> Machine {
    if instruction.mnemonic == mnemonic::RDTSCP {
        machine.set_edx_eax(machine.tsc).reg_write(register::ECX, 4, 0)
    } else {
        machine.set_edx_eax(machine.tsc)
    }
}

pub fn rdtsc(cpu: &mut Cpu, instruction: &Instruction)
    ensures
        final(cpu)@ == rdtsc_spec(old(cpu)@, *instruction),
{
    let tsc = cpu.tsc;
    set_edx_eax(cpu, tsc);
    if instruction.mnemonic == mnemonic::RDTSCP {
        write_register(&mut cpu.regs, register::ECX, 4, 0);
    }
}

pub const MSR_IA32_TSC: u32 = 0x10;
pub const MSR_IA32_APIC_BASE: u32 = 0x1B;
pub const MSR_IA32_SYSENTER_CS: u32 = 0x174;
pub const MSR_IA32_SYSENTER_ESP: u32 = 0x175;
pub const MSR_IA32_SYSENTER_EIP: u32 = 0x176;
pub const MSR_IA32_MISC_ENABLE: u32 = 0x1A0;
pub const MSR_IA32_PAT: u32 = 0x277;
pub const MSR_IA32_MTRR_DEF_TYPE: u32 = 0x2FF;
pub const MSR_EFER: u32 = 0xC000_0080;
pub const MSR_STAR: u32 = 0xC000_0081;
pub const MSR_LSTAR: u32 = 0xC000_0082;
pub const MSR_CSTAR: u32 = 0xC000_0083;
pub const MSR_FMASK: u32 = 0xC000_0084;
pub const MSR_FS_BASE: u32 = 0xC000_0100;
pub const MSR_GS_BASE: u32 = 0xC000_0101;
pub const MSR_KERNEL_GS_BASE: u32 = 0xC000_0102;

/// The value of a model-specific register.
pub open spec fn msr_value(machine: Machine, address: u32) -> Result<u64, CpuError> {
    match address {
        MSR_EFER => Ok(machine.regs.efer),
        MSR_IA32_APIC_BASE => Ok(0xFEE0_0900),
        MSR_IA32_TSC => Ok(machine.tsc),
        MSR_IA32_MTRR_DEF_TYPE => Ok(6),
        MSR_IA32_MISC_ENABLE => Ok(0),
        MSR_IA32_PAT => Ok(0x0007_0406_0007_0406),
        MSR_FS_BASE => Ok(machine.regs.fs.base),
        MSR_GS_BASE => Ok(machine.regs.gs.base),
        MSR_KERNEL_GS_BASE | MSR_STAR | MSR_LSTAR | MSR_CSTAR | MSR_FMASK | MSR_IA32_SYSENTER_CS | MSR_IA32_SYSENTER_ESP
        | MSR_IA32_SYSENTER_EIP => Ok(0),
        _ => Err(CpuError::GuestFault { reason: GuestFault::UnknownMsr { register: address, write: false } }),
    }
}

pub fn msr_read(cpu: &Cpu, address: u32) -> (value: Result<u64, CpuError>)
    ensures
        value == msr_value(cpu@, address),
{
    match address {
        MSR_EFER => Ok(cpu.regs.efer),
        MSR_IA32_APIC_BASE => Ok(0xFEE0_0900),
        MSR_IA32_TSC => Ok(cpu.tsc),
        MSR_IA32_MTRR_DEF_TYPE => Ok(6),
        MSR_IA32_MISC_ENABLE => Ok(0),
        MSR_IA32_PAT => Ok(0x0007_0406_0007_0406),
        MSR_FS_BASE => Ok(cpu.regs.fs.base),
        MSR_GS_BASE => Ok(cpu.regs.gs.base),
        MSR_KERNEL_GS_BASE | MSR_STAR | MSR_LSTAR | MSR_CSTAR | MSR_FMASK | MSR_IA32_SYSENTER_CS | MSR_IA32_SYSENTER_ESP
        | MSR_IA32_SYSENTER_EIP => Ok(0),
        _ => Err(CpuError::GuestFault { reason: GuestFault::UnknownMsr { register: address, write: false } }),
    }
}

/// The known model-specific registers that ignore what is written to them.
pub open spec fn ignores_writes(address: u32) -> bool {
    match address {
        MSR_IA32_APIC_BASE | MSR_IA32_MTRR_DEF_TYPE | MSR_IA32_PAT | MSR_IA32_MISC_ENABLE | MSR_STAR | MSR_LSTAR | MSR_CSTAR
        | MSR_FMASK | MSR_IA32_SYSENTER_CS | MSR_IA32_SYSENTER_ESP | MSR_IA32_SYSENTER_EIP | MSR_KERNEL_GS_BASE => true,
        _ => false,
    }
}

fn write_is_ignored(address: u32) -> (ignored: bool)
    ensures
        ignored == ignores_writes(address),
{
    match address {
        MSR_IA32_APIC_BASE | MSR_IA32_MTRR_DEF_TYPE | MSR_IA32_PAT | MSR_IA32_MISC_ENABLE | MSR_STAR | MSR_LSTAR | MSR_CSTAR
        | MSR_FMASK | MSR_IA32_SYSENTER_CS | MSR_IA32_SYSENTER_ESP | MSR_IA32_SYSENTER_EIP | MSR_KERNEL_GS_BASE => true,
        _ => false,
    }
}

/// The machine after a write of a model-specific register: EFER and the two segment
/// bases take the value, the other known registers ignore it.
pub open spec fn msr_written(machine: Machine, address: u32, value: u64) -> (Machine, Result<(), CpuError>) {
    let regs = machine.regs;
    if address == MSR_EFER {
        (machine.set_regs(RegisterState { efer: value & EFER_DEFINED, ..regs }), Ok(()))
    } else if address == MSR_FS_BASE {
        (machine.set_regs(RegisterState { fs: SegmentRegister { base: value, ..regs.fs }, ..regs }), Ok(()))
    } else if address == MSR_GS_BASE {
        (machine.set_regs(RegisterState { gs: SegmentRegister { base: value, ..regs.gs }, ..regs }), Ok(()))
    } else if ignores_writes(address) {
        (machine, Ok(()))
    } else {
        (machine, Err(CpuError::GuestFault { reason: GuestFault::UnknownMsr { register: address, write: true } }))
    }
}

pub fn msr_write(cpu: &mut Cpu, address: u32, value: u64) -> (result: Result<(), CpuError>)
    ensures
        (final(cpu)@, result) == msr_written(old(cpu)@, address, value),
{
    if address == MSR_EFER {
        cpu.regs.efer = value & EFER_DEFINED;
        Ok(())
    } else if address == MSR_FS_BASE {
        cpu.regs.fs = SegmentRegister { base: value, ..cpu.regs.fs };
        Ok(())
    } else if address == MSR_GS_BASE {
        cpu.regs.gs = SegmentRegister { base: value, ..cpu.regs.gs };
        Ok(())
    } else if write_is_ignored(address) {
        Ok(())
    } else {
        Err(CpuError::GuestFault { reason: GuestFault::UnknownMsr { register: address, write: true } })
    }
}

/// A segment base or EFER value of defined bits reads back as it was written.
pub proof fn msr_read_after_write(machine: Machine, address: u32, value: u64)
    requires
        address == MSR_FS_BASE || address == MSR_GS_BASE || (address == MSR_EFER && value & EFER_DEFINED == value),
    ensures
        msr_value(msr_written(machine, address, value).0, address) == Ok::<u64, CpuError>(value),
{
}

/// A limit and a base read from memory: two bytes, then eight or four.
pub open spec fn table_operand(machine: Machine, instruction: Instruction) -> Result<(u64, u32), CpuError> {
    let wide = instruction.memory_size == op_kind::SIZE_FWORD10;
    match machine.read_operand0(instruction) {
        Err(error) => Err(error),
        Ok(limit) => match machine.translate(machine.effective_address(instruction).wrapping_add(2), AccessKind::Read) {
            Err(error) => Err(error),
            Ok(physical) => match load_word(machine.memory, physical, if wide {
                8
            } else {
                4
            }) {
                Err(error) => Err(error),
                Ok(base) => Ok((base, (limit % 0x1_0000) as u32)),
            },
        },
    }
}

fn read_table_operand(cpu: &Cpu, instruction: &Instruction) -> (table: Result<(u64, u32), CpuError>)
    ensures
        table == table_operand(cpu@, *instruction),
{
    let wide = instruction.memory_size == op_kind::SIZE_FWORD10;
    let limit = read_operand0(cpu, instruction)?;
    let physical = cpu.translate(cpu.effective_address(instruction).wrapping_add(2), AccessKind::Read)?;
    let base = cpu.memory.load_word(physical, if wide { 8 } else { 4 })?;
    Ok((base, (limit % 0x1_0000) as u32))
}

/// Stores a table's limit and base: two bytes, then eight.
pub open spec fn store_table(machine: Machine, instruction: Instruction, base: u64, limit: u32) -> (
    Machine,
    Result<(), CpuError>,
) {
    match machine.translate(machine.effective_address(instruction), AccessKind::Write) {
        Err(error) => (machine, Err(error)),
        Ok(physical) => match machine.store_physical(physical, 2, limit as u128) {
            (written, Err(error)) => (written, Err(error)),
            (written, Ok(done)) => written.store_physical((physical + 2) as u64, 8, base as u128),
        },
    }
}

fn write_table(cpu: &mut Cpu, instruction: &Instruction, base: u64, limit: u32) -> (result: Result<(), CpuError>)
    ensures
        (final(cpu)@, result) == store_table(old(cpu)@, *instruction, base, limit),
{
    let linear = cpu.effective_address(instruction);
    let physical = cpu.translate(linear, AccessKind::Write)?;
    let length = cpu.memory.bytes.len();
    cpu.store_physical(physical, 2, limit as u128)?;
    assert(physical + 2 <= length) by {
        crate::arith::lemma_le_bytes_len(limit as nat, 2);
    }
    cpu.store_physical(physical + 2, 8, base as u128)
}

pub open spec fn is_control_register_spec(number: u8) -> bool {
    number == register::CR0 || number == register::CR2 || number == register::CR3 || number == register::CR4 || number
        == register::CR8
}

pub fn is_control_register(number: u8) -> (found: bool)
    ensures
        found == is_control_register_spec(number),
{
    number == register::CR0 || number == register::CR2 || number == register::CR3 || number == register::CR4 || number
        == register::CR8
}

pub open spec fn is_debug_register_spec(number: u8) -> bool {
    (register::DR0 <= number <= register::DR3) || number == register::DR6 || number == register::DR7
}

pub fn is_debug_register(number: u8) -> (found: bool)
    ensures
        found == is_debug_register_spec(number),
{
    (register::DR0 <= number && number <= register::DR3) || number == register::DR6 || number == register::DR7
}

/// The value of a control register.
pub open spec fn control_value(regs: RegisterState, number: u8) -> u64 {
    match number {
        register::CR0 => regs.cr0,
        register::CR2 => regs.cr2,
        register::CR3 => regs.cr3,
        register::CR4 => regs.cr4,
        _ => regs.cr8,
    }
}

/// The registers after a write of a control register: turning paging on turns write
/// protection on.
pub open spec fn control_written(regs: RegisterState, number: u8, value: u64) -> RegisterState {
    match number {
        register::CR0 => {
            let kept = value & CR0_DEFINED;
            RegisterState {
                cr0: if holds(kept, CR0_PG) {
                    kept | CR0_WP
                } else {
                    kept
                },
                ..regs
            }
        },
        register::CR2 => RegisterState { cr2: value, ..regs },
        register::CR3 => RegisterState { cr3: value, ..regs },
        register::CR4 => RegisterState { cr4: value & CR4_DEFINED, ..regs },
        _ => RegisterState { cr8: value, ..regs },
    }
}

fn write_control(cpu: &mut Cpu, number: u8, value: u64)
    ensures
        final(cpu)@ == old(cpu)@.set_regs(control_written(old(cpu)@.regs, number, value)),
{
    match number {
        register::CR0 => {
            let kept = value & CR0_DEFINED;
            cpu.regs.cr0 = if contains(kept, CR0_PG) { kept | CR0_WP } else { kept };
        },
        register::CR2 => cpu.regs.cr2 = value,
        register::CR3 => cpu.regs.cr3 = value,
        register::CR4 => cpu.regs.cr4 = value & CR4_DEFINED,
        _ => cpu.regs.cr8 = value,
    }
}

/// Moves to and from control and debug registers. Debug registers read as zero and
/// ignore writes.
pub open spec fn mov_special(machine: Machine, instruction: Instruction) -> (Machine, Result<(), CpuError>) {
    let target = instruction.op0_register;
    let source = instruction.op1_register;
    if is_control_register_spec(source) {
        (
            machine.reg_write(target, operand_size_spec(instruction, 0), control_value(machine.regs, source)),
            Ok(()),
        )
    } else if is_control_register_spec(target) {
        match machine.read_operand1(instruction) {
            Err(error) => (machine, Err(error)),
            Ok(value) => (machine.set_regs(control_written(machine.regs, target, value)), Ok(())),
        }
    } else if is_debug_register_spec(source) {
        (machine.reg_write(target, operand_size_spec(instruction, 0), 0), Ok(()))
    } else if is_debug_register_spec(target) {
        (machine, Ok(()))
    } else {
        (machine, Err(CpuError::UnimplementedInstruction { code: instruction.code, address: machine.regs.rip }))
    }
}

fn mov_to_special(cpu: &mut Cpu, instruction: &Instruction) -> (result: Result<(), CpuError>)
    ensures
        (final(cpu)@, result) == mov_special(old(cpu)@, *instruction),
{
    let target = instruction.op0_register;
    let source = instruction.op1_register;
    if is_control_register(source) {
        let value = match source {
            register::CR0 => cpu.regs.cr0,
            register::CR2 => cpu.regs.cr2,
            register::CR3 => cpu.regs.cr3,
            register::CR4 => cpu.regs.cr4,
            _ => cpu.regs.cr8,
        };
        write_register(&mut cpu.regs, target, operand_size(instruction, 0), value);
        Ok(())
    } else if is_control_register(target) {
        let value = read_operand1(cpu, instruction)?;
        write_control(cpu, target, value);
        Ok(())
    } else if is_debug_register(source) {
        write_register(&mut cpu.regs, target, operand_size(instruction, 0), 0);
        Ok(())
    } else if is_debug_register(target) {
        Ok(())
    } else {
        Err(CpuError::UnimplementedInstruction { code: instruction.code, address: cpu.regs.rip })
    }
}

/// Loads the local table register; selector zero unloads it.
pub open spec fn lldt_spec(machine: Machine, instruction: Instruction) -> (Machine, Result<(), CpuError>) {
    match machine.read_operand0(instruction) {
        Err(error) => (machine, Err(error)),
        Ok(value) => {
            let selector = SegmentSelector(value as u16);
            let loaded = if selector.0 == 0 {
                Ok(SegmentRegister::empty())
            } else {
                machine.load_segment(selector)
            };
            match loaded {
                Err(error) => (machine, Err(error)),
                Ok(ldtr) => (machine.set_regs(RegisterState { ldtr, ..machine.regs }), Ok(())),
            }
        },
    }
}

fn lldt(cpu: &mut Cpu, instruction: &Instruction) -> (result: Result<(), CpuError>)
    ensures
        (final(cpu)@, result) == lldt_spec(old(cpu)@, *instruction),
{
    let value = read_operand0(cpu, instruction)?;
    let selector = SegmentSelector(value as u16);
    if selector.0 == 0 {
        cpu.regs.ldtr = Default::default();
    } else {
        let loaded = cpu.load_segment_from_table(selector)?;
        cpu.regs.ldtr = loaded;
    }
    Ok(())
}

/// Loads the task register.
pub open spec fn ltr_spec(machine: Machine, instruction: Instruction) -> (Machine, Result<(), CpuError>) {
    match machine.read_operand0(instruction) {
        Err(error) => (machine, Err(error)),
        Ok(value) => match machine.load_segment(SegmentSelector(value as u16)) {
            Err(error) => (machine, Err(error)),
            Ok(tr) => (machine.set_regs(RegisterState { tr, tr_base: tr.base, ..machine.regs }), Ok(())),
        },
    }
}

fn ltr(cpu: &mut Cpu, instruction: &Instruction) -> (result: Result<(), CpuError>)
    ensures
        (final(cpu)@, result) == ltr_spec(old(cpu)@, *instruction),
{
    let value = read_operand0(cpu, instruction)?;
    let loaded = cpu.load_segment_from_table(SegmentSelector(value as u16))?;
    cpu.regs.tr = loaded;
    cpu.regs.tr_base = loaded.base;
    Ok(())
}

/// Returns from an interrupt: pops the address, the code selector and the flags. The
/// flags are set before the segment is loaded.
pub open spec fn iret_spec(machine: Machine) -> (Machine, Result<(), CpuError>) {
    match machine.pop_native() {
        (first, Err(error)) => (first, Err(error)),
        (first, Ok(target)) => match first.pop_native() {
            (second, Err(error)) => (second, Err(error)),
            (second, Ok(selector)) => match second.pop_native() {
                (third, Err(error)) => (third, Err(error)),
                (third, Ok(flags)) => {
                    let flagged = third.set_flags((flags & FLAGS_DEFINED) | (third.regs.rflags & VM));
                    match flagged.segment_for(SegmentSelector(selector as u16)) {
                        Err(error) => (flagged, Err(error)),
                        Ok(cs) => (flagged.set_regs(RegisterState { cs, rip: target, ..flagged.regs }), Ok(())),
                    }
                },
            },
        },
    }
}

fn iret(cpu: &mut Cpu) -> (result: Result<(), CpuError>)
    ensures
        (final(cpu)@, result) == iret_spec(old(cpu)@),
{
    let target = cpu.pop_native()?;
    let selector = cpu.pop_native()?;
    let flags = cpu.pop_native()?;
    cpu.regs.rflags = (flags & FLAGS_DEFINED) | (cpu.regs.rflags & VM);
    let cs = cpu.segment_for(SegmentSelector(selector as u16))?;
    cpu.regs.cs = cs;
    cpu.regs.rip = target;
    Ok(())
}

/// The privileged and table instructions.
pub open spec fn system_op_spec(machine: Machine, instruction: Instruction) -> (Machine, Result<(), CpuError>) {
    let regs = machine.regs;
    let address = reg_read(regs, register::ECX, 4) as u32;
    match instruction.mnemonic {
        mnemonic::RDMSR => match msr_value(machine, address) {
            Err(error) => (machine, Err(error)),
            Ok(value) => (machine.set_edx_eax(value), Ok(())),
        },
        mnemonic::WRMSR => msr_written(machine, address, machine.edx_eax()),
        mnemonic::RDPMC => (machine.set_edx_eax(machine.tsc), Ok(())),
        mnemonic::LGDT => match table_operand(machine, instruction) {
            Err(error) => (machine, Err(error)),
            Ok((base, limit)) => (
                machine.set_regs(RegisterState { gdt_base: base, gdt_limit: limit, ..regs }),
                Ok(()),
            ),
        },
        mnemonic::LIDT => match table_operand(machine, instruction) {
            Err(error) => (machine, Err(error)),
            Ok((base, limit)) => (
                machine.set_regs(RegisterState { idt_base: base, idt_limit: limit, ..regs }),
                Ok(()),
            ),
        },
        mnemonic::SGDT => store_table(machine, instruction, regs.gdt_base, regs.gdt_limit),
        mnemonic::SIDT => store_table(machine, instruction, regs.idt_base, regs.idt_limit),
        mnemonic::LLDT => lldt_spec(machine, instruction),
        mnemonic::SLDT => machine.write_sized0(instruction, 2, regs.ldtr.selector.0 as u64),
        mnemonic::LTR => ltr_spec(machine, instruction),
        mnemonic::STR => machine.write_sized0(instruction, 2, regs.tr.selector.0 as u64),
        mnemonic::MOV => mov_special(machine, instruction),
        mnemonic::CLTS => (machine.set_regs(RegisterState { cr0: regs.cr0 & !CR0_TS, ..regs }), Ok(())),
        mnemonic::LMSW => match machine.read_operand0(instruction) {
            Err(error) => (machine, Err(error)),
            Ok(value) => (
                machine.set_regs(
                    RegisterState {
                        cr0: ((regs.cr0 & 0xFFFF_FFF0) | (value & 0xF)) & CR0_DEFINED,
                        ..regs
                    },
                ),
                Ok(()),
            ),
        },
        mnemonic::SMSW => machine.write_sized0(instruction, 2, regs.cr0 % 0x1_0000),
        mnemonic::INVLPG | mnemonic::WBINVD | mnemonic::INVD | mnemonic::LFENCE | mnemonic::SFENCE | mnemonic::MFENCE => (
            machine,
            Ok(()),
        ),
        mnemonic::IRET => iret_spec(machine),
        mnemonic::INT3 => machine.inject_interrupt(3),
        mnemonic::INT => machine.inject_interrupt((instruction.immediate0 % 256) as u8),
        mnemonic::INTO => if holds(regs.rflags, OF) {
            machine.inject_interrupt(4)
        } else {
            (machine, Ok(()))
        },
        mnemonic::BOUND => machine.raise(5, None),
        _ => (machine, Err(CpuError::UnimplementedInstruction { code: instruction.code, address: regs.rip })),
    }
}

pub fn system_op(cpu: &mut Cpu, instruction: &Instruction) -> (result: Result<(), CpuError>)
    ensures
        (final(cpu)@, result) == system_op_spec(old(cpu)@, *instruction),
{
    let address = read_register(&cpu.regs, register::ECX, 4) as u32;
    match instruction.mnemonic {
        mnemonic::RDMSR => {
            let value = msr_read(cpu, address)?;
            set_edx_eax(cpu, value);
            Ok(())
        },
        mnemonic::WRMSR => {
            let value = edx_eax(cpu);
            msr_write(cpu, address, value)
        },
        mnemonic::RDPMC => {
            let value = cpu.tsc;
            set_edx_eax(cpu, value);
            Ok(())
        },
        mnemonic::LGDT => {
            let (base, limit) = read_table_operand(cpu, instruction)?;
            cpu.regs.gdt_base = base;
            cpu.regs.gdt_limit = limit;
            Ok(())
        },
        mnemonic::LIDT => {
            let (base, limit) = read_table_operand(cpu, instruction)?;
            cpu.regs.idt_base = base;
            cpu.regs.idt_limit = limit;
            Ok(())
        },
        mnemonic::SGDT => {
            let base = cpu.regs.gdt_base;
            let limit = cpu.regs.gdt_limit;
            write_table(cpu, instruction, base, limit)
        },
        mnemonic::SIDT => {
            let base = cpu.regs.idt_base;
            let limit = cpu.regs.idt_limit;
            write_table(cpu, instruction, base, limit)
        },
        mnemonic::LLDT => lldt(cpu, instruction),
        mnemonic::SLDT => {
            let value = cpu.regs.ldtr.selector.0 as u64;
            write_sized0(cpu, instruction, 2, value)
        },
        mnemonic::LTR => ltr(cpu, instruction),
        mnemonic::STR => {
            let value = cpu.regs.tr.selector.0 as u64;
            write_sized0(cpu, instruction, 2, value)
        },
        mnemonic::MOV => mov_to_special(cpu, instruction),
        mnemonic::CLTS => {
            cpu.regs.cr0 = cpu.regs.cr0 & !CR0_TS;
            Ok(())
        },
        mnemonic::LMSW => {
            let value = read_operand0(cpu, instruction)?;
            cpu.regs.cr0 = ((cpu.regs.cr0 & 0xFFFF_FFF0) | (value & 0xF)) & CR0_DEFINED;
            Ok(())
        },
        mnemonic::SMSW => {
            let value = cpu.regs.cr0 % 0x1_0000;
            write_sized0(cpu, instruction, 2, value)
        },
        mnemonic::INVLPG | mnemonic::WBINVD | mnemonic::INVD | mnemonic::LFENCE | mnemonic::SFENCE | mnemonic::MFENCE => Ok(()),
        mnemonic::IRET => iret(cpu),
        mnemonic::INT3 => cpu.inject_interrupt(3),
        mnemonic::INT => cpu.inject_interrupt((instruction.immediate0 % 256) as u8),
        mnemonic::INTO => if contains(cpu.regs.rflags, OF) {
            cpu.inject_interrupt(4)
        } else {
            Ok(())
        },
        mnemonic::BOUND => cpu.raise(5, None),
        _ => Err(CpuError::UnimplementedInstruction { code: instruction.code, address: cpu.regs.rip }),
    }
}

/// RDMSR gives back in EDX and EAX the segment base that WRMSR wrote.
pub proof fn rdmsr_after_wrmsr(machine: Machine, write: Instruction, read: Instruction)
    requires
        write.mnemonic == mnemonic::WRMSR,
        read.mnemonic == mnemonic::RDMSR,
        ({
            let address = reg_read(machine.regs, register::ECX, 4);
            address == MSR_FS_BASE || address == MSR_GS_BASE
        }),
    ensures
        system_op_spec(machine, write).1 is Ok,
        system_op_spec(system_op_spec(machine, write).0, read) == (
            system_op_spec(machine, write).0.set_edx_eax(machine.edx_eax()),
            Ok::<(), CpuError>(()),
        ),
{
}

/// Whether a model-specific register is known.
pub open spec fn known_msr(address: u32) -> bool {
    ignores_writes(address) || address == MSR_EFER || address == MSR_FS_BASE || address == MSR_GS_BASE || address
        == MSR_IA32_TSC
}

/// Reading or writing an unknown model-specific register is refused and changes nothing.
pub proof fn unknown_msrs_change_nothing(machine: Machine, instruction: Instruction)
    requires
        instruction.mnemonic == mnemonic::RDMSR || instruction.mnemonic == mnemonic::WRMSR,
        !known_msr(reg_read(machine.regs, register::ECX, 4) as u32),
    ensures
        system_op_spec(machine, instruction) == (
            machine,
            Err::<(), CpuError>(
                CpuError::GuestFault {
                    reason: GuestFault::UnknownMsr {
                        register: reg_read(machine.regs, register::ECX, 4) as u32,
                        write: instruction.mnemonic == mnemonic::WRMSR,
                    },
                },
            ),
        ),
{
}

/// The low `count` bytes of `value` in the opposite order.
pub open spec fn byte_swapped(value: u64, count: nat) -> u64 {
    le_value(le_bytes(value as nat, count).reverse()) as u64
}

fn byte_swap(value: u64, count: usize) -> (swapped: u64)
    requires
        count <= 8,
    ensures
        swapped == byte_swapped(value, count as nat),
{
    let bytes = to_le(value as u128, count);
    let mut turned: Vec<u8> = Vec::new();
    let mut left: usize = count;
    while left > 0
        invariant
            left <= count,
            bytes@.len() == count,
            turned@.len() == count - left,
            forall|i: int| 0 <= i < turned@.len() ==> turned@[i] == bytes@[count - 1 - i],
        decreases left,
    {
        left = left - 1;
        turned.push(bytes[left]);
    }
    proof {
        assert(turned@ =~= bytes@.reverse());
        crate::arith::lemma_le_value_bound(turned@);
        crate::arith::lemma_span_16(turned@.len());
    }
    from_le(turned.as_slice()) as u64
}

/// Swapping the bytes twice gives the low bytes back.
pub proof fn byte_swap_twice(value: u64, count: nat)
    requires
        count == 4 || count == 8,
    ensures
        byte_swapped(byte_swapped(value, count), count) == value as nat % crate::arith::byte_span(count),
{
    let bytes = le_bytes(value as nat, count);
    crate::arith::lemma_le_bytes_len(value as nat, count);
    let turned = bytes.reverse();
    crate::arith::lemma_le_value_bound(turned);
    crate::arith::lemma_span_16(count);
    crate::arith::lemma_le_bytes_of_value(turned);
    assert(turned.reverse() =~= bytes);
    crate::arith::lemma_le_round_trip(value as nat, count);
    crate::arith::lemma_le_value_bound(bytes);
}

/// The double shifts: the destination moves and the source's bits follow it in. A
/// count of at least the width gives all ones to the left and zero to the right.
pub open spec fn double_shifted(left: bool, destination: u64, source: u64, count: u64, bits: u32) -> u64 {
    let n = bits as nat;
    let span = pow2(n) as int;
    if count >= bits {
        if left {
            (span - 1) as u64
        } else {
            0
        }
    } else if left {
        ((destination * pow2(count as nat) + source as int / (pow2((n - count) as nat) as int)) % span) as u64
    } else {
        ((destination as int / (pow2(count as nat) as int) + (source as int % (pow2(count as nat) as int)) * pow2(
            (n - count) as nat,
        )) % span) as u64
    }
}

fn double_shift(left: bool, destination: u64, source: u64, count: u64, bits: u32) -> (shifted: u64)
    requires
        8 <= bits <= 64,
        count < 64,
    ensures
        shifted == double_shifted(left, destination, source, count, bits),
        shifted < pow2(bits as nat),
{
    let span: u128 = power_of_two(bits);
    proof {
        lemma2_to64();
        lemma_pow2_pos(bits as nat);
        if bits < 64 {
            vstd::arithmetic::power2::lemma_pow2_strictly_increases(bits as nat, 64);
        }
    }
    if count >= bits as u64 {
        return if left { (span - 1) as u64 } else { 0 };
    }
    let steps = count as u32;
    let part: u128 = power_of_two(steps);
    let rest: u128 = power_of_two(bits - steps);
    proof {
        if steps < 64 {
            vstd::arithmetic::power2::lemma_pow2_strictly_increases(steps as nat, 64);
        }
        lemma_pow2_adds((bits - steps) as nat, steps as nat);
        if 0 < steps {
            vstd::arithmetic::power2::lemma_pow2_strictly_increases((bits - steps) as nat, bits as nat);
        }
        assert(destination * part <= 0xFFFF_FFFF_FFFF_FFFF * 0xFFFF_FFFF_FFFF_FFFF) by (nonlinear_arith)
            requires
                0 <= destination <= 0xFFFF_FFFF_FFFF_FFFF,
                0 <= part <= 0xFFFF_FFFF_FFFF_FFFF,
        ;
        let low = source as int % part as int;
        vstd::arithmetic::div_mod::lemma_mod_bound(source as int, part as int);
        assert(low * rest <= part * rest) by (nonlinear_arith)
            requires
                0 <= low < part,
                rest >= 0,
        ;
        assert(part * rest == rest * part) by (nonlinear_arith);
        assert(source as int / rest as int <= source) by (nonlinear_arith)
            requires
                rest >= 1,
                source >= 0,
        ;
        assert(destination as int / part as int <= destination) by (nonlinear_arith)
            requires
                part >= 1,
                destination >= 0,
        ;
    }
    let wide: u128 = if left {
        destination as u128 * part + source as u128 / rest
    } else {
        destination as u128 / part + (source as u128 % part) * rest
    };
    proof {
        vstd::arithmetic::div_mod::lemma_mod_bound(wide as int, span as int);
    }
    (wide % span) as u64
}

/// SHLD and SHRD: sign, zero and parity are always set, carry and overflow for a count
/// of one.
pub open spec fn shld_shrd_spec(machine: Machine, instruction: Instruction) -> (Machine, Result<(), CpuError>) {
    match machine.read_operand0(instruction) {
        Err(error) => (machine, Err(error)),
        Ok(destination) => {
            let size = operand_size_spec(instruction, 0);
            let bits = width_bits(size);
            let source = reg_read(machine.regs, instruction.op1_register, size);
            let count = (if instruction.op2_kind == op_kind::IMMEDIATE8 {
                instruction.immediate2
            } else {
                reg_read(machine.regs, register::CL, 1)
            }) % 64;
            let result = double_shifted(instruction.mnemonic == mnemonic::SHLD, destination, source, count, bits);
            let flags = szp(machine.regs.rflags, result, bits);
            let top = 2 * low_bits(destination as int, bits as nat) >= pow2(bits as nat);
            let new_top = 2 * low_bits(result as int, bits as nat) >= pow2(bits as nat);
            let moved = if count == 1 {
                with_flag(with_flag(flags, CF, top), OF, top != new_top)
            } else {
                flags
            };
            machine.set_flags(moved).write_operand0(instruction, result)
        },
    }
}

fn shld_shrd(cpu: &mut Cpu, instruction: &Instruction) -> (result: Result<(), CpuError>)
    ensures
        (final(cpu)@, result) == shld_shrd_spec(old(cpu)@, *instruction),
{
    let size = operand_size(instruction, 0);
    let destination = read_operand0(cpu, instruction)?;
    let source = read_register(&cpu.regs, instruction.op1_register, size);
    let raw = if instruction.op2_kind == op_kind::IMMEDIATE8 {
        instruction.immediate2
    } else {
        read_register(&cpu.regs, register::CL, 1)
    };
    let count = raw % 64;
    let bits = bits_of(size);
    let shifted = double_shift(instruction.mnemonic == mnemonic::SHLD, destination, source, count, bits);
    set_szp(&mut cpu.regs, shifted, bits);
    if count == 1 {
        let top = is_negative(destination, bits);
        let new_top = is_negative(shifted, bits);
        let carried = set_flag(cpu.regs.rflags, CF, top);
        cpu.regs.rflags = set_flag(carried, OF, top != new_top);
    }
    write_operand0(cpu, instruction, shifted)
}

/// The image that FXSAVE writes: the two control words, a full tag word and MXCSR, with
/// zeros elsewhere.
pub open spec fn fxsave_image(machine: Machine) -> Seq<u8> {
    le_bytes(machine.fpu.control as nat, 2) + le_bytes(machine.fpu.status as nat, 2) + le_bytes(0xFFFF, 2) + le_bytes(0, 18)
        + le_bytes(machine.mxcsr as nat, 4) + le_bytes(0, 484)
}

pub open spec fn fxsave_spec(machine: Machine, instruction: Instruction) -> (Machine, Result<(), CpuError>) {
    match machine.translate(machine.effective_address(instruction), AccessKind::Write) {
        Err(error) => (machine, Err(error)),
        Ok(physical) => {
            let (memory, result) = store_bytes(machine.memory, physical, fxsave_image(machine));
            (Machine { memory, ..machine }, result)
        },
    }
}

fn fxsave(cpu: &mut Cpu, instruction: &Instruction) -> (result: Result<(), CpuError>)
    ensures
        (final(cpu)@, result) == fxsave_spec(old(cpu)@, *instruction),
{
    let linear = cpu.effective_address(instruction);
    let physical = cpu.translate(linear, AccessKind::Write)?;
    let mut image = to_le(cpu.fpu.control as u128, 2);
    let mut status = to_le(cpu.fpu.status as u128, 2);
    let mut tags = to_le(0xFFFF, 2);
    let mut gap = to_le(0, 18);
    let mut mxcsr = to_le(cpu.mxcsr as u128, 4);
    let mut rest = to_le(0, 484);
    image.append(&mut status);
    image.append(&mut tags);
    image.append(&mut gap);
    image.append(&mut mxcsr);
    image.append(&mut rest);
    assert(image@ == fxsave_image(old(cpu)@));
    cpu.memory.write(physical, image.as_slice())
}

/// Loads the two control words and MXCSR from a 512 byte image.
pub open spec fn fxrstor_spec(machine: Machine, instruction: Instruction) -> (Machine, Result<(), CpuError>) {
    match machine.translate(machine.effective_address(instruction), AccessKind::Read) {
        Err(error) => (machine, Err(error)),
        Ok(physical) => if !fits(machine.memory, physical, 512) {
            (machine, Err(CpuError::OutOfRange { address: physical }))
        } else {
            let control = load_word(machine.memory, physical, 2)->Ok_0;
            let status = load_word(machine.memory, (physical + 2) as u64, 2)->Ok_0;
            let mxcsr = load_word(machine.memory, (physical + 24) as u64, 4)->Ok_0;
            (
                Machine {
                    fpu: FpuState { control: control as u16, status: status as u16, ..machine.fpu },
                    mxcsr: mxcsr as u32,
                    ..machine
                },
                Ok(()),
            )
        },
    }
}

fn fxrstor(cpu: &mut Cpu, instruction: &Instruction) -> (result: Result<(), CpuError>)
    ensures
        (final(cpu)@, result) == fxrstor_spec(old(cpu)@, *instruction),
{
    let linear = cpu.effective_address(instruction);
    let physical = cpu.translate(linear, AccessKind::Read)?;
    let length = cpu.memory.bytes.len() as u64;
    if physical > length || length - physical < 512 {
        return Err(CpuError::OutOfRange { address: physical });
    }
    let control = cpu.memory.load_word(physical, 2)?;
    let status = cpu.memory.load_word(physical + 2, 2)?;
    let mxcsr = cpu.memory.load_word(physical + 24, 4)?;
    cpu.fpu.control = control as u16;
    cpu.fpu.status = status as u16;
    cpu.mxcsr = mxcsr as u32;
    Ok(())
}

/// FXRSTOR gives back the control words and MXCSR that FXSAVE stored at the same operand,
/// whatever they have become since, wherever the image does not lie over the page tables
/// that lead to it.
pub proof fn restore_undoes_save(machine: Machine, instruction: Instruction, fpu: FpuState, mxcsr: u32, physical: u64)
    requires
        machine.translate(machine.effective_address(instruction), AccessKind::Write) == Ok::<u64, CpuError>(physical),
        fxsave_spec(machine, instruction).0.translate(machine.effective_address(instruction), AccessKind::Read) == Ok::<
            u64,
            CpuError,
        >(physical),
        fits(machine.memory, physical, 512),
        machine.memory.len() <= u64::MAX,
    ensures
        ({
            let (saved, result) = fxsave_spec(machine, instruction);
            let changed = Machine { fpu, mxcsr, ..saved };
            &&& result is Ok
            &&& fxrstor_spec(changed, instruction) == (
                (Machine {
                    fpu: FpuState { control: machine.fpu.control, status: machine.fpu.status, ..fpu },
                    mxcsr: machine.mxcsr,
                    ..saved
                }),
                Ok::<(), CpuError>(()),
            )
        }),
{
    let image = fxsave_image(machine);
    lemma_image(machine);
    let saved = fxsave_spec(machine, instruction).0;
    let changed = Machine { fpu, mxcsr, ..saved };
    let linear = machine.effective_address(instruction);
    lemma_same_translation(changed, saved, linear, AccessKind::Read, saved.regs.cpl() == 3);
    assert(changed.effective_address(instruction) == linear);
    assert(changed.translate(linear, AccessKind::Read) == Ok::<u64, CpuError>(physical));
    let at = physical as int;
    assert(changed.memory == crate::cpu::memory::patched(machine.memory, physical, image));
    assert(fits(changed.memory, physical, 512));
    assert(changed.memory.subrange(at, at + 2) =~= image.subrange(0, 2));
    assert(changed.memory.subrange(at + 2, at + 4) =~= image.subrange(2, 4));
    assert(changed.memory.subrange(at + 24, at + 28) =~= image.subrange(24, 28));
    assert(load_word(changed.memory, physical, 2) == Ok::<u64, CpuError>(machine.fpu.control as u64));
    assert(load_word(changed.memory, (physical + 2) as u64, 2) == Ok::<u64, CpuError>(machine.fpu.status as u64));
    assert(load_word(changed.memory, (physical + 24) as u64, 4) == Ok::<u64, CpuError>(machine.mxcsr as u64));
}

proof fn lemma_image(machine: Machine)
    ensures
        fxsave_image(machine).len() == 512,
        le_value(fxsave_image(machine).subrange(0, 2)) == machine.fpu.control,
        le_value(fxsave_image(machine).subrange(2, 4)) == machine.fpu.status,
        le_value(fxsave_image(machine).subrange(24, 28)) == machine.mxcsr,
{
    let image = fxsave_image(machine);
    let control = le_bytes(machine.fpu.control as nat, 2);
    let status = le_bytes(machine.fpu.status as nat, 2);
    let mxcsr = le_bytes(machine.mxcsr as nat, 4);
    crate::arith::lemma_le_bytes_len(machine.fpu.control as nat, 2);
    crate::arith::lemma_le_bytes_len(machine.fpu.status as nat, 2);
    crate::arith::lemma_le_bytes_len(0xFFFF, 2);
    crate::arith::lemma_le_bytes_len(0, 18);
    crate::arith::lemma_le_bytes_len(machine.mxcsr as nat, 4);
    crate::arith::lemma_le_bytes_len(0, 484);
    assert(image.subrange(0, 2) =~= control);
    assert(image.subrange(2, 4) =~= status);
    assert(image.subrange(24, 28) =~= mxcsr);
    crate::arith::lemma_le_round_trip(machine.fpu.control as nat, 2);
    crate::arith::lemma_le_round_trip(machine.fpu.status as nat, 2);
    crate::arith::lemma_le_round_trip(machine.mxcsr as nat, 4);
    lemma2_to64();
    assert(crate::arith::byte_span(2) == 0x1_0000);
    assert(crate::arith::byte_span(4) == 0x1_0000_0000);
    vstd::arithmetic::div_mod::lemma_small_mod(machine.fpu.control as nat, crate::arith::byte_span(2));
    vstd::arithmetic::div_mod::lemma_small_mod(machine.fpu.status as nat, crate::arith::byte_span(2));
    vstd::arithmetic::div_mod::lemma_small_mod(machine.mxcsr as nat, crate::arith::byte_span(4));
}

/// Stores a control word at the memory operand.
pub open spec fn store_word16(machine: Machine, instruction: Instruction, value: u16) -> (Machine, Result<(), CpuError>) {
    match machine.translate(machine.effective_address(instruction), AccessKind::Write) {
        Err(error) => (machine, Err(error)),
        Ok(physical) => machine.store_physical(physical, 2, value as u128),
    }
}

pub fn write_word16(cpu: &mut Cpu, instruction: &Instruction, value: u16) -> (result: Result<(), CpuError>)
    ensures
        (final(cpu)@, result) == store_word16(old(cpu)@, *instruction, value),
{
    let linear = cpu.effective_address(instruction);
    let physical = cpu.translate(linear, AccessKind::Write)?;
    cpu.store_physical(physical, 2, value as u128)
}

/// Loads the x87 control word from the memory operand.
pub open spec fn fldcw_spec(machine: Machine, instruction: Instruction) -> (Machine, Result<(), CpuError>) {
    match machine.translate(machine.effective_address(instruction), AccessKind::Read) {
        Err(error) => (machine, Err(error)),
        Ok(physical) => match load_word(machine.memory, physical, 2) {
            Err(error) => (machine, Err(error)),
            Ok(value) => (machine.set_fpu(FpuState { control: value as u16, ..machine.fpu }), Ok(())),
        },
    }
}

pub fn fldcw(cpu: &mut Cpu, instruction: &Instruction) -> (result: Result<(), CpuError>)
    ensures
        (final(cpu)@, result) == fldcw_spec(old(cpu)@, *instruction),
{
    let linear = cpu.effective_address(instruction);
    let physical = cpu.translate(linear, AccessKind::Read)?;
    let value = cpu.memory.load_word(physical, 2)?;
    cpu.fpu.control = value as u16;
    Ok(())
}

/// Stores the x87 status word in memory or AX.
pub open spec fn fnstsw_spec(machine: Machine, instruction: Instruction) -> (Machine, Result<(), CpuError>) {
    if instruction.op0_kind == op_kind::MEMORY {
        store_word16(machine, instruction, machine.fpu.status)
    } else {
        (machine.reg_write(register::AX, 2, machine.fpu.status as u64), Ok(()))
    }
}

pub fn fnstsw(cpu: &mut Cpu, instruction: &Instruction) -> (result: Result<(), CpuError>)
    ensures
        (final(cpu)@, result) == fnstsw_spec(old(cpu)@, *instruction),
{
    let status = cpu.fpu.status;
    if instruction.op0_kind == op_kind::MEMORY {
        write_word16(cpu, instruction, status)
    } else {
        write_register(&mut cpu.regs, register::AX, 2, status as u64);
        Ok(())
    }
}

/// The number of one bits of the second operand.
pub open spec fn popcnt_spec(machine: Machine, instruction: Instruction) -> (Machine, Result<(), CpuError>) {
    let size = operand_size_spec(instruction, 1);
    let source = if instruction.op1_kind == op_kind::MEMORY {
        machine.read_operand(instruction, memory_size_spec(instruction))
    } else {
        Ok(reg_read(machine.regs, instruction.op1_register, size))
    };
    match source {
        Err(error) => (machine, Err(error)),
        Ok(value) => {
            let flags = with_flag(machine.regs.rflags, ZF, value == 0) & !CF;
            (
                machine.set_flags(flags).reg_write(instruction.op0_register, size, ones(value as nat) as u64),
                Ok(()),
            )
        },
    }
}

fn popcnt(cpu: &mut Cpu, instruction: &Instruction) -> (result: Result<(), CpuError>)
    ensures
        (final(cpu)@, result) == popcnt_spec(old(cpu)@, *instruction),
{
    let size = operand_size(instruction, 1);
    let value = if instruction.op1_kind == op_kind::MEMORY {
        cpu.read_operand(instruction, memory_size(instruction))?
    } else {
        read_register(&cpu.regs, instruction.op1_register, size)
    };
    cpu.regs.rflags = set_flag(cpu.regs.rflags, ZF, value == 0) & !CF;
    write_register(&mut cpu.regs, instruction.op0_register, size, count_ones(value));
    Ok(())
}

/// Turns the bytes of the operand around.
pub open spec fn bswap_spec(machine: Machine, instruction: Instruction) -> (Machine, Result<(), CpuError>) {
    let size = operand_size_spec(instruction, 0);
    match machine.read_operand0(instruction) {
        Err(error) => (machine, Err(error)),
        Ok(value) => if size == 4 || size == 8 {
            machine.write_operand0(instruction, byte_swapped(value, size as nat))
        } else {
            (machine, Err(CpuError::UnimplementedInstruction { code: instruction.code, address: machine.regs.rip }))
        },
    }
}

fn bswap(cpu: &mut Cpu, instruction: &Instruction) -> (result: Result<(), CpuError>)
    ensures
        (final(cpu)@, result) == bswap_spec(old(cpu)@, *instruction),
{
    let size = operand_size(instruction, 0);
    let value = read_operand0(cpu, instruction)?;
    if size == 4 || size == 8 {
        write_operand0(cpu, instruction, byte_swap(value, size as usize))
    } else {
        Err(CpuError::UnimplementedInstruction { code: instruction.code, address: cpu.regs.rip })
    }
}

/// The number that RDRAND and RDSEED make of the time-stamp counter.
pub open spec fn scrambled(tsc: u64) -> u64 {
    tsc.wrapping_mul(0x9E37_79B9_7F4A_7C15) | 1
}

/// The remaining integer and state instructions.
pub open spec fn extra_op_spec(machine: Machine, instruction: Instruction) -> (Machine, Result<(), CpuError>) {
    let regs = machine.regs;
    match instruction.mnemonic {
        mnemonic::BSWAP => bswap_spec(machine, instruction),
        mnemonic::POPCNT => popcnt_spec(machine, instruction),
        mnemonic::UD2 => machine.raise(VECTOR_INVALID_OPCODE, None),
        mnemonic::RDRAND | mnemonic::RDSEED => machine.set_flags(regs.rflags | CF).write_sized0(
            instruction,
            operand_size_spec(instruction, 0),
            scrambled(machine.tsc),
        ),
        mnemonic::PREFETCHT0 | mnemonic::PREFETCHT1 | mnemonic::PREFETCHT2 | mnemonic::PREFETCHNTA | mnemonic::CLFLUSH
        | mnemonic::CLFLUSHOPT | mnemonic::ENDBR64 | mnemonic::ENDBR32 | mnemonic::WAIT => (machine, Ok(())),
        mnemonic::FXSAVE => fxsave_spec(machine, instruction),
        mnemonic::FXRSTOR => fxrstor_spec(machine, instruction),
        mnemonic::FNINIT => (machine.set_fpu(FpuState { control: 0x037F, status: 0, ..machine.fpu }), Ok(())),
        mnemonic::FNSTCW => store_word16(machine, instruction, machine.fpu.control),
        mnemonic::FLDCW => fldcw_spec(machine, instruction),
        mnemonic::FNSTSW => fnstsw_spec(machine, instruction),
        mnemonic::FNCLEX => (machine.set_fpu(FpuState { status: machine.fpu.status & 0xFF00, ..machine.fpu }), Ok(())),
        mnemonic::SHLD | mnemonic::SHRD => shld_shrd_spec(machine, instruction),
        mnemonic::SWAPGS => (
            Machine {
                regs: RegisterState { gs: SegmentRegister { base: machine.kernel_gs_base, ..regs.gs }, ..regs },
                kernel_gs_base: regs.gs.base,
                ..machine
            },
            Ok(()),
        ),
        mnemonic::XGETBV => (
            machine.set_edx_eax(if reg_read(regs, register::ECX, 4) == 0 {
                machine.xcr0
            } else {
                0
            }),
            Ok(()),
        ),
        mnemonic::XSETBV => if reg_read(regs, register::ECX, 4) == 0 {
            (Machine { xcr0: machine.edx_eax() % 8, ..machine }, Ok(()))
        } else {
            (machine, Ok(()))
        },
        _ => (machine, Err(CpuError::UnimplementedInstruction { code: instruction.code, address: regs.rip })),
    }
}

pub fn extra_op(cpu: &mut Cpu, instruction: &Instruction) -> (result: Result<(), CpuError>)
    ensures
        (final(cpu)@, result) == extra_op_spec(old(cpu)@, *instruction),
{
    match instruction.mnemonic {
        mnemonic::BSWAP => bswap(cpu, instruction),
        mnemonic::POPCNT => popcnt(cpu, instruction),
        mnemonic::UD2 => cpu.raise(VECTOR_INVALID_OPCODE, None),
        mnemonic::RDRAND | mnemonic::RDSEED => {
            let value = cpu.tsc.wrapping_mul(0x9E37_79B9_7F4A_7C15) | 1;
            cpu.regs.rflags = cpu.regs.rflags | CF;
            write_sized0(cpu, instruction, operand_size(instruction, 0), value)
        },
        mnemonic::PREFETCHT0 | mnemonic::PREFETCHT1 | mnemonic::PREFETCHT2 | mnemonic::PREFETCHNTA | mnemonic::CLFLUSH
        | mnemonic::CLFLUSHOPT | mnemonic::ENDBR64 | mnemonic::ENDBR32 | mnemonic::WAIT => Ok(()),
        mnemonic::FXSAVE => fxsave(cpu, instruction),
        mnemonic::FXRSTOR => fxrstor(cpu, instruction),
        mnemonic::FNINIT => {
            cpu.fpu.control = 0x037F;
            cpu.fpu.status = 0;
            Ok(())
        },
        mnemonic::FNSTCW => {
            let control = cpu.fpu.control;
            write_word16(cpu, instruction, control)
        },
        mnemonic::FLDCW => fldcw(cpu, instruction),
        mnemonic::FNSTSW => fnstsw(cpu, instruction),
        mnemonic::FNCLEX => {
            cpu.fpu.status = cpu.fpu.status & 0xFF00;
            Ok(())
        },
        mnemonic::SHLD | mnemonic::SHRD => shld_shrd(cpu, instruction),
        mnemonic::SWAPGS => {
            let base = cpu.regs.gs.base;
            cpu.regs.gs.base = cpu.kernel_gs_base;
            cpu.kernel_gs_base = base;
            Ok(())
        },
        mnemonic::XGETBV => {
            let value = if read_register(&cpu.regs, register::ECX, 4) == 0 { cpu.xcr0 } else { 0 };
            set_edx_eax(cpu, value);
            Ok(())
        },
        mnemonic::XSETBV => {
            if read_register(&cpu.regs, register::ECX, 4) == 0 {
                cpu.xcr0 = edx_eax(cpu) % 8;
            }
            Ok(())
        },
        _ => Err(CpuError::UnimplementedInstruction { code: instruction.code, address: cpu.regs.rip }),
    }
}

} // verus!
