//! Control flow: jumps, calls, returns, setcc, and flag operations.

use vstd::arithmetic::power2::pow2;
use vstd::prelude::*;

use crate::arch::registers::{contains, holds, CpuMode, CF, DF, FLAGS_DEFINED, IF, OF, PF, RSP, SF, ZF};
use crate::arch::segments::SegmentSelector;
use crate::arith::{low_bits, signed_of};
use crate::cpu::{Cpu, CpuError, Machine};
use crate::decode::{mnemonic, op_kind, register, Instruction};
use crate::ops::{
    arithmetic_flags, arithmetic_flags_read_back, memory_size, memory_size_spec, read_register, reg_read, sub_result,
    write_register, write_sized0,
};

verus! {

/// The sixteen conditions on the status flags.
#[derive(Clone, Copy, PartialEq, Eq, Structural, Debug)]
pub enum Condition {
    O,
    No,
    B,
    Ae,
    E,
    Ne,
    Be,
    A,
    S,
    Ns,
    P,
    Np,
    L,
    Ge,
    Le,
    G,
}

/// The condition that a jump or a set tests.
pub open spec fn condition_spec(mnemonic: u16) -> Option<Condition> {
    match mnemonic {
        mnemonic::JO | mnemonic::SETO => Some(Condition::O),
        mnemonic::JNO | mnemonic::SETNO => Some(Condition::No),
        mnemonic::JB | mnemonic::SETB => Some(Condition::B),
        mnemonic::JAE | mnemonic::SETAE => Some(Condition::Ae),
        mnemonic::JE | mnemonic::SETE => Some(Condition::E),
        mnemonic::JNE | mnemonic::SETNE => Some(Condition::Ne),
        mnemonic::JBE | mnemonic::SETBE => Some(Condition::Be),
        mnemonic::JA | mnemonic::SETA => Some(Condition::A),
        mnemonic::JS | mnemonic::SETS => Some(Condition::S),
        mnemonic::JNS | mnemonic::SETNS => Some(Condition::Ns),
        mnemonic::JP | mnemonic::SETP => Some(Condition::P),
        mnemonic::JNP | mnemonic::SETNP => Some(Condition::Np),
        mnemonic::JL | mnemonic::SETL => Some(Condition::L),
        mnemonic::JGE | mnemonic::SETGE => Some(Condition::Ge),
        mnemonic::JLE | mnemonic::SETLE => Some(Condition::Le),
        mnemonic::JG | mnemonic::SETG => Some(Condition::G),
        _ => None,
    }
}

pub fn condition_of(mnemonic: u16) -> (condition: Option<Condition>)
    ensures
        condition == condition_spec(mnemonic),
{
    match mnemonic {
        mnemonic::JO | mnemonic::SETO => Some(Condition::O),
        mnemonic::JNO | mnemonic::SETNO => Some(Condition::No),
        mnemonic::JB | mnemonic::SETB => Some(Condition::B),
        mnemonic::JAE | mnemonic::SETAE => Some(Condition::Ae),
        mnemonic::JE | mnemonic::SETE => Some(Condition::E),
        mnemonic::JNE | mnemonic::SETNE => Some(Condition::Ne),
        mnemonic::JBE | mnemonic::SETBE => Some(Condition::Be),
        mnemonic::JA | mnemonic::SETA => Some(Condition::A),
        mnemonic::JS | mnemonic::SETS => Some(Condition::S),
        mnemonic::JNS | mnemonic::SETNS => Some(Condition::Ns),
        mnemonic::JP | mnemonic::SETP => Some(Condition::P),
        mnemonic::JNP | mnemonic::SETNP => Some(Condition::Np),
        mnemonic::JL | mnemonic::SETL => Some(Condition::L),
        mnemonic::JGE | mnemonic::SETGE => Some(Condition::Ge),
        mnemonic::JLE | mnemonic::SETLE => Some(Condition::Le),
        mnemonic::JG | mnemonic::SETG => Some(Condition::G),
        _ => None,
    }
}

/// Whether the flags meet a condition.
pub open spec fn met(condition: Condition, flags: u64) -> bool {
    let cf = holds(flags, CF);
    let zf = holds(flags, ZF);
    let sf = holds(flags, SF);
    let of = holds(flags, OF);
    let pf = holds(flags, PF);
    match condition {
        Condition::O => of,
        Condition::No => !of,
        Condition::B => cf,
        Condition::Ae => !cf,
        Condition::E => zf,
        Condition::Ne => !zf,
        Condition::Be => cf || zf,
        Condition::A => !cf && !zf,
        Condition::S => sf,
        Condition::Ns => !sf,
        Condition::P => pf,
        Condition::Np => !pf,
        Condition::L => sf != of,
        Condition::Ge => sf == of,
        Condition::Le => zf || sf != of,
        Condition::G => !zf && sf == of,
    }
}

pub fn condition_holds(condition: Condition, flags: u64) -> (held: bool)
    ensures
        held == met(condition, flags),
{
    let cf = contains(flags, CF);
    let zf = contains(flags, ZF);
    let sf = contains(flags, SF);
    let of = contains(flags, OF);
    let pf = contains(flags, PF);
    match condition {
        Condition::O => of,
        Condition::No => !of,
        Condition::B => cf,
        Condition::Ae => !cf,
        Condition::E => zf,
        Condition::Ne => !zf,
        Condition::Be => cf || zf,
        Condition::A => !cf && !zf,
        Condition::S => sf,
        Condition::Ns => !sf,
        Condition::P => pf,
        Condition::Np => !pf,
        Condition::L => sf != of,
        Condition::Ge => sf == of,
        Condition::Le => zf || sf != of,
        Condition::G => !zf && sf == of,
    }
}

/// After a comparison the conditions tell the order of the operands: equality, the order
/// of their unsigned readings and that of their signed ones.
pub proof fn conditions_tell_the_order(flags: u64, left: u64, right: u64, bits: u32)
    requires
        1 <= bits <= 64,
    ensures
        ({
            let after = arithmetic_flags(flags, sub_result(left, right, false, bits), bits);
            let l = low_bits(left as int, bits as nat);
            let r = low_bits(right as int, bits as nat);
            let sl = signed_of(left as int, bits as nat);
            let sr = signed_of(right as int, bits as nat);
            &&& met(Condition::E, after) == (l == r)
            &&& met(Condition::Ne, after) == (l != r)
            &&& met(Condition::B, after) == (l < r)
            &&& met(Condition::Be, after) == (l <= r)
            &&& met(Condition::A, after) == (l > r)
            &&& met(Condition::Ae, after) == (l >= r)
            &&& met(Condition::L, after) == (sl < sr)
            &&& met(Condition::Le, after) == (sl <= sr)
            &&& met(Condition::G, after) == (sl > sr)
            &&& met(Condition::Ge, after) == (sl >= sr)
        }),
{
    let n = bits as nat;
    let p = pow2(n) as int;
    let outcome = sub_result(left, right, false, bits);
    let l = low_bits(left as int, n);
    let r = low_bits(right as int, n);
    arithmetic_flags_read_back(flags, outcome, bits);
    vstd::arithmetic::power2::lemma_pow2_pos(n);
    vstd::arithmetic::div_mod::lemma_mod_bound(left as int, p);
    vstd::arithmetic::div_mod::lemma_mod_bound(right as int, p);
    lemma_difference(left, right, bits);
    crate::ops::lemma_mod_once(l - r, p);
}

/// The low bits of a difference are those of the difference of the low bits.
pub proof fn lemma_difference(left: u64, right: u64, bits: u32)
    requires
        1 <= bits <= 64,
    ensures
        low_bits(sub_result(left, right, false, bits).result as int, bits as nat) == low_bits(
            low_bits(left as int, bits as nat) - low_bits(right as int, bits as nat),
            bits as nat,
        ),
{
    let n = bits as nat;
    vstd::arithmetic::power2::lemma2_to64();
    vstd::arithmetic::power2::lemma_pow2_pos(n);
    crate::arith::lemma_low_bits_of_wide(left - right, n, 64);
    vstd::arithmetic::div_mod::lemma_sub_mod_noop(left as int, right as int, pow2(n) as int);
}

/// Each condition is met exactly where its opposite is not.
pub proof fn opposite_conditions_exclude_each_other(flags: u64)
    ensures
        met(Condition::O, flags) != met(Condition::No, flags),
        met(Condition::B, flags) != met(Condition::Ae, flags),
        met(Condition::E, flags) != met(Condition::Ne, flags),
        met(Condition::Be, flags) != met(Condition::A, flags),
        met(Condition::S, flags) != met(Condition::Ns, flags),
        met(Condition::P, flags) != met(Condition::Np, flags),
        met(Condition::L, flags) != met(Condition::Ge, flags),
        met(Condition::Le, flags) != met(Condition::G, flags),
{
}

impl Machine {
    /// Continues at `target`, cut to the width of the mode's instruction pointer.
    pub open spec fn jump_to(self, target: u64) -> Machine {
        self.set_rip(match self.regs.mode() {
            CpuMode::Long => target,
            CpuMode::Protected32 => target % 0x1_0000_0000,
            _ => target % 0x1_0000,
        })
    }

    /// Loads the code segment and continues at `target`, whose width the new segment
    /// decides.
    pub open spec fn jump_far(self, selector: u16, target: u64) -> (Machine, Result<(), CpuError>) {
        match self.segment_for(SegmentSelector(selector)) {
            Err(error) => (self, Err(error)),
            Ok(segment) => (
                self.set_regs(self.regs.set_segment(register::CS, segment)).jump_to(target),
                Ok(()),
            ),
        }
    }
}

fn set_rip(cpu: &mut Cpu, target: u64)
    ensures
        final(cpu)@ == old(cpu)@.jump_to(target),
{
    cpu.regs.rip = match cpu.regs.mode() {
        CpuMode::Long => target,
        CpuMode::Protected32 => target % 0x1_0000_0000,
        _ => target % 0x1_0000,
    };
}

fn jump_far(cpu: &mut Cpu, selector: u16, target: u64) -> (result: Result<(), CpuError>)
    ensures
        (final(cpu)@, result) == old(cpu)@.jump_far(selector, target),
{
    let segment = cpu.segment_for(SegmentSelector(selector))?;
    cpu.set_segment(register::CS, segment);
    set_rip(cpu, target);
    Ok(())
}

pub open spec fn is_far(kind: u8) -> bool {
    kind == op_kind::FAR_BRANCH16 || kind == op_kind::FAR_BRANCH32
}

pub open spec fn is_near(kind: u8) -> bool {
    kind == op_kind::NEAR_BRANCH16 || kind == op_kind::NEAR_BRANCH32 || kind == op_kind::NEAR_BRANCH64
}

fn far(kind: u8) -> (found: bool)
    ensures
        found == is_far(kind),
{
    kind == op_kind::FAR_BRANCH16 || kind == op_kind::FAR_BRANCH32
}

fn near(kind: u8) -> (found: bool)
    ensures
        found == is_near(kind),
{
    kind == op_kind::NEAR_BRANCH16 || kind == op_kind::NEAR_BRANCH32 || kind == op_kind::NEAR_BRANCH64
}

/// The counter register of the mode, as LOOP uses it.
pub open spec fn counter_register_spec(mode: CpuMode) -> u8 {
    match mode {
        CpuMode::Long => register::RCX,
        CpuMode::Protected32 => register::ECX,
        _ => register::CX,
    }
}

fn counter_register(mode: CpuMode) -> (number: u8)
    ensures
        number == counter_register_spec(mode),
{
    match mode {
        CpuMode::Long => register::RCX,
        CpuMode::Protected32 => register::ECX,
        _ => register::CX,
    }
}

/// An unconditional jump.
pub open spec fn jmp_spec(machine: Machine, instruction: Instruction) -> (Machine, Result<(), CpuError>) {
    let kind = instruction.op0_kind;
    if is_far(kind) {
        machine.jump_far(instruction.far_selector, instruction.far_offset as u64)
    } else if is_near(kind) {
        (machine.jump_to(instruction.near_branch_target), Ok(()))
    } else if kind == op_kind::MEMORY {
        match machine.read_operand(instruction, memory_size_spec(instruction)) {
            Err(error) => (machine, Err(error)),
            Ok(target) => (machine.jump_to(target), Ok(())),
        }
    } else {
        (machine, Err(CpuError::UnimplementedInstruction { code: instruction.code, address: machine.regs.rip }))
    }
}

fn jmp(cpu: &mut Cpu, instruction: &Instruction) -> (result: Result<(), CpuError>)
    ensures
        (final(cpu)@, result) == jmp_spec(old(cpu)@, *instruction),
{
    let kind = instruction.op0_kind;
    if far(kind) {
        jump_far(cpu, instruction.far_selector, instruction.far_offset as u64)
    } else if near(kind) {
        set_rip(cpu, instruction.near_branch_target);
        Ok(())
    } else if kind == op_kind::MEMORY {
        let target = cpu.read_operand(instruction, memory_size(instruction))?;
        set_rip(cpu, target);
        Ok(())
    } else {
        Err(CpuError::UnimplementedInstruction { code: instruction.code, address: cpu.regs.rip })
    }
}

/// LOOP and its conditional forms count the whole counter register down, as the
/// mode names it, and jump while it is not zero.
pub open spec fn loop_spec(machine: Machine, instruction: Instruction) -> Machine {
    let number = counter_register_spec(machine.regs.mode());
    let counted = machine.reg_write(number, 8, reg_read(machine.regs, number, 8).wrapping_sub(1));
    let nonzero = reg_read(counted.regs, number, 8) != 0;
    let taken = nonzero && match instruction.mnemonic {
        mnemonic::LOOPE => holds(machine.regs.rflags, ZF),
        mnemonic::LOOPNE => !holds(machine.regs.rflags, ZF),
        _ => true,
    };
    if taken {
        counted.jump_to(instruction.near_branch_target)
    } else {
        counted
    }
}

fn loop_op(cpu: &mut Cpu, instruction: &Instruction)
    ensures
        final(cpu)@ == loop_spec(old(cpu)@, *instruction),
{
    let number = counter_register(cpu.regs.mode());
    let value = read_register(&cpu.regs, number, 8).wrapping_sub(1);
    write_register(&mut cpu.regs, number, 8, value);
    let nonzero = read_register(&cpu.regs, number, 8) != 0;
    let zero_flag = contains(cpu.regs.rflags, ZF);
    let taken = nonzero && match instruction.mnemonic {
        mnemonic::LOOPE => zero_flag,
        mnemonic::LOOPNE => !zero_flag,
        _ => true,
    };
    if taken {
        set_rip(cpu, instruction.near_branch_target);
    }
}

/// JMP, LOOP and the jumps on an empty counter.
pub open spec fn jump_spec(machine: Machine, instruction: Instruction) -> (Machine, Result<(), CpuError>) {
    match instruction.mnemonic {
        mnemonic::JMP => jmp_spec(machine, instruction),
        mnemonic::LOOP | mnemonic::LOOPE | mnemonic::LOOPNE => (loop_spec(machine, instruction), Ok(())),
        mnemonic::JCXZ => (jump_where(machine, instruction, reg_read(machine.regs, register::CX, 2) == 0), Ok(())),
        mnemonic::JECXZ => (jump_where(machine, instruction, reg_read(machine.regs, register::ECX, 4) == 0), Ok(())),
        mnemonic::JRCXZ => (jump_where(machine, instruction, reg_read(machine.regs, register::RCX, 8) == 0), Ok(())),
        _ => (machine, Ok(())),
    }
}

/// Jumps to the near target where `taken` holds.
pub open spec fn jump_where(machine: Machine, instruction: Instruction, taken: bool) -> Machine {
    if taken {
        machine.jump_to(instruction.near_branch_target)
    } else {
        machine
    }
}

fn jump_if(cpu: &mut Cpu, instruction: &Instruction, taken: bool)
    ensures
        final(cpu)@ == jump_where(old(cpu)@, *instruction, taken),
{
    if taken {
        set_rip(cpu, instruction.near_branch_target);
    }
}

pub fn jump(cpu: &mut Cpu, instruction: &Instruction) -> (result: Result<(), CpuError>)
    ensures
        (final(cpu)@, result) == jump_spec(old(cpu)@, *instruction),
{
    match instruction.mnemonic {
        mnemonic::JMP => {
            return jmp(cpu, instruction);
        },
        mnemonic::LOOP | mnemonic::LOOPE | mnemonic::LOOPNE => loop_op(cpu, instruction),
        mnemonic::JCXZ => {
            let taken = read_register(&cpu.regs, register::CX, 2) == 0;
            jump_if(cpu, instruction, taken);
        },
        mnemonic::JECXZ => {
            let taken = read_register(&cpu.regs, register::ECX, 4) == 0;
            jump_if(cpu, instruction, taken);
        },
        mnemonic::JRCXZ => {
            let taken = read_register(&cpu.regs, register::RCX, 8) == 0;
            jump_if(cpu, instruction, taken);
        },
        _ => {},
    }
    Ok(())
}

/// Jumps where the mnemonic's condition holds.
pub fn jcc(cpu: &mut Cpu, instruction: &Instruction) -> (result: Result<(), CpuError>)
    requires
        condition_spec(instruction.mnemonic) is Some,
    ensures
        final(cpu)@ == jump_where(
            old(cpu)@,
            *instruction,
            met(condition_spec(instruction.mnemonic)->0, old(cpu)@.regs.rflags),
        ),
        result is Ok,
{
    match condition_of(instruction.mnemonic) {
        Some(condition) => {
            let taken = condition_holds(condition, cpu.regs.rflags);
            jump_if(cpu, instruction, taken);
            Ok(())
        },
        None => Ok(()),
    }
}

/// Pushes the return address and jumps; a far call pushes the code selector first.
pub open spec fn call_spec(machine: Machine, instruction: Instruction) -> (Machine, Result<(), CpuError>) {
    let kind = instruction.op0_kind;
    if is_far(kind) {
        match machine.push_native(machine.regs.cs.selector.0 as u64) {
            (pushed, Err(error)) => (pushed, Err(error)),
            (pushed, Ok(done)) => match pushed.push_native(pushed.regs.rip) {
                (again, Err(error)) => (again, Err(error)),
                (again, Ok(done)) => again.jump_far(instruction.far_selector, instruction.far_offset as u64),
            },
        }
    } else if is_near(kind) {
        call_near(machine, instruction.near_branch_target)
    } else if kind == op_kind::MEMORY {
        match machine.read_operand(instruction, memory_size_spec(instruction)) {
            Err(error) => (machine, Err(error)),
            Ok(target) => call_near(machine, target),
        }
    } else {
        (machine, Err(CpuError::UnimplementedInstruction { code: instruction.code, address: machine.regs.rip }))
    }
}

pub open spec fn call_near(machine: Machine, target: u64) -> (Machine, Result<(), CpuError>) {
    match machine.push_native(machine.regs.rip) {
        (pushed, Err(error)) => (pushed, Err(error)),
        (pushed, Ok(done)) => (pushed.jump_to(target), Ok(())),
    }
}

fn call_to(cpu: &mut Cpu, target: u64) -> (result: Result<(), CpuError>)
    ensures
        (final(cpu)@, result) == call_near(old(cpu)@, target),
{
    let rip = cpu.regs.rip;
    cpu.push_native(rip)?;
    set_rip(cpu, target);
    Ok(())
}

pub fn call(cpu: &mut Cpu, instruction: &Instruction) -> (result: Result<(), CpuError>)
    ensures
        (final(cpu)@, result) == call_spec(old(cpu)@, *instruction),
{
    let kind = instruction.op0_kind;
    if far(kind) {
        let selector = cpu.regs.cs.selector.0;
        cpu.push_native(selector as u64)?;
        let rip = cpu.regs.rip;
        cpu.push_native(rip)?;
        jump_far(cpu, instruction.far_selector, instruction.far_offset as u64)
    } else if near(kind) {
        call_to(cpu, instruction.near_branch_target)
    } else if kind == op_kind::MEMORY {
        let target = cpu.read_operand(instruction, memory_size(instruction))?;
        call_to(cpu, target)
    } else {
        Err(CpuError::UnimplementedInstruction { code: instruction.code, address: cpu.regs.rip })
    }
}

/// The bytes that a return drops from the stack beyond the return address.
pub open spec fn return_extra(instruction: Instruction) -> u64 {
    if instruction.op0_kind == op_kind::IMMEDIATE16 || instruction.op0_kind == op_kind::IMMEDIATE8TO16 {
        instruction.immediate0 % 0x1_0000
    } else {
        0
    }
}

/// Pops the return address, drops the extra bytes and jumps. With a far operand the
/// code selector is popped and loaded in between.
pub open spec fn ret_spec(machine: Machine, instruction: Instruction) -> (Machine, Result<(), CpuError>) {
    match machine.pop_native() {
        (popped, Err(error)) => (popped, Err(error)),
        (popped, Ok(target)) => {
            let loaded = if is_far(instruction.op0_kind) {
                crate::ops::stack::pop_segment_spec(popped, register::CS)
            } else {
                (popped, Ok(()))
            };
            match loaded {
                (after, Err(error)) => (after, Err(error)),
                (after, Ok(done)) => {
                    let pointer = after.regs.gpr[RSP as int].wrapping_add(return_extra(instruction));
                    (after.set_gpr(RSP as int, pointer).jump_to(target), Ok(()))
                },
            }
        },
    }
}

pub fn ret(cpu: &mut Cpu, instruction: &Instruction) -> (result: Result<(), CpuError>)
    ensures
        (final(cpu)@, result) == ret_spec(old(cpu)@, *instruction),
{
    let target = cpu.pop_native()?;
    if far(instruction.op0_kind) {
        crate::ops::stack::pop_segment(cpu, register::CS)?;
    }
    let extra = if instruction.op0_kind == op_kind::IMMEDIATE16 || instruction.op0_kind == op_kind::IMMEDIATE8TO16 {
        instruction.immediate0 % 0x1_0000
    } else {
        0
    };
    let pointer = cpu.regs.gpr[RSP].wrapping_add(extra);
    cpu.regs.set_gpr(RSP, pointer);
    set_rip(cpu, target);
    Ok(())
}

/// Writes one where the mnemonic's condition holds, else zero.
pub fn setcc(cpu: &mut Cpu, instruction: &Instruction) -> (result: Result<(), CpuError>)
    requires
        condition_spec(instruction.mnemonic) is Some,
    ensures
        (final(cpu)@, result) == old(cpu)@.write_sized0(
            *instruction,
            1,
            if met(condition_spec(instruction.mnemonic)->0, old(cpu)@.regs.rflags) {
                1
            } else {
                0
            },
        ),
{
    let held = match condition_of(instruction.mnemonic) {
        Some(condition) => condition_holds(condition, cpu.regs.rflags),
        None => false,
    };
    let value: u64 = if held { 1 } else { 0 };
    write_sized0(cpu, instruction, 1, value)
}

/// The bits that LAHF and SAHF move.
pub const STATUS_FLAGS: u64 = 0xD5;

/// The machine after one of the flag instructions.
pub open spec fn flag_ops_spec(machine: Machine, instruction: Instruction) -> Machine {
    let flags = machine.regs.rflags;
    match instruction.mnemonic {
        mnemonic::STC => machine.set_flags(flags | CF),
        mnemonic::CLC => machine.set_flags(flags & !CF),
        mnemonic::CMC => machine.set_flags(flags ^ CF),
        mnemonic::CLD => machine.set_flags(flags & !DF),
        mnemonic::STD => machine.set_flags(flags | DF),
        mnemonic::CLI => machine.set_flags(flags & !IF),
        mnemonic::STI => machine.set_flags(flags | IF),
        mnemonic::SAHF => machine.set_flags(
            (flags & !STATUS_FLAGS) | (reg_read(machine.regs, register::AH, 1) & FLAGS_DEFINED),
        ),
        mnemonic::LAHF => machine.reg_write(register::AH, 1, flags & STATUS_FLAGS),
        _ => machine,
    }
}

pub fn flag_ops(cpu: &mut Cpu, instruction: &Instruction) -> (result: Result<(), CpuError>)
    ensures
        final(cpu)@ == flag_ops_spec(old(cpu)@, *instruction),
        result is Ok,
{
    let flags = cpu.regs.rflags;
    match instruction.mnemonic {
        mnemonic::STC => cpu.regs.rflags = flags | CF,
        mnemonic::CLC => cpu.regs.rflags = flags & !CF,
        mnemonic::CMC => cpu.regs.rflags = flags ^ CF,
        mnemonic::CLD => cpu.regs.rflags = flags & !DF,
        mnemonic::STD => cpu.regs.rflags = flags | DF,
        mnemonic::CLI => cpu.regs.rflags = flags & !IF,
        mnemonic::STI => cpu.regs.rflags = flags | IF,
        mnemonic::SAHF => {
            let high = read_register(&cpu.regs, register::AH, 1);
            cpu.regs.rflags = (flags & !STATUS_FLAGS) | (high & FLAGS_DEFINED);
        },
        mnemonic::LAHF => write_register(&mut cpu.regs, register::AH, 1, flags & STATUS_FLAGS),
        _ => {},
    }
    Ok(())
}

/// Complementing the carry flag twice gives the flags back.
pub proof fn cmc_twice_is_nothing(flags: u64)
    ensures
        (flags ^ CF) ^ CF == flags,
        holds(flags ^ CF, CF) != holds(flags, CF),
{
    assert((flags ^ 1) ^ 1 == flags && ((flags ^ 1) & 1 == 1) != (flags & 1 == 1)) by (bit_vector);
}

} // verus!
