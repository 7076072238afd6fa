//! Stack operations: push/pop, pushf/popf, enter/leave.

use vstd::prelude::*;

use crate::arch::registers::{CpuMode, RegisterState, FLAGS_DEFINED, RBP, RSP, TF};
use crate::arch::segments::{SegmentRegister, SegmentSelector};
use crate::arith::byte_span;
use crate::cpu::linear::{lemma_same_translation, AccessKind};
use crate::cpu::memory::load_word;
use crate::cpu::stack::{moved_pointer, stack_width};
use crate::cpu::{Cpu, CpuError, Machine};
use crate::decode::{mnemonic, op_kind, register, Instruction};
use crate::ops::arithmetic::{sign_extend, sign_extended};
use crate::ops::{memory_size, memory_size_spec, operand_size, operand_size_spec, read_register, reg_read};

verus! {

/// Whether `number` names one of the six segment registers.
pub open spec fn is_segment(number: u8) -> bool {
    register::ES <= number <= register::GS
}

impl RegisterState {
    /// The registers with `segment` in the segment register `number`.
    pub open spec fn set_segment(self, number: u8, segment: SegmentRegister) -> RegisterState {
        match number {
            register::ES => RegisterState { es: segment, ..self },
            register::CS => RegisterState { cs: segment, ..self },
            register::SS => RegisterState { ss: segment, ..self },
            register::FS => RegisterState { fs: segment, ..self },
            register::GS => RegisterState { gs: segment, ..self },
            _ => RegisterState { ds: segment, ..self },
        }
    }
}

impl Machine {
    /// The segment that `selector` stands for in the current mode.
    pub open spec fn segment_for(self, selector: SegmentSelector) -> Result<SegmentRegister, CpuError> {
        match self.regs.mode() {
            CpuMode::Real | CpuMode::Protected16 => Ok(SegmentRegister::real_mode_spec(selector)),
            _ => self.load_segment(selector),
        }
    }
}

impl Cpu {
    pub fn segment_for(&self, selector: SegmentSelector) -> (segment: Result<SegmentRegister, CpuError>)
        ensures
            segment == self@.segment_for(selector),
    {
        match self.regs.mode() {
            CpuMode::Real | CpuMode::Protected16 => Ok(SegmentRegister::real_mode(selector)),
            _ => self.load_segment_from_table(selector),
        }
    }

    pub fn set_segment(&mut self, number: u8, segment: SegmentRegister)
        ensures
            final(self)@ == old(self)@.set_regs(old(self)@.regs.set_segment(number, segment)),
    {
        match number {
            register::ES => self.regs.es = segment,
            register::CS => self.regs.cs = segment,
            register::SS => self.regs.ss = segment,
            register::FS => self.regs.fs = segment,
            register::GS => self.regs.gs = segment,
            _ => self.regs.ds = segment,
        }
    }
}

/// Pops the flags: the trap flag of before stays set.
pub open spec fn popf_spec(machine: Machine) -> (Machine, Result<(), CpuError>) {
    match machine.pop_native() {
        (popped, Err(error)) => (popped, Err(error)),
        (popped, Ok(value)) => {
            let kept = popped.regs.rflags & TF;
            (popped.set_flags((value & FLAGS_DEFINED) | kept), Ok(()))
        },
    }
}

fn popf(cpu: &mut Cpu) -> (result: Result<(), CpuError>)
    ensures
        (final(cpu)@, result) == popf_spec(old(cpu)@),
{
    let value = cpu.pop_native()?;
    let kept = cpu.regs.rflags & TF;
    cpu.regs.rflags = (value & FLAGS_DEFINED) | kept;
    Ok(())
}

/// Returns the stack pointer to the frame and pops the frame pointer. A pop that
/// fails leaves the stack pointer at the frame.
pub open spec fn leave_spec(machine: Machine) -> (Machine, Result<(), CpuError>) {
    match machine.set_gpr(RSP as int, machine.regs.gpr[RBP as int]).pop_native() {
        (popped, Err(error)) => (popped, Err(error)),
        (popped, Ok(value)) => (popped.set_gpr(RBP as int, value), Ok(())),
    }
}

fn leave(cpu: &mut Cpu) -> (result: Result<(), CpuError>)
    ensures
        (final(cpu)@, result) == leave_spec(old(cpu)@),
{
    let frame = cpu.regs.gpr[RBP];
    cpu.regs.set_gpr(RSP, frame);
    let value = cpu.pop_native()?;
    cpu.regs.set_gpr(RBP, value);
    Ok(())
}

/// Pops a selector and loads the segment register that the operand names.
pub open spec fn pop_segment_spec(machine: Machine, number: u8) -> (Machine, Result<(), CpuError>) {
    match machine.pop_native() {
        (popped, Err(error)) => (popped, Err(error)),
        (popped, Ok(value)) => match popped.segment_for(SegmentSelector(value as u16)) {
            Err(error) => (popped, Err(error)),
            Ok(segment) => (popped.set_regs(popped.regs.set_segment(number, segment)), Ok(())),
        },
    }
}

pub fn pop_segment(cpu: &mut Cpu, number: u8) -> (result: Result<(), CpuError>)
    ensures
        (final(cpu)@, result) == pop_segment_spec(old(cpu)@, number),
{
    let value = cpu.pop_native()?;
    let segment = cpu.segment_for(SegmentSelector(value as u16))?;
    cpu.set_segment(number, segment);
    Ok(())
}

/// The value that PUSH pushes: byte immediates are extended with their sign.
pub open spec fn push_value(machine: Machine, instruction: Instruction) -> Result<u64, CpuError> {
    match instruction.op0_kind {
        op_kind::IMMEDIATE8 | op_kind::IMMEDIATE8TO64 | op_kind::IMMEDIATE8TO16 | op_kind::IMMEDIATE8TO32 => Ok(
            sign_extended(instruction.immediate0, 8),
        ),
        op_kind::MEMORY => machine.read_operand(instruction, memory_size_spec(instruction)),
        _ => Ok(reg_read(machine.regs, instruction.op0_register, operand_size_spec(instruction, 0))),
    }
}

fn value_to_push(cpu: &Cpu, instruction: &Instruction) -> (value: Result<u64, CpuError>)
    ensures
        value == push_value(cpu@, *instruction),
{
    match instruction.op0_kind {
        op_kind::IMMEDIATE8 | op_kind::IMMEDIATE8TO64 | op_kind::IMMEDIATE8TO16 | op_kind::IMMEDIATE8TO32 => Ok(
            sign_extend(instruction.immediate0, 8),
        ),
        op_kind::MEMORY => cpu.read_operand(instruction, memory_size(instruction)),
        _ => Ok(read_register(&cpu.regs, instruction.op0_register, operand_size(instruction, 0))),
    }
}

/// Pops into the first operand.
pub open spec fn pop_spec(machine: Machine, instruction: Instruction) -> (Machine, Result<(), CpuError>) {
    match machine.pop_native() {
        (popped, Err(error)) => (popped, Err(error)),
        (popped, Ok(value)) => popped.write_operand0(instruction, value),
    }
}

fn pop(cpu: &mut Cpu, instruction: &Instruction) -> (result: Result<(), CpuError>)
    ensures
        (final(cpu)@, result) == pop_spec(old(cpu)@, *instruction),
{
    let value = cpu.pop_native()?;
    crate::ops::write_operand0(cpu, instruction, value)
}

/// The stack instructions.
pub open spec fn push_pop_spec(machine: Machine, instruction: Instruction) -> (Machine, Result<(), CpuError>) {
    let number = instruction.op0_register;
    match instruction.mnemonic {
        mnemonic::PUSHF | mnemonic::PUSHFQ | mnemonic::PUSHFD => machine.push_native(machine.regs.rflags),
        mnemonic::POPF | mnemonic::POPFQ | mnemonic::POPFD => popf_spec(machine),
        mnemonic::ENTER => enter_spec(machine, instruction),
        mnemonic::LEAVE => leave_spec(machine),
        mnemonic::POP => if is_segment(number) {
            pop_segment_spec(machine, number)
        } else {
            pop_spec(machine, instruction)
        },
        mnemonic::PUSH => if is_segment(number) {
            machine.push_native(machine.regs.segment(number).selector.0 as u64)
        } else {
            match push_value(machine, instruction) {
                Err(error) => (machine, Err(error)),
                Ok(value) => machine.push_native(value),
            }
        },
        _ => (machine, Ok(())),
    }
}

pub fn push_pop(cpu: &mut Cpu, instruction: &Instruction) -> (result: Result<(), CpuError>)
    ensures
        (final(cpu)@, result) == push_pop_spec(old(cpu)@, *instruction),
{
    let number = instruction.op0_register;
    let segment_operand = register::ES <= number && number <= register::GS;
    match instruction.mnemonic {
        mnemonic::PUSHF | mnemonic::PUSHFQ | mnemonic::PUSHFD => {
            let flags = cpu.regs.rflags;
            cpu.push_native(flags)
        },
        mnemonic::POPF | mnemonic::POPFQ | mnemonic::POPFD => popf(cpu),
        mnemonic::ENTER => enter(cpu, instruction),
        mnemonic::LEAVE => leave(cpu),
        mnemonic::POP => if segment_operand {
            pop_segment(cpu, number)
        } else {
            pop(cpu, instruction)
        },
        mnemonic::PUSH => if segment_operand {
            let selector = cpu.regs.segment(number).selector;
            cpu.push_native(selector.0 as u64)
        } else {
            let value = value_to_push(cpu, instruction)?;
            cpu.push_native(value)
        },
        _ => Ok(()),
    }
}

/// Pushes the enclosing frame pointers from `level` up to, not including, `nesting`.
pub open spec fn push_levels(machine: Machine, frame: u64, level: nat, nesting: nat) -> (Machine, Result<(), CpuError>)
    decreases nesting - level,
{
    if level >= nesting {
        (machine, Ok(()))
    } else {
        let width = stack_width(machine.regs.mode());
        let linear = ((frame - level * width) % 0x1_0000_0000_0000_0000) as u64;
        match machine.translate(linear, AccessKind::Read) {
            Err(error) => (machine, Err(error)),
            Ok(physical) => match load_word(machine.memory, physical, 8) {
                Err(error) => (machine, Err(error)),
                Ok(value) => match machine.push_native(value) {
                    (pushed, Err(error)) => (pushed, Err(error)),
                    (pushed, Ok(done)) => push_levels(pushed, frame, level + 1, nesting),
                },
            },
        }
    }
}

/// Makes a stack frame: the old frame pointer, the enclosing frames' pointers for a
/// nested procedure, and room for the locals.
pub open spec fn enter_spec(machine: Machine, instruction: Instruction) -> (Machine, Result<(), CpuError>) {
    let frame_size = instruction.immediate0 % 0x1_0000;
    let nesting = (instruction.immediate1 % 32) as nat;
    let frame = machine.regs.gpr[RBP as int];
    match machine.push_native(frame) {
        (pushed, Err(error)) => (pushed, Err(error)),
        (pushed, Ok(done)) => {
            let pointer = pushed.regs.gpr[RSP as int];
            let nested = if nesting == 0 {
                (pushed, Ok(()))
            } else {
                match push_levels(pushed, frame, 1, nesting) {
                    (levels, Err(error)) => (levels, Err(error)),
                    (levels, Ok(done)) => levels.push_native(pointer),
                }
            };
            match nested {
                (after, Err(error)) => (after, Err(error)),
                (after, Ok(done)) => {
                    let framed = after.set_gpr(RBP as int, pointer);
                    (
                        framed.set_gpr(RSP as int, framed.regs.gpr[RSP as int].wrapping_sub(frame_size as u64)),
                        Ok(()),
                    )
                },
            }
        },
    }
}

fn push_frames(cpu: &mut Cpu, frame: u64, nesting: u64) -> (result: Result<(), CpuError>)
    requires
        1 <= nesting < 32,
    ensures
        (final(cpu)@, result) == push_levels(old(cpu)@, frame, 1, nesting as nat),
{
    let mut level: u64 = 1;
    let ghost start = cpu@;
    while level < nesting
        invariant
            1 <= level <= nesting < 32,
            start == old(cpu)@,
            push_levels(cpu@, frame, level as nat, nesting as nat) == push_levels(start, frame, 1, nesting as nat),
        decreases nesting - level,
    {
        let width: u64 = match cpu.regs.mode() {
            CpuMode::Long => 8,
            CpuMode::Protected32 => 4,
            _ => 2,
        };
        assert(level * width <= 256) by (nonlinear_arith)
            requires
                0 <= level < 32,
                0 <= width <= 8,
        ;
        let physical = cpu.translate(frame.wrapping_sub(level * width), AccessKind::Read)?;
        let value = cpu.memory.load_word(physical, 8)?;
        cpu.push_native(value)?;
        level = level + 1;
    }
    Ok(())
}

fn enter(cpu: &mut Cpu, instruction: &Instruction) -> (result: Result<(), CpuError>)
    ensures
        (final(cpu)@, result) == enter_spec(old(cpu)@, *instruction),
{
    let frame_size = instruction.immediate0 % 0x1_0000;
    let nesting = instruction.immediate1 % 32;
    let frame = cpu.regs.gpr[RBP];
    cpu.push_native(frame)?;
    let pointer = cpu.regs.gpr[RSP];
    if nesting != 0 {
        push_frames(cpu, frame, nesting)?;
        cpu.push_native(pointer)?;
    }
    cpu.regs.set_gpr(RBP, pointer);
    let top = cpu.regs.gpr[RSP];
    cpu.regs.set_gpr(RSP, top.wrapping_sub(frame_size));
    Ok(())
}

/// A pop gives back what was pushed, as far as the width of the mode goes, and returns the
/// stack pointer.
pub proof fn pop_undoes_push(machine: Machine, value: u64, places: Seq<u64>)
    requires
        machine.regs.gpr.len() == 16,
        machine.regs.mode() == CpuMode::Protected32 ==> machine.regs.gpr[RSP as int] < 0x1_0000_0000,
        places.len() == stack_width(machine.regs.mode()),
        machine.lie_at(
            machine.stack_address(
                moved_pointer(
                    machine.regs.mode(),
                    machine.regs.gpr[RSP as int],
                    -(stack_width(machine.regs.mode()) as int),
                ),
            ),
            machine.regs.cpl() == 3,
            places,
        ),
    ensures
        machine.push_native(value).1 is Ok,
        machine.push_native(value).0.pop_native().1 == Ok::<u64, CpuError>(
            (value as nat % byte_span(stack_width(machine.regs.mode()))) as u64,
        ),
        machine.push_native(value).0.pop_native().0.regs == machine.regs,
{
    let width = stack_width(machine.regs.mode());
    let before = machine.regs.gpr[RSP as int];
    let pointer = moved_pointer(machine.regs.mode(), before, -(width as int));
    let linear = machine.stack_address(pointer);
    let bytes = crate::arith::le_bytes(value as nat, width);
    let user = machine.regs.cpl() == 3;
    lemma_stack_value(value, width);
    lemma_pointer_returns(machine.regs.mode(), before);
    crate::cpu::linear::read_after_write(machine, linear, bytes, user, places);
    let written = machine.linear_store(linear, bytes, user).0;
    let pushed = written.set_gpr(RSP as int, pointer);
    assert(machine.push_native(value) == (pushed, Ok::<(), CpuError>(()))) by {
        reveal(Machine::push_native);
    }
    lemma_bytes_ignore_gpr(written, RSP as int, pointer, linear, width, user);
    let popped = pushed.set_gpr(RSP as int, before);
    assert(pushed.pop_native() == (popped, Ok::<u64, CpuError>((value as nat % byte_span(width)) as u64))) by {
        reveal(Machine::pop_native);
    }
    assert(popped.regs.gpr =~= machine.regs.gpr);
}

proof fn lemma_stack_value(value: u64, width: nat)
    ensures
        crate::arith::le_bytes(value as nat, width).len() == width,
        crate::arith::le_value(crate::arith::le_bytes(value as nat, width)) == value as nat % byte_span(width),
        value as nat % byte_span(width) <= u64::MAX,
{
    crate::arith::lemma_le_bytes_len(value as nat, width);
    crate::arith::lemma_le_round_trip(value as nat, width);
    vstd::arithmetic::power2::lemma_pow2_pos(8 * width);
    vstd::arithmetic::div_mod::lemma_mod_decreases(value as nat, byte_span(width));
}

proof fn lemma_pointer_returns(mode: CpuMode, pointer: u64)
    requires
        mode == CpuMode::Protected32 ==> pointer < 0x1_0000_0000,
    ensures
        moved_pointer(
            mode,
            moved_pointer(mode, pointer, -(stack_width(mode) as int)),
            stack_width(mode) as int,
        ) == pointer,
{
}

proof fn lemma_bytes_ignore_gpr(machine: Machine, index: int, value: u64, linear: u64, count: nat, user: bool)
    ensures
        machine.set_gpr(index, value).linear_bytes(linear, count, user) == machine.linear_bytes(linear, count, user),
    decreases count,
{
    reveal(Machine::linear_bytes);
    if count > 0 {
        lemma_same_translation(machine.set_gpr(index, value), machine, linear, AccessKind::Read, user);
        lemma_bytes_ignore_gpr(machine, index, value, linear.wrapping_add(1), (count - 1) as nat, user);
    }
}

} // verus!
