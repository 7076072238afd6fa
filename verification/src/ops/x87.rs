//! The floating-point unit over a stack of doubles: loads, stores, arithmetic,
//! comparison and control. The ten-byte format is converted on the memory boundary,
//! which is exact for every finite double.

use vstd::prelude::*;

use crate::arch::registers::{set_flag, with_flag, CF, OF, PF, SF, ZF};
use crate::arith::{signed, signed_of, word_of};
use crate::cpu::{Cpu, CpuError, FpuState, GuestFault, Machine};
use crate::decode::{mnemonic, op_kind, register, Instruction};
use crate::ops::effect::{done, finished, Effect, FloatOperation, FloatTarget, FloatWork};
use crate::ops::float::{
    compare, float_of_integer, float_order, infinity, integer_to_float, integer_value, integral, is_nan, is_negative,
    magnitude, nan, negative, round_integral, round_to_integer, size_of_float, widen_single, widened, FloatOrder,
};
use crate::ops::lanes::clamped;
use crate::ops::precision::{
    extended, extended80_to_f64, f64_to_extended80, from_extended, narrow, narrowed,
};
use crate::ops::x87_remainder::CONDITIONS;
use crate::ops::xmm::unknown;

verus! {

impl FpuState {
    /// The place of ST(`index`) in the register file.
    pub open spec fn slot(self, index: int) -> int {
        (self.top + index) % 8
    }

    pub open spec fn st(self, index: int) -> u64 {
        self.stack[self.slot(index)]
    }

    pub open spec fn set_st(self, index: int, value: u64) -> FpuState {
        FpuState { stack: self.stack.update(self.slot(index), value), ..self }
    }

    pub open spec fn pushed(self, value: u64) -> FpuState {
        let top = ((self.top as int + 7) % 8) as u8;
        FpuState { stack: self.stack.update(top as int, value), top, ..self }
    }

    pub open spec fn popped(self) -> FpuState {
        FpuState { top: ((self.top as int + 1) % 8) as u8, ..self }
    }

    /// The state after initialisation.
    pub open spec fn initial() -> FpuState {
        FpuState { stack: Seq::new(8, |i: int| 0u64), top: 0, control: 0x037F, status: 0 }
    }
}

/// What was pushed is at the top, and popping it restores the rest.
pub proof fn pop_after_push(fpu: FpuState, value: u64)
    requires
        fpu.stack.len() == 8,
        fpu.top < 8,
    ensures
        fpu.pushed(value).st(0) == value,
        fpu.pushed(value).popped().top == fpu.top,
        forall|i: int| 0 <= i < 7 ==> #[trigger] fpu.pushed(value).popped().st(i) == fpu.st(i),
{
}

impl Cpu {
    /// The place of ST(`index`) in the register file.
    fn fpu_slot(&self, index: usize) -> (slot: usize)
        requires
            index < 8,
        ensures
            slot == self@.fpu.slot(index as int),
            slot < 8,
    {
        (self.fpu.top as usize + index) % 8
    }

    pub fn fpu_push(&mut self, value: u64)
        ensures
            final(self)@ == old(self)@.set_fpu(old(self)@.fpu.pushed(value)),
    {
        let top = (self.fpu.top as usize + 7) % 8;
        self.fpu.top = top as u8;
        self.fpu.stack[top] = value;
    }

    pub fn fpu_pop(&mut self)
        ensures
            final(self)@ == old(self)@.set_fpu(old(self)@.fpu.popped()),
    {
        self.fpu.top = ((self.fpu.top as usize + 1) % 8) as u8;
    }

    pub fn fpu_st(&self, index: usize) -> (value: u64)
        requires
            index < 8,
        ensures
            value == self@.fpu.st(index as int),
    {
        self.fpu.stack[self.fpu_slot(index)]
    }

    pub fn fpu_set_st(&mut self, index: usize, value: u64)
        requires
            index < 8,
        ensures
            final(self)@ == old(self)@.set_fpu(old(self)@.fpu.set_st(index as int, value)),
    {
        let slot = self.fpu_slot(index);
        self.fpu.stack[slot] = value;
    }
}

/// Which stack register a register number names.
pub open spec fn st_index_spec(number: u8) -> Option<int> {
    if register::ST0 <= number <= register::ST7 {
        Some(number - register::ST0)
    } else {
        None
    }
}

fn st_index(number: u8) -> (index: Option<usize>)
    ensures
        match st_index_spec(number) {
            Some(expected) => index == Some(expected as usize) && 0 <= expected < 8,
            None => index is None,
        },
{
    if register::ST0 <= number && number <= register::ST7 {
        Some((number - register::ST0) as usize)
    } else {
        None
    }
}

/// The register that an instruction works on: the first operand, or the top.
pub open spec fn target_index(instruction: Instruction) -> int {
    match st_index_spec(instruction.op0_register) {
        Some(index) => index,
        None => 0,
    }
}

/// The register that an instruction reads: the second operand, else the first one, else
/// the top.
pub open spec fn source_index(instruction: Instruction) -> int {
    match st_index_spec(instruction.op1_register) {
        Some(index) => index,
        None => target_index(instruction),
    }
}

fn find_target(instruction: &Instruction) -> (index: usize)
    ensures
        index == target_index(*instruction),
        index < 8,
{
    match st_index(instruction.op0_register) {
        Some(index) => index,
        None => 0,
    }
}

fn find_source(instruction: &Instruction) -> (index: usize)
    ensures
        index == source_index(*instruction),
        index < 8,
{
    match st_index(instruction.op1_register) {
        Some(index) => index,
        None => find_target(instruction),
    }
}

/// The bytes of a floating-point memory operand.
pub open spec fn operand_width(size: u8) -> Option<nat> {
    match size {
        op_kind::SIZE_FLOAT32 | op_kind::SIZE_INT32 => Some(4),
        op_kind::SIZE_FLOAT64 | op_kind::SIZE_INT64 => Some(8),
        op_kind::SIZE_FLOAT80 => Some(10),
        op_kind::SIZE_INT16 => Some(2),
        _ => None,
    }
}

fn width_of_operand(size: u8) -> (width: Option<usize>)
    ensures
        match operand_width(size) {
            Some(count) => width == Some(count as usize) && count <= 10,
            None => width is None,
        },
{
    match size {
        op_kind::SIZE_FLOAT32 | op_kind::SIZE_INT32 => Some(4),
        op_kind::SIZE_FLOAT64 | op_kind::SIZE_INT64 => Some(8),
        op_kind::SIZE_FLOAT80 => Some(10),
        op_kind::SIZE_INT16 => Some(2),
        _ => None,
    }
}

/// What a memory operand of this format holds, as a double.
pub open spec fn operand_value(size: u8, value: u128) -> u64 {
    match size {
        op_kind::SIZE_FLOAT32 => widened((value % 0x1_0000_0000) as u64, false).0,
        op_kind::SIZE_FLOAT80 => from_extended(
            (value % 0x1_0000_0000_0000_0000) as u64,
            ((value / 0x1_0000_0000_0000_0000) % 0x1_0000) as u16,
        ),
        op_kind::SIZE_INT16 => float_of_integer(signed_of(value as int % 0x1_0000, 16), true, 0).0,
        op_kind::SIZE_INT32 => float_of_integer(signed_of(value as int % 0x1_0000_0000, 32), true, 0).0,
        op_kind::SIZE_INT64 => float_of_integer(signed_of(value as int % 0x1_0000_0000_0000_0000, 64), true, 0).0,
        _ => (value % 0x1_0000_0000_0000_0000) as u64,
    }
}

fn decode_operand(size: u8, value: u128) -> (bits: u64)
    ensures
        bits == operand_value(size, value),
{
    proof {
        vstd::arithmetic::power2::lemma2_to64();
        vstd::arithmetic::power2::lemma2_to64_rest();
    }
    let word = (value % 0x1_0000_0000_0000_0000) as u64;
    match size {
        op_kind::SIZE_FLOAT32 => widen_single((value % 0x1_0000_0000) as u64, false).0,
        op_kind::SIZE_FLOAT80 => extended80_to_f64(word, ((value / 0x1_0000_0000_0000_0000) % 0x1_0000) as u16),
        op_kind::SIZE_INT16 => {
            let number = signed((value % 0x1_0000) as u64, 16);
            integer_to_float(number as i64, true, 0).0
        },
        op_kind::SIZE_INT32 => {
            let number = signed((value % 0x1_0000_0000) as u64, 32);
            integer_to_float(number as i64, true, 0).0
        },
        op_kind::SIZE_INT64 => {
            let number = signed(word, 64);
            integer_to_float(number as i64, true, 0).0
        },
        _ => word,
    }
}

/// The memory operand as a double.
pub open spec fn memory_value(machine: Machine, instruction: Instruction) -> Result<u64, CpuError> {
    match operand_width(instruction.memory_size) {
        None => Err(CpuError::GuestFault { reason: GuestFault::OperandSize }),
        Some(count) => match machine.operand_vector(instruction, count) {
            Err(error) => Err(error),
            Ok(value) => Ok(operand_value(instruction.memory_size, value)),
        },
    }
}

fn read_fp_memory(cpu: &Cpu, instruction: &Instruction) -> (bits: Result<u64, CpuError>)
    ensures
        bits == memory_value(cpu@, *instruction),
{
    match width_of_operand(instruction.memory_size) {
        None => Err(CpuError::GuestFault { reason: GuestFault::OperandSize }),
        Some(count) => {
            let value = crate::ops::xmm::read_operand_vector(cpu, instruction, count)?;
            Ok(decode_operand(instruction.memory_size, value))
        },
    }
}

/// The bytes of a double in a memory format: how many, and their value.
pub open spec fn stored_float(size: u8, bits: u64) -> Option<(nat, u128)> {
    match size {
        op_kind::SIZE_FLOAT32 => Some((4, narrowed(bits) as u128)),
        op_kind::SIZE_FLOAT64 => Some((8, bits as u128)),
        op_kind::SIZE_FLOAT80 => Some((10, (extended(bits).0 + extended(bits).1 * 0x1_0000_0000_0000_0000) as u128)),
        _ => None,
    }
}

pub open spec fn store_float_spec(machine: Machine, instruction: Instruction, bits: u64) -> (Machine, Result<(), CpuError>) {
    match stored_float(instruction.memory_size, bits) {
        None => (machine, Err(CpuError::GuestFault { reason: GuestFault::OperandSize })),
        Some((count, value)) => machine.write_linear(machine.effective_address(instruction), count, value),
    }
}

fn store_fp_memory(cpu: &mut Cpu, instruction: &Instruction, bits: u64) -> (result: Result<(), CpuError>)
    ensures
        (final(cpu)@, result) == store_float_spec(old(cpu)@, *instruction, bits),
{
    let linear = cpu.effective_address(instruction);
    match instruction.memory_size {
        op_kind::SIZE_FLOAT32 => cpu.write_linear(linear, 4, narrow(bits) as u128),
        op_kind::SIZE_FLOAT64 => cpu.write_linear(linear, 8, bits as u128),
        op_kind::SIZE_FLOAT80 => {
            let (digits, word) = f64_to_extended80(bits);
            cpu.write_linear(linear, 10, digits as u128 + word as u128 * 0x1_0000_0000_0000_0000)
        },
        _ => Err(CpuError::GuestFault { reason: GuestFault::OperandSize }),
    }
}

/// The rounding mode of the control word.
pub open spec fn control_mode(control: u16) -> u32 {
    ((control / 0x400) % 4) as u32
}

/// A double rounded to an integer between `-limit` and `limit - 1`; a NaN counts as
/// zero.
pub open spec fn bounded_integer(bits: u64, mode: u32, limit: int) -> int {
    if is_nan(bits, true) {
        0
    } else if magnitude(bits, true) == infinity(true) {
        if is_negative(bits, true) {
            -limit
        } else {
            limit - 1
        }
    } else {
        clamped(integer_value(bits, true, mode), -limit, limit - 1)
    }
}

fn bound_integer(bits: u64, mode: u32, limit: i128) -> (number: i128)
    requires
        0 < limit <= 0x8000_0000_0000_0000,
    ensures
        number == bounded_integer(bits, mode, limit as int),
        -limit <= number < limit,
{
    if nan(bits, true) {
        return 0;
    }
    let sign = negative(bits, true);
    if size_of_float(bits, true) == 0x7FF0_0000_0000_0000 {
        return if sign { -limit } else { limit - 1 };
    }
    let (size, _inexact) = round_to_integer(bits, true, mode);
    match size {
        None => if sign { -limit } else { limit - 1 },
        Some(size) => {
            let number: i128 = if sign { -(size as i128) } else { size as i128 };
            if number < -limit {
                -limit
            } else if number > limit - 1 {
                limit - 1
            } else {
                number
            }
        },
    }
}

/// The bytes and the limit of an integer operand.
pub open spec fn integer_format(size: u8) -> Option<(nat, int)> {
    match size {
        op_kind::SIZE_INT16 => Some((2, 0x8000)),
        op_kind::SIZE_INT32 => Some((4, 0x8000_0000)),
        op_kind::SIZE_INT64 => Some((8, 0x8000_0000_0000_0000)),
        _ => None,
    }
}

pub open spec fn store_integer_spec(machine: Machine, instruction: Instruction, bits: u64, mode: u32) -> (
    Machine,
    Result<(), CpuError>,
) {
    match integer_format(instruction.memory_size) {
        None => (machine, Err(CpuError::GuestFault { reason: GuestFault::OperandSize })),
        Some((count, limit)) => machine.write_linear(
            machine.effective_address(instruction),
            count,
            crate::arith::low_bits(bounded_integer(bits, mode, limit), 64) as u128,
        ),
    }
}

fn store_int_memory(cpu: &mut Cpu, instruction: &Instruction, bits: u64, mode: u32) -> (result: Result<(), CpuError>)
    ensures
        (final(cpu)@, result) == store_integer_spec(old(cpu)@, *instruction, bits, mode),
{
    let linear = cpu.effective_address(instruction);
    match instruction.memory_size {
        op_kind::SIZE_INT16 => {
            let number = bound_integer(bits, mode, 0x8000);
            cpu.write_linear(linear, 2, word_of(number) as u128)
        },
        op_kind::SIZE_INT32 => {
            let number = bound_integer(bits, mode, 0x8000_0000);
            cpu.write_linear(linear, 4, word_of(number) as u128)
        },
        op_kind::SIZE_INT64 => {
            let number = bound_integer(bits, mode, 0x8000_0000_0000_0000);
            cpu.write_linear(linear, 8, word_of(number) as u128)
        },
        _ => Err(CpuError::GuestFault { reason: GuestFault::OperandSize }),
    }
}

/// The constants that can be loaded.
pub open spec fn constant_of(code: u16) -> Option<u64> {
    match code {
        mnemonic::FLD1 => Some(0x3FF0_0000_0000_0000),
        mnemonic::FLDZ => Some(0),
        mnemonic::FLDPI => Some(0x4009_21FB_5444_2D18),
        mnemonic::FLDL2E => Some(0x3FF7_1547_652B_82FE),
        mnemonic::FLDL2T => Some(0x400A_934F_0979_A372),
        mnemonic::FLDLG2 => Some(0x3FD3_4413_509F_79FE),
        mnemonic::FLDLN2 => Some(0x3FE6_2E42_FEFA_39EF),
        _ => None,
    }
}

fn find_constant(code: u16) -> (bits: Option<u64>)
    ensures
        bits == constant_of(code),
{
    match code {
        mnemonic::FLD1 => Some(0x3FF0_0000_0000_0000),
        mnemonic::FLDZ => Some(0),
        mnemonic::FLDPI => Some(0x4009_21FB_5444_2D18),
        mnemonic::FLDL2E => Some(0x3FF7_1547_652B_82FE),
        mnemonic::FLDL2T => Some(0x400A_934F_0979_A372),
        mnemonic::FLDLG2 => Some(0x3FD3_4413_509F_79FE),
        mnemonic::FLDLN2 => Some(0x3FE6_2E42_FEFA_39EF),
        _ => None,
    }
}

/// FLD and FILD: a number from memory or from the stack.
pub open spec fn load_spec(machine: Machine, instruction: Instruction) -> (Machine, Result<(), CpuError>) {
    let value = if instruction.mnemonic == mnemonic::FILD || instruction.op0_kind == op_kind::MEMORY {
        memory_value(machine, instruction)
    } else {
        Ok(machine.fpu.st(target_index(instruction)))
    };
    match value {
        Err(error) => (machine, Err(error)),
        Ok(bits) => (machine.set_fpu(machine.fpu.pushed(bits)), Ok(())),
    }
}

fn load(cpu: &mut Cpu, instruction: &Instruction) -> (result: Result<(), CpuError>)
    ensures
        (final(cpu)@, result) == load_spec(old(cpu)@, *instruction),
{
    let bits = if instruction.mnemonic == mnemonic::FILD || instruction.op0_kind == op_kind::MEMORY {
        read_fp_memory(cpu, instruction)?
    } else {
        cpu.fpu_st(find_target(instruction))
    };
    cpu.fpu_push(bits);
    Ok(())
}

/// The stores: whether an integer is stored and with truncation, and whether the top is
/// dropped.
pub open spec fn store_of(code: u16) -> Option<(bool, bool, bool)> {
    match code {
        mnemonic::FST => Some((false, false, false)),
        mnemonic::FSTP => Some((false, false, true)),
        mnemonic::FIST => Some((true, false, false)),
        mnemonic::FISTP => Some((true, false, true)),
        mnemonic::FISTTP => Some((true, true, true)),
        _ => None,
    }
}

fn find_store(code: u16) -> (form: Option<(bool, bool, bool)>)
    ensures
        form == store_of(code),
{
    match code {
        mnemonic::FST => Some((false, false, false)),
        mnemonic::FSTP => Some((false, false, true)),
        mnemonic::FIST => Some((true, false, false)),
        mnemonic::FISTP => Some((true, false, true)),
        mnemonic::FISTTP => Some((true, true, true)),
        _ => None,
    }
}

/// The store alone.
pub open spec fn put_spec(machine: Machine, instruction: Instruction, integer: bool, truncated: bool) -> (
    Machine,
    Result<(), CpuError>,
) {
    let top = machine.fpu.st(0);
    if integer {
        store_integer_spec(
            machine,
            instruction,
            top,
            if truncated {
                3
            } else {
                control_mode(machine.fpu.control)
            },
        )
    } else if instruction.op0_kind == op_kind::MEMORY {
        store_float_spec(machine, instruction, top)
    } else {
        (machine.set_fpu(machine.fpu.set_st(target_index(instruction), top)), Ok(()))
    }
}

/// The store, and then the pop: a store that fails drops nothing.
pub open spec fn store_spec(machine: Machine, instruction: Instruction, integer: bool, truncated: bool, pop: bool) -> (
    Machine,
    Result<(), CpuError>,
) {
    let (after, result) = put_spec(machine, instruction, integer, truncated);
    match result {
        Err(error) => (after, Err(error)),
        Ok(stored) => if pop {
            (after.set_fpu(after.fpu.popped()), Ok(()))
        } else {
            (after, Ok(()))
        },
    }
}

fn store(cpu: &mut Cpu, instruction: &Instruction, integer: bool, truncated: bool, pop: bool) -> (result: Result<
    (),
    CpuError,
>)
    ensures
        (final(cpu)@, result) == store_spec(old(cpu)@, *instruction, integer, truncated, pop),
{
    let top = cpu.fpu_st(0);
    if integer {
        let mode: u32 = if truncated { 3 } else { ((cpu.fpu.control / 0x400) % 4) as u32 };
        store_int_memory(cpu, instruction, top, mode)?;
    } else if instruction.op0_kind == op_kind::MEMORY {
        store_fp_memory(cpu, instruction, top)?;
    } else {
        cpu.fpu_set_st(find_target(instruction), top);
    }
    if pop {
        cpu.fpu_pop();
    }
    Ok(())
}

/// The arithmetic: the operation, whether its operands are exchanged, whether it takes
/// an integer, and whether the top is dropped after it.
#[derive(Clone, Copy, PartialEq, Eq, Structural, Debug)]
pub struct StackArithmetic {
    pub operation: FloatOperation,
    pub reversed: bool,
    pub integer: bool,
    pub pop: bool,
}

pub open spec fn plain(operation: FloatOperation) -> StackArithmetic {
    StackArithmetic { operation, reversed: false, integer: false, pop: false }
}

pub open spec fn arithmetic_of(code: u16) -> Option<StackArithmetic> {
    match code {
        mnemonic::FADD => Some(plain(FloatOperation::Add)),
        mnemonic::FSUB => Some(plain(FloatOperation::Subtract)),
        mnemonic::FSUBR => Some(StackArithmetic { reversed: true, ..plain(FloatOperation::Subtract) }),
        mnemonic::FMUL => Some(plain(FloatOperation::Multiply)),
        mnemonic::FDIV => Some(plain(FloatOperation::Divide)),
        mnemonic::FDIVR => Some(StackArithmetic { reversed: true, ..plain(FloatOperation::Divide) }),
        mnemonic::FIADD => Some(StackArithmetic { integer: true, ..plain(FloatOperation::Add) }),
        mnemonic::FISUB => Some(StackArithmetic { integer: true, ..plain(FloatOperation::Subtract) }),
        mnemonic::FIMUL => Some(StackArithmetic { integer: true, ..plain(FloatOperation::Multiply) }),
        mnemonic::FIDIV => Some(StackArithmetic { integer: true, ..plain(FloatOperation::Divide) }),
        mnemonic::FADDP => Some(StackArithmetic { pop: true, ..plain(FloatOperation::Add) }),
        mnemonic::FSUBP => Some(StackArithmetic { pop: true, ..plain(FloatOperation::Subtract) }),
        mnemonic::FSUBRP => Some(StackArithmetic { reversed: true, pop: true, ..plain(FloatOperation::Subtract) }),
        mnemonic::FMULP => Some(StackArithmetic { pop: true, ..plain(FloatOperation::Multiply) }),
        mnemonic::FDIVP => Some(StackArithmetic { pop: true, ..plain(FloatOperation::Divide) }),
        mnemonic::FDIVRP => Some(StackArithmetic { reversed: true, pop: true, ..plain(FloatOperation::Divide) }),
        _ => None,
    }
}

fn make_plain(operation: FloatOperation) -> (form: StackArithmetic)
    ensures
        form == plain(operation),
{
    StackArithmetic { operation, reversed: false, integer: false, pop: false }
}

fn find_arithmetic(code: u16) -> (form: Option<StackArithmetic>)
    ensures
        form == arithmetic_of(code),
{
    match code {
        mnemonic::FADD => Some(make_plain(FloatOperation::Add)),
        mnemonic::FSUB => Some(make_plain(FloatOperation::Subtract)),
        mnemonic::FSUBR => Some(StackArithmetic { reversed: true, ..make_plain(FloatOperation::Subtract) }),
        mnemonic::FMUL => Some(make_plain(FloatOperation::Multiply)),
        mnemonic::FDIV => Some(make_plain(FloatOperation::Divide)),
        mnemonic::FDIVR => Some(StackArithmetic { reversed: true, ..make_plain(FloatOperation::Divide) }),
        mnemonic::FIADD => Some(StackArithmetic { integer: true, ..make_plain(FloatOperation::Add) }),
        mnemonic::FISUB => Some(StackArithmetic { integer: true, ..make_plain(FloatOperation::Subtract) }),
        mnemonic::FIMUL => Some(StackArithmetic { integer: true, ..make_plain(FloatOperation::Multiply) }),
        mnemonic::FIDIV => Some(StackArithmetic { integer: true, ..make_plain(FloatOperation::Divide) }),
        mnemonic::FADDP => Some(StackArithmetic { pop: true, ..make_plain(FloatOperation::Add) }),
        mnemonic::FSUBP => Some(StackArithmetic { pop: true, ..make_plain(FloatOperation::Subtract) }),
        mnemonic::FSUBRP => Some(StackArithmetic { reversed: true, pop: true, ..make_plain(FloatOperation::Subtract) }),
        mnemonic::FMULP => Some(StackArithmetic { pop: true, ..make_plain(FloatOperation::Multiply) }),
        mnemonic::FDIVP => Some(StackArithmetic { pop: true, ..make_plain(FloatOperation::Divide) }),
        mnemonic::FDIVRP => Some(StackArithmetic { reversed: true, pop: true, ..make_plain(FloatOperation::Divide) }),
        _ => None,
    }
}

/// Whether the other operand lies in memory.
pub open spec fn from_memory(instruction: Instruction, integer: bool) -> bool {
    integer || instruction.op0_kind == op_kind::MEMORY
}

/// The other operand: memory, or the explicit source register.
pub open spec fn other_operand(machine: Machine, instruction: Instruction, integer: bool) -> Result<u64, CpuError> {
    if from_memory(instruction, integer) {
        memory_value(machine, instruction)
    } else {
        Ok(machine.fpu.st(source_index(instruction)))
    }
}

fn read_other(cpu: &Cpu, instruction: &Instruction, integer: bool) -> (bits: Result<u64, CpuError>)
    ensures
        bits == other_operand(cpu@, *instruction, integer),
{
    if integer || instruction.op0_kind == op_kind::MEMORY {
        read_fp_memory(cpu, instruction)
    } else {
        Ok(cpu.fpu_st(find_source(instruction)))
    }
}

/// Asks for the arithmetic: on the top with memory, else on the first operand with the
/// second.
pub open spec fn arithmetic_spec(machine: Machine, instruction: Instruction, form: StackArithmetic) -> (
    Machine,
    Result<Effect, CpuError>,
) {
    let index = if from_memory(instruction, form.integer) {
        0
    } else {
        target_index(instruction)
    };
    let value = machine.fpu.st(index);
    match other_operand(machine, instruction, form.integer) {
        Err(error) => (machine, Err(error)),
        Ok(other) => (
            machine,
            Ok(
                Effect::Float(
                    FloatWork {
                        operation: form.operation,
                        double: true,
                        count: 1,
                        left: if form.reversed {
                            other as u128
                        } else {
                            value as u128
                        },
                        right: if form.reversed {
                            value as u128
                        } else {
                            other as u128
                        },
                        target: FloatTarget::Stack { slot: machine.fpu.slot(index) as u8, pop: form.pop },
                    },
                ),
            ),
        ),
    }
}

fn ask_arithmetic(cpu: &Cpu, instruction: &Instruction, form: StackArithmetic) -> (result: Result<Effect, CpuError>)
    ensures
        (cpu@, result) == arithmetic_spec(cpu@, *instruction, form),
{
    let index = if form.integer || instruction.op0_kind == op_kind::MEMORY {
        0
    } else {
        find_target(instruction)
    };
    let value = cpu.fpu_st(index);
    let other = read_other(cpu, instruction, form.integer)?;
    let slot = cpu.fpu_slot(index) as u8;
    let (left, right) = if form.reversed { (other, value) } else { (value, other) };
    Ok(
        Effect::Float(
            FloatWork {
                operation: form.operation,
                double: true,
                count: 1,
                left: left as u128,
                right: right as u128,
                target: FloatTarget::Stack { slot, pop: form.pop },
            },
        ),
    )
}

/// The condition codes of a comparison.
pub open spec fn order_codes(order: FloatOrder) -> u16 {
    match order {
        FloatOrder::Unordered => 0x4500,
        FloatOrder::Greater => 0,
        FloatOrder::Less => 0x100,
        FloatOrder::Equal => 0x4000,
    }
}

fn codes_of(order: FloatOrder) -> (codes: u16)
    ensures
        codes == order_codes(order),
{
    match order {
        FloatOrder::Unordered => 0x4500,
        FloatOrder::Greater => 0,
        FloatOrder::Less => 0x100,
        FloatOrder::Equal => 0x4000,
    }
}

/// The condition codes replaced.
pub open spec fn with_codes(fpu: FpuState, codes: u16) -> FpuState {
    FpuState { status: (fpu.status & !CONDITIONS) | codes, ..fpu }
}

/// The flags of a comparison: zero, parity and carry tell the order, overflow and sign
/// are clear.
pub open spec fn compare_flags(flags: u64, order: FloatOrder) -> u64 {
    with_flag(
        with_flag(
            with_flag(
                with_flag(
                    with_flag(flags, ZF, order == FloatOrder::Equal || order == FloatOrder::Unordered),
                    PF,
                    order == FloatOrder::Unordered,
                ),
                CF,
                order == FloatOrder::Less || order == FloatOrder::Unordered,
            ),
            OF,
            false,
        ),
        SF,
        false,
    )
}

fn set_compare_flags(flags: u64, order: FloatOrder) -> (changed: u64)
    ensures
        changed == compare_flags(flags, order),
{
    let mut changed = set_flag(flags, ZF, order == FloatOrder::Equal || order == FloatOrder::Unordered);
    changed = set_flag(changed, PF, order == FloatOrder::Unordered);
    changed = set_flag(changed, CF, order == FloatOrder::Less || order == FloatOrder::Unordered);
    changed = set_flag(changed, OF, false);
    set_flag(changed, SF, false)
}

/// What the top is compared with.
#[derive(Clone, Copy, PartialEq, Eq, Structural, Debug)]
pub enum Comparison {
    /// Memory or a register; the result goes to the condition codes.
    Operand { integer: bool },
    /// The register below the top.
    Next,
    /// Zero.
    Zero,
    /// A register; the result goes to the flags.
    Flags,
}

/// The comparisons, and how many registers they drop.
pub open spec fn comparison_of(code: u16) -> Option<(Comparison, u8)> {
    match code {
        mnemonic::FCOM | mnemonic::FUCOM => Some((Comparison::Operand { integer: false }, 0)),
        mnemonic::FCOMP | mnemonic::FUCOMP => Some((Comparison::Operand { integer: false }, 1)),
        mnemonic::FCOMPP | mnemonic::FUCOMPP => Some((Comparison::Next, 2)),
        mnemonic::FICOM => Some((Comparison::Operand { integer: true }, 0)),
        mnemonic::FICOMP => Some((Comparison::Operand { integer: true }, 1)),
        mnemonic::FCOMI | mnemonic::FUCOMI => Some((Comparison::Flags, 0)),
        mnemonic::FCOMIP | mnemonic::FUCOMIP => Some((Comparison::Flags, 1)),
        mnemonic::FTST => Some((Comparison::Zero, 0)),
        _ => None,
    }
}

fn find_comparison(code: u16) -> (form: Option<(Comparison, u8)>)
    ensures
        form == comparison_of(code),
{
    match code {
        mnemonic::FCOM | mnemonic::FUCOM => Some((Comparison::Operand { integer: false }, 0)),
        mnemonic::FCOMP | mnemonic::FUCOMP => Some((Comparison::Operand { integer: false }, 1)),
        mnemonic::FCOMPP | mnemonic::FUCOMPP => Some((Comparison::Next, 2)),
        mnemonic::FICOM => Some((Comparison::Operand { integer: true }, 0)),
        mnemonic::FICOMP => Some((Comparison::Operand { integer: true }, 1)),
        mnemonic::FCOMI | mnemonic::FUCOMI => Some((Comparison::Flags, 0)),
        mnemonic::FCOMIP | mnemonic::FUCOMIP => Some((Comparison::Flags, 1)),
        mnemonic::FTST => Some((Comparison::Zero, 0)),
        _ => None,
    }
}

/// The number that the top is compared with.
pub open spec fn compared_value(machine: Machine, instruction: Instruction, comparison: Comparison) -> Result<u64, CpuError> {
    match comparison {
        Comparison::Operand { integer } => other_operand(machine, instruction, integer),
        Comparison::Next => Ok(machine.fpu.st(1)),
        Comparison::Zero => Ok(0),
        Comparison::Flags => Ok(machine.fpu.st(source_index(instruction))),
    }
}

/// The register file with `count` registers dropped, two at most.
pub open spec fn dropped(fpu: FpuState, count: u8) -> FpuState {
    match count {
        0 => fpu,
        1 => fpu.popped(),
        _ => fpu.popped().popped(),
    }
}

pub open spec fn compare_spec(machine: Machine, instruction: Instruction, comparison: Comparison, count: u8) -> (
    Machine,
    Result<(), CpuError>,
) {
    match compared_value(machine, instruction, comparison) {
        Err(error) => (machine, Err(error)),
        Ok(other) => {
            let order = float_order(machine.fpu.st(0), other, true);
            let noted = if comparison == Comparison::Flags {
                machine.set_flags(compare_flags(machine.regs.rflags, order))
            } else {
                machine.set_fpu(with_codes(machine.fpu, order_codes(order)))
            };
            (noted.set_fpu(dropped(noted.fpu, count)), Ok(()))
        },
    }
}

fn run_comparison(cpu: &mut Cpu, instruction: &Instruction, comparison: Comparison, count: u8) -> (result: Result<
    (),
    CpuError,
>)
    ensures
        (final(cpu)@, result) == compare_spec(old(cpu)@, *instruction, comparison, count),
{
    let other = match comparison {
        Comparison::Operand { integer } => read_other(cpu, instruction, integer)?,
        Comparison::Next => cpu.fpu_st(1),
        Comparison::Zero => 0,
        Comparison::Flags => cpu.fpu_st(find_source(instruction)),
    };
    let order = compare(cpu.fpu_st(0), other, true);
    if comparison == Comparison::Flags {
        cpu.regs.rflags = set_compare_flags(cpu.regs.rflags, order);
    } else {
        cpu.fpu.status = (cpu.fpu.status & !CONDITIONS) | codes_of(order);
    }
    if count >= 1 {
        cpu.fpu_pop();
    }
    if count >= 2 {
        cpu.fpu_pop();
    }
    Ok(())
}

/// The condition codes of FXAM: the class of a number, and its sign.
pub open spec fn class_codes(bits: u64) -> u16 {
    let class = if is_nan(bits, true) {
        0x100int
    } else if magnitude(bits, true) == infinity(true) {
        0x500
    } else if magnitude(bits, true) == 0 {
        0x4000
    } else {
        0x400
    };
    (class + if is_negative(bits, true) {
        0x200int
    } else {
        0
    }) as u16
}

fn classify(bits: u64) -> (codes: u16)
    ensures
        codes == class_codes(bits),
{
    let size = size_of_float(bits, true);
    let class: u16 = if nan(bits, true) {
        0x100
    } else if size == 0x7FF0_0000_0000_0000 {
        0x500
    } else if size == 0 {
        0x4000
    } else {
        0x400
    };
    let sign: u16 = if negative(bits, true) { 0x200 } else { 0 };
    class + sign
}

/// The instructions on the top of the stack and on the stack itself.
pub open spec fn unary(code: u16, fpu: FpuState, index: int) -> Option<FpuState> {
    let top = fpu.st(0);
    match code {
        mnemonic::FCHS => Some(
            fpu.set_st(
                0,
                if top >= 0x8000_0000_0000_0000 {
                    (top - 0x8000_0000_0000_0000) as u64
                } else {
                    (top + 0x8000_0000_0000_0000) as u64
                },
            ),
        ),
        mnemonic::FABS => Some(fpu.set_st(0, magnitude(top, true))),
        mnemonic::FRNDINT => Some(fpu.set_st(0, integral(top, true, control_mode(fpu.control)))),
        mnemonic::FXCH => {
            let exchanged = fpu.set_st(0, fpu.st(index)).set_st(index, top);
            Some(FpuState { status: fpu.status & !0x200, ..exchanged })
        },
        mnemonic::FXAM => Some(with_codes(fpu, class_codes(top))),
        mnemonic::FFREEP | mnemonic::FINCSTP => Some(fpu.popped()),
        mnemonic::FDECSTP => Some(FpuState { top: ((fpu.top as int + 7) % 8) as u8, ..fpu }),
        mnemonic::FINIT | mnemonic::FNINIT => Some(FpuState::initial()),
        mnemonic::FCLEX | mnemonic::FNCLEX => Some(FpuState { status: fpu.status & !0x80FF, ..fpu }),
        mnemonic::FFREE | mnemonic::FLDENV | mnemonic::FRSTOR | mnemonic::FNSTENV | mnemonic::FSTENV | mnemonic::FNSAVE
        | mnemonic::FSAVE | mnemonic::WAIT => Some(fpu),
        _ => None,
    }
}

/// Exchanging twice restores the stack.
pub proof fn exchange_twice(fpu: FpuState, index: int)
    requires
        fpu.stack.len() == 8,
        0 <= index < 8,
    ensures
        unary(mnemonic::FXCH, unary(mnemonic::FXCH, fpu, index)->0, index)->0.stack == fpu.stack,
{
    let once = unary(mnemonic::FXCH, fpu, index)->0;
    let twice = unary(mnemonic::FXCH, once, index)->0;
    assert(twice.stack =~= fpu.stack);
}

fn run_unary(cpu: &mut Cpu, instruction: &Instruction) -> (known: bool)
    ensures
        match unary(instruction.mnemonic, old(cpu)@.fpu, source_index(*instruction)) {
            Some(fpu) => known && final(cpu)@ == old(cpu)@.set_fpu(fpu),
            None => !known && final(cpu)@ == old(cpu)@,
        },
{
    let top = cpu.fpu_st(0);
    match instruction.mnemonic {
        mnemonic::FCHS => {
            let changed = if top >= 0x8000_0000_0000_0000 {
                top - 0x8000_0000_0000_0000
            } else {
                top + 0x8000_0000_0000_0000
            };
            cpu.fpu_set_st(0, changed);
        },
        mnemonic::FABS => {
            cpu.fpu_set_st(0, size_of_float(top, true));
        },
        mnemonic::FRNDINT => {
            let mode = ((cpu.fpu.control / 0x400) % 4) as u32;
            cpu.fpu_set_st(0, round_integral(top, true, mode));
        },
        mnemonic::FXCH => {
            let index = find_source(instruction);
            let other = cpu.fpu_st(index);
            cpu.fpu_set_st(0, other);
            cpu.fpu_set_st(index, top);
            cpu.fpu.status = cpu.fpu.status & !0x200;
        },
        mnemonic::FXAM => {
            cpu.fpu.status = (cpu.fpu.status & !CONDITIONS) | classify(top);
        },
        mnemonic::FFREEP | mnemonic::FINCSTP => {
            cpu.fpu_pop();
        },
        mnemonic::FDECSTP => {
            cpu.fpu.top = ((cpu.fpu.top as usize + 7) % 8) as u8;
        },
        mnemonic::FINIT | mnemonic::FNINIT => {
            cpu.fpu.control = 0x037F;
            cpu.fpu.status = 0;
            cpu.fpu.top = 0;
            cpu.fpu.stack = [0; 8];
            assert(cpu.fpu.stack@ =~= Seq::new(8, |i: int| 0u64));
        },
        mnemonic::FCLEX | mnemonic::FNCLEX => {
            cpu.fpu.status = cpu.fpu.status & !0x80FF;
        },
        mnemonic::FFREE | mnemonic::FLDENV | mnemonic::FRSTOR | mnemonic::FNSTENV | mnemonic::FSTENV | mnemonic::FNSAVE
        | mnemonic::FSAVE | mnemonic::WAIT => {},
        _ => {
            return false;
        },
    }
    true
}

/// The status word with the place of the top in it.
pub open spec fn status_word(fpu: FpuState) -> u16 {
    (fpu.status & !0x3800) | ((fpu.top % 8) as u16 * 0x800) as u16
}

/// The control and status words to and from memory.
pub open spec fn word_spec(machine: Machine, instruction: Instruction) -> (Machine, Result<(), CpuError>) {
    match instruction.mnemonic {
        mnemonic::FLDCW => match machine.read_operand(instruction, 2) {
            Err(error) => (machine, Err(error)),
            Ok(value) => (
                machine.set_fpu(FpuState { control: (value % 0x1_0000) as u16, ..machine.fpu }),
                Ok(()),
            ),
        },
        mnemonic::FNSTCW | mnemonic::FSTCW => machine.write_operand(instruction, 2, machine.fpu.control as u64),
        mnemonic::FNSTSW | mnemonic::FSTSW => if instruction.op0_kind == op_kind::REGISTER {
            (machine.reg_write(register::AX, 2, status_word(machine.fpu) as u64), Ok(()))
        } else {
            machine.write_operand(instruction, 2, status_word(machine.fpu) as u64)
        },
        _ => (machine, Err(machine.unknown(instruction))),
    }
}

fn run_word(cpu: &mut Cpu, instruction: &Instruction) -> (result: Result<(), CpuError>)
    ensures
        (final(cpu)@, result) == word_spec(old(cpu)@, *instruction),
{
    match instruction.mnemonic {
        mnemonic::FLDCW => {
            let value = cpu.read_operand(instruction, 2)?;
            cpu.fpu.control = (value % 0x1_0000) as u16;
            Ok(())
        },
        mnemonic::FNSTCW | mnemonic::FSTCW => {
            let control = cpu.fpu.control;
            cpu.write_operand(instruction, 2, control as u64)
        },
        mnemonic::FNSTSW | mnemonic::FSTSW => {
            let status = (cpu.fpu.status & !0x3800) | ((cpu.fpu.top % 8) as u16 * 0x800);
            if instruction.op0_kind == op_kind::REGISTER {
                crate::ops::write_register(&mut cpu.regs, register::AX, 2, status as u64);
                Ok(())
            } else {
                cpu.write_operand(instruction, 2, status as u64)
            }
        },
        _ => Err(unknown(cpu, instruction)),
    }
}

/// The root of the top.
pub open spec fn root_work(fpu: FpuState) -> FloatWork {
    FloatWork {
        operation: FloatOperation::SquareRoot,
        double: true,
        count: 1,
        left: 0,
        right: fpu.st(0) as u128,
        target: FloatTarget::Stack { slot: fpu.slot(0) as u8, pop: false },
    }
}

/// The floating-point unit by mnemonic.
pub open spec fn x87_op_spec(machine: Machine, instruction: Instruction) -> (Machine, Result<Effect, CpuError>) {
    let code = instruction.mnemonic;
    let changed = unary(code, machine.fpu, source_index(instruction));
    if arithmetic_of(code) is Some {
        arithmetic_spec(machine, instruction, arithmetic_of(code)->0)
    } else if code == mnemonic::FSQRT {
        (machine, Ok(Effect::Float(root_work(machine.fpu))))
    } else if constant_of(code) is Some {
        (machine.set_fpu(machine.fpu.pushed(constant_of(code)->0)), Ok(Effect::Done))
    } else if code == mnemonic::FLD || code == mnemonic::FILD {
        done(load_spec(machine, instruction))
    } else if store_of(code) is Some {
        let (integer, truncated, pop) = store_of(code)->0;
        done(store_spec(machine, instruction, integer, truncated, pop))
    } else if comparison_of(code) is Some {
        let (comparison, count) = comparison_of(code)->0;
        done(compare_spec(machine, instruction, comparison, count))
    } else if changed is Some {
        (machine.set_fpu(changed->0), Ok(Effect::Done))
    } else {
        done(word_spec(machine, instruction))
    }
}

pub fn x87_op(cpu: &mut Cpu, instruction: &Instruction) -> (result: Result<Effect, CpuError>)
    ensures
        (final(cpu)@, result) == x87_op_spec(old(cpu)@, *instruction),
{
    let code = instruction.mnemonic;
    if let Some(form) = find_arithmetic(code) {
        return ask_arithmetic(cpu, instruction, form);
    }
    if code == mnemonic::FSQRT {
        let slot = cpu.fpu_slot(0) as u8;
        return Ok(
            Effect::Float(
                FloatWork {
                    operation: FloatOperation::SquareRoot,
                    double: true,
                    count: 1,
                    left: 0,
                    right: cpu.fpu_st(0) as u128,
                    target: FloatTarget::Stack { slot, pop: false },
                },
            ),
        );
    }
    if let Some(bits) = find_constant(code) {
        cpu.fpu_push(bits);
        return Ok(Effect::Done);
    }
    if code == mnemonic::FLD || code == mnemonic::FILD {
        return finished(load(cpu, instruction));
    }
    if let Some((integer, truncated, pop)) = find_store(code) {
        return finished(store(cpu, instruction, integer, truncated, pop));
    }
    if let Some((comparison, count)) = find_comparison(code) {
        return finished(run_comparison(cpu, instruction, comparison, count));
    }
    if run_unary(cpu, instruction) {
        return Ok(Effect::Done);
    }
    finished(run_word(cpu, instruction))
}

} // verus!
