//! Legacy SSE conversions. Integer widths, floating precision and the number of
//! converted lanes follow each instruction's operands.

use vstd::prelude::*;

use crate::arch::registers::{contains, holds, CR4_OSXMMEXCPT};
use crate::arith::{low_bits, signed, signed_of, word_of};
use crate::cpu::interrupts::{VECTOR_INVALID_OPCODE, VECTOR_SIMD_FLOATING_POINT};
use crate::cpu::{Cpu, CpuError, Machine};
use crate::decode::{mnemonic, op_kind, Instruction};
use crate::ops::effect::{replace_low, with_low};
use crate::ops::float::{
    float_of_integer, integer_to_float, integer_value, is_finite, is_integral, is_subnormal, round_to_integer,
    widen_single, widened,
};
use crate::ops::precision::{narrow, narrowed};
use crate::ops::sse_integer::unmasked;
use crate::ops::xmm::{read_scalar_source, read_xmm, unknown, write_xmm};
use crate::ops::{operand_size, operand_size_spec, read_register, reg_read, write_register};

verus! {

/// The inexact exception.
pub const PRECISION: u32 = 0x20;

impl Machine {
    /// The status sticks. An unmasked exception is delivered, as a SIMD exception where
    /// the guest asked for those, and the instruction changes nothing else: `false`.
    pub open spec fn record_exception(self, exception: u32) -> (Machine, Result<bool, CpuError>) {
        let noted = Machine { mxcsr: self.mxcsr | exception, ..self };
        if unmasked(noted.mxcsr, exception) {
            let vector = if holds(self.regs.cr4, CR4_OSXMMEXCPT) {
                VECTOR_SIMD_FLOATING_POINT
            } else {
                VECTOR_INVALID_OPCODE
            };
            let (after, result) = noted.raise(vector, None);
            match result {
                Err(error) => (after, Err(error)),
                Ok(delivered) => (after, Ok(false)),
            }
        } else {
            (noted, Ok(true))
        }
    }
}

fn record_exception(cpu: &mut Cpu, exception: u32) -> (result: Result<bool, CpuError>)
    ensures
        (final(cpu)@, result) == old(cpu)@.record_exception(exception),
{
    cpu.mxcsr = cpu.mxcsr | exception;
    if exception & !(cpu.mxcsr >> 7) != 0 {
        let vector = if contains(cpu.regs.cr4, CR4_OSXMMEXCPT) {
            VECTOR_SIMD_FLOATING_POINT
        } else {
            VECTOR_INVALID_OPCODE
        };
        cpu.raise(vector, None)?;
        return Ok(false);
    }
    Ok(true)
}

/// Two doubles as a vector.
pub open spec fn pair(low: u64, high: u64) -> u128 {
    (low + high * 0x1_0000_0000_0000_0000) as u128
}

fn make_pair(low: u64, high: u64) -> (vector: u128)
    ensures
        vector == pair(low, high),
{
    low as u128 + high as u128 * 0x1_0000_0000_0000_0000
}

/// CVTDQ2PD: the two low integers, each exact as a double.
pub open spec fn cvtdq2pd_spec(machine: Machine, instruction: Instruction) -> (Machine, Result<(), CpuError>) {
    match machine.scalar_source(instruction, true) {
        Err(error) => (machine, Err(error)),
        Ok(raw) => (
            machine.write_xmm(
                instruction.op0_register,
                pair(
                    float_of_integer(signed_of(raw as int % 0x1_0000_0000, 32), true, 0).0,
                    float_of_integer(signed_of(raw as int / 0x1_0000_0000, 32), true, 0).0,
                ),
            ),
            Ok(()),
        ),
    }
}

fn cvtdq2pd(cpu: &mut Cpu, instruction: &Instruction) -> (result: Result<(), CpuError>)
    ensures
        (final(cpu)@, result) == cvtdq2pd_spec(old(cpu)@, *instruction),
{
    let raw = read_scalar_source(cpu, instruction, true)?;
    let low = signed(raw % 0x1_0000_0000, 32) as i64;
    let high = signed(raw / 0x1_0000_0000, 32) as i64;
    proof {
        vstd::arithmetic::power2::lemma2_to64();
    }
    let (a, _exact) = integer_to_float(low, true, 0);
    let (b, _also) = integer_to_float(high, true, 0);
    write_xmm(&mut cpu.regs, instruction.op0_register, make_pair(a, b));
    Ok(())
}

/// CVTPS2PD: the two low singles; widening is exact.
pub open spec fn cvtps2pd_spec(machine: Machine, instruction: Instruction) -> (Machine, Result<(), CpuError>) {
    match machine.scalar_source(instruction, true) {
        Err(error) => (machine, Err(error)),
        Ok(raw) => {
            let flush = (machine.mxcsr / 0x40) % 2 == 1;
            let low = widened((raw % 0x1_0000_0000) as u64, flush);
            let high = widened((raw / 0x1_0000_0000) as u64, flush);
            let (after, result) = machine.record_exception(low.1 | high.1);
            match result {
                Err(error) => (after, Err(error)),
                Ok(true) => (after.write_xmm(instruction.op0_register, pair(low.0, high.0)), Ok(())),
                Ok(false) => (after, Ok(())),
            }
        },
    }
}

fn cvtps2pd(cpu: &mut Cpu, instruction: &Instruction) -> (result: Result<(), CpuError>)
    ensures
        (final(cpu)@, result) == cvtps2pd_spec(old(cpu)@, *instruction),
{
    let raw = read_scalar_source(cpu, instruction, true)?;
    let flush = (cpu.mxcsr / 0x40) % 2 == 1;
    let (low, first) = widen_single(raw % 0x1_0000_0000, flush);
    let (high, second) = widen_single(raw / 0x1_0000_0000, flush);
    if record_exception(cpu, first | second)? {
        write_xmm(&mut cpu.regs, instruction.op0_register, make_pair(low, high));
    }
    Ok(())
}

/// The integer that CVTSI2SD and CVTSI2SS convert.
pub open spec fn integer_source(machine: Machine, instruction: Instruction) -> Result<int, CpuError> {
    let size = operand_size_spec(instruction, 1);
    let raw = if instruction.op1_kind == op_kind::MEMORY {
        machine.read_operand(instruction, size)
    } else {
        Ok(reg_read(machine.regs, instruction.op1_register, size))
    };
    match raw {
        Err(error) => Err(error),
        Ok(value) => Ok(
            if size == 8 {
                signed_of(value as int, 64)
            } else {
                signed_of(value as int, 32)
            },
        ),
    }
}

fn read_integer_source(cpu: &Cpu, instruction: &Instruction) -> (value: Result<i64, CpuError>)
    ensures
        match integer_source(cpu@, *instruction) {
            Ok(number) => value matches Ok(found) && found == number,
            Err(error) => value == Err::<i64, CpuError>(error),
        },
{
    let size = operand_size(instruction, 1);
    let raw = if instruction.op1_kind == op_kind::MEMORY {
        cpu.read_operand(instruction, size)?
    } else {
        read_register(&cpu.regs, instruction.op1_register, size)
    };
    proof {
        vstd::arithmetic::power2::lemma2_to64();
        vstd::arithmetic::power2::lemma2_to64_rest();
    }
    if size == 8 {
        Ok(signed(raw, 64) as i64)
    } else {
        Ok(signed(raw, 32) as i64)
    }
}

/// CVTSI2SD and CVTSI2SS: the integer rounded once, in MXCSR's mode, into the low lane.
pub open spec fn cvtsi2s_spec(machine: Machine, instruction: Instruction) -> (Machine, Result<(), CpuError>) {
    let double = instruction.mnemonic == mnemonic::CVTSI2SD;
    match integer_source(machine, instruction) {
        Err(error) => (machine, Err(error)),
        Ok(number) => {
            let (bits, inexact) = float_of_integer(number, double, (machine.mxcsr / 0x2000) % 4);
            let (after, result) = machine.record_exception(
                if inexact {
                    PRECISION
                } else {
                    0
                },
            );
            match result {
                Err(error) => (after, Err(error)),
                Ok(true) => (
                    after.write_xmm(
                        instruction.op0_register,
                        with_low(after.xmm(instruction.op0_register), bits as u128, double),
                    ),
                    Ok(()),
                ),
                Ok(false) => (after, Ok(())),
            }
        },
    }
}

fn cvtsi2s(cpu: &mut Cpu, instruction: &Instruction) -> (result: Result<(), CpuError>)
    ensures
        (final(cpu)@, result) == cvtsi2s_spec(old(cpu)@, *instruction),
{
    let double = instruction.mnemonic == mnemonic::CVTSI2SD;
    let number = read_integer_source(cpu, instruction)?;
    let (bits, inexact) = integer_to_float(number, double, (cpu.mxcsr / 0x2000) % 4);
    let exception: u32 = if inexact { PRECISION } else { 0 };
    if record_exception(cpu, exception)? {
        let before = read_xmm(&cpu.regs, instruction.op0_register);
        write_xmm(&mut cpu.regs, instruction.op0_register, replace_low(before, bits as u128, double));
    }
    Ok(())
}

/// A number rounded to a signed integer of eight bytes, or four where `wide` is not
/// set, with the exception of the step: invalid, with the indefinite integer, for what
/// does not fit, and inexact for a fraction.
pub open spec fn converted(bits: u64, double: bool, mode: u32, wide: bool, flush: bool) -> (u64, u32) {
    let value = integer_value(bits, double, mode);
    let limit = if wide {
        0x8000_0000_0000_0000int
    } else {
        0x8000_0000
    };
    if flush && is_subnormal(bits, double) {
        (0, 0)
    } else if !is_finite(bits, double) || value < -limit || value >= limit {
        (limit as u64, 1)
    } else {
        (
            low_bits(value, 64) as u64,
            if is_integral(bits, double) {
                0u32
            } else {
                PRECISION
            },
        )
    }
}

fn convert(bits: u64, double: bool, mode: u32, wide: bool, flush: bool) -> (result: (u64, u32))
    requires
        !double ==> bits < 0x1_0000_0000,
    ensures
        result == converted(bits, double, mode, wide, flush),
{
    let limit: u64 = if wide { 0x8000_0000_0000_0000 } else { 0x8000_0000 };
    if flush && crate::ops::float::subnormal(bits, double) {
        return (0, 0);
    }
    if !crate::ops::float::finite(bits, double) {
        return (limit, 1);
    }
    let sign = crate::ops::float::negative(bits, double);
    let (size, inexact) = round_to_integer(bits, double, mode);
    let exception: u32 = if inexact { PRECISION } else { 0 };
    match size {
        None => (limit, 1),
        Some(size) => {
            if (sign && size > limit) || (!sign && size >= limit) {
                (limit, 1)
            } else {
                let number: i128 = if sign { -(size as i128) } else { size as i128 };
                (word_of(number), exception)
            }
        },
    }
}

/// Whether the source of a conversion to an integer is a double.
pub open spec fn from_double(code: u16) -> bool {
    code == mnemonic::CVTSD2SI || code == mnemonic::CVTTSD2SI
}

/// The low bits that hold a number of the format.
pub open spec fn lane_of(raw: u64, double: bool) -> u64 {
    if double {
        raw
    } else {
        (raw % 0x1_0000_0000) as u64
    }
}

/// A scalar number to a general register.
pub open spec fn float_to_integer_spec(machine: Machine, instruction: Instruction, mode: u32) -> (
    Machine,
    Result<(), CpuError>,
) {
    let double = from_double(instruction.mnemonic);
    match machine.scalar_source(instruction, double) {
        Err(error) => (machine, Err(error)),
        Ok(raw) => {
            let size = operand_size_spec(instruction, 0);
            let (value, exception) = converted(
                lane_of(raw, double),
                double,
                mode,
                size == 8,
                (machine.mxcsr / 0x40) % 2 == 1,
            );
            let (after, result) = machine.record_exception(exception);
            match result {
                Err(error) => (after, Err(error)),
                Ok(true) => (after.reg_write(instruction.op0_register, size, value), Ok(())),
                Ok(false) => (after, Ok(())),
            }
        },
    }
}

fn float_to_integer(cpu: &mut Cpu, instruction: &Instruction, mode: u32) -> (result: Result<(), CpuError>)
    ensures
        (final(cpu)@, result) == float_to_integer_spec(old(cpu)@, *instruction, mode),
{
    let double = instruction.mnemonic == mnemonic::CVTSD2SI || instruction.mnemonic == mnemonic::CVTTSD2SI;
    let raw = read_scalar_source(cpu, instruction, double)?;
    let size = operand_size(instruction, 0);
    let flush = (cpu.mxcsr / 0x40) % 2 == 1;
    let lane = if double { raw } else { raw % 0x1_0000_0000 };
    let (value, exception) = convert(lane, double, mode, size == 8, flush);
    if record_exception(cpu, exception)? {
        write_register(&mut cpu.regs, instruction.op0_register, size, value);
    }
    Ok(())
}

/// CVTSS2SD and CVTSD2SS: the low lane in the other format.
pub open spec fn cvt_precision_spec(machine: Machine, instruction: Instruction, to_double: bool) -> (
    Machine,
    Result<(), CpuError>,
) {
    match machine.scalar_source(instruction, !to_double) {
        Err(error) => (machine, Err(error)),
        Ok(raw) => {
            let bits = if to_double {
                widened((raw % 0x1_0000_0000) as u64, false).0
            } else {
                narrowed(raw)
            };
            (
                machine.write_xmm(
                    instruction.op0_register,
                    with_low(machine.xmm(instruction.op0_register), bits as u128, to_double),
                ),
                Ok(()),
            )
        },
    }
}

fn cvt_precision(cpu: &mut Cpu, instruction: &Instruction, to_double: bool) -> (result: Result<(), CpuError>)
    ensures
        (final(cpu)@, result) == cvt_precision_spec(old(cpu)@, *instruction, to_double),
{
    let raw = read_scalar_source(cpu, instruction, !to_double)?;
    let bits = if to_double {
        widen_single(raw % 0x1_0000_0000, false).0
    } else {
        narrow(raw)
    };
    let before = read_xmm(&cpu.regs, instruction.op0_register);
    write_xmm(&mut cpu.regs, instruction.op0_register, replace_low(before, bits as u128, to_double));
    Ok(())
}

/// Whether the instruction is a conversion.
pub open spec fn is_conversion(code: u16) -> bool {
    match code {
        mnemonic::CVTSI2SD | mnemonic::CVTSI2SS | mnemonic::CVTTSD2SI | mnemonic::CVTTSS2SI | mnemonic::CVTSD2SI
        | mnemonic::CVTSS2SI | mnemonic::CVTSS2SD | mnemonic::CVTSD2SS | mnemonic::CVTDQ2PD | mnemonic::CVTPS2PD => true,
        _ => false,
    }
}

pub fn converts(code: u16) -> (held: bool)
    ensures
        held == is_conversion(code),
{
    match code {
        mnemonic::CVTSI2SD | mnemonic::CVTSI2SS | mnemonic::CVTTSD2SI | mnemonic::CVTTSS2SI | mnemonic::CVTSD2SI
        | mnemonic::CVTSS2SI | mnemonic::CVTSS2SD | mnemonic::CVTSD2SS | mnemonic::CVTDQ2PD | mnemonic::CVTPS2PD => true,
        _ => false,
    }
}

/// Conversions; truncation ignores the mode in MXCSR.
pub open spec fn execute_spec(machine: Machine, instruction: Instruction) -> (Machine, Result<(), CpuError>) {
    match instruction.mnemonic {
        mnemonic::CVTSI2SD | mnemonic::CVTSI2SS => cvtsi2s_spec(machine, instruction),
        mnemonic::CVTTSD2SI | mnemonic::CVTTSS2SI => float_to_integer_spec(machine, instruction, 3),
        mnemonic::CVTSD2SI | mnemonic::CVTSS2SI => float_to_integer_spec(
            machine,
            instruction,
            (machine.mxcsr / 0x2000) % 4,
        ),
        mnemonic::CVTSS2SD => cvt_precision_spec(machine, instruction, true),
        mnemonic::CVTSD2SS => cvt_precision_spec(machine, instruction, false),
        mnemonic::CVTDQ2PD => cvtdq2pd_spec(machine, instruction),
        mnemonic::CVTPS2PD => cvtps2pd_spec(machine, instruction),
        _ => (machine, Err(machine.unknown(instruction))),
    }
}

pub fn execute(cpu: &mut Cpu, instruction: &Instruction) -> (result: Result<(), CpuError>)
    ensures
        (final(cpu)@, result) == execute_spec(old(cpu)@, *instruction),
{
    match instruction.mnemonic {
        mnemonic::CVTSI2SD | mnemonic::CVTSI2SS => cvtsi2s(cpu, instruction),
        mnemonic::CVTTSD2SI | mnemonic::CVTTSS2SI => float_to_integer(cpu, instruction, 3),
        mnemonic::CVTSD2SI | mnemonic::CVTSS2SI => {
            let mode = (cpu.mxcsr / 0x2000) % 4;
            float_to_integer(cpu, instruction, mode)
        },
        mnemonic::CVTSS2SD => cvt_precision(cpu, instruction, true),
        mnemonic::CVTSD2SS => cvt_precision(cpu, instruction, false),
        mnemonic::CVTDQ2PD => cvtdq2pd(cpu, instruction),
        mnemonic::CVTPS2PD => cvtps2pd(cpu, instruction),
        _ => Err(unknown(cpu, instruction)),
    }
}

/// An integer of 32 bits is a double exactly: converting it and back gives it again, in
/// every mode, without an exception.
pub proof fn small_integers_survive(number: int, mode: u32, back: u32)
    requires
        -0x8000_0000 <= number < 0x8000_0000,
    ensures
        !float_of_integer(number, true, mode).1,
        converted(float_of_integer(number, true, mode).0, true, back, false, false) == (
            low_bits(number, 64) as u64,
            0u32,
        ),
{
    crate::ops::float::lemma_integer_round_trip(number, mode, back);
}

} // verus!
