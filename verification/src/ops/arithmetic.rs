//! Integer arithmetic: add/sub/cmp/adc/sbb/inc/dec/neg/mul/imul/div/idiv.

use vstd::arithmetic::power2::{lemma2_to64, lemma2_to64_rest, lemma_pow2_adds, lemma_pow2_pos, lemma_pow2_unfold, pow2};
use vstd::prelude::*;

use crate::arch::registers::{with_flag, CF, OF};
use crate::arith::{
    is_negative, lemma_low_bits_of_wide, low_bits, power_of_two, power_of_two_u64, signed, signed_of, truncate, word_of,
};
use crate::cpu::interrupts::VECTOR_DIVIDE_ERROR;
use crate::cpu::{Cpu, CpuError, Machine};
use crate::decode::{mnemonic, op_kind, register, Instruction};
use crate::ops::{
    add_result, add_with_flags, arithmetic_flags, bits_of, carry, leaves_signed_range, operand_size, operand_size_spec,
    read_operand0, read_operand1, read_register, reg_read, set_adjust, set_arithmetic, set_carry, set_overflow, set_szp,
    sub_result, sub_with_flags, szp, width_bits, write_operand0, write_register, AddResult,
};

verus! {

/// Adds or subtracts the second operand, with the carry flag where `with_carry`
/// says so: the flags are set, then the first operand is written.
pub open spec fn binary_spec(machine: Machine, instruction: Instruction, subtract: bool, with_carry: bool) -> (
    Machine,
    Result<(), CpuError>,
) {
    match machine.read_operand0(instruction) {
        Err(error) => (machine, Err(error)),
        Ok(left) => match machine.read_operand1(instruction) {
            Err(error) => (machine, Err(error)),
            Ok(right) => {
                let bits = width_bits(operand_size_spec(instruction, 0));
                let carry_in = with_carry && crate::arch::registers::holds(machine.regs.rflags, CF);
                let outcome = if subtract {
                    sub_result(left, right, carry_in, bits)
                } else {
                    add_result(left, right, carry_in, bits)
                };
                machine.set_flags(arithmetic_flags(machine.regs.rflags, outcome, bits)).write_operand0(
                    instruction,
                    outcome.result,
                )
            },
        },
    }
}

fn binary(cpu: &mut Cpu, instruction: &Instruction, subtract: bool, with_carry: bool) -> (result: Result<(), CpuError>)
    ensures
        (final(cpu)@, result) == binary_spec(old(cpu)@, *instruction, subtract, with_carry),
{
    let size = operand_size(instruction, 0);
    let left = read_operand0(cpu, instruction)?;
    let right = read_operand1(cpu, instruction)?;
    let carry_in = with_carry && carry(&cpu.regs);
    let bits = bits_of(size);
    let outcome: AddResult = if subtract {
        sub_with_flags(left, right, carry_in, bits)
    } else {
        add_with_flags(left, right, carry_in, bits)
    };
    set_arithmetic(&mut cpu.regs, outcome, bits);
    write_operand0(cpu, instruction, outcome.result)
}

pub fn add(cpu: &mut Cpu, instruction: &Instruction) -> (result: Result<(), CpuError>)
    ensures
        (final(cpu)@, result) == binary_spec(old(cpu)@, *instruction, false, false),
{
    binary(cpu, instruction, false, false)
}

pub fn sub(cpu: &mut Cpu, instruction: &Instruction) -> (result: Result<(), CpuError>)
    ensures
        (final(cpu)@, result) == binary_spec(old(cpu)@, *instruction, true, false),
{
    binary(cpu, instruction, true, false)
}

/// Subtracts for the flags alone.
pub open spec fn compare_spec(machine: Machine, instruction: Instruction) -> (Machine, Result<(), CpuError>) {
    match machine.read_operand0(instruction) {
        Err(error) => (machine, Err(error)),
        Ok(left) => match machine.read_operand1(instruction) {
            Err(error) => (machine, Err(error)),
            Ok(right) => {
                let bits = width_bits(operand_size_spec(instruction, 0));
                let outcome = sub_result(left, right, false, bits);
                (machine.set_flags(arithmetic_flags(machine.regs.rflags, outcome, bits)), Ok(()))
            },
        },
    }
}

/// CMP computes flags only; it does not modify the destination operand.
pub fn cmp(cpu: &mut Cpu, instruction: &Instruction) -> (result: Result<(), CpuError>)
    ensures
        (final(cpu)@, result) == compare_spec(old(cpu)@, *instruction),
{
    let size = operand_size(instruction, 0);
    let left = read_operand0(cpu, instruction)?;
    let right = read_operand1(cpu, instruction)?;
    let bits = bits_of(size);
    let outcome = sub_with_flags(left, right, false, bits);
    set_arithmetic(&mut cpu.regs, outcome, bits);
    Ok(())
}

/// A comparison changes nothing but the flags.
pub proof fn compare_changes_only_flags(machine: Machine, instruction: Instruction)
    ensures
        compare_spec(machine, instruction).0 == machine.set_flags(compare_spec(machine, instruction).0.regs.rflags),
{
}

pub fn adc_sbb(cpu: &mut Cpu, instruction: &Instruction) -> (result: Result<(), CpuError>)
    ensures
        (final(cpu)@, result) == binary_spec(old(cpu)@, *instruction, instruction.mnemonic == mnemonic::SBB, true),
{
    binary(cpu, instruction, instruction.mnemonic == mnemonic::SBB, true)
}

/// The flags after an increment or a decrement: carry stays as it was.
pub open spec fn step_flags(flags: u64, outcome: AddResult, bits: u32) -> u64 {
    with_flag(with_flag(szp(flags, outcome.result, bits), OF, outcome.overflow), crate::arch::registers::AF, outcome.adjust)
}

/// Adds or subtracts one.
pub open spec fn inc_dec_spec(machine: Machine, instruction: Instruction) -> (Machine, Result<(), CpuError>) {
    match machine.read_operand0(instruction) {
        Err(error) => (machine, Err(error)),
        Ok(left) => {
            let bits = width_bits(operand_size_spec(instruction, 0));
            let outcome = if instruction.mnemonic == mnemonic::INC {
                add_result(left, 1, false, bits)
            } else {
                sub_result(left, 1, false, bits)
            };
            machine.set_flags(step_flags(machine.regs.rflags, outcome, bits)).write_operand0(instruction, outcome.result)
        },
    }
}

pub fn inc_dec(cpu: &mut Cpu, instruction: &Instruction) -> (result: Result<(), CpuError>)
    ensures
        (final(cpu)@, result) == inc_dec_spec(old(cpu)@, *instruction),
{
    let increment = instruction.mnemonic == mnemonic::INC;
    let size = operand_size(instruction, 0);
    let left = read_operand0(cpu, instruction)?;
    let bits = bits_of(size);
    let outcome = if increment {
        add_with_flags(left, 1, false, bits)
    } else {
        sub_with_flags(left, 1, false, bits)
    };
    set_szp(&mut cpu.regs, outcome.result, bits);
    set_overflow(&mut cpu.regs, outcome.overflow);
    set_adjust(&mut cpu.regs, outcome.adjust);
    write_operand0(cpu, instruction, outcome.result)
}

/// An increment or a decrement does not touch the carry flag.
pub proof fn step_keeps_carry(flags: u64, outcome: AddResult, bits: u32)
    ensures
        step_flags(flags, outcome, bits) & CF == flags & CF,
{
    let low = low_bits(outcome.result as int, bits as nat);
    let s = 2 * low >= pow2(bits as nat);
    let z = low == 0;
    let p = crate::arith::ones((low % 256) as nat) % 2 == 0;
    let sign = with_flag(flags, 0x80, s);
    let zero = with_flag(sign, 0x40, z);
    let parity = with_flag(zero, 0x4, p);
    let overflow = with_flag(parity, 0x800, outcome.overflow);
    crate::ops::lemma_flags_disjoint();
    crate::ops::flag_update_is_local(flags, 0x80, CF, s);
    crate::ops::flag_update_is_local(sign, 0x40, CF, z);
    crate::ops::flag_update_is_local(zero, 0x4, CF, p);
    crate::ops::flag_update_is_local(parity, 0x800, CF, outcome.overflow);
    crate::ops::flag_update_is_local(overflow, 0x10, CF, outcome.adjust);
}

/// Negates the operand: carry tells that it was not zero, overflow that it has no
/// positive counterpart.
pub open spec fn neg_spec(machine: Machine, instruction: Instruction) -> (Machine, Result<(), CpuError>) {
    match machine.read_operand0(instruction) {
        Err(error) => (machine, Err(error)),
        Ok(value) => {
            let bits = width_bits(operand_size_spec(instruction, 0));
            let result = (-(value as int) % 0x1_0000_0000_0000_0000) as u64;
            let carried = with_flag(szp(machine.regs.rflags, result, bits), CF, value != 0);
            let flags = with_flag(carried, OF, 2 * low_bits(result as int, bits as nat) == pow2(bits as nat));
            machine.set_flags(flags).write_operand0(instruction, result)
        },
    }
}

pub fn neg(cpu: &mut Cpu, instruction: &Instruction) -> (result: Result<(), CpuError>)
    ensures
        (final(cpu)@, result) == neg_spec(old(cpu)@, *instruction),
{
    let size = operand_size(instruction, 0);
    let value = read_operand0(cpu, instruction)?;
    let bits = bits_of(size);
    let zero: u64 = 0;
    let negated = zero.wrapping_sub(value);
    set_szp(&mut cpu.regs, negated, bits);
    set_carry(&mut cpu.regs, value != 0);
    let half = power_of_two_u64(bits - 1);
    proof {
        lemma_pow2_unfold(bits as nat);
    }
    set_overflow(&mut cpu.regs, truncate(negated, bits) == half);
    write_operand0(cpu, instruction, negated)
}

/// The accumulator of `size` bytes.
pub open spec fn accumulator_spec(size: u8) -> u8 {
    match size {
        1 => register::AL,
        2 => register::AX,
        4 => register::EAX,
        _ => register::RAX,
    }
}

pub fn accumulator(size: u8) -> (number: u8)
    ensures
        number == accumulator_spec(size),
{
    match size {
        1 => register::AL,
        2 => register::AX,
        4 => register::EAX,
        _ => register::RAX,
    }
}

/// The data register of `size` bytes.
pub open spec fn data_register_spec(size: u8) -> u8 {
    match size {
        2 => register::DX,
        4 => register::EDX,
        _ => register::RDX,
    }
}

fn data_register(size: u8) -> (number: u8)
    ensures
        number == data_register_spec(size),
{
    match size {
        2 => register::DX,
        4 => register::EDX,
        _ => register::RDX,
    }
}

/// The product of two operands of `bits` bits, with or without sign.
pub open spec fn product(left: u64, right: u64, bits: u32, signed_operands: bool) -> int {
    if signed_operands {
        signed_of(left as int, bits as nat) * signed_of(right as int, bits as nat)
    } else {
        left * right
    }
}

/// Whether a product does not fit into `bits` bits.
pub open spec fn product_overflows(number: int, bits: u32, signed_operands: bool) -> bool {
    if signed_operands {
        leaves_signed_range(number, bits as nat)
    } else {
        number >= pow2(bits as nat)
    }
}

/// Puts a product of twice `bits` bits where a one-operand multiplication leaves it.
pub open spec fn place_product(machine: Machine, size: u8, number: int, signed_operands: bool) -> Machine {
    let bits = width_bits(size);
    let full = low_bits(number, (2 * bits) as nat);
    let low = (full % (pow2(bits as nat) as int)) as u64;
    let high = (full / (pow2(bits as nat) as int)) as u64;
    let overflow = product_overflows(number, bits, signed_operands);
    let flagged = machine.set_flags(with_flag(with_flag(machine.regs.rflags, CF, overflow), OF, overflow));
    if size == 1 {
        flagged.reg_write(register::AX, 2, full as u64)
    } else {
        let width = if size == 2 || size == 4 {
            size
        } else {
            8
        };
        flagged.reg_write(accumulator_spec(width), width, low).reg_write(data_register_spec(width), width, high)
    }
}

/// Multiplies the accumulator by the operand.
pub open spec fn mul_spec(machine: Machine, instruction: Instruction, signed_operands: bool) -> (
    Machine,
    Result<(), CpuError>,
) {
    match machine.read_operand0(instruction) {
        Err(error) => (machine, Err(error)),
        Ok(multiplicand) => {
            let size = operand_size_spec(instruction, 0);
            let factor = reg_read(machine.regs, accumulator_spec(size), size);
            let number = product(factor, multiplicand, width_bits(size), signed_operands);
            (place_product(machine, size, number, signed_operands), Ok(()))
        },
    }
}

/// The product of two words, as its low 128 bits and whether it overflows.
fn multiply(left: u64, right: u64, bits: u32, signed_operands: bool) -> (outcome: (u128, bool))
    requires
        8 <= bits <= 64,
    ensures
        outcome.0 == low_bits(product(left, right, bits, signed_operands), 128),
        outcome.1 == product_overflows(product(left, right, bits, signed_operands), bits, signed_operands),
{
    let half = power_of_two(bits - 1);
    proof {
        lemma2_to64();
        lemma2_to64_rest();
        lemma_pow2_unfold(bits as nat);
        crate::arith::lemma_span_16(16);
        assert(pow2(128) == 0x1_0000_0000_0000_0000_0000_0000_0000_0000int);
        if bits < 64 {
            vstd::arithmetic::power2::lemma_pow2_strictly_increases((bits - 1) as nat, 63);
        }
    }
    if signed_operands {
        let l = signed(left, bits);
        let r = signed(right, bits);
        let left_size: u128 = if l < 0 { (-l) as u128 } else { l as u128 };
        let right_size: u128 = if r < 0 { (-r) as u128 } else { r as u128 };
        assert(left_size * right_size <= 0x8000_0000_0000_0000 * 0x8000_0000_0000_0000) by (nonlinear_arith)
            requires
                0 <= left_size <= 0x8000_0000_0000_0000,
                0 <= right_size <= 0x8000_0000_0000_0000,
        ;
        let size: u128 = left_size * right_size;
        let negative = (l < 0) != (r < 0);
        proof {
            assert(l * r == (if negative { -(size as int) } else { size as int })) by (nonlinear_arith)
                requires
                    left_size == (if l < 0 { -l } else { l as int }),
                    right_size == (if r < 0 { -r } else { r as int }),
                    size == left_size * right_size,
                    negative == ((l < 0) != (r < 0)),
            ;
        }
        let zero: u128 = 0;
        if negative {
            (zero.wrapping_sub(size), size > half)
        } else {
            assert(size as int % 0x1_0000_0000_0000_0000_0000_0000_0000_0000int == size);
            (size, size >= half)
        }
    } else {
        assert(left * right <= 0xFFFF_FFFF_FFFF_FFFF * 0xFFFF_FFFF_FFFF_FFFF) by (nonlinear_arith)
            requires
                0 <= left <= 0xFFFF_FFFF_FFFF_FFFF,
                0 <= right <= 0xFFFF_FFFF_FFFF_FFFF,
        ;
        let size: u128 = left as u128 * right as u128;
        assert(size as int % 0x1_0000_0000_0000_0000_0000_0000_0000_0000int == size);
        (size, size >= 2 * half)
    }
}

fn mul(cpu: &mut Cpu, instruction: &Instruction, signed_operands: bool) -> (result: Result<(), CpuError>)
    ensures
        (final(cpu)@, result) == mul_spec(old(cpu)@, *instruction, signed_operands),
{
    let size = operand_size(instruction, 0);
    let multiplicand = read_operand0(cpu, instruction)?;
    let factor = read_register(&cpu.regs, accumulator(size), size);
    let bits = bits_of(size);
    let (wide, overflow) = multiply(factor, multiplicand, bits, signed_operands);
    let full: u128 = if bits == 64 { wide } else { wide % power_of_two(2 * bits) };
    let span: u128 = if bits == 64 { 0x1_0000_0000_0000_0000 } else { power_of_two(bits) };
    proof {
        lemma2_to64();
        let number = product(factor, multiplicand, bits, signed_operands);
        lemma_low_bits_of_wide(number, (2 * bits) as nat, 128);
        lemma_pow2_adds(bits as nat, bits as nat);
        assert(full == low_bits(number, (2 * bits) as nat));
        lemma_pow2_pos(bits as nat);
        lemma_pow2_pos((2 * bits) as nat);
        vstd::arithmetic::div_mod::lemma_mod_bound(number, pow2((2 * bits) as nat) as int);
        assert(full < span * span);
        assert(full / span < span) by (nonlinear_arith)
            requires
                full < span * span,
                span > 0,
        ;
        if bits < 64 {
            vstd::arithmetic::power2::lemma_pow2_strictly_increases(bits as nat, 64);
        }
    }
    let low = (full % span) as u64;
    let high = (full / span) as u64;
    set_carry(&mut cpu.regs, overflow);
    set_overflow(&mut cpu.regs, overflow);
    if size == 1 {
        write_register(&mut cpu.regs, register::AX, 2, full as u64);
    } else {
        let width: u8 = if size == 2 || size == 4 { size } else { 8 };
        write_register(&mut cpu.regs, accumulator(width), width, low);
        write_register(&mut cpu.regs, data_register(width), width, high);
    }
    Ok(())
}

/// The factors of the two and three operand forms: the shorthand that repeats the
/// destination multiplies its old value by the immediate.
pub open spec fn imul_factors(machine: Machine, instruction: Instruction) -> Result<(u64, u64), CpuError> {
    let repeats_destination = instruction.op_count >= 3 && instruction.op1_kind == op_kind::REGISTER
        && instruction.op1_register == instruction.op0_register;
    if instruction.op_count == 2 {
        match machine.read_operand0(instruction) {
            Err(error) => Err(error),
            Ok(left) => match machine.read_operand1(instruction) {
                Err(error) => Err(error),
                Ok(right) => Ok((left, right)),
            },
        }
    } else if repeats_destination {
        match machine.read_operand0(instruction) {
            Err(error) => Err(error),
            Ok(left) => Ok((left, instruction.immediate2)),
        }
    } else {
        match machine.read_operand1(instruction) {
            Err(error) => Err(error),
            Ok(left) => Ok((left, instruction.immediate2)),
        }
    }
}

/// Multiplies with sign into the destination; carry and overflow tell that the
/// product does not fit.
pub open spec fn imul_two_three_spec(machine: Machine, instruction: Instruction) -> (Machine, Result<(), CpuError>) {
    match imul_factors(machine, instruction) {
        Err(error) => (machine, Err(error)),
        Ok((left, right)) => {
            let bits = width_bits(operand_size_spec(instruction, 0));
            let number = product(left, right, bits, true);
            let overflow = leaves_signed_range(number, bits as nat);
            let flags = with_flag(with_flag(machine.regs.rflags, CF, overflow), OF, overflow);
            machine.set_flags(flags).write_operand0(instruction, low_bits(number, bits as nat) as u64)
        },
    }
}

fn imul_two_three(cpu: &mut Cpu, instruction: &Instruction) -> (result: Result<(), CpuError>)
    ensures
        (final(cpu)@, result) == imul_two_three_spec(old(cpu)@, *instruction),
{
    let size = operand_size(instruction, 0);
    let repeats_destination = instruction.op_count >= 3 && instruction.op1_kind == op_kind::REGISTER
        && instruction.op1_register == instruction.op0_register;
    let (left, right): (u64, u64) = if instruction.op_count == 2 {
        let left = read_operand0(cpu, instruction)?;
        let right = read_operand1(cpu, instruction)?;
        (left, right)
    } else if repeats_destination {
        let left = read_operand0(cpu, instruction)?;
        (left, instruction.immediate2)
    } else {
        let left = read_operand1(cpu, instruction)?;
        (left, instruction.immediate2)
    };
    let bits = bits_of(size);
    let (wide, overflow) = multiply(left, right, bits, true);
    let low = (wide % 0x1_0000_0000_0000_0000) as u64;
    let truncated = truncate(low, bits);
    proof {
        lemma2_to64();
        let number = product(left, right, bits, true);
        lemma_low_bits_of_wide(number, 64, 128);
        lemma_low_bits_of_wide(number, bits as nat, 64);
    }
    set_carry(&mut cpu.regs, overflow);
    set_overflow(&mut cpu.regs, overflow);
    write_operand0(cpu, instruction, truncated)
}

/// The dividend of a division by an operand of `size` bytes: the accumulator, with
/// the data register above it where there is one.
pub open spec fn dividend(machine: Machine, size: u8) -> int {
    if size == 1 {
        reg_read(machine.regs, register::AX, 2) as int
    } else {
        let width = if size == 2 || size == 4 {
            size
        } else {
            8
        };
        reg_read(machine.regs, data_register_spec(width), width) * pow2(width_bits(width) as nat) + reg_read(
            machine.regs,
            accumulator_spec(width),
            width,
        )
    }
}

/// The magnitude of `number`.
pub open spec fn magnitude(number: int) -> int {
    if number < 0 {
        -number
    } else {
        number
    }
}

/// The quotient rounded toward zero.
pub open spec fn truncated_quotient(number: int, divisor: int) -> int {
    let size = magnitude(number) / magnitude(divisor);
    if (number < 0) != (divisor < 0) {
        -size
    } else {
        size
    }
}

/// The remainder with the dividend's sign.
pub open spec fn truncated_remainder(number: int, divisor: int) -> int {
    let size = magnitude(number) % magnitude(divisor);
    if number < 0 {
        -size
    } else {
        size
    }
}

/// Quotient and remainder of a division, or none where the divisor is zero or the
/// quotient does not fit.
pub open spec fn divided(number: int, divisor: u64, bits: u32, signed_operands: bool) -> Option<(u64, u64)> {
    if divisor == 0 {
        None
    } else if signed_operands {
        let top = signed_of(number, (2 * bits) as nat);
        let bottom = signed_of(divisor as int, bits as nat);
        let quotient = truncated_quotient(top, bottom);
        if bottom == 0 || leaves_signed_range(quotient, bits as nat) {
            None
        } else {
            Some((low_bits(quotient, 64) as u64, low_bits(truncated_remainder(top, bottom), 64) as u64))
        }
    } else {
        let quotient = number / (divisor as int);
        if quotient >= pow2(bits as nat) {
            None
        } else {
            Some((quotient as u64, (number % (divisor as int)) as u64))
        }
    }
}

/// Divides, or raises a divide error.
pub open spec fn div_spec(machine: Machine, instruction: Instruction, signed_operands: bool) -> (
    Machine,
    Result<(), CpuError>,
) {
    match machine.read_operand0(instruction) {
        Err(error) => (machine, Err(error)),
        Ok(divisor) => {
            let size = operand_size_spec(instruction, 0);
            match divided(dividend(machine, size), divisor, width_bits(size), signed_operands) {
                None => machine.raise(VECTOR_DIVIDE_ERROR, None),
                Some((quotient, remainder)) => if size == 1 {
                    (machine.reg_write(register::AL, 1, quotient).reg_write(register::AH, 1, remainder), Ok(()))
                } else {
                    let width = if size == 2 || size == 4 {
                        size
                    } else {
                        8
                    };
                    (
                        machine.reg_write(accumulator_spec(width), width, quotient).reg_write(
                            data_register_spec(width),
                            width,
                            remainder,
                        ),
                        Ok(()),
                    )
                },
            }
        },
    }
}

/// What the widths of a division span.
proof fn lemma_division_widths(bits: nat)
    requires
        8 <= bits <= 64,
    ensures
        pow2(bits) == 2 * pow2((bits - 1) as nat),
        pow2((2 * bits) as nat) == 2 * pow2((2 * bits - 1) as nat),
        0 < pow2(bits) <= 0x1_0000_0000_0000_0000,
        0 < pow2((bits - 1) as nat) <= 0x8000_0000_0000_0000,
{
    lemma2_to64();
    lemma2_to64_rest();
    lemma_pow2_unfold(bits);
    lemma_pow2_unfold((2 * bits) as nat);
    lemma_pow2_pos((bits - 1) as nat);
    if bits < 64 {
        vstd::arithmetic::power2::lemma_pow2_strictly_increases(bits, 64);
    }
}

/// The low word of a negated size.
fn negated(size: u64) -> (word: u64)
    ensures
        word == low_bits(-(size as int), 64),
{
    let zero: u64 = 0;
    proof {
        lemma2_to64_rest();
        lemma2_to64();
    }
    zero.wrapping_sub(size)
}

fn divide_signed(number: u128, divisor: u64, bits: u32) -> (outcome: Option<(u64, u64)>)
    requires
        8 <= bits <= 64,
        number < pow2((2 * bits) as nat),
        divisor != 0,
    ensures
        outcome == divided(number as int, divisor, bits, true),
{
    let wide_half = power_of_two(2 * bits - 1);
    let half = power_of_two(bits - 1);
    proof {
        lemma_division_widths(bits as nat);
        vstd::arithmetic::div_mod::lemma_small_mod(number as nat, pow2((2 * bits) as nat));
    }
    let ghost top = signed_of(number as int, (2 * bits) as nat);
    let top_negative = number >= wide_half;
    let top_size: u128 = if top_negative { wide_half - (number - wide_half) } else { number };
    let bottom = signed(divisor, bits);
    if bottom == 0 {
        return None;
    }
    let bottom_size: u128 = if bottom < 0 { (-bottom) as u128 } else { bottom as u128 };
    let quotient_size = top_size / bottom_size;
    let remainder_size = top_size % bottom_size;
    let quotient_negative = top_negative != (bottom < 0);
    assert(top_size == if top < 0 {
        -top
    } else {
        top
    });
    if (quotient_negative && quotient_size > half) || (!quotient_negative && quotient_size >= half) {
        return None;
    }
    proof {
        lemma2_to64();
        lemma2_to64_rest();
        vstd::arithmetic::div_mod::lemma_mod_bound(top_size as int, bottom_size as int);
        assert(low_bits(quotient_size as int, 64) == quotient_size);
        assert(low_bits(remainder_size as int, 64) == remainder_size);
    }
    let quotient = if quotient_negative {
        negated(quotient_size as u64)
    } else {
        quotient_size as u64
    };
    let remainder = if top_negative {
        negated(remainder_size as u64)
    } else {
        remainder_size as u64
    };
    Some((quotient, remainder))
}

fn divide_unsigned(number: u128, divisor: u64, bits: u32) -> (outcome: Option<(u64, u64)>)
    requires
        8 <= bits <= 64,
        divisor != 0,
    ensures
        outcome == divided(number as int, divisor, bits, false),
{
    proof {
        lemma2_to64_rest();
        lemma_division_widths(bits as nat);
    }
    let quotient = number / divisor as u128;
    let span: u128 = power_of_two(bits);
    if quotient >= span {
        None
    } else {
        Some((quotient as u64, (number % divisor as u128) as u64))
    }
}

/// Divides `number`, a dividend of twice `bits` bits.
fn divide(number: u128, divisor: u64, bits: u32, signed_operands: bool) -> (outcome: Option<(u64, u64)>)
    requires
        8 <= bits <= 64,
        number < pow2((2 * bits) as nat),
    ensures
        outcome == divided(number as int, divisor, bits, signed_operands),
{
    if divisor == 0 {
        None
    } else if signed_operands {
        divide_signed(number, divisor, bits)
    } else {
        divide_unsigned(number, divisor, bits)
    }
}

fn div(cpu: &mut Cpu, instruction: &Instruction, signed_operands: bool) -> (result: Result<(), CpuError>)
    ensures
        (final(cpu)@, result) == div_spec(old(cpu)@, *instruction, signed_operands),
{
    let size = operand_size(instruction, 0);
    let divisor = read_operand0(cpu, instruction)?;
    let bits = bits_of(size);
    let number: u128 = dividend_of(cpu, size);
    match divide(number, divisor, bits, signed_operands) {
        None => cpu.raise(VECTOR_DIVIDE_ERROR, None),
        Some((quotient, remainder)) => {
            if size == 1 {
                write_register(&mut cpu.regs, register::AL, 1, quotient);
                write_register(&mut cpu.regs, register::AH, 1, remainder);
            } else {
                let width: u8 = if size == 2 || size == 4 { size } else { 8 };
                write_register(&mut cpu.regs, accumulator(width), width, quotient);
                write_register(&mut cpu.regs, data_register(width), width, remainder);
            }
            Ok(())
        },
    }
}

fn dividend_of(cpu: &Cpu, size: u8) -> (number: u128)
    ensures
        number == dividend(cpu@, size),
        size == 1 || size == 2 || size == 4 || size >= 8 ==> number < pow2((2 * width_bits(size)) as nat),
{
    proof {
        lemma2_to64();
        crate::arith::lemma_span_16(16);
    }
    if size == 1 {
        read_register(&cpu.regs, register::AX, 2) as u128
    } else {
        let width: u8 = if size == 2 || size == 4 { size } else { 8 };
        let high = read_register(&cpu.regs, data_register(width), width);
        let low = read_register(&cpu.regs, accumulator(width), width);
        let span: u128 = match width {
            2 => 0x1_0000,
            4 => 0x1_0000_0000,
            _ => 0x1_0000_0000_0000_0000,
        };
        high as u128 * span + low as u128
    }
}

pub open spec fn mul_div_spec(machine: Machine, instruction: Instruction) -> (Machine, Result<(), CpuError>) {
    match instruction.mnemonic {
        mnemonic::MUL => mul_spec(machine, instruction, false),
        mnemonic::IMUL => if instruction.op_count == 1 {
            mul_spec(machine, instruction, true)
        } else {
            imul_two_three_spec(machine, instruction)
        },
        mnemonic::DIV => div_spec(machine, instruction, false),
        mnemonic::IDIV => div_spec(machine, instruction, true),
        _ => (machine, Ok(())),
    }
}

pub fn mul_div(cpu: &mut Cpu, instruction: &Instruction) -> (result: Result<(), CpuError>)
    ensures
        (final(cpu)@, result) == mul_div_spec(old(cpu)@, *instruction),
{
    match instruction.mnemonic {
        mnemonic::MUL => self::mul(cpu, instruction, false),
        mnemonic::IMUL => if instruction.op_count == 1 {
            self::mul(cpu, instruction, true)
        } else {
            imul_two_three(cpu, instruction)
        },
        mnemonic::DIV => div(cpu, instruction, false),
        mnemonic::IDIV => div(cpu, instruction, true),
        _ => Ok(()),
    }
}

/// The low `bits` bits of `value` extended with their sign to a word.
pub open spec fn sign_extended(value: u64, bits: u32) -> u64 {
    low_bits(signed_of(value as int, bits as nat), 64) as u64
}

/// A word filled with the sign of the low `bits` bits of `value`.
pub open spec fn sign_filled(value: u64, bits: u32) -> u64 {
    if signed_of(value as int, bits as nat) < 0 {
        0xFFFF_FFFF_FFFF_FFFF
    } else {
        0
    }
}

pub fn sign_extend(value: u64, bits: u32) -> (extended: u64)
    requires
        1 <= bits <= 64,
    ensures
        extended == sign_extended(value, bits),
{
    word_of(signed(value, bits))
}

fn sign_fill(value: u64, bits: u32) -> (filled: u64)
    requires
        1 <= bits <= 64,
    ensures
        filled == sign_filled(value, bits),
{
    if is_negative(value, bits) {
        0xFFFF_FFFF_FFFF_FFFF
    } else {
        0
    }
}

/// The accumulator widened in place, or its sign spread into the data register.
pub open spec fn convert_spec(machine: Machine, instruction: Instruction) -> Machine {
    let rax = reg_read(machine.regs, register::RAX, 8);
    match instruction.mnemonic {
        mnemonic::CBW => machine.reg_write(register::AX, 2, sign_extended(rax, 8)),
        mnemonic::CWDE => machine.reg_write(register::EAX, 4, sign_extended(rax, 16)),
        mnemonic::CDQE => machine.reg_write(register::RAX, 8, sign_extended(rax, 32)),
        mnemonic::CWD => machine.reg_write(register::DX, 2, sign_filled(rax, 16)),
        mnemonic::CDQ => machine.reg_write(register::EDX, 4, sign_filled(rax, 32)),
        mnemonic::CQO => machine.reg_write(register::RDX, 8, sign_filled(rax, 64)),
        _ => machine,
    }
}

pub fn convert(cpu: &mut Cpu, instruction: &Instruction) -> (result: Result<(), CpuError>)
    ensures
        final(cpu)@ == convert_spec(old(cpu)@, *instruction),
        result is Ok,
{
    let rax = read_register(&cpu.regs, register::RAX, 8);
    match instruction.mnemonic {
        mnemonic::CBW => write_register(&mut cpu.regs, register::AX, 2, sign_extend(rax, 8)),
        mnemonic::CWDE => write_register(&mut cpu.regs, register::EAX, 4, sign_extend(rax, 16)),
        mnemonic::CDQE => write_register(&mut cpu.regs, register::RAX, 8, sign_extend(rax, 32)),
        mnemonic::CWD => write_register(&mut cpu.regs, register::DX, 2, sign_fill(rax, 16)),
        mnemonic::CDQ => write_register(&mut cpu.regs, register::EDX, 4, sign_fill(rax, 32)),
        mnemonic::CQO => write_register(&mut cpu.regs, register::RDX, 8, sign_fill(rax, 64)),
        _ => {},
    }
    Ok(())
}

} // verus!
