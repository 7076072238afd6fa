//! Bitwise logic, shifts, rotates, and bit scan/test.

use vstd::arithmetic::div_mod::{lemma_fundamental_div_mod, lemma_fundamental_div_mod_converse, lemma_mod_bound};
use vstd::arithmetic::power2::{lemma2_to64, lemma2_to64_rest, lemma_pow2_adds, lemma_pow2_pos, lemma_pow2_unfold, pow2};
use vstd::prelude::*;

use crate::arch::registers::{holds, with_flag, CF, OF, ZF};
use crate::arith::{
    bit_of, highest_bit, is_negative, low_bits, lowest_bit, power_of_two, power_of_two_u64, signed, signed_of, top_bit,
    trailing_zeros, truncate,
};
use crate::cpu::linear::AccessKind;
use crate::cpu::memory::load_word;
use crate::cpu::{Cpu, CpuError, Machine};
use crate::decode::{mnemonic, op_kind, register, Instruction};
use crate::ops::{
    bits_of, carry, logic_flags, operand_size, operand_size_spec, read_operand0, read_operand1, read_register, reg_read,
    set_carry, set_logic, set_overflow, set_szp, szp, width_bits, write_operand0, write_register,
};

verus! {

/// The bitwise result that the mnemonic asks for.
pub open spec fn logic_result(mnemonic: u16, left: u64, right: u64) -> u64 {
    match mnemonic {
        mnemonic::OR => left | right,
        mnemonic::XOR => left ^ right,
        _ => left & right,
    }
}

pub open spec fn and_or_xor_spec(machine: Machine, instruction: Instruction) -> (Machine, Result<(), CpuError>) {
    match machine.read_operand0(instruction) {
        Err(error) => (machine, Err(error)),
        Ok(left) => match machine.read_operand1(instruction) {
            Err(error) => (machine, Err(error)),
            Ok(right) => {
                let value = logic_result(instruction.mnemonic, left, right);
                let bits = width_bits(operand_size_spec(instruction, 0));
                machine.set_flags(logic_flags(machine.regs.rflags, value, bits)).write_operand0(instruction, value)
            },
        },
    }
}

pub fn and_or_xor(cpu: &mut Cpu, instruction: &Instruction) -> (result: Result<(), CpuError>)
    ensures
        (final(cpu)@, result) == and_or_xor_spec(old(cpu)@, *instruction),
{
    let size = operand_size(instruction, 0);
    let left = read_operand0(cpu, instruction)?;
    let right = read_operand1(cpu, instruction)?;
    let value = match instruction.mnemonic {
        mnemonic::OR => left | right,
        mnemonic::XOR => left ^ right,
        _ => left & right,
    };
    set_logic(&mut cpu.regs, value, bits_of(size));
    write_operand0(cpu, instruction, value)
}

pub open spec fn test_spec(machine: Machine, instruction: Instruction) -> (Machine, Result<(), CpuError>) {
    match machine.read_operand0(instruction) {
        Err(error) => (machine, Err(error)),
        Ok(left) => match machine.read_operand1(instruction) {
            Err(error) => (machine, Err(error)),
            Ok(right) => {
                let bits = width_bits(operand_size_spec(instruction, 0));
                (machine.set_flags(logic_flags(machine.regs.rflags, left & right, bits)), Ok(()))
            },
        },
    }
}

/// Sets the flags of a bitwise and without keeping it.
pub fn test(cpu: &mut Cpu, instruction: &Instruction) -> (result: Result<(), CpuError>)
    ensures
        (final(cpu)@, result) == test_spec(old(cpu)@, *instruction),
{
    let size = operand_size(instruction, 0);
    let left = read_operand0(cpu, instruction)?;
    let right = read_operand1(cpu, instruction)?;
    set_logic(&mut cpu.regs, left & right, bits_of(size));
    Ok(())
}

/// One shift or rotate result plus the flags it defines.
#[derive(Clone, Copy, PartialEq, Eq, Structural, Debug)]
pub struct ShiftOutcome {
    pub result: u64,
    pub carry: bool,
    pub overflow: bool,
    pub affects_sign_zero_parity: bool,
}

/// `value`, a number of `width` bits, rotated left by `steps`.
pub open spec fn rotated_left(value: int, steps: nat, width: nat) -> int {
    let low_span = pow2((width - steps) as nat) as int;
    (value % low_span) * pow2(steps) + value / low_span
}

/// Rotating left by the steps that are left of a whole turn undoes a rotation.
pub proof fn rotations_undo_each_other(value: int, steps: nat, width: nat)
    requires
        steps <= width,
        0 <= value < pow2(width),
    ensures
        rotated_left(rotated_left(value, steps, width), (width - steps) as nat, width) == value,
        0 <= rotated_left(value, steps, width) < pow2(width),
{
    let rest = (width - steps) as nat;
    let low_span = pow2(rest) as int;
    let high_span = pow2(steps) as int;
    lemma_pow2_pos(rest);
    lemma_pow2_pos(steps);
    lemma_pow2_adds(rest, steps);
    let low = value % low_span;
    let high = value / low_span;
    lemma_fundamental_div_mod(value, low_span);
    lemma_mod_bound(value, low_span);
    assert(0 <= high < high_span) by (nonlinear_arith)
        requires
            value == low_span * high + low,
            0 <= low < low_span,
            0 <= value < low_span * high_span,
            low_span > 0,
    ;
    let turned = low * high_span + high;
    assert(0 <= turned < low_span * high_span) by (nonlinear_arith)
        requires
            turned == low * high_span + high,
            0 <= low < low_span,
            0 <= high < high_span,
    ;
    lemma_fundamental_div_mod_converse(turned, high_span, low, high);
    assert(high * low_span + low == value) by (nonlinear_arith)
        requires
            value == low_span * high + low,
    ;
}

/// Rotates a number of `width` bits.
fn rotate_left(value: u128, steps: u32, width: u32) -> (turned: u128)
    requires
        steps <= width <= 65,
        value < pow2(width as nat),
    ensures
        turned == rotated_left(value as int, steps as nat, width as nat),
        turned < pow2(width as nat),
{
    let low_span = power_of_two(width - steps);
    let high_span = power_of_two(steps);
    proof {
        rotations_undo_each_other(value as int, steps as nat, width as nat);
        lemma_pow2_65(width as nat);
        lemma_mod_bound(value as int, low_span as int);
        let low = value as int % low_span as int;
        assert(low * high_span + value / low_span == rotated_left(value as int, steps as nat, width as nat));
        assert(low * high_span >= 0) by (nonlinear_arith)
            requires
                low >= 0,
                high_span >= 0,
        ;
        assert(value / low_span >= 0);
    }
    (value % low_span) * high_span + value / low_span
}

proof fn lemma_pow2_65(exponent: nat)
    requires
        exponent <= 65,
    ensures
        pow2(exponent) <= 0x2_0000_0000_0000_0000,
{
    lemma2_to64();
    lemma_pow2_unfold(65);
    if exponent < 65 {
        vstd::arithmetic::power2::lemma_pow2_strictly_increases(exponent, 65);
    }
}

/// A rotation without the carry flag; none for a count of zero. The count may turn
/// the operand several times; overflow is defined for a count of one.
pub open spec fn rotate_spec(value: u64, count: u64, bits: u32, left: bool) -> Option<ShiftOutcome> {
    if count == 0 {
        None
    } else {
        let steps = count as int % bits as int;
        let turn = if left {
            steps
        } else {
            bits - steps
        };
        let result = rotated_left(value as int, turn as nat, bits as nat);
        let top = bit_of(result, (bits - 1) as nat);
        let carry = if left {
            bit_of(result, 0)
        } else {
            top
        };
        let overflow = count == 1 && (if left {
            top != carry
        } else {
            top != bit_of(result, (bits - 2) as nat)
        });
        Some(ShiftOutcome { result: result as u64, carry, overflow, affects_sign_zero_parity: false })
    }
}

/// Bit `index` of a word.
fn bit(value: u64, index: u32) -> (set: bool)
    requires
        index < 64,
    ensures
        set == bit_of(value as int, index as nat),
{
    (value / power_of_two_u64(index)) % 2 == 1
}

fn rotate(value: u64, count: u64, bits: u32, left: bool) -> (outcome: Option<ShiftOutcome>)
    requires
        8 <= bits <= 64,
        value < pow2(bits as nat),
    ensures
        outcome == rotate_spec(value, count, bits, left),
{
    if count == 0 {
        return None;
    }
    let steps = (count % bits as u64) as u32;
    let turn: u32 = if left { steps } else { bits - steps };
    let wide = rotate_left(value as u128, turn, bits);
    proof {
        lemma2_to64();
        if bits < 64 {
            vstd::arithmetic::power2::lemma_pow2_strictly_increases(bits as nat, 64);
        }
    }
    let result = wide as u64;
    let top = bit(result, bits - 1);
    let carry = if left { bit(result, 0) } else { top };
    let overflow = count == 1 && (if left { top != carry } else { top != bit(result, bits - 2) });
    Some(ShiftOutcome { result, carry, overflow, affects_sign_zero_parity: false })
}

/// The operand with the carry flag above it.
pub open spec fn with_carry_above(value: u64, carry: bool, bits: u32) -> int {
    value + crate::ops::carry_number(carry) * pow2(bits as nat)
}

/// A rotation of the operand together with the carry flag, one bit wider than the
/// operand; none where the count makes whole turns.
pub open spec fn rotate_through_carry_spec(value: u64, count: u64, bits: u32, carry_in: bool, left: bool) -> Option<
    ShiftOutcome,
> {
    let width = (bits + 1) as nat;
    let steps = count as int % width as int;
    if steps == 0 {
        None
    } else {
        let turn = if left {
            steps
        } else {
            width - steps
        };
        let turned = rotated_left(with_carry_above(value, carry_in, bits), turn as nat, width);
        let result = turned % (pow2(bits as nat) as int);
        let carry = turned / (pow2(bits as nat) as int) == 1;
        let top = bit_of(result, (bits - 1) as nat);
        let overflow = count == 1 && (if left {
            top != carry
        } else {
            top != bit_of(result, (bits - 2) as nat)
        });
        Some(ShiftOutcome { result: result as u64, carry, overflow, affects_sign_zero_parity: false })
    }
}

/// Rotating right through carry by as many steps undoes a rotation left through
/// carry: operand and carry flag come back.
pub proof fn rcr_undoes_rcl(value: u64, count: u64, bits: u32, carry_in: bool)
    requires
        8 <= bits <= 64,
        value < pow2(bits as nat),
        count % ((bits + 1) as u64) != 0,
    ensures
        ({
            let there = rotate_through_carry_spec(value, count, bits, carry_in, true)->0;
            let back = rotate_through_carry_spec(there.result, count, bits, there.carry, false)->0;
            back.result == value && back.carry == carry_in
        }),
{
    let width = (bits + 1) as nat;
    let steps = (count as int % width as int) as nat;
    let start = with_carry_above(value, carry_in, bits);
    let span = pow2(bits as nat) as int;
    lemma2_to64();
    lemma_pow2_pos(bits as nat);
    lemma_pow2_unfold(width);
    if bits < 64 {
        vstd::arithmetic::power2::lemma_pow2_strictly_increases(bits as nat, 64);
    }
    assert(0 <= start < 2 * span);
    rotations_undo_each_other(start, steps, width);
    let turned = rotated_left(start, steps, width);
    lemma_one_bit_above(turned, span);
    lemma_one_bit_above(start, span);
    let there = rotate_through_carry_spec(value, count, bits, carry_in, true)->0;
    assert(there.result == turned % span);
    assert(with_carry_above(there.result, there.carry, bits) == turned);
}

proof fn lemma_one_bit_above(number: int, span: int)
    requires
        span > 0,
        0 <= number < 2 * span,
    ensures
        number / span == (if number >= span {
            1int
        } else {
            0
        }),
        number % span == (if number >= span {
            number - span
        } else {
            number
        }),
{
    if number >= span {
        lemma_fundamental_div_mod_converse(number, span, 1, number - span);
    } else {
        lemma_fundamental_div_mod_converse(number, span, 0, number);
    }
}

fn rotate_through_carry(value: u64, count: u64, bits: u32, carry_in: bool, left: bool) -> (outcome: Option<ShiftOutcome>)
    requires
        8 <= bits <= 64,
        value < pow2(bits as nat),
    ensures
        outcome == rotate_through_carry_spec(value, count, bits, carry_in, left),
{
    let width = bits + 1;
    let steps = (count % width as u64) as u32;
    if steps == 0 {
        return None;
    }
    let turn: u32 = if left { steps } else { width - steps };
    let span = power_of_two(bits);
    proof {
        lemma2_to64();
        lemma_pow2_unfold(width as nat);
        lemma_pow2_65(width as nat);
        if bits < 64 {
            vstd::arithmetic::power2::lemma_pow2_strictly_increases(bits as nat, 64);
        }
    }
    let start: u128 = if carry_in { value as u128 + span } else { value as u128 };
    let turned = rotate_left(start, turn, width);
    proof {
        lemma_one_bit_above(turned as int, span as int);
    }
    let result = (turned % span) as u64;
    let carry = turned / span == 1;
    let top = bit(result, bits - 1);
    let overflow = count == 1 && (if left { top != carry } else { top != bit(result, bits - 2) });
    Some(ShiftOutcome { result, carry, overflow, affects_sign_zero_parity: false })
}

/// A shift; none for a count of zero. The carry flag is the last bit shifted out;
/// overflow is defined for a count of one. SAR shifts the signed reading.
pub open spec fn shift_spec(value: u64, count: u64, bits: u32, mnemonic: u16) -> Option<ShiftOutcome> {
    if count == 0 {
        None
    } else {
        let n = bits as nat;
        let s = count as nat;
        let last = (count - 1) as nat;
        let (result, carry) = match mnemonic {
            mnemonic::SHL => (low_bits(value * pow2(s), n), s <= n && bit_of(value as int, (n - s) as nat)),
            mnemonic::SAR => (
                low_bits(signed_of(value as int, n) / (pow2(s) as int), n),
                bit_of(signed_of(value as int, n), last),
            ),
            _ => (value as int / (pow2(s) as int), bit_of(value as int, last)),
        };
        let overflow = count == 1 && match mnemonic {
            mnemonic::SHL => bit_of(result, (n - 1) as nat) != carry,
            mnemonic::SAR => false,
            _ => bit_of(value as int, (n - 1) as nat),
        };
        Some(ShiftOutcome { result: result as u64, carry, overflow, affects_sign_zero_parity: true })
    }
}

/// Shifting a signed number right by `steps`, as its low `bits` bits.
fn arithmetic_right(value: u64, steps: u32, bits: u32) -> (shifted: u64)
    requires
        8 <= bits <= 64,
        steps < 64,
        value < pow2(bits as nat),
    ensures
        shifted == low_bits(signed_of(value as int, bits as nat) / (pow2(steps as nat) as int), bits as nat),
        shifted < pow2(bits as nat),
{
    let negative = is_negative(value, bits);
    let span: u128 = power_of_two(bits);
    let part = power_of_two_u64(steps);
    let ghost n = bits as nat;
    let ghost s = steps as nat;
    proof {
        lemma2_to64();
        lemma_pow2_pos(n);
        lemma_pow2_pos(s);
        vstd::arithmetic::div_mod::lemma_small_mod(value as nat, pow2(n));
        if bits < 64 {
            vstd::arithmetic::power2::lemma_pow2_strictly_increases(n, 64);
        }
    }
    if !negative {
        proof {
            assert(0 <= value / part <= value) by (nonlinear_arith)
                requires
                    part >= 1,
            ;
            vstd::arithmetic::div_mod::lemma_small_mod((value / part) as nat, pow2(n));
        }
        value / part
    } else if steps >= bits {
        proof {
            if bits < steps {
                vstd::arithmetic::power2::lemma_pow2_strictly_increases(n, s);
            }
            let number = value - pow2(n);
            lemma_fundamental_div_mod_converse(number, part as int, -1, number + part);
            lemma_fundamental_div_mod_converse(-1, pow2(n) as int, -1, pow2(n) - 1);
        }
        (span - 1) as u64
    } else {
        let fill_span: u128 = power_of_two(bits - steps);
        proof {
            lemma_pow2_adds((n - s) as nat, s);
            lemma_pow2_unfold(n);
            let number = value - pow2(n);
            let q = value as int / part as int;
            let r = value as int % part as int;
            lemma_fundamental_div_mod(value as int, part as int);
            lemma_mod_bound(value as int, part as int);
            assert(number == (q - fill_span) * part + r) by (nonlinear_arith)
                requires
                    number == value - fill_span * part,
                    value == part * q + r,
            ;
            lemma_fundamental_div_mod_converse(number, part as int, q - fill_span, r);
            assert(q < fill_span) by (nonlinear_arith)
                requires
                    value == part * q + r,
                    r >= 0,
                    value < fill_span * part,
                    part > 0,
            ;
            assert(q >= 0) by (nonlinear_arith)
                requires
                    value == part * q + r,
                    0 <= r < part,
                    value >= 0,
                    part > 0,
            ;
            if steps > 0 {
                vstd::arithmetic::power2::lemma_pow2_strictly_increases((n - s) as nat, n);
            }
            lemma_fundamental_div_mod_converse(q - fill_span, pow2(n) as int, -1, q - fill_span + pow2(n));
        }
        ((value / part) as u128 + (span - fill_span)) as u64
    }
}

/// The bit at `index` of a signed number of `bits` bits, which is its sign from the
/// top bit on.
fn signed_bit(value: u64, index: u32, bits: u32) -> (set: bool)
    requires
        8 <= bits <= 64,
        index < 64,
        value < pow2(bits as nat),
    ensures
        set == bit_of(signed_of(value as int, bits as nat), index as nat),
{
    let shifted = arithmetic_right(value, index, bits);
    proof {
        let n = bits as nat;
        let number = signed_of(value as int, n) / (pow2(index as nat) as int);
        lemma_pow2_pos(n);
        lemma_pow2_unfold(n);
        let half = pow2((n - 1) as nat) as int;
        lemma_fundamental_div_mod(number, pow2(n) as int);
        let q = number / (pow2(n) as int);
        assert(number == 2 * (half * q) + shifted) by (nonlinear_arith)
            requires
                number == (2 * half) * q + shifted,
        ;
        assert(number % 2 == shifted as int % 2);
    }
    shifted % 2 == 1
}

fn shift(value: u64, count: u64, bits: u32, mnemonic: u16) -> (outcome: Option<ShiftOutcome>)
    requires
        8 <= bits <= 64,
        count < 64,
        value < pow2(bits as nat),
    ensures
        outcome == shift_spec(value, count, bits, mnemonic),
{
    if count == 0 {
        return None;
    }
    let steps = count as u32;
    proof {
        lemma2_to64();
        lemma_pow2_pos(bits as nat);
        if bits < 64 {
            vstd::arithmetic::power2::lemma_pow2_strictly_increases(bits as nat, 64);
        }
    }
    let (result, carry): (u64, bool) = match mnemonic {
        mnemonic::SHL => {
            let part = power_of_two_u64(steps);
            proof {
                assert(value * part <= 0xFFFF_FFFF_FFFF_FFFF * 0xFFFF_FFFF_FFFF_FFFF) by (nonlinear_arith)
                    requires
                        0 <= value <= 0xFFFF_FFFF_FFFF_FFFF,
                        0 <= part <= 0xFFFF_FFFF_FFFF_FFFF,
                ;
            }
            let wide: u128 = value as u128 * part as u128;
            let span = power_of_two(bits);
            proof {
                lemma_mod_bound(wide as int, span as int);
            }
            let carry = if steps <= bits {
                if steps == 0 { false } else { bit(value, bits - steps) }
            } else {
                false
            };
            ((wide % span) as u64, carry)
        },
        mnemonic::SAR => (arithmetic_right(value, steps, bits), signed_bit(value, steps - 1, bits)),
        _ => {
            let part = power_of_two_u64(steps);
            (value / part, bit(value, steps - 1))
        },
    };
    let overflow = count == 1 && match mnemonic {
        mnemonic::SHL => bit(result, bits - 1) != carry,
        mnemonic::SAR => false,
        _ => bit(value, bits - 1),
    };
    Some(ShiftOutcome { result, carry, overflow, affects_sign_zero_parity: true })
}

/// The count of a shift before it is cut: the immediate, CL, or one.
pub open spec fn raw_count(machine: Machine, instruction: Instruction) -> u64 {
    if instruction.op1_kind == op_kind::IMMEDIATE8 {
        instruction.immediate1
    } else if instruction.op1_kind == op_kind::REGISTER {
        reg_read(machine.regs, register::CL, 1)
    } else {
        1
    }
}

/// The shift or rotation that the mnemonic asks for.
#[verifier::opaque]
pub open spec fn shifted(mnemonic: u16, value: u64, count: u64, bits: u32, carry_in: bool) -> Option<ShiftOutcome> {
    match mnemonic {
        mnemonic::ROL => rotate_spec(value, count, bits, true),
        mnemonic::ROR => rotate_spec(value, count, bits, false),
        mnemonic::RCL => rotate_through_carry_spec(value, count, bits, carry_in, true),
        mnemonic::RCR => rotate_through_carry_spec(value, count, bits, carry_in, false),
        _ => shift_spec(value, count, bits, mnemonic),
    }
}

/// The flags after a shift or a rotation: a rotation leaves sign, zero, parity and
/// adjust alone.
pub open spec fn shift_flags(flags: u64, outcome: ShiftOutcome, bits: u32) -> u64 {
    let moved = with_flag(with_flag(flags, CF, outcome.carry), OF, outcome.overflow);
    if outcome.affects_sign_zero_parity {
        szp(moved, outcome.result, bits)
    } else {
        moved
    }
}

/// Shifts and rotates. The count is cut to six bits for eight byte operands and to
/// five for smaller ones; a count that moves nothing changes no flag.
pub open spec fn shift_rotate_spec(machine: Machine, instruction: Instruction) -> (Machine, Result<(), CpuError>) {
    match machine.read_operand0(instruction) {
        Err(error) => (machine, Err(error)),
        Ok(value) => if instruction.mnemonic == mnemonic::NOT {
            machine.write_operand0(instruction, !value)
        } else {
            let size = operand_size_spec(instruction, 0);
            let bits = width_bits(size);
            let count = raw_count(machine, instruction) % (if size == 8 {
                64u64
            } else {
                32
            });
            let low = low_bits(value as int, bits as nat) as u64;
            match shifted(instruction.mnemonic, low, count, bits, holds(machine.regs.rflags, CF)) {
                None => (machine, Ok(())),
                Some(outcome) => machine.set_flags(
                    shift_flags(machine.regs.rflags, outcome, bits),
                ).write_operand0(instruction, outcome.result),
            }
        },
    }
}

/// A rotation leaves sign, zero, parity and adjust as they were.
pub proof fn rotations_keep_the_other_flags(flags: u64, outcome: ShiftOutcome, bits: u32)
    requires
        !outcome.affects_sign_zero_parity,
    ensures
        shift_flags(flags, outcome, bits) & (crate::arch::registers::SF | ZF | crate::arch::registers::PF
            | crate::arch::registers::AF) == flags & (crate::arch::registers::SF | ZF | crate::arch::registers::PF
            | crate::arch::registers::AF),
{
    let others = crate::arch::registers::SF | ZF | crate::arch::registers::PF | crate::arch::registers::AF;
    crate::ops::lemma_flags_disjoint();
    crate::ops::flag_update_is_local(flags, CF, others, outcome.carry);
    crate::ops::flag_update_is_local(with_flag(flags, CF, outcome.carry), OF, others, outcome.overflow);
}

fn shift_of(mnemonic: u16, value: u64, count: u64, bits: u32, carry_in: bool) -> (outcome: Option<ShiftOutcome>)
    requires
        8 <= bits <= 64,
        count < 64,
        value < pow2(bits as nat),
    ensures
        outcome == shifted(mnemonic, value, count, bits, carry_in),
{
    proof {
        reveal(shifted);
    }
    match mnemonic {
        mnemonic::ROL => rotate(value, count, bits, true),
        mnemonic::ROR => rotate(value, count, bits, false),
        mnemonic::RCL => rotate_through_carry(value, count, bits, carry_in, true),
        mnemonic::RCR => rotate_through_carry(value, count, bits, carry_in, false),
        _ => shift(value, count, bits, mnemonic),
    }
}

pub fn shift_rotate(cpu: &mut Cpu, instruction: &Instruction) -> (result: Result<(), CpuError>)
    ensures
        (final(cpu)@, result) == shift_rotate_spec(old(cpu)@, *instruction),
{
    let value = read_operand0(cpu, instruction)?;
    if instruction.mnemonic == mnemonic::NOT {
        return write_operand0(cpu, instruction, !value);
    }
    let size = operand_size(instruction, 0);
    let raw = if instruction.op1_kind == op_kind::IMMEDIATE8 {
        instruction.immediate1
    } else if instruction.op1_kind == op_kind::REGISTER {
        read_register(&cpu.regs, register::CL, 1)
    } else {
        1
    };
    let count = if size == 8 { raw % 64 } else { raw % 32 };
    let bits = bits_of(size);
    let truncated = truncate(value, bits);
    let carry_in = carry(&cpu.regs);
    match shift_of(instruction.mnemonic, truncated, count, bits, carry_in) {
        None => Ok(()),
        Some(outcome) => {
            set_carry(&mut cpu.regs, outcome.carry);
            set_overflow(&mut cpu.regs, outcome.overflow);
            if outcome.affects_sign_zero_parity {
                set_szp(&mut cpu.regs, outcome.result, bits);
            }
            write_operand0(cpu, instruction, outcome.result)
        },
    }
}

/// The machine after a bit scan of `source` into the first operand. BSF and BSR
/// leave the destination as it was where the source is zero.
pub open spec fn scan_spec(machine: Machine, instruction: Instruction, source: u64) -> Machine {
    let size = operand_size_spec(instruction, 0);
    let bits = width_bits(size);
    let low = low_bits(source as int, bits as nat) as nat;
    match instruction.mnemonic {
        mnemonic::BSF | mnemonic::BSR => {
            let flagged = machine.set_flags(with_flag(machine.regs.rflags, ZF, source == 0));
            if source == 0 {
                flagged
            } else {
                let position = if instruction.mnemonic == mnemonic::BSF {
                    lowest_bit(source as nat)
                } else {
                    highest_bit(source as nat)
                };
                flagged.reg_write(instruction.op0_register, size, position as u64)
            }
        },
        _ => {
            let count = if low == 0 {
                bits as int
            } else if instruction.mnemonic == mnemonic::TZCNT {
                lowest_bit(low) as int
            } else {
                bits - 1 - highest_bit(low)
            };
            let carried = with_flag(machine.regs.rflags, CF, source == 0);
            machine.set_flags(with_flag(carried, ZF, count == 0)).reg_write(instruction.op0_register, size, count as u64)
        },
    }
}

fn scan(cpu: &mut Cpu, instruction: &Instruction, source: u64)
    ensures
        final(cpu)@ == scan_spec(old(cpu)@, *instruction, source),
{
    let size = operand_size(instruction, 0);
    let bits = bits_of(size);
    match instruction.mnemonic {
        mnemonic::BSF | mnemonic::BSR => {
            cpu.regs.rflags = crate::arch::registers::set_flag(cpu.regs.rflags, ZF, source == 0);
            if source != 0 {
                let position = if instruction.mnemonic == mnemonic::BSF {
                    trailing_zeros(source)
                } else {
                    top_bit(source)
                };
                write_register(&mut cpu.regs, instruction.op0_register, size, position);
            }
        },
        _ => {
            let masked = truncate(source, bits);
            let count: u64 = if masked == 0 {
                bits as u64
            } else if instruction.mnemonic == mnemonic::TZCNT {
                trailing_zeros(masked)
            } else {
                let position = top_bit(masked);
                proof {
                    if position >= bits {
                        if bits < position {
                            vstd::arithmetic::power2::lemma_pow2_strictly_increases(bits as nat, position as nat);
                        }
                        assert(false);
                    }
                }
                bits as u64 - 1 - position
            };
            let carried = crate::arch::registers::set_flag(cpu.regs.rflags, CF, source == 0);
            cpu.regs.rflags = crate::arch::registers::set_flag(carried, ZF, count == 0);
            write_register(&mut cpu.regs, instruction.op0_register, size, count);
        },
    }
}

pub open spec fn is_scan(mnemonic: u16) -> bool {
    mnemonic == mnemonic::BSF || mnemonic == mnemonic::BSR || mnemonic == mnemonic::TZCNT || mnemonic == mnemonic::LZCNT
}

pub open spec fn bit_scan_test_spec(machine: Machine, instruction: Instruction) -> (Machine, Result<(), CpuError>) {
    if is_scan(instruction.mnemonic) {
        match machine.read_operand1(instruction) {
            Err(error) => (machine, Err(error)),
            Ok(source) => (scan_spec(machine, instruction, source), Ok(())),
        }
    } else {
        bit_test_spec(machine, instruction)
    }
}

pub fn bit_scan_test(cpu: &mut Cpu, instruction: &Instruction) -> (result: Result<(), CpuError>)
    ensures
        (final(cpu)@, result) == bit_scan_test_spec(old(cpu)@, *instruction),
{
    match instruction.mnemonic {
        mnemonic::BSF | mnemonic::BSR | mnemonic::TZCNT | mnemonic::LZCNT => {
            let source = read_operand1(cpu, instruction)?;
            scan(cpu, instruction, source);
            Ok(())
        },
        _ => bit_test(cpu, instruction),
    }
}

/// How many bytes of memory a bit test of an operand of `size` bytes touches.
pub open spec fn unit_bytes(size: u8) -> nat {
    match size {
        1 => 1,
        2 => 2,
        4 => 4,
        _ => 8,
    }
}

/// `value` with bit `index` set, cleared or turned over.
pub open spec fn bit_updated(mnemonic: u16, value: u64, index: nat) -> u64 {
    let set = bit_of(value as int, index);
    match mnemonic {
        mnemonic::BTS => if set {
            value
        } else {
            (value + pow2(index)) as u64
        },
        mnemonic::BTR => if set {
            (value - pow2(index)) as u64
        } else {
            value
        },
        _ => if set {
            (value - pow2(index)) as u64
        } else {
            (value + pow2(index)) as u64
        },
    }
}

/// Where a bit test of memory looks: a register offset is a signed displacement
/// along the bit string, an immediate one wraps inside the addressed unit.
pub open spec fn bit_place(machine: Machine, instruction: Instruction) -> (u64, nat) {
    let size = operand_size_spec(instruction, 0);
    let width = width_bits(size) as int;
    let base = machine.effective_address(instruction);
    if instruction.op1_kind == op_kind::REGISTER {
        let offset = signed_of(reg_read(machine.regs, instruction.op1_register, size) as int, width as nat);
        (
            ((base + (offset / width) * unit_bytes(size)) % 0x1_0000_0000_0000_0000) as u64,
            (offset % width) as nat,
        )
    } else {
        (base, (instruction.immediate1 as int % width) as nat)
    }
}

/// BT, BTS, BTR, BTC: the tested bit goes to carry, then the unit is written back.
pub open spec fn bit_test_spec(machine: Machine, instruction: Instruction) -> (Machine, Result<(), CpuError>) {
    let size = operand_size_spec(instruction, 0);
    let width = width_bits(size) as int;
    let writes = instruction.mnemonic != mnemonic::BT;
    if instruction.op0_kind == op_kind::MEMORY {
        let (address, index) = bit_place(machine, instruction);
        match machine.translate(address, if writes {
            AccessKind::Write
        } else {
            AccessKind::Read
        }) {
            Err(error) => (machine, Err(error)),
            Ok(physical) => match load_word(machine.memory, physical, unit_bytes(size)) {
                Err(error) => (machine, Err(error)),
                Ok(value) => {
                    let tested = machine.set_flags(with_flag(machine.regs.rflags, CF, bit_of(value as int, index)));
                    if writes {
                        tested.store_physical(
                            physical,
                            unit_bytes(size),
                            bit_updated(instruction.mnemonic, value, index) as u128,
                        )
                    } else {
                        (tested, Ok(()))
                    }
                },
            },
        }
    } else {
        let offset = if instruction.op1_kind == op_kind::IMMEDIATE8 {
            instruction.immediate1
        } else if instruction.op1_kind == op_kind::REGISTER {
            reg_read(machine.regs, instruction.op1_register, size)
        } else {
            0
        };
        let index = (offset as int % width) as nat;
        let value = reg_read(machine.regs, instruction.op0_register, size);
        let tested = machine.set_flags(with_flag(machine.regs.rflags, CF, bit_of(value as int, index)));
        if writes {
            (tested.reg_write(instruction.op0_register, size, bit_updated(instruction.mnemonic, value, index)), Ok(()))
        } else {
            (tested, Ok(()))
        }
    }
}

fn unit_of(size: u8) -> (bytes: usize)
    ensures
        bytes == unit_bytes(size),
        bytes <= 8,
{
    match size {
        1 => 1,
        2 => 2,
        4 => 4,
        _ => 8,
    }
}

fn update_bit(mnemonic: u16, value: u64, index: u32) -> (updated: u64)
    requires
        index < 64,
    ensures
        updated == bit_updated(mnemonic, value, index as nat),
{
    let set = bit(value, index);
    let part = power_of_two_u64(index);
    proof {
        let q = value as int / part as int;
        lemma_fundamental_div_mod(value as int, part as int);
        lemma_mod_bound(value as int, part as int);
        lemma2_to64();
        lemma_pow2_adds(index as nat, (64 - index) as nat);
        let whole = pow2((64 - index) as nat) as int;
        lemma_pow2_unfold((64 - index) as nat);
        assert(q < whole) by (nonlinear_arith)
            requires
                value == part * q + value as int % part as int,
                value as int % part as int >= 0,
                value < part * whole,
                part > 0,
        ;
        if !set {
            assert(q % 2 == 0);
            assert(q + 1 < whole);
            assert(part * q + part <= part * (whole - 1)) by (nonlinear_arith)
                requires
                    q + 1 <= whole - 1,
                    part > 0,
            ;
            assert(part * (whole - 1) == part * whole - part) by (nonlinear_arith);
        } else {
            assert(q >= 1) by {
                assert(q % 2 == 1);
                assert(q >= 0) by (nonlinear_arith)
                    requires
                        value == part * q + value as int % part as int,
                        (value as int % part as int) < part,
                        value >= 0,
                        part > 0,
                ;
            }
            assert(part * q >= part) by (nonlinear_arith)
                requires
                    q >= 1,
                    part > 0,
            ;
        }
    }
    match mnemonic {
        mnemonic::BTS => if set { value } else { value + part },
        mnemonic::BTR => if set { value - part } else { value },
        _ => if set { value - part } else { value + part },
    }
}

/// The place that a bit test of memory looks at.
fn place_of(cpu: &Cpu, instruction: &Instruction) -> (place: (u64, u32))
    ensures
        (place.0, place.1 as nat) == bit_place(cpu@, *instruction),
        place.1 < width_bits(operand_size_spec(*instruction, 0)),
{
    let size = operand_size(instruction, 0);
    let bits = bits_of(size);
    let base = cpu.effective_address(instruction);
    if instruction.op1_kind == op_kind::REGISTER {
        let raw = read_register(&cpu.regs, instruction.op1_register, size);
        let offset = signed(raw, bits);
        let width = bits as u64;
        let bytes = unit_of(size) as u64;
        proof {
            lemma2_to64_rest();
            if bits < 64 {
                vstd::arithmetic::power2::lemma_pow2_strictly_increases((bits - 1) as nat, 63);
            }
        }
        if offset >= 0 {
            let distance = offset as u64;
            let unit = distance / width;
            proof {
                lemma_unit_bound(unit as int, distance as int, width as int, bytes as int);
            }
            (base.wrapping_add(unit * bytes), (distance % width) as u32)
        } else {
            let distance = (-offset) as u64;
            let unit = (distance + (width - 1)) / width;
            proof {
                lemma_unit_bound(unit as int, distance + (width - 1), width as int, bytes as int);
                lemma_ceiling(distance as int, width as int);
                assert(unit * width <= 0x8000_0000_0000_0040);
                lemma_fundamental_div_mod_converse(offset as int, width as int, -(unit as int), unit * width - distance);
                assert((-(unit as int)) * bytes == -(unit * bytes)) by (nonlinear_arith);
            }
            (base.wrapping_sub(unit * bytes), (unit * width - distance) as u32)
        }
    } else {
        (base, (instruction.immediate1 % bits as u64) as u32)
    }
}

proof fn lemma_unit_bound(unit: int, distance: int, width: int, bytes: int)
    requires
        8 <= width,
        0 <= distance <= 0x8000_0000_0000_0040,
        unit == distance / width,
        0 <= bytes <= 8,
    ensures
        0 <= unit * bytes <= 0x8000_0000_0000_0100,
{
    assert(0 <= unit <= 0x1000_0000_0000_0008) by (nonlinear_arith)
        requires
            8 <= width,
            0 <= distance <= 0x8000_0000_0000_0040,
            unit == distance / width,
    ;
    assert(0 <= unit * bytes <= 0x1000_0000_0000_0008 * 8) by (nonlinear_arith)
        requires
            0 <= unit <= 0x1000_0000_0000_0008,
            0 <= bytes <= 8,
    ;
}

proof fn lemma_ceiling(distance: int, width: int)
    requires
        8 <= width <= 64,
        0 < distance <= 0x8000_0000_0000_0000,
    ensures
        0 <= ((distance + (width - 1)) / width) * width - distance < width,
        -distance == width * (-((distance + (width - 1)) / width)) + (((distance + (width - 1)) / width) * width - distance),
{
    let unit = (distance + (width - 1)) / width;
    lemma_fundamental_div_mod(distance + (width - 1), width);
    lemma_mod_bound(distance + (width - 1), width);
    assert(unit * width == width * unit) by (nonlinear_arith);
    assert(width * (-unit) == -(width * unit)) by (nonlinear_arith);
}

fn bit_test(cpu: &mut Cpu, instruction: &Instruction) -> (result: Result<(), CpuError>)
    ensures
        (final(cpu)@, result) == bit_test_spec(old(cpu)@, *instruction),
{
    let size = operand_size(instruction, 0);
    let bits = bits_of(size);
    let writes = instruction.mnemonic != mnemonic::BT;
    if instruction.op0_kind == op_kind::MEMORY {
        let (address, index) = place_of(cpu, instruction);
        let kind = if writes { AccessKind::Write } else { AccessKind::Read };
        let physical = cpu.translate(address, kind)?;
        let value = cpu.memory.load_word(physical, unit_of(size))?;
        set_carry(&mut cpu.regs, bit(value, index));
        if writes {
            let updated = update_bit(instruction.mnemonic, value, index);
            return cpu.store_physical(physical, unit_of(size), updated as u128);
        }
        return Ok(());
    }
    let offset = if instruction.op1_kind == op_kind::IMMEDIATE8 {
        instruction.immediate1
    } else if instruction.op1_kind == op_kind::REGISTER {
        read_register(&cpu.regs, instruction.op1_register, size)
    } else {
        0
    };
    let index = (offset % bits as u64) as u32;
    let value = read_register(&cpu.regs, instruction.op0_register, size);
    set_carry(&mut cpu.regs, bit(value, index));
    if writes {
        let updated = update_bit(instruction.mnemonic, value, index);
        write_register(&mut cpu.regs, instruction.op0_register, size, updated);
    }
    Ok(())
}

} // verus!
