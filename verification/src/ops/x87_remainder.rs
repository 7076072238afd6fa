//! FPREM: the exact remainder of two doubles of the floating-point stack.
//!
//! The stack holds doubles. Stack tags, the encodings that only the ten-byte format has,
//! and its denormal and underflow exceptions are not modelled; a subnormal double is a
//! normal number of that format.

use vstd::arithmetic::power2::{
    lemma2_to64, lemma_pow2_adds, lemma_pow2_pos, lemma_pow2_strictly_increases, pow2,
};
use vstd::prelude::*;

use crate::arch::registers::{contains, holds, CR0_EM, CR0_NE, CR0_TS};
use crate::arith::highest_bit;
use crate::cpu::interrupts::{VECTOR_DEVICE_NOT_AVAILABLE, VECTOR_INVALID_OPCODE, VECTOR_X87_FLOATING_POINT};
use crate::cpu::{Cpu, CpuError, FpuState, GuestFault, Machine};
use crate::decode::Instruction;
use crate::ops::float::{
    double_of_size, encode, infinity, is_finite, is_nan, is_negative, lemma_common_factor, lemma_double_bound,
    lemma_parts, lemma_size_of_double, lemma_top, lemma_top_between, lemma_top_scaled, lemma_with_sign, magnitude,
    nan, negative, parts, signed_bits, size_of, size_of_float, split_float, with_sign,
};

verus! {

/// The condition codes of the status word.
pub const CONDITIONS: u16 = 0x4700;

/// The condition code of an incomplete reduction.
pub const INCOMPLETE: u16 = 0x400;

/// Summary and busy bits of the status word.
pub const SUMMARY_BUSY: u16 = 0x8080;

/// The size of a finite double, as a multiple of the smallest one.
pub open spec fn size(bits: u64) -> nat {
    size_of(magnitude(bits, true) as int, true) as nat
}

/// How far apart the highest bits of two numbers lie.
pub open spec fn gap(dividend: u64, divisor: u64) -> int {
    highest_bit(size(dividend)) - highest_bit(size(divisor))
}

/// What one reduction divides by: the divisor, or for numbers far apart a multiple of it
/// that takes 32 bits off the dividend.
pub open spec fn modulus(dividend: u64, divisor: u64) -> nat {
    if gap(dividend, divisor) >= 64 {
        size(divisor) * pow2((gap(dividend, divisor) - 32) as nat)
    } else {
        size(divisor)
    }
}

/// The remainder with the dividend's sign, the low three bits of the quotient, and
/// whether the reduction is incomplete.
pub open spec fn reduced(dividend: u64, divisor: u64) -> (u64, u16, bool) {
    let unit = modulus(dividend, divisor);
    if gap(dividend, divisor) < 0 {
        (dividend, 0, false)
    } else {
        (
            with_sign(is_negative(dividend, true), double_of_size(size(dividend) % unit), true),
            ((size(dividend) / unit) % 8) as u16,
            gap(dividend, divisor) >= 64,
        )
    }
}

/// A dividend scaled to the unit of its modulus.
proof fn lemma_scaled_down(a: int, ka: nat, b: int, km: nat)
    requires
        a > 0,
        b > 0,
        ka >= km,
    ensures
        ({
            let n = a * pow2((ka - km) as nat);
            &&& (a * pow2(ka)) % (b * pow2(km)) == (n % b) * pow2(km)
            &&& (a * pow2(ka)) / (b * pow2(km)) == n / b
        }),
{
    lemma_pow2_adds((ka - km) as nat, km);
    lemma_pow2_pos(km);
    let n = a * pow2((ka - km) as nat);
    let e = pow2((ka - km) as nat) as int;
    let k = pow2(km) as int;
    assert(a * (e * k) == (a * e) * k) by (nonlinear_arith);
    lemma_common_factor(n, b, k);
}

/// A modulus scaled to the unit of its dividend.
proof fn lemma_scaled_up(a: int, ka: nat, b: int, km: nat)
    requires
        a > 0,
        b > 0,
        ka < km,
    ensures
        (a * pow2(ka)) % (b * pow2(km)) == (a % (b * pow2((km - ka) as nat))) * pow2(ka),
        (a * pow2(ka)) / (b * pow2(km)) == a / (b * pow2((km - ka) as nat)),
        b * pow2((km - ka) as nat) > 0,
{
    lemma_pow2_adds((km - ka) as nat, ka);
    lemma_pow2_pos(ka);
    lemma_pow2_pos((km - ka) as nat);
    let e = pow2((km - ka) as nat) as int;
    let k = pow2(ka) as int;
    assert(b * (e * k) == (b * e) * k) by (nonlinear_arith);
    assert(b * e > 0) by (nonlinear_arith)
        requires
            b > 0,
            e > 0,
    ;
    lemma_common_factor(a, b * e, k);
}

/// A number below a power of two, by its highest bit.
proof fn lemma_below(number: nat, limit: nat)
    requires
        number > 0,
        highest_bit(number) < limit,
    ensures
        number < pow2(limit),
{
    lemma_top(number);
    if highest_bit(number) + 1 < limit {
        lemma_pow2_strictly_increases((highest_bit(number) + 1) as nat, limit);
    }
}

/// The highest bit of a significand.
proof fn lemma_significand_top(digits: nat, scale: nat)
    requires
        0 < digits < 0x20_0000_0000_0000,
        scale > 0 ==> digits >= 0x10_0000_0000_0000,
    ensures
        highest_bit(digits) <= 52,
        scale > 0 ==> highest_bit(digits) == 52,
{
    lemma2_to64();
    vstd::arithmetic::power2::lemma2_to64_rest();
    lemma_top(digits);
    if highest_bit(digits) > 52 {
        if highest_bit(digits) > 53 {
            lemma_pow2_strictly_increases(53, highest_bit(digits));
        }
    }
    if scale > 0 {
        lemma_top_between(digits, 52);
    }
}

/// Reduces a dividend by a divisor, both finite and not zero.
pub fn reduce(dividend: u64, divisor: u64) -> (result: (u64, u16, bool))
    requires
        is_finite(dividend, true),
        is_finite(divisor, true),
        magnitude(dividend, true) != 0,
        magnitude(divisor, true) != 0,
    ensures
        result == reduced(dividend, divisor),
{
    let (a, ka) = split_float(dividend, true);
    let (b, kb) = split_float(divisor, true);
    proof {
        lemma_parts(dividend, true);
        lemma_parts(divisor, true);
        lemma2_to64();
        vstd::arithmetic::power2::lemma2_to64_rest();
    }
    assert(a > 0 && b > 0);
    proof {
        lemma_significand_top(a as nat, ka as nat);
        lemma_significand_top(b as nat, kb as nat);
        lemma_top_scaled(a as nat, ka as nat);
        lemma_top_scaled(b as nat, kb as nat);
    }
    let top_a = crate::arith::top_bit(a) as u32 + ka;
    let top_b = crate::arith::top_bit(b) as u32 + kb;
    assert(size(dividend) == a * pow2(ka as nat));
    assert(size(divisor) == b * pow2(kb as nat));
    if top_a < top_b {
        return (dividend, 0, false);
    }
    let distance = top_a - top_b;
    let partial = distance >= 64;
    let extra: u32 = if partial { distance - 32 } else { 0 };
    let km = kb + extra;
    assert(ka >= kb);
    proof {
        lemma_pow2_adds(kb as nat, extra as nat);
        let p = pow2(kb as nat) as int;
        let q = pow2(extra as nat) as int;
        assert((b * p) * q == b * (p * q)) by (nonlinear_arith);
        assert((b * p) * 1 == b * p);
        assert(modulus(dividend, divisor) == b * pow2(km as nat));
    }
    let sign = negative(dividend, true);
    if ka >= km {
        let up = ka - km;
        let factor = crate::arith::power_of_two(if up <= 127 { up } else { 127 });
        proof {
            assert(up <= 115);
            lemma_top_scaled(a as nat, up as nat);
            lemma_below((a * pow2(up as nat)) as nat, 116);
            lemma_pow2_adds(64, 52);
            assert(pow2(116) == 0x10_0000_0000_0000_0000_0000_0000_0000int) by {
                assert(0x1_0000_0000_0000_0000int * 0x10_0000_0000_0000int
                    == 0x10_0000_0000_0000_0000_0000_0000_0000int);
            }
            lemma_scaled_down(a as int, ka as nat, b as int, km as nat);
        }
        let numerator = a as u128 * factor;
        let rest = (numerator % b as u128) as u64;
        let quotient = ((numerator / b as u128) % 8) as u16;
        proof {
            lemma_double_bound(rest as nat, km as nat);
        }
        (signed_bits(sign, encode(rest, km), true), quotient, partial)
    } else {
        let up = km - ka;
        proof {
            assert(up <= 20);
            lemma_top_scaled(b as nat, up as nat);
            lemma_below((b * pow2(up as nat)) as nat, 64);
            lemma_scaled_up(a as int, ka as nat, b as int, km as nat);
        }
        let factor = crate::arith::power_of_two_u64(up);
        let rest = a % (b * factor);
        let quotient = ((a / (b * factor)) % 8) as u16;
        proof {
            vstd::arithmetic::div_mod::lemma_mod_decreases(a as nat, (b * factor) as nat);
            lemma_double_bound(rest as nat, ka as nat);
        }
        (signed_bits(sign, encode(rest, ka), true), quotient, true)
    }
}

/// A number whose highest bit is lower is smaller.
proof fn lemma_lower(number: nat, other: nat)
    requires
        number > 0,
        other > 0,
        highest_bit(number) < highest_bit(other),
    ensures
        number < other,
{
    lemma_below(number, highest_bit(other));
    lemma_top(other);
}

/// What is left of the dividend is held by a double without rounding.
proof fn lemma_rest_is_held(dividend: u64, divisor: u64)
    requires
        is_finite(dividend, true),
        is_finite(divisor, true),
        magnitude(dividend, true) != 0,
        magnitude(divisor, true) != 0,
        gap(dividend, divisor) >= 0,
    ensures
        size(reduced(dividend, divisor).0) == size(dividend) % modulus(dividend, divisor),
        is_negative(reduced(dividend, divisor).0, true) == is_negative(dividend, true),
        size(dividend) > 0,
        size(divisor) > 0,
        modulus(dividend, divisor) > 0,
{
    lemma_parts(dividend, true);
    lemma_parts(divisor, true);
    lemma2_to64();
    vstd::arithmetic::power2::lemma2_to64_rest();
    let (a, ka) = parts(dividend, true);
    let (b, kb) = parts(divisor, true);
    lemma_significand_top(a as nat, ka);
    lemma_significand_top(b as nat, kb);
    lemma_top_scaled(a as nat, ka);
    lemma_top_scaled(b as nat, kb);
    let extra: nat = if gap(dividend, divisor) >= 64 {
        (gap(dividend, divisor) - 32) as nat
    } else {
        0
    };
    let km = kb + extra;
    lemma_pow2_adds(kb, extra);
    lemma_top_scaled(size(divisor), extra);
    let p = pow2(kb) as int;
    let q = pow2(extra) as int;
    assert((b * p) * q == b * (p * q)) by (nonlinear_arith);
    assert((b * p) * 1 == b * p);
    assert(modulus(dividend, divisor) == b * pow2(km));
    let sign = is_negative(dividend, true);
    if ka >= km {
        lemma_scaled_down(a as int, ka, b as int, km);
        let n = a * pow2((ka - km) as nat);
        vstd::arithmetic::div_mod::lemma_mod_bound(n, b as int);
        let rest = (n % (b as int)) as nat;
        lemma_size_of_double(rest, km);
        lemma_double_bound(rest, km);
        lemma_with_sign(sign, double_of_size((rest * pow2(km)) as nat), true);
    } else {
        lemma_scaled_up(a as int, ka, b as int, km);
        let unit = (b * pow2((km - ka) as nat)) as nat;
        vstd::arithmetic::div_mod::lemma_mod_decreases(a as nat, unit);
        let rest = a as nat % unit;
        lemma_size_of_double(rest, ka);
        lemma_double_bound(rest, ka);
        lemma_with_sign(sign, double_of_size((rest * pow2(ka)) as nat), true);
    }
}

/// A complete reduction gives the exact remainder: less than the divisor, with the sign
/// of the dividend, and the rest of it is a multiple of the divisor.
pub proof fn remainder_is_exact(dividend: u64, divisor: u64)
    requires
        is_finite(dividend, true),
        is_finite(divisor, true),
        magnitude(dividend, true) != 0,
        magnitude(divisor, true) != 0,
        gap(dividend, divisor) < 64,
    ensures
        !reduced(dividend, divisor).2,
        size(reduced(dividend, divisor).0) == size(dividend) % size(divisor),
        size(reduced(dividend, divisor).0) < size(divisor),
        reduced(dividend, divisor).1 == (size(dividend) / size(divisor)) % 8,
        is_negative(reduced(dividend, divisor).0, true) == is_negative(dividend, true),
{
    if gap(dividend, divisor) >= 0 {
        lemma_rest_is_held(dividend, divisor);
        vstd::arithmetic::div_mod::lemma_mod_bound(size(dividend) as int, size(divisor) as int);
    } else {
        lemma_sizes_are_positive(dividend, divisor);
        lemma_lower(size(dividend), size(divisor));
        vstd::arithmetic::div_mod::lemma_small_mod(size(dividend), size(divisor));
        vstd::arithmetic::div_mod::lemma_basic_div(size(dividend) as int, size(divisor) as int);
    }
}

proof fn lemma_sizes_are_positive(dividend: u64, divisor: u64)
    requires
        magnitude(dividend, true) != 0,
        magnitude(divisor, true) != 0,
    ensures
        size(dividend) > 0,
        size(divisor) > 0,
{
    lemma_parts(dividend, true);
    lemma_parts(divisor, true);
    let (a, ka) = parts(dividend, true);
    let (b, kb) = parts(divisor, true);
    lemma_top_scaled(a as nat, ka);
    lemma_top_scaled(b as nat, kb);
}

/// An incomplete reduction is exact too: it takes a multiple of the divisor off the
/// dividend, so that the same remainder is left to find, keeps the sign, and brings the
/// numbers at least 32 bits closer.
pub proof fn incomplete_reductions_are_exact(dividend: u64, divisor: u64)
    requires
        is_finite(dividend, true),
        is_finite(divisor, true),
        magnitude(dividend, true) != 0,
        magnitude(divisor, true) != 0,
        gap(dividend, divisor) >= 64,
    ensures
        reduced(dividend, divisor).2,
        size(reduced(dividend, divisor).0) == size(dividend) % modulus(dividend, divisor),
        reduced(dividend, divisor).1 == (size(dividend) / modulus(dividend, divisor)) % 8,
        size(reduced(dividend, divisor).0) % size(divisor) == size(dividend) % size(divisor),
        size(reduced(dividend, divisor).0) < size(dividend),
        size(reduced(dividend, divisor).0) > 0 ==> gap(reduced(dividend, divisor).0, divisor) <= gap(dividend, divisor)
            - 32,
        is_negative(reduced(dividend, divisor).0, true) == is_negative(dividend, true),
{
    lemma_rest_is_held(dividend, divisor);
    let extra = (gap(dividend, divisor) - 32) as nat;
    let unit = modulus(dividend, divisor);
    let rest = size(reduced(dividend, divisor).0);
    lemma_pow2_pos(extra);
    vstd::arithmetic::div_mod::lemma_mod_mod(size(dividend) as int, size(divisor) as int, pow2(extra) as int);
    vstd::arithmetic::div_mod::lemma_mod_bound(size(dividend) as int, unit as int);
    lemma_top_scaled(size(divisor), extra);
    lemma_lower(unit, size(dividend));
    if rest > 0 && highest_bit(rest) > highest_bit(unit) {
        lemma_lower(unit, rest);
    }
}

/// Whether a NaN is signalling.
pub open spec fn is_signalling(bits: u64) -> bool {
    is_nan(bits, true) && (bits / 0x8_0000_0000_0000) % 2 == 0
}

fn signalling(bits: u64) -> (held: bool)
    ensures
        held == is_signalling(bits),
{
    nan(bits, true) && (bits / 0x8_0000_0000_0000) % 2 == 0
}

/// The rank of an operand among NaNs: quiet before signalling, then the larger
/// significand, then the positive sign.
pub open spec fn nan_rank(bits: u64) -> int {
    if is_nan(bits, true) {
        2 * (bits % 0x10_0000_0000_0000) + if is_negative(bits, true) {
            0int
        } else {
            1
        }
    } else {
        -1
    }
}

fn rank(bits: u64) -> (value: i128)
    ensures
        value == nan_rank(bits),
{
    if nan(bits, true) {
        let plus: i128 = if negative(bits, true) { 0 } else { 1 };
        2 * (bits % 0x10_0000_0000_0000) as i128 + plus
    } else {
        -1
    }
}

/// The NaN of higher rank, made quiet.
pub open spec fn propagated(a: u64, b: u64) -> u64 {
    let selected = if nan_rank(a) >= nan_rank(b) {
        a
    } else {
        b
    };
    if (selected / 0x8_0000_0000_0000) % 2 == 0 {
        (selected + 0x8_0000_0000_0000) as u64
    } else {
        selected
    }
}

fn propagate_nan(a: u64, b: u64) -> (bits: u64)
    ensures
        bits == propagated(a, b),
{
    let selected = if rank(a) >= rank(b) { a } else { b };
    if (selected / 0x8_0000_0000_0000) % 2 == 0 {
        selected + 0x8_0000_0000_0000
    } else {
        selected
    }
}

/// Whether the operands have no remainder.
pub open spec fn is_invalid(dividend: u64, divisor: u64) -> bool {
    is_signalling(dividend) || is_signalling(divisor) || (!is_nan(dividend, true) && !is_nan(divisor, true) && (magnitude(
        dividend,
        true,
    ) == infinity(true) || magnitude(divisor, true) == 0))
}

/// What FPREM leaves at the top of the stack, with the quotient and whether it is
/// incomplete.
pub open spec fn remainder_of(dividend: u64, divisor: u64) -> (u64, u16, bool) {
    if is_nan(dividend, true) || is_nan(divisor, true) {
        (propagated(dividend, divisor), 0, false)
    } else if is_invalid(dividend, divisor) {
        (0xFFF8_0000_0000_0000, 0, false)
    } else if magnitude(divisor, true) == infinity(true) || magnitude(dividend, true) == 0 {
        (dividend, 0, false)
    } else {
        reduced(dividend, divisor)
    }
}

fn find_remainder(dividend: u64, divisor: u64, invalid: bool) -> (result: (u64, u16, bool))
    requires
        invalid == is_invalid(dividend, divisor),
    ensures
        result == remainder_of(dividend, divisor),
{
    if nan(dividend, true) || nan(divisor, true) {
        (propagate_nan(dividend, divisor), 0, false)
    } else if invalid {
        (0xFFF8_0000_0000_0000, 0, false)
    } else if size_of_float(divisor, true) == 0x7FF0_0000_0000_0000 || size_of_float(dividend, true) == 0 {
        (dividend, 0, false)
    } else {
        reduce(dividend, divisor)
    }
}

/// The condition codes of a reduction: the quotient's low bits in C0, C3 and C1, or C2
/// for an incomplete one.
pub open spec fn condition_codes(quotient: u16, partial: bool) -> u16 {
    if partial {
        INCOMPLETE
    } else {
        ((quotient / 4) % 2 * 0x100 + (quotient / 2) % 2 * 0x4000 + quotient % 2 * 0x200) as u16
    }
}

fn codes_of(quotient: u16, partial: bool) -> (codes: u16)
    ensures
        codes == condition_codes(quotient, partial),
{
    if partial {
        INCOMPLETE
    } else {
        (quotient / 4) % 2 * 0x100 + (quotient / 2) % 2 * 0x4000 + quotient % 2 * 0x200
    }
}

/// The reduction itself. An invalid operation is recorded; unmasked, it leaves the stack
/// alone.
pub open spec fn reduction(fpu: FpuState) -> FpuState {
    let top = (fpu.top % 8) as int;
    let dividend = fpu.stack[top];
    let divisor = fpu.stack[(top + 1) % 8];
    let invalid = is_invalid(dividend, divisor);
    let noted = if invalid {
        fpu.status | 1
    } else {
        fpu.status
    };
    if invalid && fpu.control % 2 == 0 {
        FpuState { status: noted | SUMMARY_BUSY, ..fpu }
    } else {
        let (rest, quotient, partial) = remainder_of(dividend, divisor);
        FpuState {
            stack: fpu.stack.update(top, rest),
            status: (noted & !CONDITIONS) | condition_codes(quotient, partial),
            ..fpu
        }
    }
}

/// Whether an unmasked exception waits in the status word.
pub open spec fn exception_pending(fpu: FpuState) -> bool {
    fpu.status & !fpu.control & 0x3F != 0
}

/// FPREM: the faults of the mode come first, then an exception that waits, then the reduction.
pub open spec fn execute_spec(machine: Machine, instruction: Instruction) -> (Machine, Result<(), CpuError>) {
    if instruction.lock {
        machine.raise(VECTOR_INVALID_OPCODE, None)
    } else if holds(machine.regs.cr0, CR0_EM) || holds(machine.regs.cr0, CR0_TS) {
        machine.raise(VECTOR_DEVICE_NOT_AVAILABLE, None)
    } else if exception_pending(machine.fpu) {
        if holds(machine.regs.cr0, CR0_NE) {
            machine.raise(VECTOR_X87_FLOATING_POINT, None)
        } else {
            (machine, Err(CpuError::GuestFault { reason: GuestFault::LegacyException }))
        }
    } else {
        (machine.set_fpu(reduction(machine.fpu)), Ok(()))
    }
}

pub fn execute(cpu: &mut Cpu, instruction: &Instruction) -> (result: Result<(), CpuError>)
    ensures
        (final(cpu)@, result) == execute_spec(old(cpu)@, *instruction),
{
    if instruction.lock {
        return cpu.raise(VECTOR_INVALID_OPCODE, None);
    }
    if contains(cpu.regs.cr0, CR0_EM) || contains(cpu.regs.cr0, CR0_TS) {
        return cpu.raise(VECTOR_DEVICE_NOT_AVAILABLE, None);
    }
    if cpu.fpu.status & !cpu.fpu.control & 0x3F != 0 {
        if contains(cpu.regs.cr0, CR0_NE) {
            return cpu.raise(VECTOR_X87_FLOATING_POINT, None);
        }
        return Err(CpuError::GuestFault { reason: GuestFault::LegacyException });
    }
    let top = (cpu.fpu.top % 8) as usize;
    let dividend = cpu.fpu.stack[top];
    let divisor = cpu.fpu.stack[(top + 1) % 8];
    let invalid = signalling(dividend) || signalling(divisor) || (!nan(dividend, true) && !nan(divisor, true) && (
    size_of_float(dividend, true) == 0x7FF0_0000_0000_0000 || size_of_float(divisor, true) == 0));
    if invalid {
        cpu.fpu.status = cpu.fpu.status | 1;
        if cpu.fpu.control % 2 == 0 {
            cpu.fpu.status = cpu.fpu.status | SUMMARY_BUSY;
            return Ok(());
        }
    }
    let (rest, quotient, partial) = find_remainder(dividend, divisor, invalid);
    cpu.fpu.stack[top] = rest;
    cpu.fpu.status = (cpu.fpu.status & !CONDITIONS) | codes_of(quotient, partial);
    Ok(())
}

} // verus!
