//! Instruction implementations, grouped by family, and what they share:
//! operands, sizes and flags.

pub mod arithmetic;
pub mod branch;
pub mod branch_laws;
pub mod data;
pub mod effect;
pub mod float;
pub mod float_laws;
pub mod lanes;
pub mod integer_laws;
pub mod logic;
pub mod lsl;
pub mod machine_laws;
pub mod mxcsr;
pub mod number_laws;
pub mod packed;
pub mod packed_laws;
pub mod precision;
pub mod product_laws;
pub mod shift_laws;
pub mod sse;
pub mod sse3;
pub mod sse4;
pub mod sse_convert;
pub mod sse_horizontal;
pub mod sse_int;
pub mod sse_integer;
pub mod sse_numeric;
pub mod sse_round;
pub mod sse_widen;
pub mod stack;
pub mod string;
pub mod string_laws;
pub mod system;
pub mod x87;
pub mod x87_remainder;
pub mod xmm;

use vstd::arithmetic::power2::{lemma2_to64, lemma_pow2_pos, lemma_pow2_unfold, pow2};
use vstd::prelude::*;

use crate::arch::registers::{contains, holds, set_flag, with_flag, RegisterState, Registers, AF, CF, OF, PF, SF, ZF};
use crate::arith::{
    count_ones, is_negative, lemma_low_bits_of_sum, lemma_low_bits_of_wide, low_bits, ones, power_of_two_u64, signed_of,
    truncate,
};
use crate::cpu::operands::{register_index, register_index_spec};
use crate::cpu::{Cpu, CpuError, Machine};
use crate::decode::{op_kind, register, Instruction};

verus! {

/// Whether `number` names one of the legacy high bytes AH, CH, DH and BH.
pub open spec fn is_high_byte(number: u8) -> bool {
    register::AH <= number <= register::BH
}

/// The register operand at `size` bytes, extended with zeros.
pub open spec fn reg_read(regs: RegisterState, number: u8, size: u8) -> u64 {
    let value = regs.gpr[register_index_spec(number)];
    if is_high_byte(number) {
        (value / 0x100) % 0x100
    } else {
        match size {
            1 => value % 0x100,
            2 => value % 0x1_0000,
            4 => value % 0x1_0000_0000,
            _ => value,
        }
    }
}

/// What a write of `value` to the register operand leaves in the whole register: one
/// and two bytes keep the bits above, four bytes clear them.
pub open spec fn merged(old: u64, number: u8, size: u8, value: u64) -> u64 {
    if is_high_byte(number) {
        (old - ((old / 0x100) % 0x100) * 0x100 + (value % 0x100) * 0x100) as u64
    } else {
        match size {
            1 => (old - old % 0x100 + value % 0x100) as u64,
            2 => (old - old % 0x1_0000 + value % 0x1_0000) as u64,
            4 => value % 0x1_0000_0000,
            _ => value,
        }
    }
}

/// The registers after a write of the register operand.
pub open spec fn reg_write(regs: RegisterState, number: u8, size: u8, value: u64) -> RegisterState {
    let index = register_index_spec(number);
    regs.set_gpr(index, merged(regs.gpr[index], number, size, value))
}

/// What was written to a register operand is what is read from it.
pub proof fn read_after_write(regs: RegisterState, number: u8, size: u8, value: u64)
    requires
        regs.gpr.len() == 16,
        size == 1 || size == 2 || size == 4 || size == 8,
        is_high_byte(number) ==> size == 1,
    ensures
        reg_read(reg_write(regs, number, size, value), number, size) == low_bits(value as int, (8 * size) as nat),
{
    lemma2_to64();
    let old = regs.gpr[register_index_spec(number)];
    if is_high_byte(number) {
        lemma_high_byte(old, value);
    } else if size == 1 {
        lemma_low_part(old, value, 0x100);
    } else if size == 2 {
        lemma_low_part(old, value, 0x1_0000);
    }
    assert(value as int % 0x1_0000_0000_0000_0000 == value);
}

proof fn lemma_low_part(old: u64, value: u64, span: u64)
    requires
        span == 0x100 || span == 0x1_0000,
    ensures
        0 <= old - old % span + value % span <= 0xFFFF_FFFF_FFFF_FFFF,
        (old - old % span + value % span) % (span as int) == value % span,
{
}

proof fn lemma_high_byte(old: u64, value: u64)
    ensures
        0 <= old - ((old / 0x100) % 0x100) * 0x100 + (value % 0x100) * 0x100 <= 0xFFFF_FFFF_FFFF_FFFF,
        ((old - ((old / 0x100) % 0x100) * 0x100 + (value % 0x100) * 0x100) / 0x100) % 0x100 == value % 0x100,
{
    let above = old as int / 0x100;
    let below = old as int % 0x100;
    let part = value as int % 0x100;
    let merged = above - above % 0x100 + part;
    assert(old - ((old / 0x100) % 0x100) * 0x100 + (value % 0x100) * 0x100 == 0x100 * merged + below);
    assert((0x100 * merged + below) / 0x100 == merged);
    assert(merged % 0x100 == part);
    assert(0 <= merged <= 0xFF_FFFF_FFFF_FFFF);
}

/// A register write leaves every other register alone.
pub proof fn write_keeps_other_registers(regs: RegisterState, number: u8, size: u8, value: u64, other: int)
    requires
        regs.gpr.len() == 16,
        0 <= other < 16,
        other != register_index_spec(number),
    ensures
        reg_write(regs, number, size, value).gpr[other] == regs.gpr[other],
{
}

/// One and two byte writes keep the bits above them, a four byte write clears the
/// upper half.
pub proof fn narrow_writes_keep_or_clear_the_rest(old: u64, number: u8, value: u64)
    requires
        !is_high_byte(number),
    ensures
        merged(old, number, 1, value) / 0x100 == old / 0x100,
        merged(old, number, 2, value) / 0x1_0000 == old / 0x1_0000,
        merged(old, number, 4, value) < 0x1_0000_0000,
{
}

/// A high byte write keeps the byte below and everything above.
pub proof fn high_byte_write_keeps_the_rest(old: u64, number: u8, size: u8, value: u64)
    requires
        is_high_byte(number),
    ensures
        merged(old, number, size, value) % 0x100 == old % 0x100,
        merged(old, number, size, value) / 0x1_0000 == old / 0x1_0000,
{
    let new = old - ((old / 0x100) % 0x100) * 0x100 + (value % 0x100) * 0x100;
    assert(0 <= new < 0x1_0000_0000_0000_0000);
}

/// Reads a register operand at the natural width as a zero-extended word.
pub fn read_register(regs: &Registers, number: u8, size: u8) -> (value: u64)
    ensures
        value == reg_read(regs@, number, size),
{
    let value = regs.gpr[register_index(number)];
    if register::AH <= number && number <= register::BH {
        (value / 0x100) % 0x100
    } else {
        match size {
            1 => value % 0x100,
            2 => value % 0x1_0000,
            4 => value % 0x1_0000_0000,
            _ => value,
        }
    }
}

/// Writes a register operand at the natural width.
pub fn write_register(regs: &mut Registers, number: u8, size: u8, value: u64)
    ensures
        final(regs)@ == reg_write(old(regs)@, number, size, value),
{
    let index = register_index(number);
    let old = regs.gpr[index];
    let new = if register::AH <= number && number <= register::BH {
        old - ((old / 0x100) % 0x100) * 0x100 + (value % 0x100) * 0x100
    } else {
        match size {
            1 => old - old % 0x100 + value % 0x100,
            2 => old - old % 0x1_0000 + value % 0x1_0000,
            4 => value % 0x1_0000_0000,
            _ => value,
        }
    };
    regs.set_gpr(index, new);
}

/// How many bytes the register `number` has.
pub open spec fn register_size_spec(number: u8) -> u8 {
    if register::AL <= number <= register::R15L {
        1
    } else if register::AX <= number <= register::R15W {
        2
    } else if register::EAX <= number <= register::R15D {
        4
    } else {
        8
    }
}

pub fn register_size(number: u8) -> (size: u8)
    ensures
        size == register_size_spec(number),
{
    if register::AL <= number && number <= register::R15L {
        1
    } else if register::AX <= number && number <= register::R15W {
        2
    } else if register::EAX <= number && number <= register::R15D {
        4
    } else {
        8
    }
}

/// How many bytes the memory operand has, read as an integer: signed and unsigned
/// sizes agree, any other size counts as eight.
pub open spec fn memory_size_spec(instruction: Instruction) -> u8 {
    match instruction.memory_size {
        op_kind::SIZE_UINT8 | op_kind::SIZE_INT8 => 1,
        op_kind::SIZE_UINT16 | op_kind::SIZE_INT16 => 2,
        op_kind::SIZE_UINT32 | op_kind::SIZE_INT32 => 4,
        op_kind::SIZE_UINT64 | op_kind::SIZE_INT64 => 8,
        op_kind::SIZE_UINT128 | op_kind::SIZE_INT128 => 16,
        op_kind::SIZE_UINT256 | op_kind::SIZE_INT256 => 32,
        op_kind::SIZE_UINT512 | op_kind::SIZE_INT512 => 64,
        _ => 8,
    }
}

pub fn memory_size(instruction: &Instruction) -> (size: u8)
    ensures
        size == memory_size_spec(*instruction),
{
    match instruction.memory_size {
        op_kind::SIZE_UINT8 | op_kind::SIZE_INT8 => 1,
        op_kind::SIZE_UINT16 | op_kind::SIZE_INT16 => 2,
        op_kind::SIZE_UINT32 | op_kind::SIZE_INT32 => 4,
        op_kind::SIZE_UINT64 | op_kind::SIZE_INT64 => 8,
        op_kind::SIZE_UINT128 | op_kind::SIZE_INT128 => 16,
        op_kind::SIZE_UINT256 | op_kind::SIZE_INT256 => 32,
        op_kind::SIZE_UINT512 | op_kind::SIZE_INT512 => 64,
        _ => 8,
    }
}

/// The bytes of operand zero, one or two; eight for an operand that is neither a
/// register nor memory.
pub open spec fn operand_size_spec(instruction: Instruction, operand: u32) -> u8 {
    let (kind, number) = if operand == 0 {
        (instruction.op0_kind, instruction.op0_register)
    } else if operand == 1 {
        (instruction.op1_kind, instruction.op1_register)
    } else {
        (instruction.op2_kind, instruction.op2_register)
    };
    if kind == op_kind::REGISTER {
        register_size_spec(number)
    } else if kind == op_kind::MEMORY {
        memory_size_spec(instruction)
    } else {
        8
    }
}

/// Operand size in bytes for the instruction's natural width.
pub fn operand_size(instruction: &Instruction, operand: u32) -> (size: u8)
    ensures
        size == operand_size_spec(*instruction, operand),
        size == 1 || size == 2 || size == 4 || size >= 8,
{
    let (kind, number): (u8, u8) = if operand == 0 {
        (instruction.op0_kind, instruction.op0_register)
    } else if operand == 1 {
        (instruction.op1_kind, instruction.op1_register)
    } else {
        (instruction.op2_kind, instruction.op2_register)
    };
    if kind == op_kind::REGISTER {
        register_size(number)
    } else if kind == op_kind::MEMORY {
        memory_size(instruction)
    } else {
        8
    }
}

/// An integer width in bits: at most a word, for sizes that no integer has too.
pub open spec fn width_bits(size: u8) -> u32 {
    if size >= 8 {
        64
    } else {
        (size * 8) as u32
    }
}

/// The bits of an integer of `size` bytes.
pub fn bits_of(size: u8) -> (bits: u32)
    ensures
        bits == width_bits(size),
        size >= 1 ==> 8 <= bits <= 64,
        size >= 8 ==> bits == 64,
{
    if size >= 8 {
        64
    } else {
        size as u32 * 8
    }
}

impl Machine {
    /// The first explicit operand.
    pub open spec fn read_operand0(self, instruction: Instruction) -> Result<u64, CpuError> {
        if instruction.op0_kind == op_kind::MEMORY {
            self.read_operand(instruction, memory_size_spec(instruction))
        } else {
            Ok(reg_read(self.regs, instruction.op0_register, operand_size_spec(instruction, 0)))
        }
    }

    /// The second explicit operand.
    pub open spec fn read_operand1(self, instruction: Instruction) -> Result<u64, CpuError> {
        if instruction.op1_kind == op_kind::MEMORY {
            self.read_operand(instruction, memory_size_spec(instruction))
        } else if instruction.op1_kind == op_kind::REGISTER {
            Ok(reg_read(self.regs, instruction.op1_register, operand_size_spec(instruction, 1)))
        } else {
            Ok(instruction.immediate1)
        }
    }

    pub open spec fn reg_write(self, number: u8, size: u8, value: u64) -> Machine {
        self.set_regs(reg_write(self.regs, number, size, value))
    }

    /// Writes the first explicit operand.
    pub open spec fn write_operand0(self, instruction: Instruction, value: u64) -> (Machine, Result<(), CpuError>) {
        if instruction.op0_kind == op_kind::MEMORY {
            self.write_operand(instruction, memory_size_spec(instruction), value)
        } else {
            (self.reg_write(instruction.op0_register, operand_size_spec(instruction, 0), value), Ok(()))
        }
    }

    /// Writes `value` of `size` bytes to the first operand.
    pub open spec fn write_sized0(self, instruction: Instruction, size: u8, value: u64) -> (Machine, Result<(), CpuError>) {
        if instruction.op0_kind == op_kind::MEMORY {
            self.write_operand(instruction, size, value)
        } else {
            (self.reg_write(instruction.op0_register, size, value), Ok(()))
        }
    }
}

/// Reads the first explicit operand (register or memory).
pub fn read_operand0(cpu: &Cpu, instruction: &Instruction) -> (value: Result<u64, CpuError>)
    ensures
        value == cpu@.read_operand0(*instruction),
{
    if instruction.op0_kind == op_kind::MEMORY {
        cpu.read_operand(instruction, memory_size(instruction))
    } else {
        Ok(read_register(&cpu.regs, instruction.op0_register, operand_size(instruction, 0)))
    }
}

/// Reads the second explicit operand (register, memory or immediate).
pub fn read_operand1(cpu: &Cpu, instruction: &Instruction) -> (value: Result<u64, CpuError>)
    ensures
        value == cpu@.read_operand1(*instruction),
{
    if instruction.op1_kind == op_kind::MEMORY {
        cpu.read_operand(instruction, memory_size(instruction))
    } else if instruction.op1_kind == op_kind::REGISTER {
        Ok(read_register(&cpu.regs, instruction.op1_register, operand_size(instruction, 1)))
    } else {
        Ok(instruction.immediate1)
    }
}

/// Writes the first explicit operand (register or memory).
pub fn write_operand0(cpu: &mut Cpu, instruction: &Instruction, value: u64) -> (result: Result<(), CpuError>)
    ensures
        (final(cpu)@, result) == old(cpu)@.write_operand0(*instruction, value),
{
    if instruction.op0_kind == op_kind::MEMORY {
        cpu.write_operand(instruction, memory_size(instruction), value)
    } else {
        write_register(&mut cpu.regs, instruction.op0_register, operand_size(instruction, 0), value);
        Ok(())
    }
}

/// Writes the first operand at a given size.
pub fn write_sized0(cpu: &mut Cpu, instruction: &Instruction, size: u8, value: u64) -> (result: Result<(), CpuError>)
    ensures
        (final(cpu)@, result) == old(cpu)@.write_sized0(*instruction, size, value),
{
    if instruction.op0_kind == op_kind::MEMORY {
        cpu.write_operand(instruction, size, value)
    } else {
        write_register(&mut cpu.regs, instruction.op0_register, size, value);
        Ok(())
    }
}

// ---- flags ----

/// A sum or a difference with the flags it defines.
#[derive(Clone, Copy, PartialEq, Eq, Structural, Debug)]
pub struct AddResult {
    pub result: u64,
    pub carry: bool,
    pub overflow: bool,
    pub adjust: bool,
}

/// One for a set carry, zero for a clear one.
pub open spec fn carry_number(carry: bool) -> int {
    if carry {
        1
    } else {
        0
    }
}

/// Whether `number` lies outside the signed numbers of `bits` bits.
pub open spec fn leaves_signed_range(number: int, bits: nat) -> bool {
    2 * number >= pow2(bits) || 2 * number < -pow2(bits)
}

/// The sum of two words and a carry. The carry flag tells that the sum of the low
/// `bits` bits, read without sign, does not fit them; the overflow flag tells the
/// same of their signed reading; the adjust flag that the sum of the low four bits
/// carries.
pub open spec fn add_result(left: u64, right: u64, carry: bool, bits: u32) -> AddResult {
    let c = carry_number(carry);
    let l = low_bits(left as int, bits as nat);
    let r = low_bits(right as int, bits as nat);
    AddResult {
        result: ((left + right + c) % 0x1_0000_0000_0000_0000) as u64,
        carry: l + r + c >= pow2(bits as nat),
        overflow: leaves_signed_range(
            signed_of(left as int, bits as nat) + signed_of(right as int, bits as nat) + c,
            bits as nat,
        ),
        adjust: bits > 4 && l % 16 + r % 16 + c >= 16,
    }
}

/// The difference of two words and a borrow, with the flags of the low `bits` bits.
pub open spec fn sub_result(left: u64, right: u64, borrow: bool, bits: u32) -> AddResult {
    let c = carry_number(borrow);
    let l = low_bits(left as int, bits as nat);
    let r = low_bits(right as int, bits as nat);
    AddResult {
        result: ((left - right - c) % 0x1_0000_0000_0000_0000) as u64,
        carry: l < r + c,
        overflow: leaves_signed_range(
            signed_of(left as int, bits as nat) - signed_of(right as int, bits as nat) - c,
            bits as nat,
        ),
        adjust: bits > 4 && l % 16 < r % 16 + c,
    }
}

pub fn add_with_flags(left: u64, right: u64, carry: bool, bits: u32) -> (sum: AddResult)
    requires
        1 <= bits <= 64,
    ensures
        sum == add_result(left, right, carry, bits),
{
    let carry_in: u64 = if carry { 1 } else { 0 };
    let result = left.wrapping_add(right).wrapping_add(carry_in);
    let left_t = truncate(left, bits);
    let right_t = truncate(right, bits);
    let wide: u128 = left_t as u128 + right_t as u128 + carry_in as u128;
    let span: u128 = if bits == 64 { 0x1_0000_0000_0000_0000 } else { power_of_two_u64(bits) as u128 };
    let left_negative = is_negative(left, bits);
    let right_negative = is_negative(right, bits);
    let result_negative = is_negative(result, bits);
    proof {
        lemma2_to64();
        lemma_pow2_pos(bits as nat);
        let n = bits as nat;
        let p = pow2(n) as int;
        let total = left + right + carry_in;
        assert(result as int == total % 0x1_0000_0000_0000_0000);
        lemma_low_bits_of_wide(total, n, 64);
        lemma_low_bits_of_sum(left as int, right + carry_in, n);
        lemma_low_bits_of_sum(right as int, carry_in as int, n);
        lemma_low_bits_of_wide(carry_in as int, n, 64);
        let t = low_bits(result as int, n);
        lemma_wide_sum(left_t as int, right_t as int, carry_in as int, p, left as int, right as int);
        assert(t == (left_t + right_t + carry_in) % p);
        lemma_mod_once(left_t + right_t + carry_in, p);
        lemma_pow2_unfold(n);
    }
    AddResult {
        result,
        carry: wide >= span,
        overflow: left_negative == right_negative && left_negative != result_negative,
        adjust: bits > 4 && left_t % 16 + right_t % 16 + carry_in >= 16,
    }
}

pub proof fn lemma_mod_once(sum: int, p: int)
    requires
        p > 0,
        -p <= sum < 2 * p,
    ensures
        sum % p == (if sum >= p {
            sum - p
        } else if sum < 0 {
            sum + p
        } else {
            sum
        }),
{
    if sum >= p {
        vstd::arithmetic::div_mod::lemma_fundamental_div_mod_converse(sum, p, 1, sum - p);
    } else if sum < 0 {
        vstd::arithmetic::div_mod::lemma_fundamental_div_mod_converse(sum, p, -1, sum + p);
    } else {
        vstd::arithmetic::div_mod::lemma_fundamental_div_mod_converse(sum, p, 0, sum);
    }
}

pub proof fn lemma_wide_sum(l: int, r: int, c: int, p: int, left: int, right: int)
    requires
        p > 0,
        l == left % p,
        r == right % p,
    ensures
        (l + r + c) % p == (left + right + c) % p,
        (l - r - c) % p == (left - right - c) % p,
{
    let a = left / p;
    let b = right / p;
    vstd::arithmetic::div_mod::lemma_fundamental_div_mod(left, p);
    vstd::arithmetic::div_mod::lemma_fundamental_div_mod(right, p);
    assert(left + right + c == p * (a + b) + (l + r + c)) by (nonlinear_arith)
        requires
            left == p * a + l,
            right == p * b + r,
    ;
    assert(left - right - c == p * (a - b) + (l - r - c)) by (nonlinear_arith)
        requires
            left == p * a + l,
            right == p * b + r,
    ;
    vstd::arithmetic::div_mod::lemma_mod_multiples_vanish(a + b, l + r + c, p);
    vstd::arithmetic::div_mod::lemma_mod_multiples_vanish(a - b, l - r - c, p);
}

pub fn sub_with_flags(left: u64, right: u64, carry: bool, bits: u32) -> (difference: AddResult)
    requires
        1 <= bits <= 64,
    ensures
        difference == sub_result(left, right, carry, bits),
{
    let borrow: u64 = if carry { 1 } else { 0 };
    let result = left.wrapping_sub(right).wrapping_sub(borrow);
    let left_t = truncate(left, bits);
    let right_t = truncate(right, bits);
    let left_negative = is_negative(left, bits);
    let right_negative = is_negative(right, bits);
    let result_negative = is_negative(result, bits);
    proof {
        lemma2_to64();
        lemma_pow2_pos(bits as nat);
        let n = bits as nat;
        let p = pow2(n) as int;
        let total = left - right - borrow;
        assert(result as int == total % 0x1_0000_0000_0000_0000);
        lemma_low_bits_of_wide(total, n, 64);
        lemma_wide_sum(left_t as int, right_t as int, borrow as int, p, left as int, right as int);
        assert(low_bits(result as int, n) == (left_t - right_t - borrow) % p);
        lemma_mod_once(left_t - right_t - borrow, p);
        lemma_pow2_unfold(n);
    }
    AddResult {
        result,
        carry: left_t < right_t || (carry && left_t == right_t),
        overflow: left_negative != right_negative && left_negative != result_negative,
        adjust: bits > 4 && (left_t % 16 < right_t % 16 + borrow),
    }
}

/// The flags with sign, zero and parity taken from the low `bits` bits of `result`;
/// parity looks at the low byte only.
pub open spec fn szp(flags: u64, result: u64, bits: u32) -> u64 {
    let low = low_bits(result as int, bits as nat);
    let sign = with_flag(flags, SF, 2 * low >= pow2(bits as nat));
    let zero = with_flag(sign, ZF, low == 0);
    with_flag(zero, PF, ones((low % 256) as nat) % 2 == 0)
}

/// The flags after an addition or a subtraction of `bits` bits.
pub open spec fn arithmetic_flags(flags: u64, outcome: AddResult, bits: u32) -> u64 {
    let carried = with_flag(szp(flags, outcome.result, bits), CF, outcome.carry);
    with_flag(with_flag(carried, OF, outcome.overflow), AF, outcome.adjust)
}

/// The flags after a bitwise operation: sign, zero and parity of the result, with
/// carry, overflow and adjust clear.
pub open spec fn logic_flags(flags: u64, result: u64, bits: u32) -> u64 {
    let carried = with_flag(szp(flags, result, bits), CF, false);
    with_flag(with_flag(carried, OF, false), AF, false)
}

/// Applies SF/ZF/PF after a logic or arithmetic result at the given width.
pub fn set_szp(regs: &mut Registers, result: u64, bits: u32)
    requires
        1 <= bits <= 64,
    ensures
        final(regs)@ == old(regs)@.set_flags(szp(old(regs)@.rflags, result, bits)),
{
    let truncated = truncate(result, bits);
    let negative = is_negative(result, bits);
    let odd = count_ones(truncated % 256) % 2;
    let sign = set_flag(regs.rflags, SF, negative);
    let zero = set_flag(sign, ZF, truncated == 0);
    regs.rflags = set_flag(zero, PF, odd == 0);
}

pub fn set_carry(regs: &mut Registers, carry: bool)
    ensures
        final(regs)@ == old(regs)@.set_flags(with_flag(old(regs)@.rflags, CF, carry)),
{
    regs.rflags = set_flag(regs.rflags, CF, carry);
}

pub fn set_overflow(regs: &mut Registers, overflow: bool)
    ensures
        final(regs)@ == old(regs)@.set_flags(with_flag(old(regs)@.rflags, OF, overflow)),
{
    regs.rflags = set_flag(regs.rflags, OF, overflow);
}

pub fn set_adjust(regs: &mut Registers, adjust: bool)
    ensures
        final(regs)@ == old(regs)@.set_flags(with_flag(old(regs)@.rflags, AF, adjust)),
{
    regs.rflags = set_flag(regs.rflags, AF, adjust);
}

pub fn carry(regs: &Registers) -> (set: bool)
    ensures
        set == holds(regs@.rflags, CF),
{
    contains(regs.rflags, CF)
}

/// Sets the flags of an addition or a subtraction.
pub fn set_arithmetic(regs: &mut Registers, outcome: AddResult, bits: u32)
    requires
        1 <= bits <= 64,
    ensures
        final(regs)@ == old(regs)@.set_flags(arithmetic_flags(old(regs)@.rflags, outcome, bits)),
{
    set_szp(regs, outcome.result, bits);
    set_carry(regs, outcome.carry);
    set_overflow(regs, outcome.overflow);
    set_adjust(regs, outcome.adjust);
}

/// Sets the flags of a bitwise operation.
pub fn set_logic(regs: &mut Registers, result: u64, bits: u32)
    requires
        1 <= bits <= 64,
    ensures
        final(regs)@ == old(regs)@.set_flags(logic_flags(old(regs)@.rflags, result, bits)),
{
    set_szp(regs, result, bits);
    set_carry(regs, false);
    set_overflow(regs, false);
    set_adjust(regs, false);
}

/// The status flags are different bits.
pub proof fn lemma_flags_disjoint()
    ensures
        SF & CF == 0,
        ZF & CF == 0,
        PF & CF == 0,
        OF & CF == 0,
        AF & CF == 0,
        CF & (SF | ZF | PF | AF) == 0,
        OF & (SF | ZF | PF | AF) == 0,
{
    assert(0x80u64 & 0x1 == 0 && 0x40u64 & 0x1 == 0 && 0x4u64 & 0x1 == 0 && 0x800u64 & 0x1 == 0 && 0x10u64 & 0x1 == 0
        && 0x1u64 & (0x80u64 | 0x40 | 0x4 | 0x10) == 0 && 0x800u64 & (0x80u64 | 0x40 | 0x4 | 0x10) == 0) by (bit_vector);
}

/// Setting one flag leaves the bits outside its mask alone and reads back as set.
pub proof fn flag_update_is_local(flags: u64, mask: u64, other: u64, on: bool)
    requires
        mask & other == 0,
        mask != 0,
    ensures
        with_flag(flags, mask, on) & other == flags & other,
        holds(with_flag(flags, mask, on), mask) == on,
{
    let set = flags | mask;
    let clear = flags & !mask;
    assert((flags | mask) & other == flags & other && (flags & !mask) & other == flags & other && (flags | mask)
        & mask == mask && (flags & !mask) & mask == 0) by (bit_vector)
        requires
            mask & other == 0,
    ;
}

/// What the flags of an addition or a subtraction read back as.
pub proof fn arithmetic_flags_read_back(flags: u64, outcome: AddResult, bits: u32)
    ensures
        ({
            let after = arithmetic_flags(flags, outcome, bits);
            let low = low_bits(outcome.result as int, bits as nat);
            &&& holds(after, CF) == outcome.carry
            &&& holds(after, OF) == outcome.overflow
            &&& holds(after, AF) == outcome.adjust
            &&& holds(after, ZF) == (low == 0)
            &&& holds(after, SF) == (2 * low >= pow2(bits as nat))
            &&& holds(after, PF) == (ones((low % 256) as nat) % 2 == 0)
        }),
{
    let low = low_bits(outcome.result as int, bits as nat);
    let s = 2 * low >= pow2(bits as nat);
    let z = low == 0;
    let p = ones((low % 256) as nat) % 2 == 0;
    let sign = with_flag(flags, SF, s);
    let zero = with_flag(sign, ZF, z);
    let even = with_flag(zero, PF, p);
    let carried = with_flag(even, CF, outcome.carry);
    let over = with_flag(carried, OF, outcome.overflow);
    lemma_flags_apart();
    flag_update_is_local(flags, SF, 0, s);
    flag_update_is_local(sign, ZF, SF, z);
    flag_update_is_local(zero, PF, SF | ZF, p);
    flag_update_is_local(even, CF, SF | ZF | PF, outcome.carry);
    flag_update_is_local(carried, OF, SF | ZF | PF | CF, outcome.overflow);
    flag_update_is_local(over, AF, SF | ZF | PF | CF | OF, outcome.adjust);
    let after = arithmetic_flags(flags, outcome, bits);
    lemma_flag_kept(zero, sign, SF, SF);
    lemma_flag_kept(even, zero, SF | ZF, SF);
    lemma_flag_kept(even, zero, SF | ZF, ZF);
    lemma_flag_kept(carried, even, SF | ZF | PF, SF);
    lemma_flag_kept(carried, even, SF | ZF | PF, ZF);
    lemma_flag_kept(carried, even, SF | ZF | PF, PF);
    lemma_flag_kept(over, carried, SF | ZF | PF | CF, SF);
    lemma_flag_kept(over, carried, SF | ZF | PF | CF, ZF);
    lemma_flag_kept(over, carried, SF | ZF | PF | CF, PF);
    lemma_flag_kept(over, carried, SF | ZF | PF | CF, CF);
    lemma_flag_kept(after, over, SF | ZF | PF | CF | OF, SF);
    lemma_flag_kept(after, over, SF | ZF | PF | CF | OF, ZF);
    lemma_flag_kept(after, over, SF | ZF | PF | CF | OF, PF);
    lemma_flag_kept(after, over, SF | ZF | PF | CF | OF, CF);
    lemma_flag_kept(after, over, SF | ZF | PF | CF | OF, OF);
}

/// Setting one status flag leaves the others as they are, and every bit that is none.
pub proof fn status_flags_are_apart(flags: u64, mask: u64, on: bool)
    requires
        mask == CF || mask == PF || mask == AF || mask == ZF || mask == SF || mask == OF,
    ensures
        ({
            let after = with_flag(flags, mask, on);
            &&& holds(after, CF) == if mask == CF { on } else { holds(flags, CF) }
            &&& holds(after, PF) == if mask == PF { on } else { holds(flags, PF) }
            &&& holds(after, AF) == if mask == AF { on } else { holds(flags, AF) }
            &&& holds(after, ZF) == if mask == ZF { on } else { holds(flags, ZF) }
            &&& holds(after, SF) == if mask == SF { on } else { holds(flags, SF) }
            &&& holds(after, OF) == if mask == OF { on } else { holds(flags, OF) }
            &&& after & !0x8D5 == flags & !0x8D5
        }),
{
    assert(({
        let after = flags | mask;
        &&& (after & 0x1 == 0x1) == (mask == 0x1 || flags & 0x1 == 0x1)
        &&& (after & 0x4 == 0x4) == (mask == 0x4 || flags & 0x4 == 0x4)
        &&& (after & 0x10 == 0x10) == (mask == 0x10 || flags & 0x10 == 0x10)
        &&& (after & 0x40 == 0x40) == (mask == 0x40 || flags & 0x40 == 0x40)
        &&& (after & 0x80 == 0x80) == (mask == 0x80 || flags & 0x80 == 0x80)
        &&& (after & 0x800 == 0x800) == (mask == 0x800 || flags & 0x800 == 0x800)
        &&& after & !0x8D5 == flags & !0x8D5
    })) by (bit_vector)
        requires
            mask == 0x1 || mask == 0x4 || mask == 0x10 || mask == 0x40 || mask == 0x80 || mask == 0x800,
    ;
    assert(({
        let after = flags & !mask;
        &&& (after & 0x1 == 0x1) == (mask != 0x1 && flags & 0x1 == 0x1)
        &&& (after & 0x4 == 0x4) == (mask != 0x4 && flags & 0x4 == 0x4)
        &&& (after & 0x10 == 0x10) == (mask != 0x10 && flags & 0x10 == 0x10)
        &&& (after & 0x40 == 0x40) == (mask != 0x40 && flags & 0x40 == 0x40)
        &&& (after & 0x80 == 0x80) == (mask != 0x80 && flags & 0x80 == 0x80)
        &&& (after & 0x800 == 0x800) == (mask != 0x800 && flags & 0x800 == 0x800)
        &&& after & !0x8D5 == flags & !0x8D5
    })) by (bit_vector)
        requires
            mask == 0x1 || mask == 0x4 || mask == 0x10 || mask == 0x40 || mask == 0x80 || mask == 0x800,
    ;
}

/// An addition or a subtraction leaves every flag alone but the six that it defines.
pub proof fn arithmetic_keeps_other_flags(flags: u64, outcome: AddResult, bits: u32, other: u64)
    requires
        other & 0x8D5 == 0,
    ensures
        arithmetic_flags(flags, outcome, bits) & other == flags & other,
{
    let low = low_bits(outcome.result as int, bits as nat);
    let s = 2 * low >= pow2(bits as nat);
    let z = low == 0;
    let p = ones((low % 256) as nat) % 2 == 0;
    let sign = with_flag(flags, SF, s);
    let zero = with_flag(sign, ZF, z);
    let even = with_flag(zero, PF, p);
    let carried = with_flag(even, CF, outcome.carry);
    let over = with_flag(carried, OF, outcome.overflow);
    assert(0x80u64 & other == 0 && 0x40u64 & other == 0 && 0x4u64 & other == 0 && 0x1u64 & other == 0 && 0x800u64 & other
        == 0 && 0x10u64 & other == 0) by (bit_vector)
        requires
            other & 0x8D5 == 0,
    ;
    flag_update_is_local(flags, SF, other, s);
    flag_update_is_local(sign, ZF, other, z);
    flag_update_is_local(zero, PF, other, p);
    flag_update_is_local(even, CF, other, outcome.carry);
    flag_update_is_local(carried, OF, other, outcome.overflow);
    flag_update_is_local(over, AF, other, outcome.adjust);
}

proof fn lemma_flag_kept(after: u64, before: u64, kept: u64, mask: u64)
    requires
        after & kept == before & kept,
        kept & mask == mask,
    ensures
        holds(after, mask) == holds(before, mask),
{
    assert(after & mask == before & mask) by (bit_vector)
        requires
            after & kept == before & kept,
            kept & mask == mask,
    ;
}

proof fn lemma_flags_apart()
    ensures
        SF & 0 == 0,
        ZF & SF == 0,
        PF & (SF | ZF) == 0,
        CF & (SF | ZF | PF) == 0,
        OF & (SF | ZF | PF | CF) == 0,
        AF & (SF | ZF | PF | CF | OF) == 0,
        forall|mask: u64| #![auto] mask & mask == mask,
        (SF | ZF) & SF == SF,
        (SF | ZF) & ZF == ZF,
        (SF | ZF | PF) & SF == SF,
        (SF | ZF | PF) & ZF == ZF,
        (SF | ZF | PF) & PF == PF,
        (SF | ZF | PF | CF) & SF == SF,
        (SF | ZF | PF | CF) & ZF == ZF,
        (SF | ZF | PF | CF) & PF == PF,
        (SF | ZF | PF | CF) & CF == CF,
        (SF | ZF | PF | CF | OF) & SF == SF,
        (SF | ZF | PF | CF | OF) & ZF == ZF,
        (SF | ZF | PF | CF | OF) & PF == PF,
        (SF | ZF | PF | CF | OF) & CF == CF,
        (SF | ZF | PF | CF | OF) & OF == OF,
{
    assert(forall|mask: u64| #![auto] mask & mask == mask) by (bit_vector);
    assert(0x80u64 & 0 == 0 && 0x40u64 & 0x80 == 0 && 0x4u64 & (0x80u64 | 0x40) == 0 && 0x1u64 & (0x80u64 | 0x40 | 0x4)
        == 0 && 0x800u64 & (0x80u64 | 0x40 | 0x4 | 0x1) == 0 && 0x10u64 & (0x80u64 | 0x40 | 0x4 | 0x1 | 0x800) == 0
        && (0x80u64 | 0x40) & 0x80 == 0x80 && (0x80u64 | 0x40) & 0x40 == 0x40 && (0x80u64 | 0x40 | 0x4) & 0x80 == 0x80
        && (0x80u64 | 0x40 | 0x4) & 0x40 == 0x40 && (0x80u64 | 0x40 | 0x4) & 0x4 == 0x4 && (0x80u64 | 0x40 | 0x4 | 0x1)
        & 0x80 == 0x80 && (0x80u64 | 0x40 | 0x4 | 0x1) & 0x40 == 0x40 && (0x80u64 | 0x40 | 0x4 | 0x1) & 0x4 == 0x4 && (
    0x80u64 | 0x40 | 0x4 | 0x1) & 0x1 == 0x1 && (0x80u64 | 0x40 | 0x4 | 0x1 | 0x800) & 0x80 == 0x80 && (0x80u64 | 0x40
        | 0x4 | 0x1 | 0x800) & 0x40 == 0x40 && (0x80u64 | 0x40 | 0x4 | 0x1 | 0x800) & 0x4 == 0x4 && (0x80u64 | 0x40
        | 0x4 | 0x1 | 0x800) & 0x1 == 0x1 && (0x80u64 | 0x40 | 0x4 | 0x1 | 0x800) & 0x800 == 0x800) by (bit_vector);
}

/// A subtraction undoes an addition of the same number and carry, and the other way round.
pub proof fn subtraction_undoes_addition(left: u64, right: u64, carry: bool, bits: u32)
    ensures
        sub_result(add_result(left, right, carry, bits).result, right, carry, bits).result == left,
        add_result(sub_result(left, right, carry, bits).result, right, carry, bits).result == left,
{
}

} // verus!
