//! What integer instructions compute, told by mnemonics, operand values and flag bits.

use vstd::arithmetic::power2::{lemma2_to64, lemma_pow2_pos, pow2};
use vstd::prelude::*;

use crate::arch::registers::{holds, with_flag, CF, OF, PF, SF, ZF};
use crate::arith::{lemma_low_bits_of_wide, low_bits, ones, signed_of};
use crate::cpu::step::{dispatch_spec, route_of, Route};
use crate::cpu::{CpuError, Machine};
use crate::decode::{mnemonic, register, Instruction};
use crate::ops::arithmetic::{binary_spec, convert_spec, imul_factors, inc_dec_spec, mul_div_spec, neg_spec, step_flags};
use crate::ops::effect::done;
use crate::ops::logic::{and_or_xor_spec, test_spec};
use crate::ops::{
    add_result, arithmetic_flags, arithmetic_flags_read_back, arithmetic_keeps_other_flags, logic_flags, operand_size_spec,
    status_flags_are_apart, sub_result, szp, width_bits,
};

verus! {

/// A number of `bits` bits read without sign.
pub open spec fn unsigned(value: int, bits: nat) -> int {
    value % (pow2(bits) as int)
}

/// A number of `bits` bits read with sign.
pub open spec fn signed(value: int, bits: nat) -> int {
    let low = value % (pow2(bits) as int);
    if 2 * low >= pow2(bits) {
        low - pow2(bits)
    } else {
        low
    }
}

/// Whether a number is none of the signed numbers of `bits` bits.
pub open spec fn is_too_wide(number: int, bits: nat) -> bool {
    2 * number >= pow2(bits) || 2 * number < -pow2(bits)
}

/// Whether the zero, sign and parity flags tell a result of `bits` bits: bit 6 that it is
/// zero, bit 7 that it is negative, bit 2 that its low byte has an even number of set bits.
pub open spec fn tells_result(flags: u64, low: int, bits: nat) -> bool {
    &&& holds(flags, 0x40) == (low == 0)
    &&& holds(flags, 0x80) == (2 * low >= pow2(bits))
    &&& holds(flags, 0x4) == (ones((low % 256) as nat) % 2 == 0)
}

/// What a sum or a difference is and what the flags tell of it.
proof fn lemma_flags_of(flags: u64, left: u64, right: u64, carry: bool, bits: u32, adds: bool)
    requires
        8 <= bits <= 64,
    ensures
        ({
            let n = bits as nat;
            let c = if carry { 1int } else { 0 };
            let outcome = if adds {
                add_result(left, right, carry, bits)
            } else {
                sub_result(left, right, carry, bits)
            };
            let after = arithmetic_flags(flags, outcome, bits);
            let l = unsigned(left as int, n);
            let r = unsigned(right as int, n);
            let exact = if adds { l + r + c } else { l - r - c };
            let signed_exact = if adds {
                signed(left as int, n) + signed(right as int, n) + c
            } else {
                signed(left as int, n) - signed(right as int, n) - c
            };
            &&& outcome.result == (if adds { left + right + c } else { left - right - c }) % 0x1_0000_0000_0000_0000
            &&& unsigned(outcome.result as int, n) == unsigned(exact, n)
            &&& holds(after, 0x1) == (exact < 0 || exact >= pow2(n))
            &&& holds(after, 0x800) == is_too_wide(signed_exact, n)
            &&& holds(after, 0x10) == (if adds { l % 16 + r % 16 + c >= 16 } else { l % 16 - r % 16 - c < 0 })
            &&& tells_result(after, unsigned(exact, n), n)
            &&& after & !0x8D5 == flags & !0x8D5
            &&& outcome.overflow == is_too_wide(signed_exact, n)
            &&& outcome.adjust == (if adds { l % 16 + r % 16 + c >= 16 } else { l % 16 - r % 16 - c < 0 })
        }),
{
    let n = bits as nat;
    let c = if carry { 1int } else { 0 };
    let outcome = if adds {
        add_result(left, right, carry, bits)
    } else {
        sub_result(left, right, carry, bits)
    };
    let l = unsigned(left as int, n);
    let r = unsigned(right as int, n);
    lemma2_to64();
    lemma_pow2_pos(n);
    arithmetic_flags_read_back(flags, outcome, bits);
    assert(!0x8D5u64 & 0x8D5 == 0) by (bit_vector);
    arithmetic_keeps_other_flags(flags, outcome, bits, !0x8D5u64);
    crate::ops::lemma_wide_sum(l, r, c, pow2(n) as int, left as int, right as int);
    vstd::arithmetic::div_mod::lemma_mod_bound(left as int, pow2(n) as int);
    vstd::arithmetic::div_mod::lemma_mod_bound(right as int, pow2(n) as int);
    if adds {
        lemma_low_bits_of_wide(left + right + c, n, 64);
    } else {
        lemma_low_bits_of_wide(left - right - c, n, 64);
    }
}

proof fn lemma_width(instruction: Instruction)
    ensures
        8 <= width_bits(operand_size_spec(instruction, 0)) <= 64,
{
}

proof fn lemma_routed_sum(machine: Machine, instruction: Instruction)
    requires
        instruction.mnemonic == mnemonic::ADD || instruction.mnemonic == mnemonic::SUB || instruction.mnemonic
            == mnemonic::ADC || instruction.mnemonic == mnemonic::SBB,
    ensures
        dispatch_spec(machine, instruction) == done(
            binary_spec(
                machine,
                instruction,
                instruction.mnemonic == mnemonic::SUB || instruction.mnemonic == mnemonic::SBB,
                instruction.mnemonic == mnemonic::ADC || instruction.mnemonic == mnemonic::SBB,
            ),
        ),
{
    reveal(dispatch_spec);
}

/// ADD, ADC, SUB and SBB write the sum or the difference of their operands, with the carry
/// flag for ADC and SBB, and tell in the flags whether it fits without sign and with it.
pub proof fn sums_and_differences_are_exact(machine: Machine, instruction: Instruction, left: u64, right: u64) -> (flags:
    u64)
    requires
        instruction.mnemonic == mnemonic::ADD || instruction.mnemonic == mnemonic::SUB || instruction.mnemonic
            == mnemonic::ADC || instruction.mnemonic == mnemonic::SBB,
        machine.read_operand0(instruction) == Ok::<u64, CpuError>(left),
        machine.read_operand1(instruction) == Ok::<u64, CpuError>(right),
    ensures
        ({
            let n = width_bits(operand_size_spec(instruction, 0)) as nat;
            let adds = instruction.mnemonic == mnemonic::ADD || instruction.mnemonic == mnemonic::ADC;
            let carries = instruction.mnemonic == mnemonic::ADC || instruction.mnemonic == mnemonic::SBB;
            let c = if carries && holds(machine.regs.rflags, 0x1) { 1int } else { 0 };
            let l = unsigned(left as int, n);
            let r = unsigned(right as int, n);
            let exact = if adds { l + r + c } else { l - r - c };
            let signed_exact = if adds {
                signed(left as int, n) + signed(right as int, n) + c
            } else {
                signed(left as int, n) - signed(right as int, n) - c
            };
            let value = ((if adds { left + right + c } else { left - right - c }) % 0x1_0000_0000_0000_0000) as u64;
            &&& dispatch_spec(machine, instruction) == done(
                machine.set_flags(flags).write_operand0(instruction, value),
            )
            &&& unsigned(value as int, n) == unsigned(exact, n)
            &&& holds(flags, 0x1) == (exact < 0 || exact >= pow2(n))
            &&& holds(flags, 0x800) == is_too_wide(signed_exact, n)
            &&& holds(flags, 0x10) == (if adds { l % 16 + r % 16 + c >= 16 } else { l % 16 - r % 16 - c < 0 })
            &&& tells_result(flags, unsigned(exact, n), n)
            &&& flags & !0x8D5 == machine.regs.rflags & !0x8D5
        }),
{
    let bits = width_bits(operand_size_spec(instruction, 0));
    let adds = instruction.mnemonic == mnemonic::ADD || instruction.mnemonic == mnemonic::ADC;
    let carries = instruction.mnemonic == mnemonic::ADC || instruction.mnemonic == mnemonic::SBB;
    let carry = carries && holds(machine.regs.rflags, CF);
    let outcome = if adds {
        add_result(left, right, carry, bits)
    } else {
        sub_result(left, right, carry, bits)
    };
    lemma_width(instruction);
    lemma_routed_sum(machine, instruction);
    lemma_flags_of(machine.regs.rflags, left, right, carry, bits, adds);
    arithmetic_flags(machine.regs.rflags, outcome, bits)
}

proof fn lemma_routed_step(machine: Machine, instruction: Instruction)
    requires
        instruction.mnemonic == mnemonic::INC || instruction.mnemonic == mnemonic::DEC,
    ensures
        dispatch_spec(machine, instruction) == done(inc_dec_spec(machine, instruction)),
{
    assert(route_of(instruction.mnemonic) == Route::Step);
    reveal(dispatch_spec);
}

/// INC and DEC write their operand one up or one down, and leave the carry flag as it is.
pub proof fn steps_go_by_one(machine: Machine, instruction: Instruction, left: u64) -> (flags: u64)
    requires
        instruction.mnemonic == mnemonic::INC || instruction.mnemonic == mnemonic::DEC,
        machine.read_operand0(instruction) == Ok::<u64, CpuError>(left),
    ensures
        ({
            let n = width_bits(operand_size_spec(instruction, 0)) as nat;
            let step = if instruction.mnemonic == mnemonic::INC { 1int } else { -1 };
            let exact = unsigned(left as int, n) + step;
            &&& dispatch_spec(machine, instruction) == done(
                machine.set_flags(flags).write_operand0(
                    instruction,
                    ((left + step) % 0x1_0000_0000_0000_0000) as u64,
                ),
            )
            &&& holds(flags, 0x1) == holds(machine.regs.rflags, 0x1)
            &&& holds(flags, 0x800) == is_too_wide(signed(left as int, n) + step, n)
            &&& holds(flags, 0x10) == (if step == 1 { left as int % 16 == 15 } else { left as int % 16 == 0 })
            &&& tells_result(flags, unsigned(exact, n), n)
            &&& flags & !0x8D5 == machine.regs.rflags & !0x8D5
        }),
{
    let bits = width_bits(operand_size_spec(instruction, 0));
    let n = bits as nat;
    let adds = instruction.mnemonic == mnemonic::INC;
    let outcome = if adds { add_result(left, 1, false, bits) } else { sub_result(left, 1, false, bits) };
    let flags = machine.regs.rflags;
    lemma_width(instruction);
    lemma_routed_step(machine, instruction);
    lemma_flags_of(flags, left, 1, false, bits, adds);
    lemma2_to64();
    vstd::arithmetic::power2::lemma_pow2_strictly_increases(1, n);
    vstd::arithmetic::div_mod::lemma_small_mod(1, pow2(n));
    lemma_low_nibble(left, n);
    lemma_szp(flags, outcome.result, bits);
    let shown = szp(flags, outcome.result, bits);
    let over = with_flag(shown, OF, outcome.overflow);
    status_flags_are_apart(shown, OF, outcome.overflow);
    status_flags_are_apart(over, crate::arch::registers::AF, outcome.adjust);
    step_flags(flags, outcome, bits)
}

proof fn lemma_low_nibble(value: u64, bits: nat)
    requires
        8 <= bits,
    ensures
        unsigned(value as int, bits) % 16 == value as int % 16,
        1int % 16 == 1,
{
    lemma2_to64();
    vstd::arithmetic::power2::lemma_pow2_adds(4, (bits - 4) as nat);
    lemma_pow2_pos((bits - 4) as nat);
    vstd::arithmetic::div_mod::lemma_mod_mod(value as int, 16, pow2((bits - 4) as nat) as int);
}

/// What the sign, zero and parity flags read back as, and that the others stay.
proof fn lemma_szp(flags: u64, result: u64, bits: u32)
    ensures
        ({
            let after = szp(flags, result, bits);
            &&& tells_result(after, unsigned(result as int, bits as nat), bits as nat)
            &&& holds(after, CF) == holds(flags, CF)
            &&& holds(after, OF) == holds(flags, OF)
            &&& holds(after, crate::arch::registers::AF) == holds(flags, crate::arch::registers::AF)
            &&& after & !0x8D5 == flags & !0x8D5
        }),
{
    let low = low_bits(result as int, bits as nat);
    let sign = with_flag(flags, SF, 2 * low >= pow2(bits as nat));
    let zero = with_flag(sign, ZF, low == 0);
    status_flags_are_apart(flags, SF, 2 * low >= pow2(bits as nat));
    status_flags_are_apart(sign, ZF, low == 0);
    status_flags_are_apart(zero, PF, ones((low % 256) as nat) % 2 == 0);
}

proof fn lemma_routed_negation(machine: Machine, instruction: Instruction)
    requires
        instruction.mnemonic == mnemonic::NEG,
    ensures
        dispatch_spec(machine, instruction) == done(neg_spec(machine, instruction)),
{
    assert(route_of(instruction.mnemonic) == Route::Negate);
    reveal(dispatch_spec);
}

/// NEG writes its operand with the other sign; the carry flag tells that it was not zero,
/// the overflow flag that it has no counterpart.
pub proof fn negation_changes_the_sign(machine: Machine, instruction: Instruction, value: u64) -> (flags: u64)
    requires
        instruction.mnemonic == mnemonic::NEG,
        machine.read_operand0(instruction) == Ok::<u64, CpuError>(value),
    ensures
        ({
            let n = width_bits(operand_size_spec(instruction, 0)) as nat;
            let negated = ((0 - value) % 0x1_0000_0000_0000_0000) as u64;
            &&& dispatch_spec(machine, instruction) == done(
                machine.set_flags(flags).write_operand0(instruction, negated),
            )
            &&& holds(flags, 0x1) == (value != 0)
            &&& holds(flags, 0x800) == (2 * unsigned(negated as int, n) == pow2(n))
            &&& tells_result(flags, unsigned(negated as int, n), n)
            &&& holds(flags, 0x10) == holds(machine.regs.rflags, 0x10)
            &&& flags & !0x8D5 == machine.regs.rflags & !0x8D5
        }),
{
    let bits = width_bits(operand_size_spec(instruction, 0));
    let result = (-(value as int) % 0x1_0000_0000_0000_0000) as u64;
    lemma_routed_negation(machine, instruction);
    let shown = szp(machine.regs.rflags, result, bits);
    let carried = with_flag(shown, CF, value != 0);
    let over = 2 * low_bits(result as int, bits as nat) == pow2(bits as nat);
    lemma_szp(machine.regs.rflags, result, bits);
    status_flags_are_apart(shown, CF, value != 0);
    status_flags_are_apart(carried, OF, over);
    with_flag(carried, OF, over)
}

proof fn lemma_routed_logic(machine: Machine, instruction: Instruction)
    requires
        instruction.mnemonic == mnemonic::AND || instruction.mnemonic == mnemonic::OR || instruction.mnemonic
            == mnemonic::XOR || instruction.mnemonic == mnemonic::TEST,
    ensures
        dispatch_spec(machine, instruction) == done(
            if instruction.mnemonic == mnemonic::TEST {
                test_spec(machine, instruction)
            } else {
                and_or_xor_spec(machine, instruction)
            },
        ),
{
    reveal(dispatch_spec);
}

/// AND, OR and XOR combine their operands bit by bit; TEST does as AND and writes nothing.
/// The flags tell the result, with carry, overflow and adjust clear.
pub proof fn logic_goes_bit_by_bit(machine: Machine, instruction: Instruction, left: u64, right: u64) -> (flags: u64)
    requires
        instruction.mnemonic == mnemonic::AND || instruction.mnemonic == mnemonic::OR || instruction.mnemonic
            == mnemonic::XOR || instruction.mnemonic == mnemonic::TEST,
        machine.read_operand0(instruction) == Ok::<u64, CpuError>(left),
        machine.read_operand1(instruction) == Ok::<u64, CpuError>(right),
    ensures
        ({
            let n = width_bits(operand_size_spec(instruction, 0)) as nat;
            let code = instruction.mnemonic;
            let value = if code == mnemonic::OR {
                left | right
            } else if code == mnemonic::XOR {
                left ^ right
            } else {
                left & right
            };
            &&& dispatch_spec(machine, instruction) == if code == mnemonic::TEST {
                done((machine.set_flags(flags), Ok(())))
            } else {
                done(machine.set_flags(flags).write_operand0(instruction, value))
            }
            &&& tells_result(flags, unsigned(value as int, n), n)
            &&& !holds(flags, 0x1) && !holds(flags, 0x800) && !holds(flags, 0x10)
            &&& flags & !0x8D5 == machine.regs.rflags & !0x8D5
        }),
{
    let bits = width_bits(operand_size_spec(instruction, 0));
    let code = instruction.mnemonic;
    let value = if code == mnemonic::OR {
        left | right
    } else if code == mnemonic::XOR {
        left ^ right
    } else {
        left & right
    };
    let flags = machine.regs.rflags;
    lemma_routed_logic(machine, instruction);
    lemma_szp(flags, value, bits);
    let shown = szp(flags, value, bits);
    let carried = with_flag(shown, CF, false);
    let over = with_flag(carried, OF, false);
    status_flags_are_apart(shown, CF, false);
    status_flags_are_apart(carried, OF, false);
    status_flags_are_apart(over, crate::arch::registers::AF, false);
    logic_flags(flags, value, bits)
}

proof fn lemma_routed_conversion(machine: Machine, instruction: Instruction)
    requires
        instruction.mnemonic == mnemonic::CBW || instruction.mnemonic == mnemonic::CWDE || instruction.mnemonic
            == mnemonic::CDQE || instruction.mnemonic == mnemonic::CWD || instruction.mnemonic == mnemonic::CDQ
            || instruction.mnemonic == mnemonic::CQO,
    ensures
        dispatch_spec(machine, instruction) == done((convert_spec(machine, instruction), Ok(()))),
{
    assert(route_of(instruction.mnemonic) == Route::Convert);
    reveal(dispatch_spec);
}

/// CBW, CWDE and CDQE double the width of the accumulator and keep its signed value.
pub proof fn widening_keeps_the_value(machine: Machine, instruction: Instruction, bits: u32)
    requires
        machine.regs.gpr.len() == 16,
        bits == 8 && instruction.mnemonic == mnemonic::CBW || bits == 16 && instruction.mnemonic == mnemonic::CWDE
            || bits == 32 && instruction.mnemonic == mnemonic::CDQE,
    ensures
        ({
            let (after, result) = dispatch_spec(machine, instruction);
            let rax = machine.regs.gpr[0];
            let new = after.regs.gpr[0];
            &&& result is Ok
            &&& after == machine.set_gpr(0, new)
            &&& signed(new as int, (2 * bits) as nat) == signed(rax as int, bits as nat)
            &&& bits == 8 ==> new as int / 0x1_0000 == rax as int / 0x1_0000
            &&& bits == 16 ==> new < 0x1_0000_0000
        }),
{
    lemma_routed_conversion(machine, instruction);
    lemma_extended(machine.regs.gpr[0], bits);
    let rax = machine.regs.gpr[0];
    let wide = crate::ops::arithmetic::sign_extended(rax, bits);
    lemma2_to64();
    if bits == 8 {
        lemma_written_low(machine, register::AX, 2, wide);
        assert(pow2((2 * bits) as nat) == 0x1_0000);
    } else if bits == 16 {
        lemma_written_low(machine, register::EAX, 4, wide);
        assert(pow2((2 * bits) as nat) == 0x1_0000_0000);
    } else {
        lemma_written_low(machine, register::RAX, 8, wide);
    }
}

proof fn lemma_written_low(machine: Machine, number: u8, size: u8, value: u64)
    requires
        machine.regs.gpr.len() == 16,
        number == register::AX && size == 2 || number == register::EAX && size == 4 || number == register::RAX && size
            == 8,
    ensures
        ({
            let old = machine.regs.gpr[0] as int;
            let after = machine.reg_write(number, size, value);
            let new = after.regs.gpr[0] as int;
            &&& after == machine.set_gpr(0, after.regs.gpr[0])
            &&& size == 2 ==> new % 0x1_0000 == value as int % 0x1_0000 && new / 0x1_0000 == old / 0x1_0000
            &&& size == 4 ==> new == value as int % 0x1_0000_0000
            &&& size == 8 ==> new == value
        }),
{
}

/// CWD, CDQ and CQO spread the sign of the accumulator over the data register.
pub proof fn sign_fills_the_data_register(machine: Machine, instruction: Instruction, bits: u32)
    requires
        machine.regs.gpr.len() == 16,
        bits == 16 && instruction.mnemonic == mnemonic::CWD || bits == 32 && instruction.mnemonic == mnemonic::CDQ
            || bits == 64 && instruction.mnemonic == mnemonic::CQO,
    ensures
        ({
            let (after, result) = dispatch_spec(machine, instruction);
            let negative = signed(machine.regs.gpr[0] as int, bits as nat) < 0;
            let old = machine.regs.gpr[2] as int;
            let new = after.regs.gpr[2] as int;
            &&& result is Ok
            &&& after == machine.set_gpr(2, after.regs.gpr[2])
            &&& bits == 16 ==> new == old - old % 0x1_0000 + if negative { 0xFFFFint } else { 0 }
            &&& bits == 32 ==> new == if negative { 0xFFFF_FFFFint } else { 0 }
            &&& bits == 64 ==> new == if negative { 0xFFFF_FFFF_FFFF_FFFFint } else { 0 }
        }),
{
    lemma_routed_conversion(machine, instruction);
    let old = machine.regs.gpr[2];
    let filled = crate::ops::arithmetic::sign_filled(machine.regs.gpr[0], bits);
    assert(signed(machine.regs.gpr[0] as int, bits as nat) == signed_of(machine.regs.gpr[0] as int, bits as nat));
    if bits == 16 {
        assert(dispatch_spec(machine, instruction).0.regs.gpr[2] == crate::ops::merged(old, register::DX, 2, filled));
    } else if bits == 32 {
        assert(dispatch_spec(machine, instruction).0.regs.gpr[2] == crate::ops::merged(old, register::EDX, 4, filled));
    } else {
        assert(dispatch_spec(machine, instruction).0.regs.gpr[2] == filled);
    }
}

proof fn lemma_extended(value: u64, bits: u32)
    requires
        bits == 8 || bits == 16 || bits == 32,
    ensures
        ({
            let wide = crate::ops::arithmetic::sign_extended(value, bits) as int;
            let twice = (2 * bits) as nat;
            &&& signed(wide, twice) == signed(value as int, bits as nat)
            &&& signed(wide % (pow2(twice) as int), twice) == signed(value as int, bits as nat)
        }),
{
    lemma2_to64();
    let exact = signed(value as int, bits as nat);
    let wide = crate::ops::arithmetic::sign_extended(value, bits) as int;
    assert(exact == signed_of(value as int, bits as nat));
    assert(wide == exact % (pow2(64) as int));
    if bits == 8 {
        lemma_same_signed(exact, wide, 0x100, 0x1_0000);
        assert(pow2((2 * bits) as nat) == 0x1_0000 && pow2(bits as nat) == 0x100);
    } else if bits == 16 {
        lemma_same_signed(exact, wide, 0x1_0000, 0x1_0000_0000);
        assert(pow2((2 * bits) as nat) == 0x1_0000_0000 && pow2(bits as nat) == 0x1_0000);
    } else {
        lemma_same_signed(exact, wide, 0x1_0000_0000, 0x1_0000_0000_0000_0000);
        assert(pow2((2 * bits) as nat) == 0x1_0000_0000_0000_0000 && pow2(bits as nat) == 0x1_0000_0000);
    }
}

proof fn lemma_same_signed(exact: int, wide: int, narrow: int, span: int)
    requires
        narrow == 0x100 && span == 0x1_0000 || narrow == 0x1_0000 && span == 0x1_0000_0000 || narrow == 0x1_0000_0000
            && span == 0x1_0000_0000_0000_0000,
        -narrow <= 2 * exact < narrow,
        wide == exact % 0x1_0000_0000_0000_0000,
    ensures
        wide % span == if exact < 0 { exact + span } else { exact },
        (wide % span) % span == wide % span,
{
    if narrow == 0x100 {
        assert(wide % 0x1_0000 == if exact < 0 { exact + 0x1_0000 } else { exact });
    } else if narrow == 0x1_0000 {
        assert(wide % 0x1_0000_0000 == if exact < 0 { exact + 0x1_0000_0000 } else { exact });
    } else {
        assert(wide % 0x1_0000_0000_0000_0000 == if exact < 0 { exact + 0x1_0000_0000_0000_0000 } else { exact });
    }
}

proof fn lemma_routed_product(machine: Machine, instruction: Instruction)
    requires
        instruction.mnemonic == mnemonic::MUL || instruction.mnemonic == mnemonic::IMUL || instruction.mnemonic
            == mnemonic::DIV || instruction.mnemonic == mnemonic::IDIV,
    ensures
        dispatch_spec(machine, instruction) == done(mul_div_spec(machine, instruction)),
{
    assert(route_of(instruction.mnemonic) == Route::MultiplyDivide);
    reveal(dispatch_spec);
}

/// IMUL with two or three operands writes the low bits of the product of the signed
/// factors; carry and overflow both tell that the product does not fit.
pub proof fn signed_products_are_exact(machine: Machine, instruction: Instruction, left: u64, right: u64) -> (flags: u64)
    requires
        instruction.mnemonic == mnemonic::IMUL,
        instruction.op_count == 2 || instruction.op_count == 3,
        if instruction.op_count == 2 {
            machine.read_operand0(instruction) == Ok::<u64, CpuError>(left)
        } else {
            machine.read_operand1(instruction) == Ok::<u64, CpuError>(left)
        },
        if instruction.op_count == 2 {
            machine.read_operand1(instruction) == Ok::<u64, CpuError>(right)
        } else {
            right == instruction.immediate2
        },
        instruction.op0_kind == crate::decode::op_kind::REGISTER,
    ensures
        ({
            let n = width_bits(operand_size_spec(instruction, 0)) as nat;
            let exact = signed(left as int, n) * signed(right as int, n);
            &&& dispatch_spec(machine, instruction) == done(
                machine.set_flags(flags).write_operand0(instruction, unsigned(exact, n) as u64),
            )
            &&& holds(flags, 0x1) == is_too_wide(exact, n)
            &&& holds(flags, 0x800) == is_too_wide(exact, n)
            &&& flags & !0x801 == machine.regs.rflags & !0x801
        }),
{
    let bits = width_bits(operand_size_spec(instruction, 0));
    lemma_routed_product(machine, instruction);
    assert(imul_factors(machine, instruction) == Ok::<(u64, u64), CpuError>((left, right)));
    let over = is_too_wide(signed(left as int, bits as nat) * signed(right as int, bits as nat), bits as nat);
    let carried = with_flag(machine.regs.rflags, CF, over);
    status_flags_are_apart(machine.regs.rflags, CF, over);
    status_flags_are_apart(carried, OF, over);
    let flags = with_flag(carried, OF, over);
    lemma_two_flags(machine.regs.rflags, over);
    flags
}

proof fn lemma_two_flags(flags: u64, on: bool)
    ensures
        with_flag(with_flag(flags, CF, on), OF, on) & !0x801 == flags & !0x801,
{
    assert(((flags | 1) | 0x800) & !0x801 == flags & !0x801 && ((flags & !1) & !0x800) & !0x801 == flags & !0x801)
        by (bit_vector);
}

} // verus!
