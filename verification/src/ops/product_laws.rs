//! Products and quotients, told by what the registers hold before and after.

use vstd::arithmetic::div_mod::{lemma_fundamental_div_mod, lemma_fundamental_div_mod_converse, lemma_mod_bound, lemma_small_mod};
use vstd::arithmetic::power2::{lemma2_to64, lemma_pow2_adds, lemma_pow2_pos, pow2};
use vstd::prelude::*;

use crate::arch::registers::{holds, with_flag, RegisterState, CF, OF};
use crate::cpu::step::{dispatch_spec, route_of, Route};
use crate::cpu::{CpuError, Machine};
use crate::decode::{mnemonic, op_kind, register, Instruction};
use crate::ops::arithmetic::{
    accumulator_spec, data_register_spec, dividend, divided, mul_div_spec, place_product, product, product_overflows,
    truncated_quotient, truncated_remainder,
};
use crate::ops::effect::{done, Effect};
use crate::ops::integer_laws::{is_too_wide, signed, unsigned};
use crate::ops::{operand_size_spec, reg_read, status_flags_are_apart, width_bits};

verus! {

pub open spec fn is_operand_size(size: u8) -> bool {
    size == 1 || size == 2 || size == 4 || size == 8
}

/// The number that a product is left in and a dividend is taken from: AX for bytes, else
/// the data register above the accumulator.
pub open spec fn pair(regs: RegisterState, size: u8) -> int {
    let rax = regs.gpr[0] as int;
    let rdx = regs.gpr[2] as int;
    if size == 1 {
        rax % 0x1_0000
    } else if size == 2 {
        (rdx % 0x1_0000) * 0x1_0000 + rax % 0x1_0000
    } else if size == 4 {
        (rdx % 0x1_0000_0000) * 0x1_0000_0000 + rax % 0x1_0000_0000
    } else {
        rdx * 0x1_0000_0000_0000_0000 + rax
    }
}

proof fn lemma_routed(machine: Machine, instruction: Instruction)
    requires
        instruction.mnemonic == mnemonic::MUL || instruction.mnemonic == mnemonic::IMUL || instruction.mnemonic
            == mnemonic::DIV || instruction.mnemonic == mnemonic::IDIV,
    ensures
        dispatch_spec(machine, instruction) == done(mul_div_spec(machine, instruction)),
{
    assert(route_of(instruction.mnemonic) == Route::MultiplyDivide);
    reveal(dispatch_spec);
}

/// The spans of the sizes.
proof fn lemma_spans(size: u8)
    requires
        is_operand_size(size),
    ensures
        width_bits(size) == 8 * size,
        pow2(8) == 0x100,
        pow2(16) == 0x1_0000,
        pow2(32) == 0x1_0000_0000,
        pow2(64) == 0x1_0000_0000_0000_0000,
        pow2((8 * size) as nat) > 0,
        pow2((16 * size) as nat) == pow2((8 * size) as nat) * pow2((8 * size) as nat),
{
    lemma2_to64();
    lemma_pow2_pos((8 * size) as nat);
    lemma_pow2_adds((8 * size) as nat, (8 * size) as nat);
}

/// What a first operand reads as fits its size.
proof fn lemma_operand_fits(machine: Machine, instruction: Instruction)
    requires
        is_operand_size(operand_size_spec(instruction, 0)),
    ensures
        machine.read_operand0(instruction) matches Ok(value) ==> value < pow2(
            (8 * operand_size_spec(instruction, 0)) as nat,
        ),
{
    let size = operand_size_spec(instruction, 0);
    lemma_spans(size);
    if instruction.op0_kind == op_kind::MEMORY {
        let linear = machine.effective_address(instruction);
        let user = machine.regs.cpl() == 3;
        crate::cpu::linear::lemma_bytes_read(machine, linear, size as nat, user);
        if let Ok(bytes) = machine.linear_bytes(linear, size as nat, user) {
            crate::arith::lemma_le_value_bound(bytes);
        }
    } else {
        lemma_register_fits(machine.regs, instruction.op0_register, size);
    }
}

proof fn lemma_register_fits(regs: RegisterState, number: u8, size: u8)
    requires
        is_operand_size(size),
    ensures
        reg_read(regs, number, size) < pow2((8 * size) as nat),
{
    lemma_spans(size);
    if size == 1 {
        assert((8 * size) as nat == 8nat);
    } else if size == 2 {
        assert((8 * size) as nat == 16nat);
    } else if size == 4 {
        assert((8 * size) as nat == 32nat);
    } else {
        assert((8 * size) as nat == 64nat);
    }
}

proof fn lemma_accumulator_read(regs: RegisterState, size: u8)
    requires
        is_operand_size(size),
    ensures
        reg_read(regs, accumulator_spec(size), size) == unsigned(regs.gpr[0] as int, (8 * size) as nat),
{
    lemma_spans(size);
    if size == 1 {
        assert((8 * size) as nat == 8nat);
    } else if size == 2 {
        assert((8 * size) as nat == 16nat);
    } else if size == 4 {
        assert((8 * size) as nat == 32nat);
    } else {
        assert((8 * size) as nat == 64nat);
        lemma_small_mod(regs.gpr[0] as nat, pow2(64));
    }
}

/// Two register writes leave the pair that they make.
proof fn lemma_written_pair(machine: Machine, size: u8, low: u64, high: u64)
    requires
        machine.regs.gpr.len() == 16,
        size == 2 || size == 4 || size == 8,
    ensures
        ({
            let after = machine.reg_write(accumulator_spec(size), size, low).reg_write(
                data_register_spec(size),
                size,
                high,
            );
            let rax = after.regs.gpr[0] as int;
            let rdx = after.regs.gpr[2] as int;
            &&& size == 2 ==> rax % 0x1_0000 == low as int % 0x1_0000 && rdx % 0x1_0000 == high as int % 0x1_0000
            &&& size == 4 ==> rax == low as int % 0x1_0000_0000 && rdx == high as int % 0x1_0000_0000
            &&& size == 8 ==> rax == low && rdx == high
            &&& after.regs.rflags == machine.regs.rflags
            &&& after.memory == machine.memory
        }),
{
}

proof fn lemma_placed(machine: Machine, size: u8, number: int, with_sign: bool)
    requires
        machine.regs.gpr.len() == 16,
        is_operand_size(size),
    ensures
        ({
            let after = place_product(machine, size, number, with_sign);
            let over = product_overflows(number, width_bits(size), with_sign);
            &&& pair(after.regs, size) == unsigned(number, (16 * size) as nat)
            &&& after.regs.rflags == with_flag(with_flag(machine.regs.rflags, CF, over), OF, over)
            &&& after.memory == machine.memory
        }),
{
    let n = (8 * size) as nat;
    let wide = (16 * size) as nat;
    lemma_spans(size);
    let full = unsigned(number, wide);
    let span = pow2(n) as int;
    let over = product_overflows(number, width_bits(size), with_sign);
    let flagged = machine.set_flags(with_flag(with_flag(machine.regs.rflags, CF, over), OF, over));
    lemma_pow2_pos(wide);
    lemma_mod_bound(number, pow2(wide) as int);
    lemma_fundamental_div_mod(full, span);
    lemma_mod_bound(full, span);
    let low = full % span;
    let high = full / span;
    assert(0 <= high < span) by (nonlinear_arith)
        requires
            full == span * high + low,
            0 <= low < span,
            0 <= full < span * span,
            span > 0,
    ;
    if size == 1 {
        assert(wide == 16nat);
        assert(full < 0x1_0000);
        lemma_written_ax(flagged, full as u64);
    } else {
        if size == 2 {
            assert(n == 16nat);
        } else if size == 4 {
            assert(n == 32nat);
        } else {
            assert(n == 64nat);
        }
        lemma_written_pair(flagged, size, low as u64, high as u64);
        let after = place_product(machine, size, number, with_sign);
        assert(after == flagged.reg_write(accumulator_spec(size), size, low as u64).reg_write(
            data_register_spec(size),
            size,
            high as u64,
        ));
        assert(pair(after.regs, size) == high * span + low);
        assert(high * span == span * high) by (nonlinear_arith);
    }
}

proof fn lemma_written_ax(machine: Machine, value: u64)
    requires
        machine.regs.gpr.len() == 16,
        value < 0x1_0000,
    ensures
        ({
            let after = machine.reg_write(register::AX, 2, value);
            &&& after.regs.gpr[0] as int % 0x1_0000 == value
            &&& after.regs.rflags == machine.regs.rflags
            &&& after.memory == machine.memory
        }),
{
}

/// MUL and IMUL with one operand leave the whole product of the accumulator and the operand
/// in the pair, without sign or with it; carry and overflow both tell that it does not fit
/// the accumulator alone.
pub proof fn wide_products_are_exact(machine: Machine, instruction: Instruction, operand: u64)
    requires
        machine.regs.gpr.len() == 16,
        instruction.mnemonic == mnemonic::MUL || instruction.mnemonic == mnemonic::IMUL && instruction.op_count == 1,
        is_operand_size(operand_size_spec(instruction, 0)),
        machine.read_operand0(instruction) == Ok::<u64, CpuError>(operand),
    ensures
        ({
            let size = operand_size_spec(instruction, 0);
            let n = (8 * size) as nat;
            let (after, result) = dispatch_spec(machine, instruction);
            let a = machine.regs.gpr[0] as int;
            let exact = if instruction.mnemonic == mnemonic::MUL {
                unsigned(a, n) * operand
            } else {
                signed(a, n) * signed(operand as int, n)
            };
            let over = if instruction.mnemonic == mnemonic::MUL { exact >= pow2(n) } else { is_too_wide(exact, n) };
            &&& result == Ok::<Effect, CpuError>(Effect::Done)
            &&& pair(after.regs, size) == exact % (pow2((16 * size) as nat) as int)
            &&& instruction.mnemonic == mnemonic::MUL ==> pair(after.regs, size) == exact
            &&& holds(after.regs.rflags, 0x1) == over
            &&& holds(after.regs.rflags, 0x800) == over
            &&& after.memory == machine.memory
        }),
{
    let size = operand_size_spec(instruction, 0);
    let n = (8 * size) as nat;
    let with_sign = instruction.mnemonic == mnemonic::IMUL;
    lemma_routed(machine, instruction);
    lemma_spans(size);
    lemma_operand_fits(machine, instruction);
    lemma_accumulator_read(machine.regs, size);
    lemma_register_fits(machine.regs, accumulator_spec(size), size);
    let factor = reg_read(machine.regs, accumulator_spec(size), size);
    let number = product(factor, operand, width_bits(size), with_sign);
    let a = machine.regs.gpr[0] as int;
    lemma_small_mod(factor as nat, pow2(n));
    assert(signed(factor as int, n) == signed(a, n));
    lemma_placed(machine, size, number, with_sign);
    let over = product_overflows(number, width_bits(size), with_sign);
    status_flags_are_apart(machine.regs.rflags, CF, over);
    status_flags_are_apart(with_flag(machine.regs.rflags, CF, over), OF, over);
    if !with_sign {
        let span = pow2(n) as int;
        assert(0 <= factor * operand < span * span) by (nonlinear_arith)
            requires
                0 <= factor < span,
                0 <= operand < span,
        ;
        lemma_small_mod((factor * operand) as nat, pow2((16 * size) as nat));
    }
}

proof fn lemma_dividend(machine: Machine, size: u8)
    requires
        is_operand_size(size),
    ensures
        dividend(machine, size) == pair(machine.regs, size),
        0 <= pair(machine.regs, size) < pow2((16 * size) as nat),
{
    lemma_spans(size);
    let rdx = machine.regs.gpr[2] as int;
    let rax = machine.regs.gpr[0] as int;
    if size == 2 {
        assert(width_bits(2) as nat == 16nat && (16 * size) as nat == 32nat);
    } else if size == 4 {
        assert(width_bits(4) as nat == 32nat && (16 * size) as nat == 64nat);
    } else if size == 8 {
        assert(width_bits(8) as nat == 64nat && (8 * size) as nat == 64nat);
        assert(pow2((16 * size) as nat) == 0x1_0000_0000_0000_0000int * 0x1_0000_0000_0000_0000int);
    } else {
        assert((16 * size) as nat == 16nat);
    }
}

/// The quotient and the remainder that a division leaves: AL and AH for bytes, else the
/// accumulator and the data register.
pub open spec fn quotient_in(regs: RegisterState, size: u8) -> int {
    unsigned(regs.gpr[0] as int, (8 * size) as nat)
}

pub open spec fn remainder_in(regs: RegisterState, size: u8) -> int {
    if size == 1 {
        (regs.gpr[0] as int / 0x100) % 0x100
    } else {
        unsigned(regs.gpr[2] as int, (8 * size) as nat)
    }
}

proof fn lemma_written_bytes(machine: Machine, quotient: u64, remainder: u64)
    requires
        machine.regs.gpr.len() == 16,
    ensures
        ({
            let after = machine.reg_write(register::AL, 1, quotient).reg_write(register::AH, 1, remainder);
            &&& after.regs.gpr[0] as int % 0x100 == quotient as int % 0x100
            &&& (after.regs.gpr[0] as int / 0x100) % 0x100 == remainder as int % 0x100
            &&& after.regs.rflags == machine.regs.rflags
            &&& after.memory == machine.memory
        }),
{
    let once = machine.reg_write(register::AL, 1, quotient);
    lemma2_to64();
    crate::ops::read_after_write(machine.regs, register::AL, 1, quotient);
    crate::ops::read_after_write(once.regs, register::AH, 1, remainder);
    crate::ops::high_byte_write_keeps_the_rest(once.regs.gpr[0], register::AH, 1, remainder);
}

proof fn lemma_division(machine: Machine, instruction: Instruction, divisor: u64, with_sign: bool)
    requires
        machine.regs.gpr.len() == 16,
        instruction.mnemonic == if with_sign { mnemonic::IDIV } else { mnemonic::DIV },
        is_operand_size(operand_size_spec(instruction, 0)),
        machine.read_operand0(instruction) == Ok::<u64, CpuError>(divisor),
    ensures
        ({
            let size = operand_size_spec(instruction, 0);
            let n = (8 * size) as nat;
            let (after, result) = dispatch_spec(machine, instruction);
            match divided(pair(machine.regs, size), divisor, width_bits(size), with_sign) {
                None => (after, result) == done(machine.raise(0, None)),
                Some((quotient, remainder)) => {
                    &&& result == Ok::<Effect, CpuError>(Effect::Done)
                    &&& quotient_in(after.regs, size) == unsigned(quotient as int, n)
                    &&& remainder_in(after.regs, size) == unsigned(remainder as int, n)
                    &&& after.regs.rflags == machine.regs.rflags
                    &&& after.memory == machine.memory
                },
            }
        }),
{
    let size = operand_size_spec(instruction, 0);
    lemma_routed(machine, instruction);
    lemma_spans(size);
    lemma_dividend(machine, size);
    if let Some((quotient, remainder)) = divided(pair(machine.regs, size), divisor, width_bits(size), with_sign) {
        if size == 1 {
            lemma_written_bytes(machine, quotient, remainder);
            assert((8 * size) as nat == 8nat);
        } else {
            lemma_written_pair(machine, size, quotient, remainder);
            if size == 2 {
                assert((8 * size) as nat == 16nat);
            } else if size == 4 {
                assert((8 * size) as nat == 32nat);
            } else {
                assert((8 * size) as nat == 64nat);
                lemma_small_mod(quotient as nat, pow2(64));
                lemma_small_mod(remainder as nat, pow2(64));
            }
        }
    }
}

/// DIV leaves the quotient and the remainder of the pair by the operand: divisor times
/// quotient plus remainder is the dividend again. A zero divisor, and a quotient that does
/// not fit, raise a divide error instead.
pub proof fn quotients_are_exact(machine: Machine, instruction: Instruction, divisor: u64)
    requires
        machine.regs.gpr.len() == 16,
        instruction.mnemonic == mnemonic::DIV,
        is_operand_size(operand_size_spec(instruction, 0)),
        machine.read_operand0(instruction) == Ok::<u64, CpuError>(divisor),
    ensures
        ({
            let size = operand_size_spec(instruction, 0);
            let n = (8 * size) as nat;
            let (after, result) = dispatch_spec(machine, instruction);
            let number = pair(machine.regs, size);
            let quotient = quotient_in(after.regs, size);
            let remainder = remainder_in(after.regs, size);
            if divisor == 0 || number >= divisor * pow2(n) {
                (after, result) == done(machine.raise(0, None))
            } else {
                &&& result == Ok::<Effect, CpuError>(Effect::Done)
                &&& divisor * quotient + remainder == number
                &&& 0 <= remainder < divisor
                &&& after.regs.rflags == machine.regs.rflags
                &&& after.memory == machine.memory
            }
        }),
{
    let size = operand_size_spec(instruction, 0);
    let n = (8 * size) as nat;
    lemma_spans(size);
    lemma_operand_fits(machine, instruction);
    lemma_dividend(machine, size);
    lemma_division(machine, instruction, divisor, false);
    let number = pair(machine.regs, size);
    if divisor != 0 {
        let d = divisor as int;
        let q = number / d;
        let r = number % d;
        let span = pow2(n) as int;
        lemma_fundamental_div_mod(number, d);
        lemma_mod_bound(number, d);
        assert((q >= span) == (number >= d * span)) by (nonlinear_arith)
            requires
                number == d * q + r,
                0 <= r < d,
        ;
        if q < span {
            assert(q >= 0) by (nonlinear_arith)
                requires
                    number == d * q + r,
                    0 <= r < d,
                    0 <= number,
            ;
            lemma_small_mod(q as nat, pow2(n));
            lemma_small_mod(r as nat, pow2(n));
        }
    }
}

/// IDIV rounds the quotient toward zero and leaves a remainder with the sign of the
/// dividend, both read with sign. A zero divisor, and a quotient that does not fit, raise a
/// divide error instead.
pub proof fn signed_quotients_are_exact(
    machine: Machine,
    instruction: Instruction,
    divisor: u64,
    quotient: int,
    remainder: int,
)
    requires
        machine.regs.gpr.len() == 16,
        instruction.mnemonic == mnemonic::IDIV,
        is_operand_size(operand_size_spec(instruction, 0)),
        machine.read_operand0(instruction) == Ok::<u64, CpuError>(divisor),
        ({
            let size = operand_size_spec(instruction, 0);
            let number = signed(pair(machine.regs, size), (16 * size) as nat);
            let d = signed(divisor as int, (8 * size) as nat);
            d != 0 ==> {
                &&& d * quotient + remainder == number
                &&& -d < remainder < d || d < remainder < -d
                &&& remainder == 0 || (remainder < 0) == (number < 0)
            }
        }),
    ensures
        ({
            let size = operand_size_spec(instruction, 0);
            let n = (8 * size) as nat;
            let (after, result) = dispatch_spec(machine, instruction);
            let d = signed(divisor as int, n);
            if d == 0 || is_too_wide(quotient, n) {
                (after, result) == done(machine.raise(0, None))
            } else {
                &&& result == Ok::<Effect, CpuError>(Effect::Done)
                &&& quotient_in(after.regs, size) == unsigned(quotient, n)
                &&& remainder_in(after.regs, size) == unsigned(remainder, n)
                &&& after.regs.rflags == machine.regs.rflags
                &&& after.memory == machine.memory
            }
        }),
{
    let size = operand_size_spec(instruction, 0);
    let n = (8 * size) as nat;
    lemma_spans(size);
    lemma_division(machine, instruction, divisor, true);
    lemma_dividend(machine, size);
    let number = signed(pair(machine.regs, size), (16 * size) as nat);
    let d = signed(divisor as int, n);
    assert(crate::arith::signed_of(pair(machine.regs, size), (2 * width_bits(size)) as nat) == number) by {
        assert((2 * width_bits(size)) as nat == (16 * size) as nat);
    }
    if divisor == 0 {
        lemma_small_mod(0, pow2(n));
    }
    if d != 0 {
        lemma_truncated(number, d, quotient, remainder);
        crate::arith::lemma_low_bits_of_wide(quotient, n, 64);
        crate::arith::lemma_low_bits_of_wide(remainder, n, 64);
    }
}

proof fn lemma_truncated(number: int, divisor: int, quotient: int, remainder: int)
    requires
        divisor != 0,
        divisor * quotient + remainder == number,
        -divisor < remainder < divisor || divisor < remainder < -divisor,
        remainder == 0 || (remainder < 0) == (number < 0),
    ensures
        truncated_quotient(number, divisor) == quotient,
        truncated_remainder(number, divisor) == remainder,
{
    let size = if number < 0 { -number } else { number };
    let d = if divisor < 0 { -divisor } else { divisor };
    let r = if remainder < 0 { -remainder } else { remainder };
    let q = if (number < 0) != (divisor < 0) { -quotient } else { quotient };
    assert(size == q * d + r && q >= 0) by (nonlinear_arith)
        requires
            divisor != 0,
            divisor * quotient + remainder == number,
            -divisor < remainder < divisor || divisor < remainder < -divisor,
            remainder == 0 || (remainder < 0) == (number < 0),
            size == (if number < 0 { -number } else { number }),
            d == (if divisor < 0 { -divisor } else { divisor }),
            r == (if remainder < 0 { -remainder } else { remainder }),
            q == (if (number < 0) != (divisor < 0) { -quotient } else { quotient }),
    ;
    lemma_fundamental_div_mod_converse(size, d, q, r);
}

} // verus!
