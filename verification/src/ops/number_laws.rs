//! Floating-point moves, conversions and requests for arithmetic, told by mnemonics and by
//! the numbers that bit patterns stand for.

use vstd::arithmetic::power2::{lemma2_to64, pow2};
use vstd::prelude::*;

use crate::cpu::step::{dispatch_spec, route_of, Route};
use crate::cpu::{CpuError, FpuState, Machine};
use crate::decode::{mnemonic, op_kind, Instruction};
use crate::ops::effect::{done, Effect, FloatOperation, FloatTarget, FloatWork};
use crate::ops::float::{is_finite, one_size, rounding_stays_close};
use crate::ops::float_laws::{low_bits_of, number, second_number};
use crate::ops::sse::{combined, logic_of, sse_op_spec};
use crate::ops::sse_convert::{converted, float_to_integer_spec};
use crate::ops::x87::{source_index, target_index, unary, x87_op_spec};
use crate::ops::xmm::is_xmm_spec;

verus! {

/// What a scalar mnemonic asks for, in doubles or in singles.
pub open spec fn scalar_operation(code: u16, double: bool) -> Option<FloatOperation> {
    if code == if double { mnemonic::ADDSD } else { mnemonic::ADDSS } {
        Some(FloatOperation::Add)
    } else if code == if double { mnemonic::SUBSD } else { mnemonic::SUBSS } {
        Some(FloatOperation::Subtract)
    } else if code == if double { mnemonic::MULSD } else { mnemonic::MULSS } {
        Some(FloatOperation::Multiply)
    } else if code == if double { mnemonic::DIVSD } else { mnemonic::DIVSS } {
        Some(FloatOperation::Divide)
    } else if code == if double { mnemonic::SQRTSD } else { mnemonic::SQRTSS } {
        Some(FloatOperation::SquareRoot)
    } else {
        None
    }
}

/// What a packed mnemonic asks for, in doubles or in singles.
pub open spec fn packed_operation(code: u16, double: bool) -> Option<FloatOperation> {
    if code == if double { mnemonic::ADDPD } else { mnemonic::ADDPS } {
        Some(FloatOperation::Add)
    } else if code == if double { mnemonic::SUBPD } else { mnemonic::SUBPS } {
        Some(FloatOperation::Subtract)
    } else if code == if double { mnemonic::MULPD } else { mnemonic::MULPS } {
        Some(FloatOperation::Multiply)
    } else if code == if double { mnemonic::DIVPD } else { mnemonic::DIVPS } {
        Some(FloatOperation::Divide)
    } else {
        None
    }
}

proof fn lemma_arithmetic_code(code: u16, double: bool, scalar: bool, operation: FloatOperation)
    requires
        (if scalar { scalar_operation(code, double) } else { packed_operation(code, double) }) == Some(operation),
    ensures
        route_of(code) == Route::Vector,
        crate::ops::sse::comparison_of(code) is None,
        forall|control: u8| crate::ops::sse_numeric::pick_of(code, control) is None,
        crate::ops::sse_numeric::arithmetic_of(code) == Some((operation, double, scalar)),
{
}

proof fn lemma_arithmetic(
    machine: Machine,
    instruction: Instruction,
    double: bool,
    scalar: bool,
    operation: FloatOperation,
)
    requires
        (if scalar {
            scalar_operation(instruction.mnemonic, double)
        } else {
            packed_operation(instruction.mnemonic, double)
        }) == Some(operation),
    ensures
        dispatch_spec(machine, instruction) == crate::ops::sse_numeric::arithmetic_spec(
            machine,
            instruction,
            operation,
            double,
            scalar,
        ),
{
    lemma_arithmetic_code(instruction.mnemonic, double, scalar, operation);
    reveal(dispatch_spec);
    let control = crate::ops::sse_integer::control_byte(instruction);
    assert(crate::ops::sse_numeric::pick_of(instruction.mnemonic, control) is None);
}

/// Scalar arithmetic asks for its operation on the low lane of the target and the second
/// operand, in this order; the result goes to the low lane and nothing else changes.
pub proof fn scalar_arithmetic_takes_the_low_lanes(
    machine: Machine,
    instruction: Instruction,
    double: bool,
    operation: FloatOperation,
    right: u64,
    value: u64,
)
    requires
        machine.regs.xmm.len() == 16,
        is_xmm_spec(instruction.op0_register),
        scalar_operation(instruction.mnemonic, double) == Some(operation),
        second_number(machine, instruction, double) == Ok::<u64, CpuError>(right),
        double || value < 0x1_0000_0000,
    ensures
        ({
            let target = instruction.op0_register;
            let before = machine.xmm(target);
            let work = FloatWork {
                operation,
                double,
                count: 1,
                left: low_bits_of(before, double) as u128,
                right: right as u128,
                target: FloatTarget::Scalar { register: target },
            };
            let after = machine.finish_float(work, value as u128, false);
            let span = if double { 0x1_0000_0000_0000_0000int } else { 0x1_0000_0000int };
            &&& dispatch_spec(machine, instruction) == (machine, Ok::<Effect, CpuError>(Effect::Float(work)))
            &&& after == machine.write_xmm(target, after.xmm(target))
            &&& after.xmm(target) as int % span == value
            &&& after.xmm(target) as int / span == before as int / span
        }),
{
    lemma_arithmetic(machine, instruction, double, true, operation);
    crate::ops::float_laws::lemma_second(machine, instruction, double);
    let target = instruction.op0_register;
    let before = machine.xmm(target);
    assert(crate::ops::sse_numeric::low_lane(before, double) == low_bits_of(before, double));
    crate::ops::float_laws::lemma_low_replaced(before, value, double);
}

/// Packed arithmetic asks for its operation on all lanes of the target and the second
/// operand, in this order, and the result is the whole register.
pub proof fn packed_arithmetic_takes_all_lanes(
    machine: Machine,
    instruction: Instruction,
    double: bool,
    operation: FloatOperation,
    right: u128,
    value: u128,
)
    requires
        packed_operation(instruction.mnemonic, double) == Some(operation),
        machine.vector_source(instruction) == Ok::<u128, CpuError>(right),
    ensures
        ({
            let target = instruction.op0_register;
            let work = FloatWork {
                operation,
                double,
                count: if double { 2u8 } else { 4u8 },
                left: machine.xmm(target),
                right,
                target: FloatTarget::Vector { register: target },
            };
            &&& dispatch_spec(machine, instruction) == (machine, Ok::<Effect, CpuError>(Effect::Float(work)))
            &&& machine.finish_float(work, value, false) == machine.write_xmm(target, value)
        }),
{
    lemma_arithmetic(machine, instruction, double, false, operation);
}

/// What arithmetic on the floating-point stack asks for, whether the operands are turned
/// around, and whether the top is dropped.
pub open spec fn stack_operation(code: u16) -> Option<(FloatOperation, bool, bool)> {
    if code == mnemonic::FADD || code == mnemonic::FADDP {
        Some((FloatOperation::Add, false, code == mnemonic::FADDP))
    } else if code == mnemonic::FSUB || code == mnemonic::FSUBP {
        Some((FloatOperation::Subtract, false, code == mnemonic::FSUBP))
    } else if code == mnemonic::FSUBR || code == mnemonic::FSUBRP {
        Some((FloatOperation::Subtract, true, code == mnemonic::FSUBRP))
    } else if code == mnemonic::FMUL || code == mnemonic::FMULP {
        Some((FloatOperation::Multiply, false, code == mnemonic::FMULP))
    } else if code == mnemonic::FDIV || code == mnemonic::FDIVP {
        Some((FloatOperation::Divide, false, code == mnemonic::FDIVP))
    } else if code == mnemonic::FDIVR || code == mnemonic::FDIVRP {
        Some((FloatOperation::Divide, true, code == mnemonic::FDIVRP))
    } else {
        None
    }
}

proof fn lemma_stack_code(code: u16, operation: FloatOperation, reversed: bool, pop: bool)
    requires
        stack_operation(code) == Some((operation, reversed, pop)),
    ensures
        route_of(code) == Route::Float,
        crate::ops::x87::arithmetic_of(code) == Some(
            (crate::ops::x87::StackArithmetic { operation, reversed, integer: false, pop }),
        ),
{
}

/// Arithmetic of two stack registers: the first operand's register is the left operand and
/// takes the result; the reversed forms exchange the operands, the popping ones drop the
/// top.
pub proof fn stack_arithmetic_takes_its_registers(
    machine: Machine,
    instruction: Instruction,
    operation: FloatOperation,
    reversed: bool,
    pop: bool,
    value: u64,
)
    requires
        machine.fpu.stack.len() == 8,
        machine.fpu.top < 8,
        stack_operation(instruction.mnemonic) == Some((operation, reversed, pop)),
        instruction.op0_kind != op_kind::MEMORY,
    ensures
        ({
            let place = (machine.fpu.top + target_index(instruction)) % 8;
            let target = machine.fpu.stack[place];
            let source = machine.fpu.stack[(machine.fpu.top + source_index(instruction)) % 8];
            let work = FloatWork {
                operation,
                double: true,
                count: 1,
                left: (if reversed { source } else { target }) as u128,
                right: (if reversed { target } else { source }) as u128,
                target: FloatTarget::Stack { slot: place as u8, pop },
            };
            let after = machine.finish_float(work, value as u128, false);
            &&& dispatch_spec(machine, instruction) == (machine, Ok::<Effect, CpuError>(Effect::Float(work)))
            &&& after == machine.set_fpu(after.fpu)
            &&& after.fpu.stack == machine.fpu.stack.update(place, value)
            &&& after.fpu.top == (machine.fpu.top + if pop { 1int } else { 0 }) % 8
        }),
{
    lemma_stack_code(instruction.mnemonic, operation, reversed, pop);
    reveal(dispatch_spec);
    assert(x87_op_spec(machine, instruction) == crate::ops::x87::arithmetic_spec(
        machine,
        instruction,
        crate::ops::x87::StackArithmetic { operation, reversed, integer: false, pop },
    ));
}

proof fn lemma_unary_code(code: u16)
    requires
        code == mnemonic::FCHS || code == mnemonic::FABS || code == mnemonic::FXCH || code == mnemonic::FINCSTP || code
            == mnemonic::FDECSTP || code == mnemonic::FINIT || code == mnemonic::FNINIT,
    ensures
        route_of(code) == Route::Float,
        crate::ops::x87::arithmetic_of(code) is None,
        crate::ops::x87::constant_of(code) is None,
        crate::ops::x87::store_of(code) is None,
        crate::ops::x87::comparison_of(code) is None,
{
}

proof fn lemma_unary(machine: Machine, instruction: Instruction)
    requires
        instruction.mnemonic == mnemonic::FCHS || instruction.mnemonic == mnemonic::FABS || instruction.mnemonic
            == mnemonic::FXCH || instruction.mnemonic == mnemonic::FINCSTP || instruction.mnemonic == mnemonic::FDECSTP
            || instruction.mnemonic == mnemonic::FINIT || instruction.mnemonic == mnemonic::FNINIT,
    ensures
        dispatch_spec(machine, instruction) == (
            machine.set_fpu(unary(instruction.mnemonic, machine.fpu, source_index(instruction))->0),
            Ok::<Effect, CpuError>(Effect::Done),
        ),
{
    lemma_unary_code(instruction.mnemonic);
    lemma_on_the_stack(machine, instruction);
}

proof fn lemma_on_the_stack(machine: Machine, instruction: Instruction)
    requires
        route_of(instruction.mnemonic) == Route::Float,
        crate::ops::x87::arithmetic_of(instruction.mnemonic) is None,
        crate::ops::x87::constant_of(instruction.mnemonic) is None,
        crate::ops::x87::store_of(instruction.mnemonic) is None,
        crate::ops::x87::comparison_of(instruction.mnemonic) is None,
        instruction.mnemonic != mnemonic::FSQRT,
        instruction.mnemonic != mnemonic::FLD,
        instruction.mnemonic != mnemonic::FILD,
        unary(instruction.mnemonic, machine.fpu, source_index(instruction)) is Some,
    ensures
        dispatch_spec(machine, instruction) == (
            machine.set_fpu(unary(instruction.mnemonic, machine.fpu, source_index(instruction))->0),
            Ok::<Effect, CpuError>(Effect::Done),
        ),
{
    assert(x87_op_spec(machine, instruction) == (
        machine.set_fpu(unary(instruction.mnemonic, machine.fpu, source_index(instruction))->0),
        Ok::<Effect, CpuError>(Effect::Done),
    ));
    assert(dispatch_spec(machine, instruction) == x87_op_spec(machine, instruction)) by {
        reveal(dispatch_spec);
    }
}

proof fn lemma_unary_result(fpu: FpuState, code: u16, index: int)
    requires
        fpu.stack.len() == 8,
        fpu.top < 8,
        0 <= index < 8,
    ensures
        ({
            let after = unary(code, fpu, index)->0;
            let top = fpu.top as int;
            let other = (top + index) % 8;
            &&& code == mnemonic::FCHS ==> after == FpuState {
                stack: fpu.stack.update(top, after.stack[top]),
                ..fpu
            } && number(after.stack[top], true) == -number(fpu.stack[top], true) && after.stack[top] != fpu.stack[top]
            &&& code == mnemonic::FABS ==> after == FpuState {
                stack: fpu.stack.update(top, after.stack[top]),
                ..fpu
            } && after.stack[top] < 0x8000_0000_0000_0000 && (after.stack[top] == fpu.stack[top] || after.stack[top]
                + 0x8000_0000_0000_0000 == fpu.stack[top])
            &&& code == mnemonic::FXCH ==> after.stack == fpu.stack.update(top, fpu.stack[other]).update(
                other,
                fpu.stack[top],
            ) && after.top == fpu.top
            &&& code == mnemonic::FINCSTP ==> after.stack == fpu.stack && after.top == (top + 1) % 8
            &&& code == mnemonic::FDECSTP ==> after.stack == fpu.stack && after.top == (top + 7) % 8
            &&& code == mnemonic::FINIT || code == mnemonic::FNINIT ==> after.control == 0x037F && after.status == 0
                && after.top == 0
        }),
{
    lemma_changed_sign(fpu.stack[fpu.top as int]);
}

/// FCHS changes the sign of the top and FABS takes its size; FXCH exchanges the top with
/// another register; FINCSTP and FDECSTP move the top alone; FINIT starts the unit over,
/// rounding to nearest with every exception masked.
pub proof fn stack_instructions_work_on_the_top(machine: Machine, instruction: Instruction)
    requires
        machine.fpu.stack.len() == 8,
        machine.fpu.top < 8,
    ensures
        ({
            let code = instruction.mnemonic;
            let (after, result) = dispatch_spec(machine, instruction);
            let top = machine.fpu.top as int;
            let other = (top + source_index(instruction)) % 8;
            let before = machine.fpu.stack;
            &&& code == mnemonic::FCHS || code == mnemonic::FABS || code == mnemonic::FXCH || code == mnemonic::FINCSTP
                || code == mnemonic::FDECSTP || code == mnemonic::FINIT || code == mnemonic::FNINIT ==> {
                &&& result == Ok::<Effect, CpuError>(Effect::Done)
                &&& after == machine.set_fpu(after.fpu)
            }
            &&& code == mnemonic::FCHS ==> after.fpu == FpuState {
                stack: before.update(top, after.fpu.stack[top]),
                ..machine.fpu
            } && number(after.fpu.stack[top], true) == -number(before[top], true) && after.fpu.stack[top] != before[top]
            &&& code == mnemonic::FABS ==> after.fpu == FpuState {
                stack: before.update(top, after.fpu.stack[top]),
                ..machine.fpu
            } && after.fpu.stack[top] < 0x8000_0000_0000_0000 && (after.fpu.stack[top] == before[top]
                || after.fpu.stack[top] + 0x8000_0000_0000_0000 == before[top])
            &&& code == mnemonic::FXCH ==> after.fpu.stack == before.update(top, before[other]).update(other, before[top])
                && after.fpu.top == machine.fpu.top
            &&& code == mnemonic::FINCSTP ==> after.fpu.stack == before && after.fpu.top == (top + 1) % 8
            &&& code == mnemonic::FDECSTP ==> after.fpu.stack == before && after.fpu.top == (top + 7) % 8
            &&& code == mnemonic::FINIT || code == mnemonic::FNINIT ==> after.fpu.control == 0x037F && after.fpu.status
                == 0 && after.fpu.top == 0
        }),
{
    let code = instruction.mnemonic;
    if code == mnemonic::FCHS || code == mnemonic::FABS || code == mnemonic::FXCH || code == mnemonic::FINCSTP || code
        == mnemonic::FDECSTP || code == mnemonic::FINIT || code == mnemonic::FNINIT {
        lemma_unary(machine, instruction);
        lemma_unary_result(machine.fpu, code, source_index(instruction));
    }
}

proof fn lemma_changed_sign(bits: u64)
    ensures
        ({
            let changed = if bits >= 0x8000_0000_0000_0000 {
                (bits - 0x8000_0000_0000_0000) as u64
            } else {
                (bits + 0x8000_0000_0000_0000) as u64
            };
            number(changed, true) == -number(bits, true)
        }),
{
    let changed = if bits >= 0x8000_0000_0000_0000 {
        (bits - 0x8000_0000_0000_0000) as u64
    } else {
        (bits + 0x8000_0000_0000_0000) as u64
    };
    let a = bits as int;
    let b = changed as int;
    assert(b % 0x10_0000_0000_0000 == a % 0x10_0000_0000_0000);
    assert((b / 0x10_0000_0000_0000) % 2048 == (a / 0x10_0000_0000_0000) % 2048);
    assert((b / 0x8000_0000_0000_0000 == 1) != (a / 0x8000_0000_0000_0000 == 1));
}

proof fn lemma_conversion_code(code: u16)
    requires
        code == mnemonic::CVTTSD2SI || code == mnemonic::CVTTSS2SI,
    ensures
        route_of(code) == Route::Vector,
        crate::ops::sse::comparison_of(code) is None,
        forall|control: u8| crate::ops::sse_numeric::pick_of(code, control) is None,
        crate::ops::sse_numeric::arithmetic_of(code) is None,
        crate::ops::sse_convert::is_conversion(code),
{
}

proof fn lemma_masked(mxcsr: u32, exception: u32)
    requires
        mxcsr & 0x1F80 == 0x1F80,
        exception == 0 || exception == 1 || exception == 0x20,
    ensures
        !crate::ops::sse_integer::unmasked(mxcsr | exception, exception),
{
    assert(exception & !((mxcsr | exception) >> 7) == 0) by (bit_vector)
        requires
            mxcsr & 0x1F80 == 0x1F80,
            exception == 0 || exception == 1 || exception == 0x20,
    ;
}

/// One, in units of the smallest number of a format.
pub open spec fn one(double: bool) -> int {
    if double {
        pow2(1074) as int
    } else {
        pow2(149) as int
    }
}

/// CVTTSD2SI and CVTTSS2SI cut a number down to the integer next to it towards zero, and
/// give the lowest integer for what has none of that width: for no number, for an infinity,
/// and past the bounds. This is with every exception masked and nothing flushed.
pub proof fn truncation_goes_towards_zero(
    machine: Machine,
    instruction: Instruction,
    double: bool,
    bits: u64,
    integer: int,
)
    requires
        instruction.mnemonic == if double { mnemonic::CVTTSD2SI } else { mnemonic::CVTTSS2SI },
        machine.mxcsr & 0x1F80 == 0x1F80,
        (machine.mxcsr / 0x40) % 2 == 0,
        second_number(machine, instruction, double) == Ok::<u64, CpuError>(bits),
        is_finite(bits, double) ==> (if number(bits, double) < 0 {
            one(double) * (integer - 1) < number(bits, double) <= one(double) * integer
        } else {
            one(double) * integer <= number(bits, double) < one(double) * (integer + 1)
        }),
    ensures
        ({
            let (after, result) = dispatch_spec(machine, instruction);
            let size = crate::ops::operand_size_spec(instruction, 0);
            let limit = if size == 8 { 0x8000_0000_0000_0000int } else { 0x8000_0000 };
            let value = if !is_finite(bits, double) || integer < -limit || integer >= limit {
                limit as u64
            } else {
                (integer % 0x1_0000_0000_0000_0000) as u64
            };
            &&& result == Ok::<Effect, CpuError>(Effect::Done)
            &&& after == (Machine { mxcsr: after.mxcsr, ..machine }).reg_write(instruction.op0_register, size, value)
        }),
{
    let code = instruction.mnemonic;
    lemma_conversion_code(code);
    reveal(dispatch_spec);
    let control = crate::ops::sse_integer::control_byte(instruction);
    assert(crate::ops::sse_numeric::pick_of(code, control) is None);
    assert(sse_op_spec(machine, instruction) == done(float_to_integer_spec(machine, instruction, 3)));
    crate::ops::float_laws::lemma_second(machine, instruction, double);
    let size = crate::ops::operand_size_spec(instruction, 0);
    if is_finite(bits, double) {
        crate::ops::float_laws::lemma_number(bits, double);
        rounding_stays_close(bits, double, 3);
        lemma_one(double);
        lemma_next_integer(
            one(double),
            number(bits, double),
            integer,
            crate::ops::float::integer_value(bits, double, 3),
        );
    }
    lemma2_to64();
    let (value, exception) = converted(bits, double, 3, size == 8, false);
    lemma_masked(machine.mxcsr, exception);
}

proof fn lemma_one(double: bool)
    ensures
        one(double) == one_size(double),
        one(double) > 0,
{
    vstd::arithmetic::power2::lemma_pow2_pos(if double { 1074 } else { 149 });
}

proof fn lemma_next_integer(one: int, exact: int, integer: int, found: int)
    requires
        one > 0,
        if exact < 0 {
            one * (integer - 1) < exact <= one * integer
        } else {
            one * integer <= exact < one * (integer + 1)
        },
        -one < one * found - exact < one,
        if exact < 0 {
            exact <= one * found <= 0
        } else {
            0 <= one * found <= exact
        },
    ensures
        found == integer,
{
    assert(found == integer) by (nonlinear_arith)
        requires
            one > 0,
            if exact < 0 {
                one * (integer - 1) < exact <= one * integer
            } else {
                one * integer <= exact < one * (integer + 1)
            },
            -one < one * found - exact < one,
            if exact < 0 {
                exact <= one * found <= 0
            } else {
                0 <= one * found <= exact
            },
    ;
}

proof fn lemma_logic_code(code: u16)
    requires
        logic_of(code) is Some,
    ensures
        route_of(code) == Route::Vector,
        crate::ops::packed_laws::is_plain(code),
        !crate::ops::sse::reads_register(code),
        combined(code, 0, 0, 0) is Some,
{
}

/// The vector instructions that work bit by bit.
pub proof fn vector_logic_goes_bit_by_bit(machine: Machine, instruction: Instruction, right: u128)
    requires
        machine.vector_source(instruction) == Ok::<u128, CpuError>(right),
    ensures
        ({
            let code = instruction.mnemonic;
            let target = instruction.op0_register;
            let left = machine.xmm(target);
            let after = dispatch_spec(machine, instruction);
            &&& code == mnemonic::PAND || code == mnemonic::ANDPS || code == mnemonic::ANDPD ==> after == (
                machine.write_xmm(target, left & right),
                Ok::<Effect, CpuError>(Effect::Done),
            )
            &&& code == mnemonic::POR || code == mnemonic::ORPS || code == mnemonic::ORPD ==> after == (
                machine.write_xmm(target, left | right),
                Ok::<Effect, CpuError>(Effect::Done),
            )
            &&& code == mnemonic::PXOR || code == mnemonic::XORPS || code == mnemonic::XORPD ==> after == (
                machine.write_xmm(target, left ^ right),
                Ok::<Effect, CpuError>(Effect::Done),
            )
            &&& code == mnemonic::PANDN || code == mnemonic::ANDNPS || code == mnemonic::ANDNPD ==> after == (
                machine.write_xmm(target, !left & right),
                Ok::<Effect, CpuError>(Effect::Done),
            )
        }),
{
    if logic_of(instruction.mnemonic) is Some {
        lemma_logic_code(instruction.mnemonic);
        crate::ops::packed_laws::lemma_combining(machine, instruction);
    }
}

proof fn lemma_move_code(code: u16)
    requires
        code == mnemonic::MOVAPS || code == mnemonic::MOVUPS || code == mnemonic::MOVDQA || code == mnemonic::MOVDQU
            || code == mnemonic::MOVAPD || code == mnemonic::MOVUPD,
    ensures
        route_of(code) == Route::Vector,
        crate::ops::sse::comparison_of(code) is None,
        forall|control: u8| crate::ops::sse_numeric::pick_of(code, control) is None,
        crate::ops::sse_numeric::arithmetic_of(code) is None,
        !crate::ops::sse_convert::is_conversion(code),
        crate::ops::sse::move_of(code) == Some(crate::ops::sse::Move::Whole),
{
}

/// Whole vector moves: a register takes the sixteen bytes of another one or of memory, and
/// memory takes those of a register.
pub proof fn whole_vectors_are_moved(machine: Machine, instruction: Instruction)
    requires
        instruction.mnemonic == mnemonic::MOVAPS || instruction.mnemonic == mnemonic::MOVUPS || instruction.mnemonic
            == mnemonic::MOVDQA || instruction.mnemonic == mnemonic::MOVDQU || instruction.mnemonic == mnemonic::MOVAPD
            || instruction.mnemonic == mnemonic::MOVUPD,
    ensures
        ({
            let after = dispatch_spec(machine, instruction);
            let target = instruction.op0_register;
            let linear = machine.effective_address(instruction);
            &&& instruction.op0_kind == op_kind::REGISTER && instruction.op1_kind == op_kind::REGISTER ==> after == (
                machine.write_xmm(target, machine.xmm(instruction.op1_register)),
                Ok::<Effect, CpuError>(Effect::Done),
            )
            &&& instruction.op0_kind == op_kind::REGISTER && instruction.op1_kind == op_kind::MEMORY ==> match machine.linear_load(
                linear,
                16,
                machine.regs.cpl() == 3,
            ) {
                Err(error) => after == (machine, Err::<Effect, CpuError>(error)),
                Ok(value) => after == (machine.write_xmm(target, value), Ok::<Effect, CpuError>(Effect::Done)),
            }
            &&& instruction.op0_kind == op_kind::MEMORY && instruction.op1_kind == op_kind::REGISTER ==> after == done(
                machine.write_linear(linear, 16, machine.xmm(instruction.op1_register)),
            )
        }),
{
    let code = instruction.mnemonic;
    lemma_move_code(code);
    reveal(dispatch_spec);
    let control = crate::ops::sse_integer::control_byte(instruction);
    assert(crate::ops::sse_numeric::pick_of(code, control) is None);
    assert(sse_op_spec(machine, instruction) == done(
        crate::ops::sse::move_spec(machine, instruction, crate::ops::sse::Move::Whole),
    ));
}

} // verus!
