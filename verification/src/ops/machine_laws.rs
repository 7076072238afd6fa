//! What moves, stack and system instructions do to registers that can be read back.

use vstd::arithmetic::power2::{lemma2_to64, pow2};
use vstd::prelude::*;

use crate::arch::registers::{holds, CpuMode, RegisterState};
use crate::arith::{le_bytes, le_value, low_bits};
use crate::cpu::operands::register_index_spec;
use crate::cpu::stack::{moved_pointer, stack_width};
use crate::cpu::step::{dispatch_spec, route_of, Route};
use crate::cpu::{CpuError, Machine};
use crate::decode::{mnemonic, op_kind, register, Instruction};
use crate::ops::arithmetic::sign_extended;
use crate::ops::branch::conditions_tell_the_order;
use crate::ops::data::{exchange_spec, movx_spec, xadd_spec, xchg_spec};
use crate::ops::effect::{done, Effect};
use crate::ops::integer_laws::{signed, unsigned};
use crate::ops::product_laws::is_operand_size;
use crate::ops::stack::{pop_undoes_push, push_pop_spec};
use crate::ops::system::{extra_op_spec, system_op_spec};
use crate::ops::{operand_size_spec, read_after_write, reg_read, reg_write, register_size_spec};

verus! {

/// A register operand and how many bytes of it there are.
pub open spec fn is_register(number: u8) -> bool {
    1 <= number <= 68
}

proof fn lemma_routed_move(machine: Machine, instruction: Instruction)
    requires
        instruction.mnemonic == mnemonic::MOV,
        instruction.op0_kind == op_kind::REGISTER,
        instruction.op1_kind == op_kind::REGISTER,
        is_register(instruction.op0_register),
        is_register(instruction.op1_register),
        !(crate::ops::data::MOV_MOFFS8_AL <= instruction.code <= crate::ops::data::MOV_MOFFS64_RAX),
        !(crate::ops::data::MOV_AL_MOFFS8 <= instruction.code <= crate::ops::data::MOV_RAX_MOFFS64),
    ensures
        dispatch_spec(machine, instruction) == (
            machine.reg_write(
                instruction.op0_register,
                register_size_spec(instruction.op0_register),
                reg_read(machine.regs, instruction.op1_register, register_size_spec(instruction.op1_register)),
            ),
            Ok::<Effect, CpuError>(Effect::Done),
        ),
{
    assert(route_of(instruction.mnemonic) == Route::Move);
    reveal(dispatch_spec);
}

/// A move between two registers of one size: the target reads as the source did, and no
/// other register changes.
pub proof fn moves_copy_registers(machine: Machine, instruction: Instruction, other: int)
    requires
        machine.regs.gpr.len() == 16,
        instruction.mnemonic == mnemonic::MOV,
        instruction.op0_kind == op_kind::REGISTER,
        instruction.op1_kind == op_kind::REGISTER,
        is_register(instruction.op0_register),
        is_register(instruction.op1_register),
        register_size_spec(instruction.op0_register) == register_size_spec(instruction.op1_register),
        !(crate::ops::data::MOV_MOFFS8_AL <= instruction.code <= crate::ops::data::MOV_MOFFS64_RAX),
        !(crate::ops::data::MOV_AL_MOFFS8 <= instruction.code <= crate::ops::data::MOV_RAX_MOFFS64),
        0 <= other < 16,
        other != register_index_spec(instruction.op0_register),
    ensures
        ({
            let (after, result) = dispatch_spec(machine, instruction);
            let size = register_size_spec(instruction.op0_register);
            &&& result == Ok::<Effect, CpuError>(Effect::Done)
            &&& reg_read(after.regs, instruction.op0_register, size) == reg_read(
                machine.regs,
                instruction.op1_register,
                size,
            )
            &&& after.regs.gpr[other] == machine.regs.gpr[other]
            &&& after == machine.set_regs(RegisterState { gpr: after.regs.gpr, ..machine.regs })
        }),
{
    let size = register_size_spec(instruction.op0_register);
    let value = reg_read(machine.regs, instruction.op1_register, size);
    lemma_routed_move(machine, instruction);
    read_after_write(machine.regs, instruction.op0_register, size, value);
    lemma_fits(machine.regs, instruction.op1_register, size);
}

proof fn lemma_fits(regs: RegisterState, number: u8, size: u8)
    requires
        is_operand_size(size),
    ensures
        low_bits(reg_read(regs, number, size) as int, (8 * size) as nat) == reg_read(regs, number, size),
{
    lemma2_to64();
    let value = reg_read(regs, number, size);
    if size == 1 {
        assert((8 * size) as nat == 8nat && value < 0x100);
    } else if size == 2 {
        assert((8 * size) as nat == 16nat && value < 0x1_0000);
    } else if size == 4 {
        assert((8 * size) as nat == 32nat && value < 0x1_0000_0000);
    } else {
        assert((8 * size) as nat == 64nat);
    }
    vstd::arithmetic::div_mod::lemma_small_mod(value as nat, pow2((8 * size) as nat));
}

proof fn lemma_routed_extension(machine: Machine, instruction: Instruction)
    requires
        instruction.mnemonic == mnemonic::MOVZX || instruction.mnemonic == mnemonic::MOVSX || instruction.mnemonic
            == mnemonic::MOVSXD,
    ensures
        dispatch_spec(machine, instruction) == done(movx_spec(machine, instruction)),
{
    assert(route_of(instruction.mnemonic) == Route::Extend);
    reveal(dispatch_spec);
}

/// MOVZX keeps the value of a narrow source without sign, MOVSX and MOVSXD with it.
pub proof fn extensions_keep_the_value(machine: Machine, instruction: Instruction, from: u8, source: u64)
    requires
        machine.regs.gpr.len() == 16,
        instruction.mnemonic == mnemonic::MOVZX || instruction.mnemonic == mnemonic::MOVSX || instruction.mnemonic
            == mnemonic::MOVSXD,
        from == crate::ops::data::movx_source_size(instruction),
        instruction.op0_kind == op_kind::REGISTER,
        is_register(instruction.op0_register),
        from < register_size_spec(instruction.op0_register),
        if instruction.op1_kind == op_kind::MEMORY {
            machine.read_operand(instruction, from) == Ok::<u64, CpuError>(source)
        } else {
            source == reg_read(machine.regs, instruction.op1_register, from)
        },
    ensures
        ({
            let (after, result) = dispatch_spec(machine, instruction);
            let size = register_size_spec(instruction.op0_register);
            let found = reg_read(after.regs, instruction.op0_register, size) as int;
            &&& result == Ok::<Effect, CpuError>(Effect::Done)
            &&& instruction.mnemonic == mnemonic::MOVZX ==> found == unsigned(source as int, (8 * size) as nat)
            &&& instruction.mnemonic != mnemonic::MOVZX ==> signed(found, (8 * size) as nat) == signed(
                source as int,
                (8 * from) as nat,
            )
        }),
{
    let size = register_size_spec(instruction.op0_register);
    let number = instruction.op0_register;
    lemma_routed_extension(machine, instruction);
    let widened = if instruction.mnemonic == mnemonic::MOVZX {
        source
    } else {
        sign_extended(source, crate::ops::width_bits(from))
    };
    assert(dispatch_spec(machine, instruction) == (
        machine.reg_write(number, size, widened),
        Ok::<Effect, CpuError>(Effect::Done),
    ));
    read_after_write(machine.regs, number, size, widened);
    if instruction.mnemonic != mnemonic::MOVZX {
        lemma_extension(source, from, size);
    }
}

proof fn lemma_extension(source: u64, from: u8, size: u8)
    requires
        from == 1 || from == 2 || from == 4,
        is_operand_size(size),
        from < size,
    ensures
        signed(
            low_bits(sign_extended(source, crate::ops::width_bits(from)) as int, (8 * size) as nat),
            (8 * size) as nat,
        ) == signed(source as int, (8 * from) as nat),
{
    lemma2_to64();
    let exact = signed(source as int, (8 * from) as nat);
    let wide = sign_extended(source, crate::ops::width_bits(from)) as int;
    assert((8 * from) as nat == crate::ops::width_bits(from) as nat);
    assert(wide == exact % (pow2(64) as int));
    if from == 1 {
        assert((8 * from) as nat == 8nat);
        assert(-0x80 <= exact < 0x80);
    } else if from == 2 {
        assert((8 * from) as nat == 16nat);
        assert(-0x8000 <= exact < 0x8000);
    } else {
        assert((8 * from) as nat == 32nat);
        assert(-0x8000_0000 <= exact < 0x8000_0000);
    }
    if size == 2 {
        assert((8 * size) as nat == 16nat);
        assert((wide % 0x1_0000) % 0x1_0000 == if exact < 0 { exact + 0x1_0000 } else { exact });
    } else if size == 4 {
        assert((8 * size) as nat == 32nat);
        assert((wide % 0x1_0000_0000) % 0x1_0000_0000 == if exact < 0 { exact + 0x1_0000_0000 } else { exact });
    } else {
        assert((8 * size) as nat == 64nat);
        assert((wide % 0x1_0000_0000_0000_0000) % 0x1_0000_0000_0000_0000 == if exact < 0 {
            exact + 0x1_0000_0000_0000_0000
        } else {
            exact
        });
    }
}

proof fn lemma_routed_exchange(machine: Machine, instruction: Instruction)
    requires
        instruction.mnemonic == mnemonic::XCHG || instruction.mnemonic == mnemonic::XADD || instruction.mnemonic
            == mnemonic::CMPXCHG,
    ensures
        dispatch_spec(machine, instruction) == done(
            if instruction.mnemonic == mnemonic::XCHG {
                xchg_spec(machine, instruction)
            } else if instruction.mnemonic == mnemonic::XADD {
                xadd_spec(machine, instruction)
            } else {
                exchange_spec(machine, instruction)
            },
        ),
{
    assert(route_of(instruction.mnemonic) == if instruction.mnemonic == mnemonic::XCHG {
        Route::Exchange
    } else if instruction.mnemonic == mnemonic::XADD {
        Route::ExchangeAdd
    } else {
        Route::CompareExchange
    });
    reveal(dispatch_spec);
}

/// XCHG of two registers leaves each with what the other had; XADD leaves their sum in the
/// first and what the first had in the second.
pub proof fn exchanges_swap_registers(machine: Machine, instruction: Instruction)
    requires
        machine.regs.gpr.len() == 16,
        instruction.mnemonic == mnemonic::XCHG || instruction.mnemonic == mnemonic::XADD,
        instruction.op0_kind == op_kind::REGISTER,
        instruction.op1_kind == op_kind::REGISTER,
        21 <= instruction.op0_register <= 68,
        21 <= instruction.op1_register <= 68,
        register_size_spec(instruction.op0_register) == register_size_spec(instruction.op1_register),
        register_index_spec(instruction.op0_register) != register_index_spec(instruction.op1_register),
    ensures
        ({
            let (after, result) = dispatch_spec(machine, instruction);
            let size = register_size_spec(instruction.op0_register);
            let first = reg_read(machine.regs, instruction.op0_register, size);
            let second = reg_read(machine.regs, instruction.op1_register, size);
            &&& result == Ok::<Effect, CpuError>(Effect::Done)
            &&& reg_read(after.regs, instruction.op1_register, size) == first
            &&& reg_read(after.regs, instruction.op0_register, size) == if instruction.mnemonic == mnemonic::XCHG {
                second as int
            } else {
                (first + second) % (pow2((8 * size) as nat) as int)
            }
        }),
{
    let size = register_size_spec(instruction.op0_register);
    let first = reg_read(machine.regs, instruction.op0_register, size);
    let second = reg_read(machine.regs, instruction.op1_register, size);
    lemma_routed_exchange(machine, instruction);
    lemma_fits(machine.regs, instruction.op0_register, size);
    lemma_fits(machine.regs, instruction.op1_register, size);
    let value = if instruction.mnemonic == mnemonic::XCHG {
        second
    } else {
        ((first + second) % 0x1_0000_0000_0000_0000) as u64
    };
    let once = reg_write(machine.regs, instruction.op0_register, size, value);
    read_after_write(machine.regs, instruction.op0_register, size, value);
    read_after_write(once, instruction.op1_register, size, first);
    lemma2_to64();
    crate::arith::lemma_low_bits_of_wide(first + second, (8 * size) as nat, 64);
    assert(dispatch_spec(machine, instruction).0.regs.gpr == reg_write(once, instruction.op1_register, size, first).gpr);
}

/// CMPXCHG of a register: where the accumulator equals the target, the target takes the
/// second operand, else the accumulator takes the target; the zero flag tells which.
pub proof fn compare_and_exchange(machine: Machine, instruction: Instruction)
    requires
        machine.regs.gpr.len() == 16,
        instruction.mnemonic == mnemonic::CMPXCHG,
        instruction.op0_kind == op_kind::REGISTER,
        instruction.op1_kind == op_kind::REGISTER,
        21 <= instruction.op0_register <= 68,
        21 <= instruction.op1_register <= 68,
        register_size_spec(instruction.op0_register) == register_size_spec(instruction.op1_register),
    ensures
        ({
            let (after, result) = dispatch_spec(machine, instruction);
            let size = register_size_spec(instruction.op0_register);
            let n = (8 * size) as nat;
            let target = reg_read(machine.regs, instruction.op0_register, size);
            let second = reg_read(machine.regs, instruction.op1_register, size);
            let held = unsigned(machine.regs.gpr[0] as int, n);
            &&& result == Ok::<Effect, CpuError>(Effect::Done)
            &&& holds(after.regs.rflags, 0x40) == (held == target)
            &&& held == target ==> reg_read(after.regs, instruction.op0_register, size) == second
            &&& held != target ==> unsigned(after.regs.gpr[0] as int, n) == target
        }),
{
    let size = register_size_spec(instruction.op0_register);
    let n = (8 * size) as nat;
    let target = reg_read(machine.regs, instruction.op0_register, size);
    let second = reg_read(machine.regs, instruction.op1_register, size);
    let held = machine.read_accumulator(size);
    let bits = crate::ops::width_bits(size);
    lemma2_to64();
    lemma_routed_exchange(machine, instruction);
    lemma_accumulator(machine.regs, size);
    lemma_fits(machine.regs, instruction.op0_register, size);
    lemma_fits(machine.regs, instruction.op1_register, size);
    lemma_fits(machine.regs, crate::ops::arithmetic::accumulator_spec(size), size);
    assert(n == bits as nat);
    conditions_tell_the_order(machine.regs.rflags, held, target, bits);
    let flags = crate::ops::arithmetic_flags(
        machine.regs.rflags,
        crate::ops::sub_result(held, target, false, bits),
        bits,
    );
    let flagged = machine.set_flags(flags);
    read_after_write(flagged.regs, instruction.op0_register, size, second);
    read_after_write(flagged.regs, crate::ops::arithmetic::accumulator_spec(size), size, target);
    lemma_accumulator(flagged.write_accumulator(size, target).regs, size);
}

proof fn lemma_accumulator(regs: RegisterState, size: u8)
    requires
        is_operand_size(size),
    ensures
        reg_read(regs, crate::ops::arithmetic::accumulator_spec(size), size) == unsigned(
            regs.gpr[0] as int,
            (8 * size) as nat,
        ),
{
    lemma2_to64();
    if size == 1 {
        assert((8 * size) as nat == 8nat);
    } else if size == 2 {
        assert((8 * size) as nat == 16nat);
    } else if size == 4 {
        assert((8 * size) as nat == 32nat);
    } else {
        assert((8 * size) as nat == 64nat);
        vstd::arithmetic::div_mod::lemma_small_mod(regs.gpr[0] as nat, pow2(64));
    }
}

proof fn lemma_routed_address(machine: Machine, instruction: Instruction)
    requires
        instruction.mnemonic == mnemonic::LEA,
    ensures
        dispatch_spec(machine, instruction) == (
            machine.reg_write(
                instruction.op0_register,
                operand_size_spec(instruction, 0),
                machine.effective_address(instruction),
            ),
            Ok::<Effect, CpuError>(Effect::Done),
        ),
{
    assert(route_of(instruction.mnemonic) == Route::Address);
    reveal(dispatch_spec);
}

/// LEA of a flat address in 64-bit registers: base plus index times scale plus
/// displacement, and nothing is read.
pub proof fn lea_computes_the_address(machine: Machine, instruction: Instruction)
    requires
        machine.regs.gpr.len() == 16,
        instruction.mnemonic == mnemonic::LEA,
        instruction.op0_kind == op_kind::REGISTER,
        register::RAX <= instruction.op0_register <= register::R15,
        register::RAX <= instruction.memory_base <= register::R15,
        register::RAX <= instruction.memory_index <= register::R15,
        machine.regs.data_base(instruction.segment_prefix) == 0,
    ensures
        ({
            let base = machine.regs.gpr[instruction.memory_base - register::RAX] as int;
            let index = machine.regs.gpr[instruction.memory_index - register::RAX] as int;
            let address = (base + index * instruction.memory_scale + instruction.memory_displacement)
                % 0x1_0000_0000_0000_0000;
            dispatch_spec(machine, instruction) == (
                machine.set_gpr(instruction.op0_register - register::RAX, address as u64),
                Ok::<Effect, CpuError>(Effect::Done),
            )
        }),
{
    lemma2_to64();
    lemma_routed_address(machine, instruction);
}

proof fn lemma_routed_stack(machine: Machine, instruction: Instruction)
    requires
        instruction.mnemonic == mnemonic::PUSH || instruction.mnemonic == mnemonic::POP || instruction.mnemonic
            == mnemonic::PUSHFQ || instruction.mnemonic == mnemonic::POPFQ || instruction.mnemonic == mnemonic::LEAVE
            || instruction.mnemonic == mnemonic::ENTER,
    ensures
        dispatch_spec(machine, instruction) == done(push_pop_spec(machine, instruction)),
{
    assert(route_of(instruction.mnemonic) == Route::Stack);
    reveal(dispatch_spec);
}

/// In long mode a push of a register and a pop to another copy it through the stack, and
/// the stack pointer comes back; so do the flags through PUSHFQ and POPFQ.
pub proof fn pops_take_what_was_pushed(machine: Machine, push: Instruction, pop: Instruction, places: Seq<u64>)
    requires
        machine.regs.gpr.len() == 16,
        machine.regs.mode() == CpuMode::Long,
        push.mnemonic == mnemonic::PUSH,
        push.op0_kind == op_kind::REGISTER,
        register::RAX <= push.op0_register <= register::R15,
        pop.mnemonic == mnemonic::POP,
        pop.op0_kind == op_kind::REGISTER,
        register::RAX <= pop.op0_register <= register::R15,
        places.len() == 8,
        machine.lie_at(
            ((machine.regs.gpr[4] - 8) % 0x1_0000_0000_0000_0000) as u64,
            machine.regs.cpl() == 3,
            places,
        ),
    ensures
        ({
            let (pushed, first) = dispatch_spec(machine, push);
            let (after, second) = dispatch_spec(pushed, pop);
            &&& first == Ok::<Effect, CpuError>(Effect::Done)
            &&& second == Ok::<Effect, CpuError>(Effect::Done)
            &&& pushed.regs.gpr[4] == (machine.regs.gpr[4] - 8) % 0x1_0000_0000_0000_0000
            &&& after.regs == machine.regs.set_gpr(
                pop.op0_register - register::RAX,
                machine.regs.gpr[push.op0_register - register::RAX],
            )
        }),
{
    let value = machine.regs.gpr[push.op0_register - register::RAX];
    lemma_routed_stack(machine, push);
    let pushed = dispatch_spec(machine, push).0;
    lemma_routed_stack(pushed, pop);
    lemma2_to64();
    pop_undoes_push(machine, value, places);
    lemma_pushed(machine, value);
    vstd::arithmetic::div_mod::lemma_small_mod(value as nat, crate::arith::byte_span(8));
}

proof fn lemma_pushed(machine: Machine, value: u64)
    requires
        machine.regs.gpr.len() == 16,
        machine.regs.mode() == CpuMode::Long,
    ensures
        ({
            let (pushed, result) = machine.push_native(value);
            result is Ok ==> pushed.regs == machine.regs.set_gpr(
                4,
                ((machine.regs.gpr[4] - 8) % 0x1_0000_0000_0000_0000) as u64,
            )
        }),
{
    reveal(Machine::push_native);
    let pointer = moved_pointer(machine.regs.mode(), machine.regs.gpr[4], -8);
    crate::cpu::interrupts::lemma_store_keeps_regs(
        machine,
        machine.stack_address(pointer),
        le_bytes(value as nat, 8),
        machine.regs.cpl() == 3,
    );
    assert(stack_width(machine.regs.mode()) == 8);
}

/// Flags that were pushed come back with a pop, as far as they are flags.
pub proof fn popped_flags_are_the_pushed_ones(machine: Machine, push: Instruction, pop: Instruction, places: Seq<u64>)
    requires
        machine.regs.gpr.len() == 16,
        machine.regs.mode() == CpuMode::Long,
        push.mnemonic == mnemonic::PUSHFQ,
        pop.mnemonic == mnemonic::POPFQ,
        machine.regs.rflags & 0x3F_7FD7 == machine.regs.rflags,
        places.len() == 8,
        machine.lie_at(
            ((machine.regs.gpr[4] - 8) % 0x1_0000_0000_0000_0000) as u64,
            machine.regs.cpl() == 3,
            places,
        ),
    ensures
        dispatch_spec(machine, push).1 == Ok::<Effect, CpuError>(Effect::Done),
        dispatch_spec(dispatch_spec(machine, push).0, pop).0.regs == machine.regs,
{
    let flags = machine.regs.rflags;
    lemma_routed_stack(machine, push);
    let pushed = dispatch_spec(machine, push).0;
    lemma_routed_stack(pushed, pop);
    lemma2_to64();
    pop_undoes_push(machine, flags, places);
    vstd::arithmetic::div_mod::lemma_small_mod(flags as nat, crate::arith::byte_span(8));
    assert((flags & 0x3F_7FD7) | (flags & 0x100) == flags) by (bit_vector)
        requires
            flags & 0x3F_7FD7 == flags,
    ;
}

/// ENTER for a procedure at the outermost level makes a frame whose pointer is the stack
/// pointer after the push, with the asked room below, and LEAVE takes it down again.
pub proof fn leave_undoes_enter(machine: Machine, enter: Instruction, leave: Instruction, places: Seq<u64>)
    requires
        machine.regs.gpr.len() == 16,
        machine.regs.mode() == CpuMode::Long,
        enter.mnemonic == mnemonic::ENTER,
        enter.immediate1 % 32 == 0,
        leave.mnemonic == mnemonic::LEAVE,
        places.len() == 8,
        machine.lie_at(
            ((machine.regs.gpr[4] - 8) % 0x1_0000_0000_0000_0000) as u64,
            machine.regs.cpl() == 3,
            places,
        ),
    ensures
        ({
            let (entered, first) = dispatch_spec(machine, enter);
            let (after, second) = dispatch_spec(entered, leave);
            let frame = (machine.regs.gpr[4] - 8) % 0x1_0000_0000_0000_0000;
            &&& first == Ok::<Effect, CpuError>(Effect::Done)
            &&& second == Ok::<Effect, CpuError>(Effect::Done)
            &&& entered.regs.gpr[5] == frame
            &&& entered.regs.gpr[4] == (frame - enter.immediate0 % 0x1_0000) % 0x1_0000_0000_0000_0000
            &&& after.regs == machine.regs
        }),
{
    let rbp = machine.regs.gpr[5];
    lemma_routed_stack(machine, enter);
    let entered = dispatch_spec(machine, enter).0;
    lemma_routed_stack(entered, leave);
    lemma2_to64();
    pop_undoes_push(machine, rbp, places);
    lemma_pushed(machine, rbp);
    let pushed = machine.push_native(rbp).0;
    let again = entered.set_gpr(4, entered.regs.gpr[5]);
    assert(again.regs.gpr =~= pushed.regs.gpr.update(5, pushed.regs.gpr[4]));
    lemma_same_pop(pushed, again);
    vstd::arithmetic::div_mod::lemma_small_mod(rbp as nat, crate::arith::byte_span(8));
    let after = dispatch_spec(entered, leave).0;
    assert(after.regs.gpr =~= machine.regs.gpr);
}

/// A pop depends on the stack pointer and on memory, not on the frame pointer.
proof fn lemma_same_pop(machine: Machine, other: Machine)
    requires
        machine.regs.gpr.len() == 16,
        other == machine.set_gpr(5, other.regs.gpr[5]),
    ensures
        other.pop_native().1 == machine.pop_native().1,
        other.pop_native().0 == machine.pop_native().0.set_gpr(5, other.regs.gpr[5]),
{
    reveal(Machine::pop_native);
    crate::cpu::linear::lemma_same_bytes(
        other,
        machine,
        machine.stack_address(machine.regs.gpr[4]),
        stack_width(machine.regs.mode()),
        machine.regs.cpl() == 3,
    );
    assert(other.pop_native().0.regs.gpr =~= machine.pop_native().0.set_gpr(5, other.regs.gpr[5]).regs.gpr);
}

proof fn lemma_routed_system(machine: Machine, instruction: Instruction)
    requires
        route_of(instruction.mnemonic) == Route::System || instruction.mnemonic == mnemonic::MOV && (
        crate::cpu::step::is_special_spec(instruction.op0_register) || crate::cpu::step::is_special_spec(
            instruction.op1_register,
        )),
    ensures
        dispatch_spec(machine, instruction) == done(system_op_spec(machine, instruction)),
{
    reveal(dispatch_spec);
}

/// A control register reads back as what was written to it, without the bits that are not
/// defined; paging comes with write protection.
pub proof fn control_registers_read_back(machine: Machine, write: Instruction, read: Instruction)
    requires
        machine.regs.gpr.len() == 16,
        write.mnemonic == mnemonic::MOV,
        read.mnemonic == mnemonic::MOV,
        write.op0_register == register::CR0 || write.op0_register == register::CR3 || write.op0_register
            == register::CR4,
        write.op1_kind == op_kind::REGISTER,
        register::RAX <= write.op1_register <= register::R15,
        read.op0_kind == op_kind::REGISTER,
        register::RAX <= read.op0_register <= register::R15,
        read.op1_register == write.op0_register,
    ensures
        ({
            let value = machine.regs.gpr[write.op1_register - register::RAX];
            let written = dispatch_spec(machine, write).0;
            let after = dispatch_spec(written, read).0;
            let found = after.regs.gpr[read.op0_register - register::RAX];
            &&& write.op0_register == register::CR3 ==> found == value && written.regs.cr3 == value
            &&& write.op0_register == register::CR4 ==> found == value & 0x37_7FFF && written.regs.cr4 == found
            &&& write.op0_register == register::CR0 ==> written.regs.cr0 == found && found == if value
                & 0x8000_0000 == 0x8000_0000 {
                (value & 0xE005_003F) | 0x1_0000
            } else {
                value & 0xE005_003F
            }
        }),
{
    lemma_routed_system(machine, write);
    let written = dispatch_spec(machine, write).0;
    lemma_routed_system(written, read);
    let value = machine.regs.gpr[write.op1_register - register::RAX];
    assert(((value & 0xE005_003F) & 0x8000_0000 == 0x8000_0000) == (value & 0x8000_0000 == 0x8000_0000)) by (bit_vector);
}

/// Software interrupts go through the vector that they name: INT3 through 3, INTO through 4
/// where the overflow flag is set, BOUND through 5.
pub proof fn software_interrupts_name_their_vector(machine: Machine, instruction: Instruction)
    ensures
        ({
            let code = instruction.mnemonic;
            &&& code == mnemonic::INT ==> dispatch_spec(machine, instruction) == done(
                machine.inject_interrupt((instruction.immediate0 % 256) as u8),
            )
            &&& code == mnemonic::INT3 ==> dispatch_spec(machine, instruction) == done(machine.inject_interrupt(3))
            &&& code == mnemonic::INTO ==> dispatch_spec(machine, instruction) == if holds(
                machine.regs.rflags,
                0x800,
            ) {
                done(machine.inject_interrupt(4))
            } else {
                (machine, Ok::<Effect, CpuError>(Effect::Done))
            }
            &&& code == mnemonic::BOUND ==> dispatch_spec(machine, instruction) == done(machine.raise(5, None))
        }),
{
    let code = instruction.mnemonic;
    if code == mnemonic::INT || code == mnemonic::INT3 || code == mnemonic::INTO || code == mnemonic::BOUND {
        assert(route_of(code) == Route::System);
        lemma_routed_system(machine, instruction);
    }
}

proof fn lemma_routed_clock(machine: Machine, instruction: Instruction)
    requires
        instruction.mnemonic == mnemonic::RDTSC,
    ensures
        dispatch_spec(machine, instruction) == done((crate::ops::system::rdtsc_spec(machine, instruction), Ok(()))),
{
    assert(route_of(instruction.mnemonic) == Route::Clock);
    reveal(dispatch_spec);
}

/// RDTSC leaves the time-stamp counter in the data register above the accumulator.
pub proof fn the_clock_is_read_whole(machine: Machine, instruction: Instruction)
    requires
        machine.regs.gpr.len() == 16,
        instruction.mnemonic == mnemonic::RDTSC,
    ensures
        ({
            let (after, result) = dispatch_spec(machine, instruction);
            &&& result == Ok::<Effect, CpuError>(Effect::Done)
            &&& after.regs.gpr[2] * 0x1_0000_0000 + after.regs.gpr[0] == machine.tsc
            &&& after.regs.gpr[0] < 0x1_0000_0000
        }),
{
    lemma_routed_clock(machine, instruction);
}

proof fn lemma_routed_extra(machine: Machine, instruction: Instruction)
    requires
        instruction.mnemonic == mnemonic::BSWAP || instruction.mnemonic == mnemonic::POPCNT || instruction.mnemonic
            == mnemonic::SWAPGS || instruction.mnemonic == mnemonic::XGETBV || instruction.mnemonic == mnemonic::XSETBV,
    ensures
        dispatch_spec(machine, instruction) == done(extra_op_spec(machine, instruction)),
{
    assert(route_of(instruction.mnemonic) == Route::Extra);
    reveal(dispatch_spec);
}

/// SWAPGS exchanges the base of GS with the one kept for the kernel.
pub proof fn swapgs_exchanges_the_bases(machine: Machine, instruction: Instruction)
    requires
        instruction.mnemonic == mnemonic::SWAPGS,
    ensures
        ({
            let (after, result) = dispatch_spec(machine, instruction);
            &&& result == Ok::<Effect, CpuError>(Effect::Done)
            &&& after.regs.gs.base == machine.kernel_gs_base
            &&& after.kernel_gs_base == machine.regs.gs.base
            &&& after.memory == machine.memory
            &&& after.regs.gpr == machine.regs.gpr
        }),
{
    lemma_routed_extra(machine, instruction);
}

/// BSWAP turns the bytes of its operand around.
pub proof fn bswap_reverses_the_bytes(machine: Machine, instruction: Instruction, value: u64) -> (turned: u64)
    requires
        instruction.mnemonic == mnemonic::BSWAP,
        instruction.op0_kind == op_kind::REGISTER,
        operand_size_spec(instruction, 0) == 4 || operand_size_spec(instruction, 0) == 8,
        machine.read_operand0(instruction) == Ok::<u64, CpuError>(value),
    ensures
        ({
            let count = operand_size_spec(instruction, 0) as nat;
            &&& dispatch_spec(machine, instruction) == done(machine.write_operand0(instruction, turned))
            &&& le_bytes(turned as nat, count).len() == count
            &&& forall|i: int|
                0 <= i < count ==> #[trigger] le_bytes(turned as nat, count)[i] == le_bytes(value as nat, count)[count - 1
                    - i]
        }),
{
    let count = operand_size_spec(instruction, 0) as nat;
    lemma_routed_extra(machine, instruction);
    let bytes = le_bytes(value as nat, count);
    crate::arith::lemma_le_bytes_len(value as nat, count);
    crate::arith::lemma_le_value_bound(bytes.reverse());
    crate::arith::lemma_le_bytes_of_value(bytes.reverse());
    lemma2_to64();
    if count == 4 {
        assert(crate::arith::byte_span(4) == 0x1_0000_0000);
    } else {
        assert(crate::arith::byte_span(8) == 0x1_0000_0000_0000_0000);
    }
    le_value(bytes.reverse()) as u64
}

/// HLT waits for an interrupt where the interrupt flag lets one in, and stops for good
/// where it does not.
pub proof fn halting_waits_only_for_interrupts(machine: Machine, instruction: Instruction)
    requires
        instruction.mnemonic == mnemonic::HLT,
    ensures
        dispatch_spec(machine, instruction) == (
            if holds(machine.regs.rflags, 0x200) {
                Machine { waiting_for_interrupt: true, ..machine }
            } else {
                Machine { halted: true, ..machine }
            },
            Ok::<Effect, CpuError>(Effect::Done),
        ),
{
    assert(route_of(instruction.mnemonic) == Route::Halt);
    reveal(dispatch_spec);
}

/// IN and OUT of the accumulator at a port: the port is an immediate byte or DX, as many
/// bytes as the accumulator's name has go through it, and OUT hands over what it holds.
pub proof fn port_instructions_reach_their_port(machine: Machine, instruction: Instruction)
    requires
        machine.regs.gpr.len() == 16,
        instruction.mnemonic == mnemonic::IN && instruction.op0_register == register::EAX || instruction.mnemonic
            == mnemonic::OUT && instruction.op1_register == register::EAX && instruction.op0_register == register::DX,
        instruction.op0_kind != op_kind::IMMEDIATE8,
        instruction.op1_kind != op_kind::IMMEDIATE8,
    ensures
        ({
            let port = (machine.regs.gpr[2] as int % 0x1_0000) as u16;
            let access = if instruction.mnemonic == mnemonic::IN {
                crate::ops::system::PortAccess::Read { port, size: 4, register: register::EAX }
            } else {
                crate::ops::system::PortAccess::Write {
                    port,
                    size: 4,
                    value: (machine.regs.gpr[0] as int % 0x1_0000_0000) as u32,
                }
            };
            dispatch_spec(machine, instruction) == (machine, Ok::<Effect, CpuError>(Effect::Port(access)))
        }),
{
    assert(route_of(instruction.mnemonic) == Route::Port);
    reveal(dispatch_spec);
}

} // verus!
