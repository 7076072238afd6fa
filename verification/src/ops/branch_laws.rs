//! Where control goes, told by mnemonics and by the values that were compared.

use vstd::arithmetic::power2::pow2;
use vstd::prelude::*;

use crate::arch::registers::{holds, CpuMode};
use crate::arith::{byte_span, low_bits, ones};
use crate::cpu::linear::lemma_same_bytes;
use crate::cpu::stack::{moved_pointer, stack_width};
use crate::cpu::step::{dispatch_spec, route_of, Route};
use crate::cpu::{CpuError, Machine};
use crate::decode::{mnemonic, op_kind, Instruction};
use crate::ops::arithmetic::compare_spec;
use crate::ops::branch::{
    call_spec, condition_spec, conditions_tell_the_order, flag_ops_spec, jump_spec, jump_where, met, ret_spec,
};
use crate::ops::effect::{done, Effect};
use crate::ops::stack::pop_undoes_push;
use crate::ops::{arithmetic_flags, arithmetic_flags_read_back, operand_size_spec, sub_result, width_bits};

verus! {

/// Whether a mnemonic is a jump on a condition.
pub open spec fn is_conditional_jump(code: u16) -> bool {
    ||| code == mnemonic::JO
    ||| code == mnemonic::JNO
    ||| code == mnemonic::JB
    ||| code == mnemonic::JAE
    ||| code == mnemonic::JE
    ||| code == mnemonic::JNE
    ||| code == mnemonic::JBE
    ||| code == mnemonic::JA
    ||| code == mnemonic::JS
    ||| code == mnemonic::JNS
    ||| code == mnemonic::JP
    ||| code == mnemonic::JNP
    ||| code == mnemonic::JL
    ||| code == mnemonic::JGE
    ||| code == mnemonic::JLE
    ||| code == mnemonic::JG
}

/// Whether a mnemonic sets a byte on a condition.
pub open spec fn is_conditional_set(code: u16) -> bool {
    ||| code == mnemonic::SETO
    ||| code == mnemonic::SETNO
    ||| code == mnemonic::SETB
    ||| code == mnemonic::SETAE
    ||| code == mnemonic::SETE
    ||| code == mnemonic::SETNE
    ||| code == mnemonic::SETBE
    ||| code == mnemonic::SETA
    ||| code == mnemonic::SETS
    ||| code == mnemonic::SETNS
    ||| code == mnemonic::SETP
    ||| code == mnemonic::SETNP
    ||| code == mnemonic::SETL
    ||| code == mnemonic::SETGE
    ||| code == mnemonic::SETLE
    ||| code == mnemonic::SETG
}

/// Whether what a conditional mnemonic asks of the flags is so: the carry flag is bit 0,
/// parity bit 2, zero bit 6, sign bit 7 and overflow bit 11.
pub open spec fn asked_of_flags(code: u16, flags: u64) -> bool {
    let carry = holds(flags, 0x1);
    let parity = holds(flags, 0x4);
    let zero = holds(flags, 0x40);
    let sign = holds(flags, 0x80);
    let overflow = holds(flags, 0x800);
    &&& code == mnemonic::JO || code == mnemonic::SETO ==> overflow
    &&& code == mnemonic::JNO || code == mnemonic::SETNO ==> !overflow
    &&& code == mnemonic::JB || code == mnemonic::SETB ==> carry
    &&& code == mnemonic::JAE || code == mnemonic::SETAE ==> !carry
    &&& code == mnemonic::JE || code == mnemonic::SETE ==> zero
    &&& code == mnemonic::JNE || code == mnemonic::SETNE ==> !zero
    &&& code == mnemonic::JBE || code == mnemonic::SETBE ==> carry || zero
    &&& code == mnemonic::JA || code == mnemonic::SETA ==> !carry && !zero
    &&& code == mnemonic::JS || code == mnemonic::SETS ==> sign
    &&& code == mnemonic::JNS || code == mnemonic::SETNS ==> !sign
    &&& code == mnemonic::JP || code == mnemonic::SETP ==> parity
    &&& code == mnemonic::JNP || code == mnemonic::SETNP ==> !parity
    &&& code == mnemonic::JL || code == mnemonic::SETL ==> sign != overflow
    &&& code == mnemonic::JGE || code == mnemonic::SETGE ==> sign == overflow
    &&& code == mnemonic::JLE || code == mnemonic::SETLE ==> zero || sign != overflow
    &&& code == mnemonic::JG || code == mnemonic::SETG ==> !zero && sign == overflow
}

/// Whether what a conditional mnemonic asks of two compared operands is so. B, BE, A and AE
/// ask for their order without sign, L, LE, G and GE for their order with it; O asks whether
/// their difference leaves the range of signed numbers, S for the highest bit of the
/// difference, and P whether its low byte has an even number of set bits.
pub open spec fn asked_of_operands(code: u16, left: u64, right: u64, bits: nat) -> bool {
    let l = left as int % (pow2(bits) as int);
    let r = right as int % (pow2(bits) as int);
    let signed_l = if 2 * l >= pow2(bits) { l - pow2(bits) } else { l };
    let signed_r = if 2 * r >= pow2(bits) { r - pow2(bits) } else { r };
    let difference = (l - r) % (pow2(bits) as int);
    let outside = 2 * (signed_l - signed_r) >= pow2(bits) || 2 * (signed_l - signed_r) < -pow2(bits);
    &&& code == mnemonic::JO || code == mnemonic::SETO ==> outside
    &&& code == mnemonic::JNO || code == mnemonic::SETNO ==> !outside
    &&& code == mnemonic::JB || code == mnemonic::SETB ==> l < r
    &&& code == mnemonic::JAE || code == mnemonic::SETAE ==> l >= r
    &&& code == mnemonic::JE || code == mnemonic::SETE ==> l == r
    &&& code == mnemonic::JNE || code == mnemonic::SETNE ==> l != r
    &&& code == mnemonic::JBE || code == mnemonic::SETBE ==> l <= r
    &&& code == mnemonic::JA || code == mnemonic::SETA ==> l > r
    &&& code == mnemonic::JS || code == mnemonic::SETS ==> 2 * difference >= pow2(bits)
    &&& code == mnemonic::JNS || code == mnemonic::SETNS ==> 2 * difference < pow2(bits)
    &&& code == mnemonic::JP || code == mnemonic::SETP ==> ones((difference % 256) as nat) % 2 == 0
    &&& code == mnemonic::JNP || code == mnemonic::SETNP ==> ones((difference % 256) as nat) % 2 == 1
    &&& code == mnemonic::JL || code == mnemonic::SETL ==> signed_l < signed_r
    &&& code == mnemonic::JGE || code == mnemonic::SETGE ==> signed_l >= signed_r
    &&& code == mnemonic::JLE || code == mnemonic::SETLE ==> signed_l <= signed_r
    &&& code == mnemonic::JG || code == mnemonic::SETG ==> signed_l > signed_r
}

/// An instruction pointer cut to the width of the mode.
pub open spec fn cut(mode: CpuMode, target: u64) -> int {
    match mode {
        CpuMode::Long => target as int,
        CpuMode::Protected32 => target as int % 0x1_0000_0000,
        _ => target as int % 0x1_0000,
    }
}

proof fn lemma_routed_jump(machine: Machine, instruction: Instruction)
    requires
        is_conditional_jump(instruction.mnemonic),
    ensures
        dispatch_spec(machine, instruction) == done(
            (
                jump_where(machine, instruction, met(condition_spec(instruction.mnemonic)->0, machine.regs.rflags)),
                Ok(()),
            ),
        ),
{
    assert(route_of(instruction.mnemonic) == Route::JumpIf);
    reveal(dispatch_spec);
}

proof fn lemma_routed_set(machine: Machine, instruction: Instruction)
    requires
        is_conditional_set(instruction.mnemonic),
    ensures
        dispatch_spec(machine, instruction) == done(
            machine.write_sized0(
                instruction,
                1,
                if met(condition_spec(instruction.mnemonic)->0, machine.regs.rflags) { 1 } else { 0 },
            ),
        ),
{
    assert(route_of(instruction.mnemonic) == Route::SetIf);
    reveal(dispatch_spec);
}

proof fn lemma_routed_compare(machine: Machine, instruction: Instruction)
    requires
        instruction.mnemonic == mnemonic::CMP,
    ensures
        dispatch_spec(machine, instruction) == done(compare_spec(machine, instruction)),
{
    assert(route_of(instruction.mnemonic) == Route::Compare);
    reveal(dispatch_spec);
}

proof fn lemma_asked_of_flags(code: u16, flags: u64)
    requires
        is_conditional_jump(code) || is_conditional_set(code),
    ensures
        met(condition_spec(code)->0, flags) == asked_of_flags(code, flags),
{
}

proof fn lemma_asked_of_operands(code: u16, flags: u64, left: u64, right: u64, bits: u32)
    requires
        is_conditional_jump(code) || is_conditional_set(code),
        1 <= bits <= 64,
    ensures
        asked_of_flags(code, arithmetic_flags(flags, sub_result(left, right, false, bits), bits)) == asked_of_operands(
            code,
            left,
            right,
            bits as nat,
        ),
{
    let outcome = sub_result(left, right, false, bits);
    let l = low_bits(left as int, bits as nat);
    let r = low_bits(right as int, bits as nat);
    vstd::arithmetic::power2::lemma_pow2_pos(bits as nat);
    conditions_tell_the_order(flags, left, right, bits);
    arithmetic_flags_read_back(flags, outcome, bits);
    crate::ops::branch::lemma_difference(left, right, bits);
    assert(low_bits(outcome.result as int, bits as nat) == low_bits(l - r, bits as nat));
}

/// A conditional jump goes to its target where the flags are as its mnemonic asks, and
/// changes nothing else.
pub proof fn conditional_jumps_read_the_flags(machine: Machine, jump: Instruction)
    requires
        is_conditional_jump(jump.mnemonic),
    ensures
        ({
            let (after, result) = dispatch_spec(machine, jump);
            &&& result == Ok::<Effect, CpuError>(Effect::Done)
            &&& after == machine.set_rip(after.regs.rip)
            &&& after.regs.rip == if asked_of_flags(jump.mnemonic, machine.regs.rflags) {
                cut(machine.regs.mode(), jump.near_branch_target)
            } else {
                machine.regs.rip as int
            }
        }),
{
    lemma_routed_jump(machine, jump);
    lemma_asked_of_flags(jump.mnemonic, machine.regs.rflags);
}

/// A conditional set writes one byte: one where the flags are as its mnemonic asks, else
/// zero.
pub proof fn conditional_sets_read_the_flags(machine: Machine, set: Instruction)
    requires
        is_conditional_set(set.mnemonic),
    ensures
        dispatch_spec(machine, set) == done(
            machine.write_sized0(
                set,
                1,
                if asked_of_flags(set.mnemonic, machine.regs.rflags) { 1 } else { 0 },
            ),
        ),
{
    lemma_routed_set(machine, set);
    lemma_asked_of_flags(set.mnemonic, machine.regs.rflags);
}

/// A comparison of two operands and then a conditional jump: it goes to its target just
/// where the operands are in the order that its mnemonic asks for.
pub proof fn conditional_jumps_follow_the_comparison(
    machine: Machine,
    compare: Instruction,
    jump: Instruction,
    left: u64,
    right: u64,
    bits: u32,
)
    requires
        compare.mnemonic == mnemonic::CMP,
        bits == width_bits(operand_size_spec(compare, 0)),
        machine.read_operand0(compare) == Ok::<u64, CpuError>(left),
        machine.read_operand1(compare) == Ok::<u64, CpuError>(right),
        is_conditional_jump(jump.mnemonic),
    ensures
        ({
            let (compared, first) = dispatch_spec(machine, compare);
            let (after, second) = dispatch_spec(compared, jump);
            &&& first == Ok::<Effect, CpuError>(Effect::Done)
            &&& second == Ok::<Effect, CpuError>(Effect::Done)
            &&& compared == machine.set_flags(compared.regs.rflags)
            &&& after == compared.set_rip(after.regs.rip)
            &&& after.regs.rip == if asked_of_operands(jump.mnemonic, left, right, bits as nat) {
                cut(machine.regs.mode(), jump.near_branch_target)
            } else {
                machine.regs.rip as int
            }
        }),
{
    lemma_routed_compare(machine, compare);
    let flags = machine.regs.rflags;
    let compared = dispatch_spec(machine, compare).0;
    assert(compared == machine.set_flags(arithmetic_flags(flags, sub_result(left, right, false, bits), bits)));
    conditional_jumps_read_the_flags(compared, jump);
    lemma_asked_of_operands(jump.mnemonic, flags, left, right, bits);
}

/// A comparison of two operands and then a conditional set: the byte is one just where the
/// operands are in the order that its mnemonic asks for.
pub proof fn conditional_sets_follow_the_comparison(
    machine: Machine,
    compare: Instruction,
    set: Instruction,
    left: u64,
    right: u64,
    bits: u32,
)
    requires
        compare.mnemonic == mnemonic::CMP,
        bits == width_bits(operand_size_spec(compare, 0)),
        machine.read_operand0(compare) == Ok::<u64, CpuError>(left),
        machine.read_operand1(compare) == Ok::<u64, CpuError>(right),
        is_conditional_set(set.mnemonic),
    ensures
        ({
            let compared = dispatch_spec(machine, compare).0;
            dispatch_spec(compared, set) == done(
                compared.write_sized0(
                    set,
                    1,
                    if asked_of_operands(set.mnemonic, left, right, bits as nat) { 1 } else { 0 },
                ),
            )
        }),
{
    lemma_routed_compare(machine, compare);
    let flags = machine.regs.rflags;
    let compared = dispatch_spec(machine, compare).0;
    assert(compared == machine.set_flags(arithmetic_flags(flags, sub_result(left, right, false, bits), bits)));
    conditional_sets_read_the_flags(compared, set);
    lemma_asked_of_operands(set.mnemonic, flags, left, right, bits);
}

proof fn lemma_routed_counting(machine: Machine, instruction: Instruction)
    requires
        instruction.mnemonic == mnemonic::LOOP || instruction.mnemonic == mnemonic::LOOPE || instruction.mnemonic
            == mnemonic::LOOPNE || instruction.mnemonic == mnemonic::JCXZ || instruction.mnemonic == mnemonic::JECXZ
            || instruction.mnemonic == mnemonic::JRCXZ || instruction.mnemonic == mnemonic::JMP,
    ensures
        dispatch_spec(machine, instruction) == done(jump_spec(machine, instruction)),
{
    assert(route_of(instruction.mnemonic) == Route::Jump);
    reveal(dispatch_spec);
}

/// LOOP counts RCX down by one and goes to its target while it is not zero; LOOPE only
/// while the zero flag is set too, LOOPNE only while it is clear. A jump on an empty counter
/// looks at as much of RCX as it names. None of them touches the flags.
pub proof fn loops_count_down(machine: Machine, instruction: Instruction)
    requires
        machine.regs.gpr.len() == 16,
    ensures
        ({
            let code = instruction.mnemonic;
            let (after, result) = dispatch_spec(machine, instruction);
            let rcx = machine.regs.gpr[1] as int;
            let left = (rcx - 1) % 0x1_0000_0000_0000_0000;
            let zero = holds(machine.regs.rflags, 0x40);
            let target = cut(machine.regs.mode(), instruction.near_branch_target);
            let rip = machine.regs.rip as int;
            &&& code == mnemonic::LOOP || code == mnemonic::LOOPE || code == mnemonic::LOOPNE ==> {
                &&& result == Ok::<Effect, CpuError>(Effect::Done)
                &&& after == machine.set_gpr(1, left as u64).set_rip(after.regs.rip)
            }
            &&& code == mnemonic::LOOP ==> after.regs.rip == if left != 0 { target } else { rip }
            &&& code == mnemonic::LOOPE ==> after.regs.rip == if left != 0 && zero { target } else { rip }
            &&& code == mnemonic::LOOPNE ==> after.regs.rip == if left != 0 && !zero { target } else { rip }
            &&& code == mnemonic::JCXZ || code == mnemonic::JECXZ || code == mnemonic::JRCXZ ==> {
                &&& result == Ok::<Effect, CpuError>(Effect::Done)
                &&& after == machine.set_rip(after.regs.rip)
            }
            &&& code == mnemonic::JCXZ ==> after.regs.rip == if rcx % 0x1_0000 == 0 { target } else { rip }
            &&& code == mnemonic::JECXZ ==> after.regs.rip == if rcx % 0x1_0000_0000 == 0 { target } else { rip }
            &&& code == mnemonic::JRCXZ ==> after.regs.rip == if rcx == 0 { target } else { rip }
        }),
{
    let code = instruction.mnemonic;
    if code == mnemonic::LOOP || code == mnemonic::LOOPE || code == mnemonic::LOOPNE || code == mnemonic::JCXZ || code
        == mnemonic::JECXZ || code == mnemonic::JRCXZ {
        lemma_routed_counting(machine, instruction);
    }
}

/// A near jump goes to its target and changes nothing else.
pub proof fn near_jumps_go_to_their_target(machine: Machine, instruction: Instruction)
    requires
        instruction.mnemonic == mnemonic::JMP,
        instruction.op0_kind == op_kind::NEAR_BRANCH16 || instruction.op0_kind == op_kind::NEAR_BRANCH32
            || instruction.op0_kind == op_kind::NEAR_BRANCH64,
    ensures
        dispatch_spec(machine, instruction) == (
            machine.set_rip(cut(machine.regs.mode(), instruction.near_branch_target) as u64),
            Ok::<Effect, CpuError>(Effect::Done),
        ),
{
    lemma_routed_counting(machine, instruction);
}

proof fn lemma_routed_call(machine: Machine, instruction: Instruction)
    requires
        instruction.mnemonic == mnemonic::CALL,
    ensures
        dispatch_spec(machine, instruction) == done(call_spec(machine, instruction)),
{
    assert(route_of(instruction.mnemonic) == Route::Call);
    reveal(dispatch_spec);
}

proof fn lemma_routed_return(machine: Machine, instruction: Instruction)
    requires
        instruction.mnemonic == mnemonic::RET,
    ensures
        dispatch_spec(machine, instruction) == done(ret_spec(machine, instruction)),
{
    assert(route_of(instruction.mnemonic) == Route::Return);
    reveal(dispatch_spec);
}

/// A pop does not depend on where control is.
proof fn lemma_pop_anywhere(machine: Machine, rip: u64)
    ensures
        machine.set_rip(rip).pop_native() == (machine.pop_native().0.set_rip(rip), machine.pop_native().1),
{
    reveal(Machine::pop_native);
    let width = stack_width(machine.regs.mode());
    let other = machine.set_rip(rip);
    lemma_same_bytes(
        other,
        machine,
        machine.stack_address(machine.regs.gpr[4]),
        width,
        machine.regs.cpl() == 3,
    );
}

/// A near call goes to its target, and a return from there comes back to the instruction
/// after the call with the stack pointer as it was, moved on by what the return drops.
pub proof fn returns_come_back_from_calls(machine: Machine, call: Instruction, ret: Instruction, places: Seq<u64>)
    requires
        machine.regs.gpr.len() == 16,
        call.mnemonic == mnemonic::CALL,
        call.op0_kind == op_kind::NEAR_BRANCH16 || call.op0_kind == op_kind::NEAR_BRANCH32 || call.op0_kind
            == op_kind::NEAR_BRANCH64,
        ret.mnemonic == mnemonic::RET,
        ret.op0_kind != op_kind::FAR_BRANCH16,
        ret.op0_kind != op_kind::FAR_BRANCH32,
        machine.regs.mode() == CpuMode::Protected32 ==> machine.regs.gpr[4] < 0x1_0000_0000,
        machine.regs.rip == cut(machine.regs.mode(), machine.regs.rip),
        places.len() == stack_width(machine.regs.mode()),
        machine.lie_at(
            machine.stack_address(
                moved_pointer(machine.regs.mode(), machine.regs.gpr[4], -(stack_width(machine.regs.mode()) as int)),
            ),
            machine.regs.cpl() == 3,
            places,
        ),
    ensures
        ({
            let (called, first) = dispatch_spec(machine, call);
            let (after, second) = dispatch_spec(called, ret);
            let dropped = if ret.op0_kind == op_kind::IMMEDIATE16 || ret.op0_kind == op_kind::IMMEDIATE8TO16 {
                ret.immediate0 as int % 0x1_0000
            } else {
                0
            };
            &&& first == Ok::<Effect, CpuError>(Effect::Done)
            &&& second == Ok::<Effect, CpuError>(Effect::Done)
            &&& called.regs.rip == cut(machine.regs.mode(), call.near_branch_target)
            &&& after.regs == machine.regs.set_gpr(
                4,
                ((machine.regs.gpr[4] + dropped) % 0x1_0000_0000_0000_0000) as u64,
            )
        }),
{
    lemma_routed_call(machine, call);
    pop_undoes_push(machine, machine.regs.rip, places);
    let pushed = machine.push_native(machine.regs.rip).0;
    let called = dispatch_spec(machine, call).0;
    lemma_routed_return(called, ret);
    lemma_pushed_mode(machine, machine.regs.rip);
    let target = cut(machine.regs.mode(), call.near_branch_target) as u64;
    assert(called == pushed.set_rip(target));
    lemma_pop_anywhere(pushed, target);
    let width = stack_width(machine.regs.mode());
    vstd::arithmetic::power2::lemma2_to64();
    assert(byte_span(8) == 0x1_0000_0000_0000_0000 && byte_span(4) == 0x1_0000_0000 && byte_span(2) == 0x1_0000);
    vstd::arithmetic::div_mod::lemma_small_mod(machine.regs.rip as nat, byte_span(width));
    let after = dispatch_spec(called, ret).0;
    assert(after.regs.gpr =~= machine.regs.gpr.update(4, after.regs.gpr[4]));
}

proof fn lemma_pushed_mode(machine: Machine, value: u64)
    ensures
        machine.push_native(value).0.regs.mode() == machine.regs.mode(),
        machine.push_native(value).0.regs.rip == machine.regs.rip,
{
    reveal(Machine::push_native);
    let width = stack_width(machine.regs.mode());
    let pointer = moved_pointer(machine.regs.mode(), machine.regs.gpr[4], -(width as int));
    crate::cpu::interrupts::lemma_store_keeps_regs(
        machine,
        machine.stack_address(pointer),
        crate::arith::le_bytes(value as nat, width),
        machine.regs.cpl() == 3,
    );
}

proof fn lemma_routed_flags(machine: Machine, instruction: Instruction)
    requires
        instruction.mnemonic == mnemonic::STC || instruction.mnemonic == mnemonic::CLC || instruction.mnemonic
            == mnemonic::CMC || instruction.mnemonic == mnemonic::STD || instruction.mnemonic == mnemonic::CLD
            || instruction.mnemonic == mnemonic::STI || instruction.mnemonic == mnemonic::CLI || instruction.mnemonic
            == mnemonic::LAHF || instruction.mnemonic == mnemonic::SAHF,
    ensures
        dispatch_spec(machine, instruction) == done((flag_ops_spec(machine, instruction), Ok(()))),
{
    assert(route_of(instruction.mnemonic) == Route::Flags);
    reveal(dispatch_spec);
}

/// The flag instructions set, clear or turn over one flag each and leave every other bit
/// alone: the carry flag is bit 0, the direction flag bit 10, the interrupt flag bit 9.
pub proof fn flag_instructions_change_one_flag(machine: Machine, instruction: Instruction, other: u64)
    ensures
        ({
            let code = instruction.mnemonic;
            let flags = machine.regs.rflags;
            let (after, result) = dispatch_spec(machine, instruction);
            let changed = after.regs.rflags;
            let one = if code == mnemonic::STC || code == mnemonic::CLC || code == mnemonic::CMC {
                0x1u64
            } else if code == mnemonic::STD || code == mnemonic::CLD {
                0x400u64
            } else {
                0x200u64
            };
            code == mnemonic::STC || code == mnemonic::CLC || code == mnemonic::CMC || code == mnemonic::STD || code
                == mnemonic::CLD || code == mnemonic::STI || code == mnemonic::CLI ==> {
                &&& result == Ok::<Effect, CpuError>(Effect::Done)
                &&& after == machine.set_flags(changed)
                &&& other & one == 0 ==> changed & other == flags & other
                &&& holds(changed, one) == if code == mnemonic::CMC {
                    !holds(flags, one)
                } else {
                    code == mnemonic::STC || code == mnemonic::STD || code == mnemonic::STI
                }
            }
        }),
{
    let code = instruction.mnemonic;
    let flags = machine.regs.rflags;
    if code == mnemonic::STC || code == mnemonic::CLC || code == mnemonic::CMC || code == mnemonic::STD || code
        == mnemonic::CLD || code == mnemonic::STI || code == mnemonic::CLI {
        lemma_routed_flags(machine, instruction);
        lemma_one_flag(flags, 0x1, other);
        lemma_one_flag(flags, 0x400, other);
        lemma_one_flag(flags, 0x200, other);
        crate::ops::branch::cmc_twice_is_nothing(flags);
        assert(other & 1 == 0 ==> (flags ^ 1) & other == flags & other) by (bit_vector);
    }
}

proof fn lemma_one_flag(flags: u64, one: u64, other: u64)
    ensures
        one & other == 0 ==> (flags | one) & other == flags & other && (flags & !one) & other == flags & other,
        other & one == one & other,
        (flags | one) & one == one,
        (flags & !one) & one == 0,
{
    assert((one & other == 0 ==> (flags | one) & other == flags & other && (flags & !one) & other == flags & other)
        && other & one == one & other && (flags | one) & one == one && (flags & !one) & one == 0) by (bit_vector);
}

/// LAHF puts the low byte of the flags in AH, without the bits that are no flags, and SAHF
/// takes the five status flags back from there: nothing else changes.
pub proof fn flags_go_to_ah_and_back(machine: Machine, load: Instruction, store: Instruction)
    requires
        machine.regs.gpr.len() == 16,
        load.mnemonic == mnemonic::LAHF,
        store.mnemonic == mnemonic::SAHF,
    ensures
        ({
            let (loaded, first) = dispatch_spec(machine, load);
            let rax = machine.regs.gpr[0];
            let ah = (rax as int / 0x100) % 0x100;
            &&& first == Ok::<Effect, CpuError>(Effect::Done)
            &&& loaded == machine.set_gpr(0, loaded.regs.gpr[0])
            &&& (loaded.regs.gpr[0] as int / 0x100) % 0x100 == machine.regs.rflags & 0xD5
            &&& loaded.regs.gpr[0] as int % 0x100 == rax as int % 0x100
            &&& loaded.regs.gpr[0] as int / 0x1_0000 == rax as int / 0x1_0000
            &&& dispatch_spec(machine, store).0 == machine.set_flags(dispatch_spec(machine, store).0.regs.rflags)
            &&& dispatch_spec(machine, store).0.regs.rflags & 0xD5 == (ah as u64) & 0xD5
        }),
{
    lemma_routed_flags(machine, load);
    lemma_routed_flags(machine, store);
    let flags = machine.regs.rflags;
    let rax = machine.regs.gpr[0];
    let status = flags & 0xD5;
    assert(status < 0x100) by (bit_vector)
        requires
            status == flags & 0xD5,
    ;
    crate::ops::read_after_write(machine.regs, crate::decode::register::AH, 1, status);
    crate::ops::high_byte_write_keeps_the_rest(rax, crate::decode::register::AH, 1, status);
    let ah = crate::ops::reg_read(machine.regs, crate::decode::register::AH, 1);
    assert(((flags & !0xD5u64) | (ah & 0x3F_7FD7)) & 0xD5 == ah & 0xD5) by (bit_vector);
    vstd::arithmetic::power2::lemma2_to64();
}

} // verus!
