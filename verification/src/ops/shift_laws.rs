//! Shifts, rotations, bit tests and bit scans, told by powers of two.

use vstd::arithmetic::div_mod::{lemma_mod_bound, lemma_small_mod};
use vstd::arithmetic::power2::{lemma2_to64, lemma_pow2_adds, lemma_pow2_pos, lemma_pow2_unfold, pow2};
use vstd::prelude::*;

use crate::arch::registers::{holds, with_flag, CF, OF, PF, SF, ZF};
use crate::arith::{highest_bit, low_bits, lowest_bit, ones};
use crate::cpu::linear::AccessKind;
use crate::cpu::memory::load_word;
use crate::cpu::step::{dispatch_spec, route_of, Route};
use crate::cpu::{CpuError, Machine};
use crate::decode::{mnemonic, op_kind, Instruction};
use crate::ops::effect::{done, Effect};
use crate::ops::integer_laws::{signed, tells_result, unsigned};
use crate::ops::logic::{
    bit_scan_test_spec, rotate_spec, rotate_through_carry_spec, rotated_left, shift_flags, shift_rotate_spec, shift_spec,
    shifted, ShiftOutcome,
};
use crate::ops::{operand_size_spec, reg_read, status_flags_are_apart, szp, width_bits};

verus! {

/// How far a shift goes: an immediate, CL, or one; six bits of it for eight byte operands
/// and five for smaller ones.
pub open spec fn shift_count(machine: Machine, instruction: Instruction) -> int {
    let count = if instruction.op1_kind == op_kind::IMMEDIATE8 {
        instruction.immediate1 as int
    } else if instruction.op1_kind == op_kind::REGISTER {
        machine.regs.gpr[1] as int % 0x100
    } else {
        1
    };
    if operand_size_spec(instruction, 0) == 8 {
        count % 64
    } else {
        count % 32
    }
}

/// Bit `place` of a number.
pub open spec fn bit_at(value: int, place: int) -> bool {
    (value / (pow2(place as nat) as int)) % 2 == 1
}

pub open spec fn is_shift(code: u16) -> bool {
    code == mnemonic::SHL || code == mnemonic::SHR || code == mnemonic::SAR
}

pub open spec fn is_rotation(code: u16) -> bool {
    code == mnemonic::ROL || code == mnemonic::ROR || code == mnemonic::RCL || code == mnemonic::RCR
}

proof fn lemma_routed(machine: Machine, instruction: Instruction)
    requires
        is_shift(instruction.mnemonic) || is_rotation(instruction.mnemonic),
    ensures
        dispatch_spec(machine, instruction) == done(shift_rotate_spec(machine, instruction)),
{
    assert(route_of(instruction.mnemonic) == Route::Shift);
    reveal(dispatch_spec);
}

/// What a shift or a rotation comes to, once its outcome is known.
proof fn lemma_shifted(machine: Machine, instruction: Instruction, operand: u64) -> (outcome: Option<ShiftOutcome>)
    requires
        is_shift(instruction.mnemonic) || is_rotation(instruction.mnemonic),
        machine.read_operand0(instruction) == Ok::<u64, CpuError>(operand),
    ensures
        ({
            let bits = width_bits(operand_size_spec(instruction, 0));
            let count = shift_count(machine, instruction);
            &&& 8 <= bits <= 64
            &&& 0 <= count < 64
            &&& outcome == shifted(
                instruction.mnemonic,
                unsigned(operand as int, bits as nat) as u64,
                count as u64,
                bits,
                holds(machine.regs.rflags, CF),
            )
            &&& dispatch_spec(machine, instruction) == match outcome {
                None => (machine, Ok::<Effect, CpuError>(Effect::Done)),
                Some(outcome) => done(
                    machine.set_flags(shift_flags(machine.regs.rflags, outcome, bits)).write_operand0(
                        instruction,
                        outcome.result,
                    ),
                ),
            }
        }),
{
    lemma_routed(machine, instruction);
    let bits = width_bits(operand_size_spec(instruction, 0));
    shifted(
        instruction.mnemonic,
        unsigned(operand as int, bits as nat) as u64,
        shift_count(machine, instruction) as u64,
        bits,
        holds(machine.regs.rflags, CF),
    )
}

proof fn lemma_flags(flags: u64, outcome: ShiftOutcome, bits: u32)
    ensures
        ({
            let after = shift_flags(flags, outcome, bits);
            &&& holds(after, 0x1) == outcome.carry
            &&& holds(after, 0x800) == outcome.overflow
            &&& holds(after, 0x10) == holds(flags, 0x10)
            &&& if outcome.affects_sign_zero_parity {
                tells_result(after, unsigned(outcome.result as int, bits as nat), bits as nat)
            } else {
                &&& holds(after, 0x40) == holds(flags, 0x40)
                &&& holds(after, 0x80) == holds(flags, 0x80)
                &&& holds(after, 0x4) == holds(flags, 0x4)
            }
            &&& after & !0x8D5 == flags & !0x8D5
        }),
{
    let carried = with_flag(flags, CF, outcome.carry);
    let moved = with_flag(carried, OF, outcome.overflow);
    status_flags_are_apart(flags, CF, outcome.carry);
    status_flags_are_apart(carried, OF, outcome.overflow);
    let low = low_bits(outcome.result as int, bits as nat);
    let sign = with_flag(moved, SF, 2 * low >= pow2(bits as nat));
    let zero = with_flag(sign, ZF, low == 0);
    status_flags_are_apart(moved, SF, 2 * low >= pow2(bits as nat));
    status_flags_are_apart(sign, ZF, low == 0);
    status_flags_are_apart(zero, PF, ones((low % 256) as nat) % 2 == 0);
    assert(szp(moved, outcome.result, bits) == with_flag(zero, PF, ones((low % 256) as nat) % 2 == 0));
}

/// SHL multiplies by a power of two, SHR divides by one without sign and SAR with it, both
/// rounding down. The carry flag is the last bit that left, the overflow flag tells for a
/// single step that the sign changed, and a count of zero changes nothing.
pub proof fn shifts_multiply_and_divide(machine: Machine, instruction: Instruction, operand: u64) -> (flags: u64)
    requires
        is_shift(instruction.mnemonic),
        machine.read_operand0(instruction) == Ok::<u64, CpuError>(operand),
    ensures
        ({
            let n = width_bits(operand_size_spec(instruction, 0)) as nat;
            let count = shift_count(machine, instruction);
            let low = unsigned(operand as int, n);
            let code = instruction.mnemonic;
            let power = pow2(count as nat) as int;
            let value = if code == mnemonic::SHL {
                (low * power) % (pow2(n) as int)
            } else if code == mnemonic::SHR {
                low / power
            } else {
                (signed(operand as int, n) / power) % (pow2(n) as int)
            };
            if count == 0 {
                dispatch_spec(machine, instruction) == (machine, Ok::<Effect, CpuError>(Effect::Done))
            } else {
                &&& dispatch_spec(machine, instruction) == done(
                    machine.set_flags(flags).write_operand0(instruction, value as u64),
                )
                &&& 0 <= value < pow2(n)
                &&& holds(flags, 0x1) == (if code == mnemonic::SHL {
                    count <= n && bit_at(low, n - count)
                } else if code == mnemonic::SHR {
                    bit_at(low, count - 1)
                } else {
                    bit_at(signed(operand as int, n), count - 1)
                })
                &&& holds(flags, 0x800) == (count == 1 && (if code == mnemonic::SHL {
                    bit_at(value, n - 1) != bit_at(low, n - 1)
                } else {
                    code == mnemonic::SHR && bit_at(low, n - 1)
                }))
                &&& tells_result(flags, value, n)
                &&& flags & !0x8D5 == machine.regs.rflags & !0x8D5
            }
        }),
{
    reveal(shifted);
    let bits = width_bits(operand_size_spec(instruction, 0));
    let n = bits as nat;
    let count = shift_count(machine, instruction);
    let outcome = lemma_shifted(machine, instruction, operand);
    let low = unsigned(operand as int, n);
    lemma2_to64();
    lemma_pow2_pos(n);
    lemma_pow2_pos(count as nat);
    lemma_mod_bound(operand as int, pow2(n) as int);
    lemma_small_mod(low as nat, pow2(n));
    if bits < 64 {
        vstd::arithmetic::power2::lemma_pow2_strictly_increases(n, 64);
    }
    assert(0 <= low / (pow2(count as nat) as int) <= low) by {
        vstd::arithmetic::div_mod::lemma_div_is_ordered_by_denominator(low, 1, pow2(count as nat) as int);
        vstd::arithmetic::div_mod::lemma_div_pos_is_pos(low, pow2(count as nat) as int);
    }
    lemma_mod_bound(low * pow2(count as nat), pow2(n) as int);
    lemma_mod_bound(signed(operand as int, n) / (pow2(count as nat) as int), pow2(n) as int);
    if count == 0 {
        0
    } else {
        let found = outcome->0;
        assert(signed(low, n) == signed(operand as int, n));
        assert(outcome == shift_spec(low as u64, count as u64, bits, instruction.mnemonic));
        lemma_flags(machine.regs.rflags, found, bits);
        lemma_small_mod(found.result as nat, pow2(n));
        shift_flags(machine.regs.rflags, found, bits)
    }
}

/// Rotating left puts the bits that leave on the left back in on the right.
proof fn lemma_turned(value: int, steps: nat, width: nat)
    requires
        steps <= width,
        0 <= value < pow2(width),
    ensures
        rotated_left(value, steps, width) == (value * pow2(steps)) % (pow2(width) as int) + value / (pow2(
            (width - steps) as nat,
        ) as int),
        0 <= rotated_left(value, steps, width) < pow2(width),
{
    let rest = (width - steps) as nat;
    let high = pow2(steps) as int;
    let low = pow2(rest) as int;
    lemma_pow2_pos(steps);
    lemma_pow2_pos(rest);
    lemma_pow2_adds(steps, rest);
    vstd::arithmetic::div_mod::lemma_truncate_middle(value, high, low);
    crate::ops::logic::rotations_undo_each_other(value, steps, width);
    assert(high * (value % low) == (value % low) * high) by (nonlinear_arith);
    assert(high * value == value * high) by (nonlinear_arith);
}

/// A number of `width` bits turned left by `steps`: what leaves on the left comes back in
/// on the right.
pub open spec fn turned(value: int, steps: int, width: int) -> int {
    (value * pow2(steps as nat)) % (pow2(width as nat) as int) + value / (pow2((width - steps) as nat) as int)
}

/// ROL and ROR turn the operand, left or right; the carry flag is the bit that came around
/// last, and the overflow flag tells for a single step that the two highest bits, with the
/// carry flag above them for ROL, now differ. The other flags stay.
pub proof fn rotations_turn_the_bits(machine: Machine, instruction: Instruction, operand: u64) -> (flags: u64)
    requires
        instruction.mnemonic == mnemonic::ROL || instruction.mnemonic == mnemonic::ROR,
        machine.read_operand0(instruction) == Ok::<u64, CpuError>(operand),
    ensures
        ({
            let n = width_bits(operand_size_spec(instruction, 0)) as int;
            let count = shift_count(machine, instruction);
            let left = instruction.mnemonic == mnemonic::ROL;
            let value = turned(unsigned(operand as int, n as nat), if left { count % n } else { n - count % n }, n);
            if count == 0 {
                dispatch_spec(machine, instruction) == (machine, Ok::<Effect, CpuError>(Effect::Done))
            } else {
                &&& dispatch_spec(machine, instruction) == done(
                    machine.set_flags(flags).write_operand0(instruction, value as u64),
                )
                &&& 0 <= value < pow2(n as nat)
                &&& holds(flags, 0x1) == (if left { bit_at(value, 0) } else { bit_at(value, n - 1) })
                &&& holds(flags, 0x800) == (count == 1 && bit_at(value, n - 1) != (if left {
                    bit_at(value, 0)
                } else {
                    bit_at(value, n - 2)
                }))
                &&& holds(flags, 0x40) == holds(machine.regs.rflags, 0x40)
                &&& holds(flags, 0x80) == holds(machine.regs.rflags, 0x80)
                &&& holds(flags, 0x4) == holds(machine.regs.rflags, 0x4)
                &&& flags & !0x8D5 == machine.regs.rflags & !0x8D5
            }
        }),
{
    reveal(shifted);
    let bits = width_bits(operand_size_spec(instruction, 0));
    let n = bits as int;
    let count = shift_count(machine, instruction);
    let left = instruction.mnemonic == mnemonic::ROL;
    let outcome = lemma_shifted(machine, instruction, operand);
    let low = unsigned(operand as int, n as nat);
    lemma2_to64();
    lemma_pow2_pos(n as nat);
    lemma_mod_bound(operand as int, pow2(n as nat) as int);
    if bits < 64 {
        vstd::arithmetic::power2::lemma_pow2_strictly_increases(n as nat, 64);
    }
    lemma_mod_bound(count, n);
    lemma_turned(low, (if left { count % n } else { n - count % n }) as nat, n as nat);
    if count == 0 {
        0
    } else {
        let found = outcome->0;
        assert(outcome == rotate_spec(low as u64, count as u64, bits, left));
        lemma_flags(machine.regs.rflags, found, bits);
        shift_flags(machine.regs.rflags, found, bits)
    }
}

/// RCL and RCR turn the operand with the carry flag above it.
pub proof fn carry_rotations_turn_the_bits(machine: Machine, instruction: Instruction, operand: u64) -> (flags: u64)
    requires
        instruction.mnemonic == mnemonic::RCL || instruction.mnemonic == mnemonic::RCR,
        machine.read_operand0(instruction) == Ok::<u64, CpuError>(operand),
    ensures
        ({
            let n = width_bits(operand_size_spec(instruction, 0)) as int;
            let count = shift_count(machine, instruction);
            let steps = count % (n + 1);
            let left = instruction.mnemonic == mnemonic::RCL;
            let whole = unsigned(operand as int, n as nat) + (if holds(machine.regs.rflags, 0x1) {
                pow2(n as nat) as int
            } else {
                0
            });
            let after = turned(whole, if left { steps } else { n + 1 - steps }, n + 1);
            let value = after % (pow2(n as nat) as int);
            if steps == 0 {
                dispatch_spec(machine, instruction) == (machine, Ok::<Effect, CpuError>(Effect::Done))
            } else {
                &&& dispatch_spec(machine, instruction) == done(
                    machine.set_flags(flags).write_operand0(instruction, value as u64),
                )
                &&& holds(flags, 0x1) == (after >= pow2(n as nat))
                &&& holds(flags, 0x800) == (count == 1 && bit_at(value, n - 1) != (if left {
                    after >= pow2(n as nat)
                } else {
                    bit_at(value, n - 2)
                }))
                &&& holds(flags, 0x40) == holds(machine.regs.rflags, 0x40)
                &&& holds(flags, 0x80) == holds(machine.regs.rflags, 0x80)
                &&& holds(flags, 0x4) == holds(machine.regs.rflags, 0x4)
                &&& flags & !0x8D5 == machine.regs.rflags & !0x8D5
            }
        }),
{
    reveal(shifted);
    let bits = width_bits(operand_size_spec(instruction, 0));
    let n = bits as int;
    let width = (n + 1) as nat;
    let count = shift_count(machine, instruction);
    let steps = count % (n + 1);
    let left = instruction.mnemonic == mnemonic::RCL;
    let outcome = lemma_shifted(machine, instruction, operand);
    let low = unsigned(operand as int, n as nat);
    let span = pow2(n as nat) as int;
    lemma2_to64();
    lemma_pow2_pos(n as nat);
    lemma_pow2_unfold(width);
    lemma_mod_bound(operand as int, span);
    lemma_mod_bound(count, n + 1);
    if bits < 64 {
        vstd::arithmetic::power2::lemma_pow2_strictly_increases(n as nat, 64);
    }
    let carry = holds(machine.regs.rflags, CF);
    let whole = low + (if carry { span } else { 0 });
    assert(crate::ops::logic::with_carry_above(low as u64, carry, bits) == whole) by {
        assert(1 * span == span && 0 * span == 0);
    }
    lemma_turned(whole, (if left { steps } else { n + 1 - steps }) as nat, width);
    let after = turned(whole, if left { steps } else { n + 1 - steps }, n + 1);
    lemma_mod_bound(after, span);
    assert((after / span == 1) == (after >= span)) by (nonlinear_arith)
        requires
            0 <= after < 2 * span,
            span > 0,
    ;
    if steps == 0 {
        0
    } else {
        let found = outcome->0;
        assert(outcome == rotate_through_carry_spec(low as u64, count as u64, bits, carry, left));
        lemma_flags(machine.regs.rflags, found, bits);
        shift_flags(machine.regs.rflags, found, bits)
    }
}

proof fn lemma_routed_bits(machine: Machine, instruction: Instruction)
    requires
        instruction.mnemonic == mnemonic::BT || instruction.mnemonic == mnemonic::BTS || instruction.mnemonic
            == mnemonic::BTR || instruction.mnemonic == mnemonic::BTC || instruction.mnemonic == mnemonic::BSF
            || instruction.mnemonic == mnemonic::BSR || instruction.mnemonic == mnemonic::TZCNT || instruction.mnemonic
            == mnemonic::LZCNT,
    ensures
        dispatch_spec(machine, instruction) == done(bit_scan_test_spec(machine, instruction)),
{
    assert(route_of(instruction.mnemonic) == Route::Bits);
    reveal(dispatch_spec);
}

/// What a bit test makes of a value: BTS sets the bit, BTR clears it, BTC turns it over.
pub open spec fn with_bit(code: u16, value: int, place: int) -> int {
    let set = bit_at(value, place);
    let power = pow2(place as nat) as int;
    if code == mnemonic::BTS {
        if set { value } else { value + power }
    } else if code == mnemonic::BTR {
        if set { value - power } else { value }
    } else {
        if set { value - power } else { value + power }
    }
}

/// The bit tests of a register put the tested bit in the carry flag, and BTS, BTR and BTC
/// change that bit alone.
pub proof fn bit_tests_read_one_bit(machine: Machine, instruction: Instruction)
    requires
        instruction.mnemonic == mnemonic::BT || instruction.mnemonic == mnemonic::BTS || instruction.mnemonic
            == mnemonic::BTR || instruction.mnemonic == mnemonic::BTC,
        instruction.op0_kind == op_kind::REGISTER,
        instruction.op1_kind == op_kind::IMMEDIATE8 || instruction.op1_kind == op_kind::REGISTER,
    ensures
        ({
            let size = operand_size_spec(instruction, 0);
            let offset = if instruction.op1_kind == op_kind::IMMEDIATE8 {
                instruction.immediate1
            } else {
                reg_read(machine.regs, instruction.op1_register, size)
            };
            let place = offset as int % (width_bits(size) as int);
            let value = reg_read(machine.regs, instruction.op0_register, size);
            let flags = with_flag(machine.regs.rflags, 0x1, bit_at(value as int, place));
            dispatch_spec(machine, instruction) == done(
                (
                    if instruction.mnemonic == mnemonic::BT {
                        machine.set_flags(flags)
                    } else {
                        machine.set_flags(flags).reg_write(
                            instruction.op0_register,
                            size,
                            with_bit(instruction.mnemonic, value as int, place) as u64,
                        )
                    },
                    Ok(()),
                ),
            )
        }),
{
    lemma_routed_bits(machine, instruction);
}

/// The bit tests of memory with the place in a register reach as far as the register says,
/// up and down from the operand.
pub proof fn bit_tests_reach_around_memory(machine: Machine, instruction: Instruction, physical: u64, value: u64)
    requires
        instruction.mnemonic == mnemonic::BT || instruction.mnemonic == mnemonic::BTS || instruction.mnemonic
            == mnemonic::BTR || instruction.mnemonic == mnemonic::BTC,
        instruction.op0_kind == op_kind::MEMORY,
        instruction.op1_kind == op_kind::REGISTER,
        ({
            let size = operand_size_spec(instruction, 0);
            let width = width_bits(size) as int;
            let offset = signed(reg_read(machine.regs, instruction.op1_register, size) as int, width as nat);
            let bytes = width / 8;
            let linear = ((machine.effective_address(instruction) + (offset / width) * bytes)
                % 0x1_0000_0000_0000_0000) as u64;
            &&& machine.translate(
                linear,
                if instruction.mnemonic == mnemonic::BT { AccessKind::Read } else { AccessKind::Write },
            ) == Ok::<u64, CpuError>(physical)
            &&& load_word(machine.memory, physical, bytes as nat) == Ok::<u64, CpuError>(value)
        }),
    ensures
        ({
            let size = operand_size_spec(instruction, 0);
            let width = width_bits(size) as int;
            let offset = signed(reg_read(machine.regs, instruction.op1_register, size) as int, width as nat);
            let place = offset % width;
            let tested = machine.set_flags(with_flag(machine.regs.rflags, 0x1, bit_at(value as int, place)));
            dispatch_spec(machine, instruction) == done(
                if instruction.mnemonic == mnemonic::BT {
                    (tested, Ok(()))
                } else {
                    tested.store_physical(
                        physical,
                        (width / 8) as nat,
                        with_bit(instruction.mnemonic, value as int, place) as u64 as u128,
                    )
                },
            )
        }),
{
    lemma_routed_bits(machine, instruction);
    let size = operand_size_spec(instruction, 0);
    assert(crate::ops::logic::unit_bytes(size) == (width_bits(size) as int / 8) as nat);
    let width = width_bits(size) as int;
    let offset = signed(reg_read(machine.regs, instruction.op1_register, size) as int, width as nat);
    assert(offset == crate::arith::signed_of(
        reg_read(machine.regs, instruction.op1_register, size) as int,
        width as nat,
    ));
}

/// The lowest set bit: nothing is left below it.
proof fn lemma_lowest(value: nat)
    requires
        value > 0,
    ensures
        value % pow2((lowest_bit(value) + 1) as nat) == pow2(lowest_bit(value)),
        pow2(lowest_bit(value)) <= value,
    decreases value,
{
    let place = lowest_bit(value);
    lemma2_to64();
    if value % 2 == 0 {
        let half = value / 2;
        lemma_lowest(half);
        lemma_pow2_unfold((place + 1) as nat);
        lemma_pow2_unfold(place);
        lemma_pow2_pos(place);
        vstd::arithmetic::div_mod::lemma_truncate_middle(half as int, 2, pow2(place) as int);
        assert(value == 2 * half);
    }
}

/// BSF finds the lowest set bit and BSR the highest one; a zero source sets the zero flag
/// and leaves the target alone.
pub proof fn scans_find_the_outermost_bit(machine: Machine, instruction: Instruction, source: u64) -> (place: nat)
    requires
        instruction.mnemonic == mnemonic::BSF || instruction.mnemonic == mnemonic::BSR,
        machine.read_operand1(instruction) == Ok::<u64, CpuError>(source),
    ensures
        ({
            let flagged = machine.set_flags(with_flag(machine.regs.rflags, 0x40, source == 0));
            let size = operand_size_spec(instruction, 0);
            if source == 0 {
                dispatch_spec(machine, instruction) == (flagged, Ok::<Effect, CpuError>(Effect::Done))
            } else {
                &&& dispatch_spec(machine, instruction) == (
                    flagged.reg_write(instruction.op0_register, size, place as u64),
                    Ok::<Effect, CpuError>(Effect::Done),
                )
                &&& place < 64
                &&& instruction.mnemonic == mnemonic::BSF ==> source as nat % pow2((place + 1) as nat) == pow2(place)
                &&& instruction.mnemonic == mnemonic::BSR ==> pow2(place) <= source < pow2((place + 1) as nat)
            }
        }),
{
    lemma_routed_bits(machine, instruction);
    lemma2_to64();
    if source == 0 {
        0
    } else {
        let place = if instruction.mnemonic == mnemonic::BSF {
            lowest_bit(source as nat)
        } else {
            highest_bit(source as nat)
        };
        lemma_lowest(source as nat);
        crate::ops::float::lemma_top(source as nat);
        if place >= 64 {
            if place > 64 {
                vstd::arithmetic::power2::lemma_pow2_strictly_increases(64, place);
            }
        }
        place
    }
}

/// TZCNT and LZCNT count the zero bits below the lowest set bit and above the highest one,
/// all of them where none is set; the carry flag tells that the source was zero, the zero
/// flag that the count is.
pub proof fn zero_bits_are_counted(machine: Machine, instruction: Instruction, source: u64) -> (count: int)
    requires
        instruction.mnemonic == mnemonic::TZCNT || instruction.mnemonic == mnemonic::LZCNT,
        machine.read_operand1(instruction) == Ok::<u64, CpuError>(source),
    ensures
        ({
            let size = operand_size_spec(instruction, 0);
            let bits = width_bits(size) as int;
            let low = unsigned(source as int, bits as nat);
            let flags = with_flag(with_flag(machine.regs.rflags, 0x1, source == 0), 0x40, count == 0);
            &&& dispatch_spec(machine, instruction) == (
                machine.set_flags(flags).reg_write(instruction.op0_register, size, count as u64),
                Ok::<Effect, CpuError>(Effect::Done),
            )
            &&& low == 0 ==> count == bits
            &&& low > 0 && instruction.mnemonic == mnemonic::TZCNT ==> 0 <= count < bits && low % (pow2(
                (count + 1) as nat,
            ) as int) == pow2(count as nat)
            &&& low > 0 && instruction.mnemonic == mnemonic::LZCNT ==> 0 <= count < bits && pow2(
                (bits - 1 - count) as nat,
            ) <= low < pow2((bits - count) as nat)
        }),
{
    lemma_routed_bits(machine, instruction);
    let bits = width_bits(operand_size_spec(instruction, 0)) as int;
    let low = unsigned(source as int, bits as nat);
    lemma_pow2_pos(bits as nat);
    lemma_mod_bound(source as int, pow2(bits as nat) as int);
    if low == 0 {
        bits
    } else {
        lemma_lowest(low as nat);
        crate::ops::float::lemma_top(low as nat);
        let lowest = lowest_bit(low as nat);
        let highest = highest_bit(low as nat);
        if lowest >= bits {
            if lowest > bits {
                vstd::arithmetic::power2::lemma_pow2_strictly_increases(bits as nat, lowest);
            }
        }
        if highest >= bits {
            if highest > bits {
                vstd::arithmetic::power2::lemma_pow2_strictly_increases(bits as nat, highest);
            }
        }
        if instruction.mnemonic == mnemonic::TZCNT {
            lowest as int
        } else {
            bits - 1 - highest
        }
    }
}

} // verus!
