//! Floating-point comparison and arithmetic of the SSE dispatcher.

use vstd::prelude::*;

use crate::arch::registers::{set_flag, with_flag, AF, CF, OF, PF, SF, ZF};
use crate::cpu::{Cpu, CpuError, Machine};
use crate::decode::{mnemonic, Instruction};
use crate::ops::effect::{
    float_width, replace_low, with_low, Effect, FloatOperation, FloatTarget, FloatWork,
};
use crate::ops::float::{compare, float_order, FloatOrder};
use crate::ops::lanes::{fit, glue, glued, lane_span, lane_total, lanes, split, total_of};
use crate::ops::sse_convert::lane_of;

use crate::ops::xmm::{read_scalar_source, read_vector_source, read_xmm, write_xmm};

verus! {

/// The flags of an ordered comparison: zero, parity and carry tell the order, the others
/// are clear.
pub open spec fn order_flags(flags: u64, order: FloatOrder) -> u64 {
    let cleared = with_flag(with_flag(with_flag(flags, OF, false), SF, false), AF, false);
    with_flag(
        with_flag(
            with_flag(cleared, ZF, order == FloatOrder::Equal || order == FloatOrder::Unordered),
            PF,
            order == FloatOrder::Unordered,
        ),
        CF,
        order == FloatOrder::Less || order == FloatOrder::Unordered,
    )
}

fn set_order_flags(flags: u64, order: FloatOrder) -> (changed: u64)
    ensures
        changed == order_flags(flags, order),
{
    let mut changed = set_flag(flags, OF, false);
    changed = set_flag(changed, SF, false);
    changed = set_flag(changed, AF, false);
    changed = set_flag(changed, ZF, order == FloatOrder::Equal || order == FloatOrder::Unordered);
    changed = set_flag(changed, PF, order == FloatOrder::Unordered);
    set_flag(changed, CF, order == FloatOrder::Less || order == FloatOrder::Unordered)
}

/// The low lane of a register.
pub open spec fn low_lane(vector: u128, double: bool) -> u64 {
    lane_of((vector % 0x1_0000_0000_0000_0000) as u64, double)
}

fn take_low(vector: u128, double: bool) -> (lane: u64)
    ensures
        lane == low_lane(vector, double),
{
    let word = (vector % 0x1_0000_0000_0000_0000) as u64;
    if double {
        word
    } else {
        word % 0x1_0000_0000
    }
}

/// UCOMIS and COMIS: an ordered comparison of the low lanes.
pub open spec fn comis_spec(machine: Machine, instruction: Instruction, double: bool) -> (Machine, Result<(), CpuError>) {
    match machine.scalar_source(instruction, double) {
        Err(error) => (machine, Err(error)),
        Ok(raw) => (
            machine.set_flags(
                order_flags(
                    machine.regs.rflags,
                    float_order(
                        low_lane(machine.xmm(instruction.op0_register), double),
                        lane_of(raw, double),
                        double,
                    ),
                ),
            ),
            Ok(()),
        ),
    }
}

pub fn comis(cpu: &mut Cpu, instruction: &Instruction, double: bool) -> (result: Result<(), CpuError>)
    ensures
        (final(cpu)@, result) == comis_spec(old(cpu)@, *instruction, double),
{
    let left = take_low(read_xmm(&cpu.regs, instruction.op0_register), double);
    let raw = read_scalar_source(cpu, instruction, double)?;
    let right = if double { raw } else { raw % 0x1_0000_0000 };
    cpu.regs.rflags = set_order_flags(cpu.regs.rflags, compare(left, right, double));
    Ok(())
}

/// What the low three bits of the control byte ask of the order. The negated forms hold
/// for unordered operands too.
pub open spec fn predicate_holds(order: FloatOrder, predicate: u8) -> bool {
    match predicate % 8 {
        0 => order == FloatOrder::Equal,
        1 => order == FloatOrder::Less,
        2 => order == FloatOrder::Less || order == FloatOrder::Equal,
        3 => order == FloatOrder::Unordered,
        4 => order != FloatOrder::Equal,
        5 => order != FloatOrder::Less,
        6 => order != FloatOrder::Less && order != FloatOrder::Equal,
        _ => order != FloatOrder::Unordered,
    }
}

fn check_predicate(order: FloatOrder, predicate: u8) -> (held: bool)
    ensures
        held == predicate_holds(order, predicate),
{
    match predicate % 8 {
        0 => order == FloatOrder::Equal,
        1 => order == FloatOrder::Less,
        2 => order == FloatOrder::Less || order == FloatOrder::Equal,
        3 => order == FloatOrder::Unordered,
        4 => order != FloatOrder::Equal,
        5 => order != FloatOrder::Less,
        6 => order != FloatOrder::Less && order != FloatOrder::Equal,
        _ => order != FloatOrder::Unordered,
    }
}

/// The upper four predicates are the negations of the lower four.
pub proof fn predicates_come_in_pairs(order: FloatOrder, predicate: u8)
    requires
        predicate < 4,
    ensures
        predicate_holds(order, (predicate + 4) as u8) == !predicate_holds(order, predicate),
{
}

/// What a comparison or selection makes of two lanes.
#[derive(Clone, Copy, PartialEq, Eq, Structural, Debug)]
pub enum FloatPick {
    /// All ones where the predicate holds, else zero.
    Mask { predicate: u8 },
    /// The left lane where it is less, else the right one.
    Min,
    /// The left lane where it is greater, else the right one.
    Max,
}

pub open spec fn picked_lane(pick: FloatPick, left: u64, right: u64, double: bool) -> u64 {
    let order = float_order(left, right, double);
    match pick {
        FloatPick::Mask { predicate } => if predicate_holds(order, predicate) {
            (lane_span(float_width(double)) - 1) as u64
        } else {
            0
        },
        FloatPick::Min => if order == FloatOrder::Less {
            left
        } else {
            right
        },
        FloatPick::Max => if order == FloatOrder::Greater {
            left
        } else {
            right
        },
    }
}

fn pick_lane(pick: FloatPick, left: u64, right: u64, double: bool) -> (lane: u64)
    requires
        left < lane_span(float_width(double)),
        right < lane_span(float_width(double)),
    ensures
        lane == picked_lane(pick, left, right, double),
        lane < lane_span(float_width(double)),
{
    let order = compare(left, right, double);
    match pick {
        FloatPick::Mask { predicate } => if check_predicate(order, predicate) {
            if double {
                0xFFFF_FFFF_FFFF_FFFF
            } else {
                0xFFFF_FFFF
            }
        } else {
            0
        },
        FloatPick::Min => if order == FloatOrder::Less { left } else { right },
        FloatPick::Max => if order == FloatOrder::Greater { left } else { right },
    }
}

/// Every lane picked on its own.
pub open spec fn picked_lanes(pick: FloatPick, left: u128, right: u128, double: bool) -> u128 {
    let width = float_width(double);
    let a = lanes(left, width);
    let b = lanes(right, width);
    glued(Seq::new(lane_total(width), |i: int| picked_lane(pick, a[i], b[i], double)), width)
}

fn pick_lanes(pick: FloatPick, left: u128, right: u128, double: bool) -> (vector: u128)
    ensures
        vector == picked_lanes(pick, left, right, double),
{
    let width: u8 = if double { 8 } else { 4 };
    let a = split(left, width);
    let b = split(right, width);
    let total = total_of(width);
    let mut parts: Vec<u64> = Vec::new();
    let mut index: usize = 0;
    while index < total
        invariant
            index <= total,
            width == float_width(double),
            total == lane_total(width),
            a@.len() == total,
            b@.len() == total,
            fit(a@, width),
            fit(b@, width),
            parts@.len() == index,
            fit(parts@, width),
            forall|i: int| 0 <= i < index ==> #[trigger] parts@[i] == picked_lane(pick, a@[i], b@[i], double),
        decreases total - index,
    {
        assert(a@[index as int] < lane_span(width));
        assert(b@[index as int] < lane_span(width));
        parts.push(pick_lane(pick, a[index], b[index], double));
        index = index + 1;
    }
    assert(parts@ =~= Seq::new(
        lane_total(width),
        |i: int| picked_lane(pick, lanes(left, width)[i], lanes(right, width)[i], double),
    ));
    glue(&parts, width)
}

/// The comparisons and selections: what is picked, the format, and whether only the low
/// lane takes part.
pub open spec fn pick_of(code: u16, control: u8) -> Option<(FloatPick, bool, bool)> {
    match code {
        mnemonic::CMPSD => Some((FloatPick::Mask { predicate: control }, true, true)),
        mnemonic::CMPSS => Some((FloatPick::Mask { predicate: control }, false, true)),
        mnemonic::CMPPD => Some((FloatPick::Mask { predicate: control }, true, false)),
        mnemonic::CMPPS => Some((FloatPick::Mask { predicate: control }, false, false)),
        mnemonic::MINSD => Some((FloatPick::Min, true, true)),
        mnemonic::MAXSD => Some((FloatPick::Max, true, true)),
        mnemonic::MINSS => Some((FloatPick::Min, false, true)),
        mnemonic::MAXSS => Some((FloatPick::Max, false, true)),
        mnemonic::MINPS => Some((FloatPick::Min, false, false)),
        mnemonic::MAXPS => Some((FloatPick::Max, false, false)),
        mnemonic::MINPD => Some((FloatPick::Min, true, false)),
        mnemonic::MAXPD => Some((FloatPick::Max, true, false)),
        _ => None,
    }
}

pub fn find_pick(code: u16, control: u8) -> (found: Option<(FloatPick, bool, bool)>)
    ensures
        found == pick_of(code, control),
{
    match code {
        mnemonic::CMPSD => Some((FloatPick::Mask { predicate: control }, true, true)),
        mnemonic::CMPSS => Some((FloatPick::Mask { predicate: control }, false, true)),
        mnemonic::CMPPD => Some((FloatPick::Mask { predicate: control }, true, false)),
        mnemonic::CMPPS => Some((FloatPick::Mask { predicate: control }, false, false)),
        mnemonic::MINSD => Some((FloatPick::Min, true, true)),
        mnemonic::MAXSD => Some((FloatPick::Max, true, true)),
        mnemonic::MINSS => Some((FloatPick::Min, false, true)),
        mnemonic::MAXSS => Some((FloatPick::Max, false, true)),
        mnemonic::MINPS => Some((FloatPick::Min, false, false)),
        mnemonic::MAXPS => Some((FloatPick::Max, false, false)),
        mnemonic::MINPD => Some((FloatPick::Min, true, false)),
        mnemonic::MAXPD => Some((FloatPick::Max, true, false)),
        _ => None,
    }
}

/// Compares or selects, in the low lane or in all.
pub open spec fn pick_spec(
    machine: Machine,
    instruction: Instruction,
    pick: FloatPick,
    double: bool,
    scalar: bool,
) -> (Machine, Result<(), CpuError>) {
    let target = instruction.op0_register;
    let left = machine.xmm(target);
    if scalar {
        match machine.scalar_source(instruction, double) {
            Err(error) => (machine, Err(error)),
            Ok(raw) => (
                machine.write_xmm(
                    target,
                    with_low(
                        left,
                        picked_lane(pick, low_lane(left, double), lane_of(raw, double), double) as u128,
                        double,
                    ),
                ),
                Ok(()),
            ),
        }
    } else {
        match machine.vector_source(instruction) {
            Err(error) => (machine, Err(error)),
            Ok(right) => (machine.write_xmm(target, picked_lanes(pick, left, right, double)), Ok(())),
        }
    }
}

pub fn run_pick(cpu: &mut Cpu, instruction: &Instruction, pick: FloatPick, double: bool, scalar: bool) -> (result: Result<
    (),
    CpuError,
>)
    ensures
        (final(cpu)@, result) == pick_spec(old(cpu)@, *instruction, pick, double, scalar),
{
    let target = instruction.op0_register;
    let left = read_xmm(&cpu.regs, target);
    if scalar {
        let raw = read_scalar_source(cpu, instruction, double)?;
        let right = if double { raw } else { raw % 0x1_0000_0000 };
        let lane = pick_lane(pick, take_low(left, double), right, double);
        write_xmm(&mut cpu.regs, target, replace_low(left, lane as u128, double));
    } else {
        let right = read_vector_source(cpu, instruction)?;
        write_xmm(&mut cpu.regs, target, pick_lanes(pick, left, right, double));
    }
    Ok(())
}

/// The arithmetic: the operation, the format, and whether only the low lane takes part.
pub open spec fn arithmetic_of(code: u16) -> Option<(FloatOperation, bool, bool)> {
    match code {
        mnemonic::ADDSD => Some((FloatOperation::Add, true, true)),
        mnemonic::SUBSD => Some((FloatOperation::Subtract, true, true)),
        mnemonic::MULSD => Some((FloatOperation::Multiply, true, true)),
        mnemonic::DIVSD => Some((FloatOperation::Divide, true, true)),
        mnemonic::ADDSS => Some((FloatOperation::Add, false, true)),
        mnemonic::SUBSS => Some((FloatOperation::Subtract, false, true)),
        mnemonic::MULSS => Some((FloatOperation::Multiply, false, true)),
        mnemonic::DIVSS => Some((FloatOperation::Divide, false, true)),
        mnemonic::SQRTSD => Some((FloatOperation::SquareRoot, true, true)),
        mnemonic::SQRTSS => Some((FloatOperation::SquareRoot, false, true)),
        mnemonic::ADDPS => Some((FloatOperation::Add, false, false)),
        mnemonic::SUBPS => Some((FloatOperation::Subtract, false, false)),
        mnemonic::MULPS => Some((FloatOperation::Multiply, false, false)),
        mnemonic::DIVPS => Some((FloatOperation::Divide, false, false)),
        mnemonic::ADDPD => Some((FloatOperation::Add, true, false)),
        mnemonic::SUBPD => Some((FloatOperation::Subtract, true, false)),
        mnemonic::MULPD => Some((FloatOperation::Multiply, true, false)),
        mnemonic::DIVPD => Some((FloatOperation::Divide, true, false)),
        _ => None,
    }
}

pub fn find_arithmetic(code: u16) -> (found: Option<(FloatOperation, bool, bool)>)
    ensures
        found == arithmetic_of(code),
{
    match code {
        mnemonic::ADDSD => Some((FloatOperation::Add, true, true)),
        mnemonic::SUBSD => Some((FloatOperation::Subtract, true, true)),
        mnemonic::MULSD => Some((FloatOperation::Multiply, true, true)),
        mnemonic::DIVSD => Some((FloatOperation::Divide, true, true)),
        mnemonic::ADDSS => Some((FloatOperation::Add, false, true)),
        mnemonic::SUBSS => Some((FloatOperation::Subtract, false, true)),
        mnemonic::MULSS => Some((FloatOperation::Multiply, false, true)),
        mnemonic::DIVSS => Some((FloatOperation::Divide, false, true)),
        mnemonic::SQRTSD => Some((FloatOperation::SquareRoot, true, true)),
        mnemonic::SQRTSS => Some((FloatOperation::SquareRoot, false, true)),
        mnemonic::ADDPS => Some((FloatOperation::Add, false, false)),
        mnemonic::SUBPS => Some((FloatOperation::Subtract, false, false)),
        mnemonic::MULPS => Some((FloatOperation::Multiply, false, false)),
        mnemonic::DIVPS => Some((FloatOperation::Divide, false, false)),
        mnemonic::ADDPD => Some((FloatOperation::Add, true, false)),
        mnemonic::SUBPD => Some((FloatOperation::Subtract, true, false)),
        mnemonic::MULPD => Some((FloatOperation::Multiply, true, false)),
        mnemonic::DIVPD => Some((FloatOperation::Divide, true, false)),
        _ => None,
    }
}

/// Asks for the arithmetic on the operands.
pub open spec fn arithmetic_spec(
    machine: Machine,
    instruction: Instruction,
    operation: FloatOperation,
    double: bool,
    scalar: bool,
) -> (Machine, Result<Effect, CpuError>) {
    let register = instruction.op0_register;
    let left = machine.xmm(register);
    if scalar {
        match machine.scalar_source(instruction, double) {
            Err(error) => (machine, Err(error)),
            Ok(raw) => (
                machine,
                Ok(
                    Effect::Float(
                        FloatWork {
                            operation,
                            double,
                            count: 1,
                            left: low_lane(left, double) as u128,
                            right: lane_of(raw, double) as u128,
                            target: FloatTarget::Scalar { register },
                        },
                    ),
                ),
            ),
        }
    } else {
        match machine.vector_source(instruction) {
            Err(error) => (machine, Err(error)),
            Ok(right) => (
                machine,
                Ok(
                    Effect::Float(
                        FloatWork {
                            operation,
                            double,
                            count: lane_total(float_width(double)) as u8,
                            left,
                            right,
                            target: FloatTarget::Vector { register },
                        },
                    ),
                ),
            ),
        }
    }
}

pub fn ask_arithmetic(cpu: &Cpu, instruction: &Instruction, operation: FloatOperation, double: bool, scalar: bool) -> (result:
    Result<Effect, CpuError>)
    ensures
        (cpu@, result) == arithmetic_spec(cpu@, *instruction, operation, double, scalar),
{
    let register = instruction.op0_register;
    let left = read_xmm(&cpu.regs, register);
    if scalar {
        let raw = read_scalar_source(cpu, instruction, double)?;
        let right = if double { raw } else { raw % 0x1_0000_0000 };
        Ok(
            Effect::Float(
                FloatWork {
                    operation,
                    double,
                    count: 1,
                    left: take_low(left, double) as u128,
                    right: right as u128,
                    target: FloatTarget::Scalar { register },
                },
            ),
        )
    } else {
        let right = read_vector_source(cpu, instruction)?;
        let count: u8 = if double { 2 } else { 4 };
        Ok(Effect::Float(FloatWork { operation, double, count, left, right, target: FloatTarget::Vector { register } }))
    }
}

} // verus!
