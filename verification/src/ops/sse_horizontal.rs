//! Horizontal SSE3 arithmetic. The operands are prepared here; the sums themselves are
//! asked for.

use vstd::prelude::*;

use crate::cpu::{Cpu, CpuError, GuestFault, Machine};
use crate::decode::{mnemonic, Instruction};
use crate::ops::effect::{
    any_subnormal, find_subnormal, float_width, flush_lanes, flushed, Effect, FloatOperation, FloatTarget, FloatWork,
};
use crate::ops::float::{finite, is_finite};
use crate::ops::lanes::{fit, glue, glued, lane_total, lanes, split, total_of};
use crate::ops::sse_integer::{read_strict_source, strict_source};
use crate::ops::xmm::{read_xmm, unknown, xmm_index, xmm_index_spec};

verus! {

/// Every other lane of both vectors, the left one's first.
pub open spec fn alternate_lanes(left: u128, right: u128, width: u8, odd: bool) -> u128 {
    let pool = lanes(left, width) + lanes(right, width);
    glued(
        Seq::new(
            lane_total(width),
            |i: int|
                pool[2 * i + if odd {
                    1int
                } else {
                    0
                }],
        ),
        width,
    )
}

pub fn take_alternate(left: u128, right: u128, width: u8, odd: bool) -> (vector: u128)
    ensures
        vector == alternate_lanes(left, right, width, odd),
{
    let mut pool = split(left, width);
    let mut tail = split(right, width);
    let ghost all = lanes(left, width) + lanes(right, width);
    assert(fit(all, width)) by {
        assert forall|i: int| 0 <= i < all.len() implies #[trigger] all[i] < crate::ops::lanes::lane_span(width) by {
            if i < pool@.len() {
                assert(pool@[i] < crate::ops::lanes::lane_span(width));
            } else {
                assert(tail@[i - pool@.len()] < crate::ops::lanes::lane_span(width));
            }
        }
    }
    pool.append(&mut tail);
    assert(pool@ =~= all);
    let total = total_of(width);
    let first: usize = if odd { 1 } else { 0 };
    let mut parts: Vec<u64> = Vec::new();
    let mut index: usize = 0;
    while index < total
        invariant
            index <= total,
            total == lane_total(width),
            pool@.len() == 2 * total,
            pool@ == all,
            fit(all, width),
            first == if odd {
                1int
            } else {
                0
            },
            parts@.len() == index,
            fit(parts@, width),
            forall|i: int| 0 <= i < index ==> #[trigger] parts@[i] == all[2 * i + first],
        decreases total - index,
    {
        assert(all[2 * index + first] < crate::ops::lanes::lane_span(width));
        parts.push(pool[2 * index + first]);
        index = index + 1;
    }
    assert(parts@ =~= Seq::new(
        lane_total(width),
        |i: int|
            (lanes(left, width) + lanes(right, width))[2 * i + if odd {
                1int
            } else {
                0
            }],
    ));
    glue(&parts, width)
}

/// Whether every lane is finite.
pub open spec fn all_finite(vector: u128, double: bool) -> bool {
    let a = lanes(vector, float_width(double));
    forall|i: int| 0 <= i < a.len() ==> is_finite(#[trigger] a[i], double)
}

fn check_finite(vector: u128, double: bool) -> (held: bool)
    ensures
        held == all_finite(vector, double),
{
    let width: u8 = if double { 8 } else { 4 };
    let a = split(vector, width);
    let mut index: usize = 0;
    while index < a.len()
        invariant
            index <= a@.len(),
            a@ == lanes(vector, float_width(double)),
            forall|i: int| 0 <= i < index ==> is_finite(#[trigger] a@[i], double),
        decreases a@.len() - index,
    {
        if !finite(a[index], double) {
            assert(!is_finite(a@[index as int], double));
            return false;
        }
        index = index + 1;
    }
    true
}

/// Whether MXCSR rounds to nearest with every exception masked.
pub open spec fn plain_mode(mxcsr: u32) -> bool {
    (mxcsr / 0x2000) % 4 == 0 && (mxcsr / 0x80) % 0x40 == 0x3F
}

/// Whether the instruction works on doubles.
pub open spec fn is_double(code: u16) -> bool {
    code == mnemonic::HADDPD || code == mnemonic::HSUBPD
}

pub open spec fn subtracts(code: u16) -> bool {
    code == mnemonic::HSUBPD || code == mnemonic::HSUBPS
}

/// The sums or differences of adjacent lanes that the operands ask for: subnormal lanes
/// count as zero, or raise the denormal exception.
pub open spec fn horizontal_work(code: u16, register: u8, left: u128, right: u128, flush: bool) -> FloatWork {
    let double = is_double(code);
    let width = float_width(double);
    FloatWork {
        operation: if subtracts(code) {
            FloatOperation::Subtract
        } else {
            FloatOperation::Add
        },
        double,
        count: lane_total(width) as u8,
        left: flushed(alternate_lanes(left, right, width, false), double, flush),
        right: flushed(alternate_lanes(left, right, width, true), double, flush),
        target: FloatTarget::Horizontal {
            register,
            exceptions: if !flush && (any_subnormal(left, double) || any_subnormal(right, double)) {
                2
            } else {
                0
            },
        },
    }
}

fn make_work(code: u16, register: u8, left: u128, right: u128, flush: bool) -> (work: FloatWork)
    ensures
        work == horizontal_work(code, register, left, right, flush),
{
    let double = code == mnemonic::HADDPD || code == mnemonic::HSUBPD;
    let width: u8 = if double { 8 } else { 4 };
    let operation = if code == mnemonic::HSUBPD || code == mnemonic::HSUBPS {
        FloatOperation::Subtract
    } else {
        FloatOperation::Add
    };
    let tiny = find_subnormal(left, double) || find_subnormal(right, double);
    let exceptions: u32 = if !flush && tiny { 2 } else { 0 };
    let count: u8 = if double { 2 } else { 4 };
    FloatWork {
        operation,
        double,
        count,
        left: flush_lanes(take_alternate(left, right, width, false), double, flush),
        right: flush_lanes(take_alternate(left, right, width, true), double, flush),
        target: FloatTarget::Horizontal { register, exceptions },
    }
}

/// Horizontal addition and subtraction on finite numbers in the plain mode.
pub open spec fn execute_spec(machine: Machine, instruction: Instruction) -> (Machine, Result<Effect, CpuError>) {
    let double = is_double(instruction.mnemonic);
    let left = machine.xmm(instruction.op0_register);
    if !plain_mode(machine.mxcsr) {
        (machine, Err(CpuError::GuestFault { reason: GuestFault::HorizontalMode }))
    } else if xmm_index_spec(instruction.op0_register) is None {
        (machine, Err(machine.unknown(instruction)))
    } else {
        match strict_source(machine, instruction, 16) {
            Err(error) => (machine, Err(error)),
            Ok(right) => if !all_finite(left, double) || !all_finite(right, double) {
                (machine, Err(CpuError::GuestFault { reason: GuestFault::HorizontalOperand }))
            } else {
                (
                    machine,
                    Ok(
                        Effect::Float(
                            horizontal_work(
                                instruction.mnemonic,
                                instruction.op0_register,
                                left,
                                right,
                                (machine.mxcsr / 0x40) % 2 == 1,
                            ),
                        ),
                    ),
                )
            },
        }
    }
}

pub fn execute(cpu: &Cpu, instruction: &Instruction) -> (result: Result<Effect, CpuError>)
    ensures
        (cpu@, result) == execute_spec(cpu@, *instruction),
{
    if !((cpu.mxcsr / 0x2000) % 4 == 0 && (cpu.mxcsr / 0x80) % 0x40 == 0x3F) {
        return Err(CpuError::GuestFault { reason: GuestFault::HorizontalMode });
    }
    if xmm_index(instruction.op0_register).is_none() {
        return Err(unknown(cpu, instruction));
    }
    let double = instruction.mnemonic == mnemonic::HADDPD || instruction.mnemonic == mnemonic::HSUBPD;
    let left = read_xmm(&cpu.regs, instruction.op0_register);
    let right = read_strict_source(cpu, instruction, 16)?;
    if !check_finite(left, double) || !check_finite(right, double) {
        return Err(CpuError::GuestFault { reason: GuestFault::HorizontalOperand });
    }
    let flush = (cpu.mxcsr / 0x40) % 2 == 1;
    Ok(Effect::Float(make_work(instruction.mnemonic, instruction.op0_register, left, right, flush)))
}

} // verus!
