//! What an instruction leaves to its surroundings: a port access or floating-point
//! arithmetic.

use vstd::prelude::*;

use crate::cpu::{Cpu, CpuError, Machine};
use crate::ops::float::{infinity, is_subnormal, magnitude, size_of_float, subnormal};
use crate::ops::lanes::{fit, glue, glued, lane_total, lanes, split, total_of};
use crate::ops::system::PortAccess;
use crate::ops::xmm::{read_xmm, write_xmm};

verus! {

/// Arithmetic on floating-point numbers, lane by lane, each result rounded once to
/// nearest with ties to even.
#[derive(Clone, Copy, PartialEq, Eq, Structural, Debug)]
pub enum FloatOperation {
    Add,
    Subtract,
    Multiply,
    Divide,
    /// The root of the right operand.
    SquareRoot,
    /// Subtraction in the even lanes, addition in the odd ones.
    Alternate,
}

/// Where a floating-point result goes.
#[derive(Clone, Copy, PartialEq, Eq, Structural, Debug)]
pub enum FloatTarget {
    /// A whole XMM register.
    Vector { register: u8 },
    /// The low lane of an XMM register.
    Scalar { register: u8 },
    /// A whole XMM register, with exceptions recorded in MXCSR.
    Horizontal { register: u8, exceptions: u32 },
    /// A register of the floating-point stack, by its place in the file; then the top
    /// is dropped if `pop` is set.
    Stack { slot: u8, pop: bool },
}

/// Arithmetic that an instruction asks for: the operands as lanes of doubles or
/// singles, as many as `count` says from the lowest on.
#[derive(Clone, Copy, PartialEq, Eq, Structural, Debug)]
pub struct FloatWork {
    pub operation: FloatOperation,
    pub double: bool,
    pub count: u8,
    pub left: u128,
    pub right: u128,
    pub target: FloatTarget,
}

/// How an instruction ended.
#[derive(Clone, Copy, PartialEq, Eq, Structural, Debug)]
pub enum Effect {
    Done,
    Port(PortAccess),
    Float(FloatWork),
}

/// A result as nothing but done.
pub open spec fn done(outcome: (Machine, Result<(), CpuError>)) -> (Machine, Result<Effect, CpuError>) {
    match outcome.1 {
        Ok(unit) => (outcome.0, Ok(Effect::Done)),
        Err(error) => (outcome.0, Err(error)),
    }
}

pub fn finished(result: Result<(), CpuError>) -> (effect: Result<Effect, CpuError>)
    ensures
        effect == match result {
            Ok(unit) => Ok::<Effect, CpuError>(Effect::Done),
            Err(error) => Err(error),
        },
{
    match result {
        Ok(_) => Ok(Effect::Done),
        Err(error) => Err(error),
    }
}

/// The bytes of a lane.
pub open spec fn float_width(double: bool) -> u8 {
    if double {
        8
    } else {
        4
    }
}

/// The low lane of `vector` replaced.
pub open spec fn with_low(vector: u128, value: u128, double: bool) -> u128 {
    if double {
        (vector - vector % 0x1_0000_0000_0000_0000 + value % 0x1_0000_0000_0000_0000) as u128
    } else {
        (vector - vector % 0x1_0000_0000 + value % 0x1_0000_0000) as u128
    }
}

pub fn replace_low(vector: u128, value: u128, double: bool) -> (changed: u128)
    ensures
        changed == with_low(vector, value, double),
{
    if double {
        vector - vector % 0x1_0000_0000_0000_0000 + value % 0x1_0000_0000_0000_0000
    } else {
        vector - vector % 0x1_0000_0000 + value % 0x1_0000_0000
    }
}

/// The lanes with every subnormal one replaced by a zero of its sign, where `flush` is
/// set.
pub open spec fn flushed(vector: u128, double: bool, flush: bool) -> u128 {
    let a = lanes(vector, float_width(double));
    glued(
        Seq::new(
            lane_total(float_width(double)),
            |i: int|
                if flush && is_subnormal(a[i], double) {
                    (a[i] - magnitude(a[i], double)) as u64
                } else {
                    a[i]
                },
        ),
        float_width(double),
    )
}

/// Whether a lane is subnormal.
pub open spec fn any_subnormal(vector: u128, double: bool) -> bool {
    let a = lanes(vector, float_width(double));
    exists|i: int| 0 <= i < a.len() && is_subnormal(#[trigger] a[i], double)
}

/// Whether a lane is infinite.
pub open spec fn any_infinite(vector: u128, double: bool) -> bool {
    let a = lanes(vector, float_width(double));
    exists|i: int| 0 <= i < a.len() && magnitude(#[trigger] a[i], double) == infinity(double)
}

pub fn find_subnormal(vector: u128, double: bool) -> (found: bool)
    ensures
        found == any_subnormal(vector, double),
{
    let width: u8 = if double { 8 } else { 4 };
    let a = split(vector, width);
    let mut index: usize = 0;
    while index < a.len()
        invariant
            index <= a@.len(),
            a@ == lanes(vector, float_width(double)),
            forall|i: int| 0 <= i < index ==> !is_subnormal(#[trigger] a@[i], double),
        decreases a@.len() - index,
    {
        if subnormal(a[index], double) {
            return true;
        }
        index = index + 1;
    }
    false
}

pub fn find_infinite(vector: u128, double: bool) -> (found: bool)
    ensures
        found == any_infinite(vector, double),
{
    let width: u8 = if double { 8 } else { 4 };
    let limit: u64 = if double { 0x7FF0_0000_0000_0000 } else { 0x7F80_0000 };
    let a = split(vector, width);
    let mut index: usize = 0;
    while index < a.len()
        invariant
            index <= a@.len(),
            a@ == lanes(vector, float_width(double)),
            limit == infinity(double),
            forall|i: int| 0 <= i < index ==> magnitude(#[trigger] a@[i], double) != infinity(double),
        decreases a@.len() - index,
    {
        if size_of_float(a[index], double) == limit {
            return true;
        }
        index = index + 1;
    }
    false
}

pub fn flush_lanes(vector: u128, double: bool, flush: bool) -> (changed: u128)
    ensures
        changed == flushed(vector, double, flush),
{
    let width: u8 = if double { 8 } else { 4 };
    let a = split(vector, width);
    let total = total_of(width);
    let mut parts: Vec<u64> = Vec::new();
    let mut index: usize = 0;
    while index < total
        invariant
            index <= total,
            width == float_width(double),
            total == lane_total(width),
            a@.len() == total,
            fit(a@, width),
            parts@.len() == index,
            fit(parts@, width),
            forall|i: int|
                0 <= i < index ==> #[trigger] parts@[i] == (if flush && is_subnormal(a@[i], double) {
                    (a@[i] - magnitude(a@[i], double)) as u64
                } else {
                    a@[i]
                }),
        decreases total - index,
    {
        let lane = a[index];
        assert(a@[index as int] < crate::ops::lanes::lane_span(width));
        let kept = if flush && subnormal(lane, double) {
            lane - size_of_float(lane, double)
        } else {
            lane
        };
        parts.push(kept);
        index = index + 1;
    }
    assert(parts@ =~= Seq::new(
        lane_total(float_width(double)),
        |i: int|
            if flush && is_subnormal(lanes(vector, float_width(double))[i], double) {
                (lanes(vector, float_width(double))[i] - magnitude(lanes(vector, float_width(double))[i], double)) as u64
            } else {
                lanes(vector, float_width(double))[i]
            },
    ));
    glue(&parts, width)
}

/// The exceptions of a horizontal result: overflow where a lane became infinite,
/// underflow where one was flushed, and inexact with either.
pub open spec fn horizontal_exceptions(value: u128, double: bool, flush: bool, inexact: bool) -> u32 {
    let overflow = any_infinite(value, double);
    let underflow = flush && any_subnormal(value, double);
    ((if overflow {
        8int
    } else {
        0
    }) + (if underflow {
        0x10int
    } else {
        0
    }) + (if overflow || underflow || inexact {
        0x20int
    } else {
        0
    })) as u32
}

impl Machine {
    /// The processor after the result of the arithmetic that it asked for.
    pub open spec fn finish_float(self, work: FloatWork, value: u128, inexact: bool) -> Machine {
        match work.target {
            FloatTarget::Vector { register } => self.write_xmm(register, value),
            FloatTarget::Scalar { register } => self.write_xmm(
                register,
                with_low(self.xmm(register), value, work.double),
            ),
            FloatTarget::Horizontal { register, exceptions } => {
                let flush = (self.mxcsr / 0x8000) % 2 == 1;
                let raised = horizontal_exceptions(value, work.double, flush, inexact);
                let after = self.write_xmm(register, flushed(value, work.double, flush));
                Machine { mxcsr: self.mxcsr | exceptions | raised, ..after }
            },
            FloatTarget::Stack { slot, pop } => {
                let fpu = self.fpu;
                let stack = fpu.stack.update(slot as int % 8, (value % 0x1_0000_0000_0000_0000) as u64);
                self.set_fpu(
                    crate::cpu::FpuState {
                        stack,
                        top: if pop {
                            ((fpu.top + 1) % 8) as u8
                        } else {
                            fpu.top
                        },
                        ..fpu
                    },
                )
            },
        }
    }
}

/// Takes the result of the arithmetic that an instruction asked for. `inexact` says
/// whether a lane was rounded.
pub fn complete_float(cpu: &mut Cpu, work: &FloatWork, value: u128, inexact: bool)
    ensures
        final(cpu)@ == old(cpu)@.finish_float(*work, value, inexact),
{
    match work.target {
        FloatTarget::Vector { register } => {
            write_xmm(&mut cpu.regs, register, value);
        },
        FloatTarget::Scalar { register } => {
            let before = read_xmm(&cpu.regs, register);
            write_xmm(&mut cpu.regs, register, replace_low(before, value, work.double));
        },
        FloatTarget::Horizontal { register, exceptions } => {
            let flush = (cpu.mxcsr / 0x8000) % 2 == 1;
            let overflow = find_infinite(value, work.double);
            let underflow = flush && find_subnormal(value, work.double);
            let a: u32 = if overflow { 8 } else { 0 };
            let b: u32 = if underflow { 0x10 } else { 0 };
            let c: u32 = if overflow || underflow || inexact { 0x20 } else { 0 };
            let raised = a + b + c;
            write_xmm(&mut cpu.regs, register, flush_lanes(value, work.double, flush));
            cpu.mxcsr = cpu.mxcsr | exceptions | raised;
        },
        FloatTarget::Stack { slot, pop } => {
            let index = (slot % 8) as usize;
            cpu.fpu.stack[index] = (value % 0x1_0000_0000_0000_0000) as u64;
            if pop {
                cpu.fpu.top = (cpu.fpu.top % 8 + 1) % 8;
            }
        },
    }
}

} // verus!
