//! Scalar and packed SSE4.1 rounding with explicit MXCSR exception handling.

use vstd::prelude::*;

use crate::cpu::{Cpu, CpuError, GuestFault, Machine};
use crate::decode::{mnemonic, Instruction};
use crate::ops::effect::{float_width, replace_low, with_low};
use crate::ops::float::{
    fraction_span, integral, is_finite, is_integral, is_nan, is_subnormal, magnitude, round_integral,
};
use crate::ops::lanes::{glue, glued, lane_total, lanes, split};
use crate::ops::sse_integer::{control_byte, control_of, read_strict_source, strict_source, unmasked};
use crate::ops::xmm::{read_xmm, unknown, write_xmm, xmm_index, xmm_index_spec};

verus! {

/// The format of a rounding instruction, and whether it rounds every lane.
pub open spec fn rounding_of(code: u16) -> Option<(bool, bool)> {
    match code {
        mnemonic::ROUNDSD => Some((true, false)),
        mnemonic::ROUNDSS => Some((false, false)),
        mnemonic::ROUNDPD => Some((true, true)),
        mnemonic::ROUNDPS => Some((false, true)),
        _ => None,
    }
}

pub fn find_rounding(code: u16) -> (found: Option<(bool, bool)>)
    ensures
        found == rounding_of(code),
{
    match code {
        mnemonic::ROUNDSD => Some((true, false)),
        mnemonic::ROUNDSS => Some((false, false)),
        mnemonic::ROUNDPD => Some((true, true)),
        mnemonic::ROUNDPS => Some((false, true)),
        _ => None,
    }
}

/// The rounding mode: the control byte's own, or the one in MXCSR.
pub open spec fn rounding_mode(mxcsr: u32, control: u8) -> u32 {
    if (control / 4) % 2 == 1 {
        (mxcsr / 0x2000) % 4
    } else {
        (control % 4) as u32
    }
}

fn mode_of(mxcsr: u32, control: u8) -> (mode: u32)
    ensures
        mode == rounding_mode(mxcsr, control),
{
    if (control / 4) % 2 == 1 {
        (mxcsr / 0x2000) % 4
    } else {
        (control % 4) as u32
    }
}

/// Whether the quiet bit of a NaN is set.
pub open spec fn is_quiet(lane: u64, double: bool) -> bool {
    (lane / ((fraction_span(double) / 2) as u64)) % 2 == 1
}

/// A lane with subnormal numbers taken as zero where MXCSR says so.
pub open spec fn daz_lane(lane: u64, double: bool, mxcsr: u32) -> u64 {
    if (mxcsr / 0x40) % 2 == 1 && is_subnormal(lane, double) {
        (lane - magnitude(lane, double)) as u64
    } else {
        lane
    }
}

/// One lane rounded to an integer. A NaN becomes quiet.
pub open spec fn rounded_lane(lane: u64, double: bool, mxcsr: u32, control: u8) -> u64 {
    if is_nan(lane, double) {
        if is_quiet(lane, double) {
            lane
        } else {
            (lane + fraction_span(double) / 2) as u64
        }
    } else {
        integral(daz_lane(lane, double, mxcsr), double, rounding_mode(mxcsr, control))
    }
}

/// Invalid for a signalling NaN; inexact for a fraction, unless the control byte
/// suppresses it.
pub open spec fn rounding_exception(lane: u64, double: bool, mxcsr: u32, control: u8) -> u32 {
    let value = daz_lane(lane, double, mxcsr);
    if is_nan(lane, double) {
        if is_quiet(lane, double) {
            0
        } else {
            1
        }
    } else if (control / 8) % 2 == 0 && is_finite(value, double) && !is_integral(value, double) {
        0x20
    } else {
        0
    }
}

pub fn round_lane(lane: u64, double: bool, mxcsr: u32, control: u8) -> (result: (u64, u32))
    requires
        !double ==> lane < 0x1_0000_0000,
    ensures
        result == (rounded_lane(lane, double, mxcsr, control), rounding_exception(lane, double, mxcsr, control)),
        !double ==> result.0 < 0x1_0000_0000,
{
    let half: u64 = if double { 0x8_0000_0000_0000 } else { 0x40_0000 };
    if crate::ops::float::nan(lane, double) {
        return if (lane / half) % 2 == 1 {
            (lane, 0)
        } else {
            (lane + half, 1)
        };
    }
    let value = if (mxcsr / 0x40) % 2 == 1 && crate::ops::float::subnormal(lane, double) {
        lane - crate::ops::float::size_of_float(lane, double)
    } else {
        lane
    };
    let mode = mode_of(mxcsr, control);
    let rounded = round_integral(value, double, mode);
    proof {
        lemma_integral_fits(value, double, mode);
    }
    let mut exception: u32 = 0;
    if (control / 8) % 2 == 0 && crate::ops::float::finite(value, double) {
        let (_size, inexact) = crate::ops::float::round_to_integer(value, double, mode);
        if inexact {
            exception = 0x20;
        }
    }
    (rounded, exception)
}

/// A rounded single is a single.
proof fn lemma_integral_fits(value: u64, double: bool, mode: u32)
    requires
        !double ==> value < 0x1_0000_0000,
    ensures
        !double ==> integral(value, double, mode) < 0x1_0000_0000,
{
    if !double {
        let field = crate::ops::float::exponent(value, false);
        let sign = crate::ops::float::is_negative(value, false);
        if crate::ops::float::bias(false) <= field < 150 {
            crate::ops::float::lemma_rounded_significand(value, false, mode, sign);
        }
    }
}

/// All lanes of a vector rounded.
pub open spec fn rounded_lanes(vector: u128, double: bool, mxcsr: u32, control: u8) -> u128 {
    let a = lanes(vector, float_width(double));
    glued(
        Seq::new(lane_total(float_width(double)), |i: int| rounded_lane(a[i], double, mxcsr, control)),
        float_width(double),
    )
}

/// The exceptions of all lanes.
pub open spec fn rounding_exceptions(vector: u128, double: bool, mxcsr: u32, control: u8) -> u32 {
    let a = lanes(vector, float_width(double));
    if double {
        rounding_exception(a[0], true, mxcsr, control) | rounding_exception(a[1], true, mxcsr, control)
    } else {
        rounding_exception(a[0], false, mxcsr, control) | rounding_exception(a[1], false, mxcsr, control)
            | rounding_exception(a[2], false, mxcsr, control) | rounding_exception(a[3], false, mxcsr, control)
    }
}

fn round_lanes(vector: u128, double: bool, mxcsr: u32, control: u8) -> (result: (u128, u32))
    ensures
        result == (
            rounded_lanes(vector, double, mxcsr, control),
            rounding_exceptions(vector, double, mxcsr, control),
        ),
{
    let width: u8 = if double { 8 } else { 4 };
    let a = split(vector, width);
    if double {
        let (l0, e0) = round_lane(a[0], true, mxcsr, control);
        let (l1, e1) = round_lane(a[1], true, mxcsr, control);
        let parts: Vec<u64> = vec![l0, l1];
        assert(parts@ =~= Seq::new(2, |i: int| rounded_lane(lanes(vector, 8)[i], true, mxcsr, control)));
        (glue(&parts, 8), e0 | e1)
    } else {
        assert(a@[0] < 0x1_0000_0000 && a@[1] < 0x1_0000_0000 && a@[2] < 0x1_0000_0000 && a@[3] < 0x1_0000_0000);
        let (l0, e0) = round_lane(a[0], false, mxcsr, control);
        let (l1, e1) = round_lane(a[1], false, mxcsr, control);
        let (l2, e2) = round_lane(a[2], false, mxcsr, control);
        let (l3, e3) = round_lane(a[3], false, mxcsr, control);
        let parts: Vec<u64> = vec![l0, l1, l2, l3];
        assert(parts@ =~= Seq::new(4, |i: int| rounded_lane(lanes(vector, 4)[i], false, mxcsr, control)));
        (glue(&parts, 4), e0 | e1 | e2 | e3)
    }
}

/// What the instruction leaves in its destination, and the exceptions on the way.
pub open spec fn rounded_vector(
    before: u128,
    source: u128,
    double: bool,
    packed: bool,
    mxcsr: u32,
    control: u8,
) -> (u128, u32) {
    let low = if double {
        (source % 0x1_0000_0000_0000_0000) as u64
    } else {
        (source % 0x1_0000_0000) as u64
    };
    if packed {
        (rounded_lanes(source, double, mxcsr, control), rounding_exceptions(source, double, mxcsr, control))
    } else {
        (
            with_low(before, rounded_lane(low, double, mxcsr, control) as u128, double),
            rounding_exception(low, double, mxcsr, control),
        )
    }
}

pub fn round_vector(before: u128, source: u128, double: bool, packed: bool, mxcsr: u32, control: u8) -> (result: (u128, u32))
    ensures
        result == rounded_vector(before, source, double, packed, mxcsr, control),
{
    if packed {
        return round_lanes(source, double, mxcsr, control);
    }
    let low = if double {
        (source % 0x1_0000_0000_0000_0000) as u64
    } else {
        (source % 0x1_0000_0000) as u64
    };
    let (lane, exception) = round_lane(low, double, mxcsr, control);
    (replace_low(before, lane as u128, double), exception)
}

/// The bytes that the instruction reads from memory.
pub open spec fn rounding_bytes(double: bool, packed: bool) -> nat {
    if packed {
        16
    } else if double {
        8
    } else {
        4
    }
}

/// Rounds; the exceptions stick, and an unmasked one leaves the destination alone.
pub open spec fn execute_spec(machine: Machine, instruction: Instruction) -> (Machine, Result<(), CpuError>) {
    match rounding_of(instruction.mnemonic) {
        None => (machine, Err(machine.unknown(instruction))),
        Some((double, packed)) => if xmm_index_spec(instruction.op0_register) is None {
            (machine, Err(machine.unknown(instruction)))
        } else {
            match strict_source(machine, instruction, rounding_bytes(double, packed)) {
                Err(error) => (machine, Err(error)),
                Ok(source) => {
                    let (vector, exceptions) = rounded_vector(
                        machine.xmm(instruction.op0_register),
                        source,
                        double,
                        packed,
                        machine.mxcsr,
                        control_byte(instruction),
                    );
                    let noted = Machine { mxcsr: machine.mxcsr | exceptions, ..machine };
                    if unmasked(noted.mxcsr, exceptions) {
                        (noted, Err(CpuError::GuestFault { reason: GuestFault::Rounding }))
                    } else {
                        (noted.write_xmm(instruction.op0_register, vector), Ok(()))
                    }
                },
            }
        },
    }
}

pub fn execute(cpu: &mut Cpu, instruction: &Instruction) -> (result: Result<(), CpuError>)
    ensures
        (final(cpu)@, result) == execute_spec(old(cpu)@, *instruction),
{
    match find_rounding(instruction.mnemonic) {
        None => Err(unknown(cpu, instruction)),
        Some((double, packed)) => {
            if xmm_index(instruction.op0_register).is_none() {
                return Err(unknown(cpu, instruction));
            }
            let count: usize = if packed {
                16
            } else if double {
                8
            } else {
                4
            };
            let source = read_strict_source(cpu, instruction, count)?;
            let before = read_xmm(&cpu.regs, instruction.op0_register);
            let control = control_of(instruction);
            let (vector, exceptions) = round_vector(before, source, double, packed, cpu.mxcsr, control);
            cpu.mxcsr = cpu.mxcsr | exceptions;
            if exceptions & !(cpu.mxcsr >> 7) != 0 {
                return Err(CpuError::GuestFault { reason: GuestFault::Rounding });
            }
            write_xmm(&mut cpu.regs, instruction.op0_register, vector);
            Ok(())
        },
    }
}

} // verus!
