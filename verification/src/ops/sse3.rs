//! SSE3 horizontal arithmetic and alternating add/subtract instructions, without
//! exceptions.

use vstd::prelude::*;

use crate::cpu::{Cpu, CpuError, Machine};
use crate::decode::{mnemonic, op_kind, Instruction};
use crate::ops::effect::{float_width, Effect, FloatOperation, FloatTarget, FloatWork};
use crate::ops::lanes::lane_total;
use crate::ops::sse_horizontal::{alternate_lanes, take_alternate};
use crate::ops::xmm::{read_operand_vector, read_xmm, unknown};

verus! {

/// The format of the instruction, and its operation on adjacent lanes or, for none, on
/// the lanes of both vectors in turn.
pub open spec fn form_of(code: u16) -> Option<(bool, Option<FloatOperation>)> {
    match code {
        mnemonic::HADDPD => Some((true, Some(FloatOperation::Add))),
        mnemonic::HSUBPD => Some((true, Some(FloatOperation::Subtract))),
        mnemonic::HADDPS => Some((false, Some(FloatOperation::Add))),
        mnemonic::HSUBPS => Some((false, Some(FloatOperation::Subtract))),
        mnemonic::ADDSUBPD => Some((true, None)),
        mnemonic::ADDSUBPS => Some((false, None)),
        _ => None,
    }
}

fn find_form(code: u16) -> (form: Option<(bool, Option<FloatOperation>)>)
    ensures
        form == form_of(code),
{
    match code {
        mnemonic::HADDPD => Some((true, Some(FloatOperation::Add))),
        mnemonic::HSUBPD => Some((true, Some(FloatOperation::Subtract))),
        mnemonic::HADDPS => Some((false, Some(FloatOperation::Add))),
        mnemonic::HSUBPS => Some((false, Some(FloatOperation::Subtract))),
        mnemonic::ADDSUBPD => Some((true, None)),
        mnemonic::ADDSUBPS => Some((false, None)),
        _ => None,
    }
}

/// A vector operand in a register or in memory.
pub open spec fn plain_source(machine: Machine, instruction: Instruction, count: nat) -> Result<u128, CpuError> {
    if instruction.op1_kind == op_kind::REGISTER {
        Ok(machine.xmm(instruction.op1_register))
    } else if instruction.op1_kind == op_kind::MEMORY {
        machine.operand_vector(instruction, count)
    } else {
        Err(machine.unknown(instruction))
    }
}

pub fn read_plain_source(cpu: &Cpu, instruction: &Instruction, count: usize) -> (value: Result<u128, CpuError>)
    requires
        count <= 16,
    ensures
        value == plain_source(cpu@, *instruction, count as nat),
{
    if instruction.op1_kind == op_kind::REGISTER {
        Ok(read_xmm(&cpu.regs, instruction.op1_register))
    } else if instruction.op1_kind == op_kind::MEMORY {
        read_operand_vector(cpu, instruction, count)
    } else {
        Err(unknown(cpu, instruction))
    }
}

/// The arithmetic of a form on its two vectors.
pub open spec fn work_of(form: (bool, Option<FloatOperation>), register: u8, left: u128, right: u128) -> FloatWork {
    let width = float_width(form.0);
    let target = FloatTarget::Vector { register };
    match form.1 {
        Some(operation) => FloatWork {
            operation,
            double: form.0,
            count: lane_total(width) as u8,
            left: alternate_lanes(left, right, width, false),
            right: alternate_lanes(left, right, width, true),
            target,
        },
        None => FloatWork {
            operation: FloatOperation::Alternate,
            double: form.0,
            count: lane_total(width) as u8,
            left,
            right,
            target,
        },
    }
}

pub open spec fn sse3_op_spec(machine: Machine, instruction: Instruction) -> (Machine, Result<Effect, CpuError>) {
    match form_of(instruction.mnemonic) {
        None => (machine, Err(machine.unknown(instruction))),
        Some(form) => if instruction.op0_kind != op_kind::REGISTER {
            (machine, Err(machine.unknown(instruction)))
        } else {
            match plain_source(machine, instruction, 16) {
                Err(error) => (machine, Err(error)),
                Ok(right) => (
                    machine,
                    Ok(
                        Effect::Float(
                            work_of(
                                form,
                                instruction.op0_register,
                                machine.xmm(instruction.op0_register),
                                right,
                            ),
                        ),
                    ),
                ),
            }
        },
    }
}

pub fn sse3_op(cpu: &Cpu, instruction: &Instruction) -> (result: Result<Effect, CpuError>)
    ensures
        (cpu@, result) == sse3_op_spec(cpu@, *instruction),
{
    match find_form(instruction.mnemonic) {
        None => Err(unknown(cpu, instruction)),
        Some((double, operation)) => {
            if instruction.op0_kind != op_kind::REGISTER {
                return Err(unknown(cpu, instruction));
            }
            let left = read_xmm(&cpu.regs, instruction.op0_register);
            let right = read_plain_source(cpu, instruction, 16)?;
            let width: u8 = if double { 8 } else { 4 };
            let count: u8 = if double { 2 } else { 4 };
            let target = FloatTarget::Vector { register: instruction.op0_register };
            let work = match operation {
                Some(operation) => FloatWork {
                    operation,
                    double,
                    count,
                    left: take_alternate(left, right, width, false),
                    right: take_alternate(left, right, width, true),
                    target,
                },
                None => FloatWork { operation: FloatOperation::Alternate, double, count, left, right, target },
            };
            Ok(Effect::Float(work))
        },
    }
}

} // verus!
