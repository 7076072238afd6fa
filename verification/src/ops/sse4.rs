//! SSE4.1 floating-point rounding without exceptions, and variable-mask blending.

use vstd::prelude::*;

use crate::cpu::{Cpu, CpuError, Machine};
use crate::decode::{op_kind, Instruction};
use crate::ops::lanes::{arrange, arranged, gather_top_bits, top_bits, Arrangement};
use crate::ops::sse3::{plain_source, read_plain_source};
use crate::ops::sse_integer::{blend_of, control_byte, control_of, find_blend};
use crate::ops::sse_round::{find_rounding, round_vector, rounded_vector, rounding_bytes, rounding_of};
use crate::ops::xmm::{read_xmm, unknown, write_xmm};

verus! {

/// MXCSR's rounding mode alone.
pub open spec fn mode_bits(mxcsr: u32) -> u32 {
    ((mxcsr / 0x2000) % 4 * 0x2000) as u32
}

/// What the instruction leaves in its destination.
pub open spec fn result_of(machine: Machine, instruction: Instruction, source: u128) -> Option<u128> {
    let before = machine.xmm(instruction.op0_register);
    if rounding_of(instruction.mnemonic) is Some {
        let (double, packed) = rounding_of(instruction.mnemonic)->0;
        Some(
            rounded_vector(before, source, double, packed, mode_bits(machine.mxcsr), control_byte(instruction)).0,
        )
    } else {
        match blend_of(instruction.mnemonic) {
            Some((width, true)) => Some(
                arranged(
                    Arrangement::Blend { mask: top_bits(machine.regs.xmm[0], width) as u16 },
                    before,
                    source,
                    width,
                ),
            ),
            _ => None,
        }
    }
}

/// The bytes that the instruction reads from memory.
pub open spec fn bytes_read(code: u16) -> nat {
    match rounding_of(code) {
        Some((double, packed)) => rounding_bytes(double, packed),
        None => 16,
    }
}

/// Whether the instruction is one of this family.
pub open spec fn known(code: u16) -> bool {
    rounding_of(code) is Some || (blend_of(code) matches Some((width, by_sign)) && by_sign)
}

pub open spec fn sse4_op_spec(machine: Machine, instruction: Instruction) -> (Machine, Result<(), CpuError>) {
    if !known(instruction.mnemonic) || instruction.op0_kind != op_kind::REGISTER {
        (machine, Err(machine.unknown(instruction)))
    } else {
        match plain_source(machine, instruction, bytes_read(instruction.mnemonic)) {
            Err(error) => (machine, Err(error)),
            Ok(source) => match result_of(machine, instruction, source) {
                Some(vector) => (machine.write_xmm(instruction.op0_register, vector), Ok(())),
                None => (machine, Err(machine.unknown(instruction))),
            },
        }
    }
}

pub fn sse4_op(cpu: &mut Cpu, instruction: &Instruction) -> (result: Result<(), CpuError>)
    ensures
        (final(cpu)@, result) == sse4_op_spec(old(cpu)@, *instruction),
{
    let rounding = find_rounding(instruction.mnemonic);
    let blend = find_blend(instruction.mnemonic);
    if instruction.op0_kind != op_kind::REGISTER {
        return Err(unknown(cpu, instruction));
    }
    let before = read_xmm(&cpu.regs, instruction.op0_register);
    if let Some((double, packed)) = rounding {
        let count: usize = if packed {
            16
        } else if double {
            8
        } else {
            4
        };
        let source = read_plain_source(cpu, instruction, count)?;
        let mode = (cpu.mxcsr / 0x2000) % 4 * 0x2000;
        let (vector, _exceptions) = round_vector(before, source, double, packed, mode, control_of(instruction));
        write_xmm(&mut cpu.regs, instruction.op0_register, vector);
        return Ok(());
    }
    match blend {
        Some((width, true)) => {
            let source = read_plain_source(cpu, instruction, 16)?;
            let mask = gather_top_bits(cpu.regs.xmm[0], width) as u16;
            let vector = arrange(Arrangement::Blend { mask }, before, source, width);
            write_xmm(&mut cpu.regs, instruction.op0_register, vector);
            Ok(())
        },
        _ => Err(unknown(cpu, instruction)),
    }
}

} // verus!
