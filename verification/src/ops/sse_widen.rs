//! SSE4.1 packed sign and zero extension from the low source lanes.

use vstd::prelude::*;

use crate::cpu::{Cpu, CpuError, Machine};
use crate::decode::{mnemonic, Instruction};
use crate::ops::packed::{widen, widened};
use crate::ops::sse_integer::{read_strict_source, strict_source};
use crate::ops::xmm::{unknown, write_xmm, xmm_index, xmm_index_spec};

verus! {

/// The lane widths on both sides, and whether the sign is extended.
pub open spec fn widening_of(code: u16) -> Option<(u8, u8, bool)> {
    match code {
        mnemonic::PMOVSXBW => Some((1, 2, true)),
        mnemonic::PMOVSXBD => Some((1, 4, true)),
        mnemonic::PMOVSXBQ => Some((1, 8, true)),
        mnemonic::PMOVSXWD => Some((2, 4, true)),
        mnemonic::PMOVSXWQ => Some((2, 8, true)),
        mnemonic::PMOVSXDQ => Some((4, 8, true)),
        mnemonic::PMOVZXBW => Some((1, 2, false)),
        mnemonic::PMOVZXBD => Some((1, 4, false)),
        mnemonic::PMOVZXBQ => Some((1, 8, false)),
        mnemonic::PMOVZXWD => Some((2, 4, false)),
        mnemonic::PMOVZXWQ => Some((2, 8, false)),
        mnemonic::PMOVZXDQ => Some((4, 8, false)),
        _ => None,
    }
}

pub fn find_widening(code: u16) -> (found: Option<(u8, u8, bool)>)
    ensures
        found == widening_of(code),
        found matches Some((from, to, sign)) ==> (from == 1 || from == 2 || from == 4) && (to == 2 || to == 4 || to == 8)
            && from < to,
{
    match code {
        mnemonic::PMOVSXBW => Some((1, 2, true)),
        mnemonic::PMOVSXBD => Some((1, 4, true)),
        mnemonic::PMOVSXBQ => Some((1, 8, true)),
        mnemonic::PMOVSXWD => Some((2, 4, true)),
        mnemonic::PMOVSXWQ => Some((2, 8, true)),
        mnemonic::PMOVSXDQ => Some((4, 8, true)),
        mnemonic::PMOVZXBW => Some((1, 2, false)),
        mnemonic::PMOVZXBD => Some((1, 4, false)),
        mnemonic::PMOVZXBQ => Some((1, 8, false)),
        mnemonic::PMOVZXWD => Some((2, 4, false)),
        mnemonic::PMOVZXWQ => Some((2, 8, false)),
        mnemonic::PMOVZXDQ => Some((4, 8, false)),
        _ => None,
    }
}

/// The bytes that a widening reads from memory: as many lanes as the result has.
pub open spec fn source_bytes(from: u8, to: u8) -> nat {
    (16u8 / to * from) as nat
}

pub fn bytes_needed(from: u8, to: u8) -> (count: usize)
    requires
        from == 1 || from == 2 || from == 4,
        to == 2 || to == 4 || to == 8,
        from < to,
    ensures
        count == source_bytes(from, to),
        count <= 8,
{
    assert(16u8 / 2u8 == 8 && 16u8 / 4u8 == 4 && 16u8 / 8u8 == 2);
    let lanes: u8 = 16 / to;
    if from == 1 {
        lanes as usize
    } else if from == 2 {
        lanes as usize * 2
    } else {
        lanes as usize * 4
    }
}

/// Extends the low lanes; memory is read no further than they reach.
pub open spec fn execute_spec(machine: Machine, instruction: Instruction) -> (Machine, Result<(), CpuError>) {
    match widening_of(instruction.mnemonic) {
        None => (machine, Err(machine.unknown(instruction))),
        Some((from, to, sign)) => if xmm_index_spec(instruction.op0_register) is None {
            (machine, Err(machine.unknown(instruction)))
        } else {
            match strict_source(machine, instruction, source_bytes(from, to)) {
                Err(error) => (machine, Err(error)),
                Ok(source) => (machine.write_xmm(instruction.op0_register, widened(source, from, to, sign)), Ok(())),
            }
        },
    }
}

pub fn execute(cpu: &mut Cpu, instruction: &Instruction) -> (result: Result<(), CpuError>)
    ensures
        (final(cpu)@, result) == execute_spec(old(cpu)@, *instruction),
{
    match find_widening(instruction.mnemonic) {
        None => Err(unknown(cpu, instruction)),
        Some((from, to, sign)) => {
            if xmm_index(instruction.op0_register).is_none() {
                return Err(unknown(cpu, instruction));
            }
            let count = bytes_needed(from, to);
            let source = read_strict_source(cpu, instruction, count)?;
            write_xmm(&mut cpu.regs, instruction.op0_register, widen(source, from, to, sign));
            Ok(())
        },
    }
}

} // verus!
