//! Operand addresses and memory operands.

use vstd::prelude::*;

use crate::arch::registers::Registers;
use crate::arith::{low_bits, truncate};
use crate::cpu::{Cpu, CpuError, Machine};
use crate::decode::{register, Instruction};

verus! {

/// The position of the general register that `number` is part of; zero for a
/// number that names none.
pub open spec fn register_index_spec(number: u8) -> int {
    if 1 <= number <= 4 {
        number - 1
    } else if 5 <= number <= 20 {
        number - 5
    } else if 21 <= number <= 36 {
        number - 21
    } else if 37 <= number <= 52 {
        number - 37
    } else if 53 <= number <= 68 {
        number - 53
    } else {
        0
    }
}

pub fn register_index(number: u8) -> (index: usize)
    ensures
        index == register_index_spec(number),
        index < 16,
{
    if 1 <= number && number <= 4 {
        number as usize - 1
    } else if 5 <= number && number <= 20 {
        number as usize - 5
    } else if 21 <= number && number <= 36 {
        number as usize - 21
    } else if 37 <= number && number <= 52 {
        number as usize - 37
    } else if 53 <= number && number <= 68 {
        number as usize - 53
    } else {
        0
    }
}

/// How many bits an address formed from the register `number` has.
pub open spec fn address_bits_spec(number: u8) -> u32 {
    if register::AX <= number <= register::R15W {
        16
    } else if register::EAX <= number <= register::R15D || number == register::EIP {
        32
    } else {
        64
    }
}

fn address_bits(number: u8) -> (bits: u32)
    ensures
        bits == address_bits_spec(number),
{
    if register::AX <= number && number <= register::R15W {
        16
    } else if (register::EAX <= number && number <= register::R15D) || number == register::EIP {
        32
    } else {
        64
    }
}

/// The width of the memory operand's address: that of its base, else of its index.
pub open spec fn operand_address_bits(instruction: Instruction) -> u32 {
    if instruction.memory_base != register::NONE {
        address_bits_spec(instruction.memory_base)
    } else {
        address_bits_spec(instruction.memory_index)
    }
}

/// The value that the register `number` adds to an address: none for the
/// instruction pointer, whose displacement is already absolute.
pub open spec fn address_part(gpr: Seq<u64>, number: u8) -> u64 {
    if register::AX <= number <= register::R15 {
        gpr[register_index_spec(number)]
    } else {
        0
    }
}

fn part_of(regs: &Registers, number: u8) -> (value: u64)
    ensures
        value == address_part(regs@.gpr, number),
{
    if register::AX <= number && number <= register::R15 {
        regs.gpr[register_index(number)]
    } else {
        0
    }
}

impl Machine {
    /// The linear address of the memory operand: base, scaled index and
    /// displacement, cut to the address width, on the segment's base.
    pub open spec fn effective_address(self, instruction: Instruction) -> u64 {
        let offset = address_part(self.regs.gpr, instruction.memory_base) + address_part(
            self.regs.gpr,
            instruction.memory_index,
        ) * instruction.memory_scale + instruction.memory_displacement;
        let cut = low_bits(offset, operand_address_bits(instruction) as nat);
        ((self.regs.data_base(instruction.segment_prefix) + cut) % 0x1_0000_0000_0000_0000) as u64
    }

    /// The memory operand, of at most eight bytes.
    pub open spec fn read_operand(self, instruction: Instruction, size: u8) -> Result<u64, CpuError> {
        self.read_linear(self.effective_address(instruction), operand_bytes(size))
    }

    /// Writes the memory operand, of at most eight bytes.
    pub open spec fn write_operand(self, instruction: Instruction, size: u8, value: u64) -> (Machine, Result<(), CpuError>) {
        self.write_linear(self.effective_address(instruction), operand_bytes(size), value as u128)
    }
}

/// How many bytes an integer operand of `size` moves: at most eight.
pub open spec fn operand_bytes(size: u8) -> nat {
    if size > 8 {
        8
    } else {
        size as nat
    }
}

fn bytes_of(size: u8) -> (bytes: usize)
    ensures
        bytes == operand_bytes(size),
        bytes <= 8,
{
    if size > 8 {
        8
    } else {
        size as usize
    }
}

impl Cpu {
    pub fn effective_address(&self, instruction: &Instruction) -> (linear: u64)
        ensures
            linear == self@.effective_address(*instruction),
    {
        let base = part_of(&self.regs, instruction.memory_base);
        let index = part_of(&self.regs, instruction.memory_index);
        proof {
            assert(index * instruction.memory_scale <= 0xFFFF_FFFF_FFFF_FFFF * 0xFF) by (nonlinear_arith)
                requires
                    0 <= index <= 0xFFFF_FFFF_FFFF_FFFF,
                    0 <= instruction.memory_scale <= 0xFF,
            ;
        }
        let sum: u128 = base as u128 + index as u128 * instruction.memory_scale as u128
            + instruction.memory_displacement as u128;
        let bits = if instruction.memory_base != register::NONE {
            address_bits(instruction.memory_base)
        } else {
            address_bits(instruction.memory_index)
        };
        proof {
            crate::arith::lemma_low_bits_of_wide(sum as int, bits as nat, 64);
            vstd::arithmetic::power2::lemma2_to64();
        }
        let low = (sum % 0x1_0000_0000_0000_0000) as u64;
        let cut = truncate(low, bits);
        self.regs.data_base(instruction.segment_prefix).wrapping_add(cut)
    }

    pub fn read_operand(&self, instruction: &Instruction, size: u8) -> (value: Result<u64, CpuError>)
        ensures
            value == self@.read_operand(*instruction, size),
    {
        let linear = self.effective_address(instruction);
        self.read_linear(linear, bytes_of(size))
    }

    pub fn write_operand(&mut self, instruction: &Instruction, size: u8, value: u64) -> (result: Result<(), CpuError>)
        ensures
            (final(self)@, result) == old(self)@.write_operand(*instruction, size, value),
    {
        let linear = self.effective_address(instruction);
        self.write_linear(linear, bytes_of(size), value as u128)
    }
}

} // verus!
