//! Pushes and pops at the mode's width.

use vstd::prelude::*;

use crate::arch::registers::{CpuMode, RSP};
use crate::cpu::{Cpu, CpuError, Machine};

verus! {

/// How many bytes a push moves in `mode`.
pub open spec fn stack_width(mode: CpuMode) -> nat {
    match mode {
        CpuMode::Long => 8,
        CpuMode::Protected32 => 4,
        _ => 2,
    }
}

/// `pointer` moved by `delta`, within the bits that the stack uses in `mode`.
pub open spec fn moved_pointer(mode: CpuMode, pointer: u64, delta: int) -> u64 {
    match mode {
        CpuMode::Long => ((pointer + delta) % 0x1_0000_0000_0000_0000) as u64,
        CpuMode::Protected32 => ((pointer + delta) % 0x1_0000_0000) as u64,
        _ => (pointer - pointer % 0x1_0000 + (pointer + delta) % 0x1_0000) as u64,
    }
}

impl Machine {
    /// The linear address that the stack pointer `pointer` stands for.
    pub open spec fn stack_address(self, pointer: u64) -> u64 {
        match self.regs.mode() {
            CpuMode::Long => pointer,
            CpuMode::Protected32 => self.regs.ss.base.wrapping_add((pointer % 0x1_0000_0000) as u64),
            _ => self.regs.ss.base.wrapping_add((pointer % 0x1_0000) as u64),
        }
    }

    /// Pushes `value`; the stack pointer moves only when the write succeeds.
    #[verifier::opaque]
    pub open spec fn push_native(self, value: u64) -> (Machine, Result<(), CpuError>) {
        let width = stack_width(self.regs.mode());
        let pointer = moved_pointer(self.regs.mode(), self.regs.gpr[RSP as int], -(width as int));
        match self.write_linear(self.stack_address(pointer), width, value as u128) {
            (after, Ok(done)) => (after.set_gpr(RSP as int, pointer), Ok(())),
            (after, Err(error)) => (after, Err(error)),
        }
    }

    /// Pops a value; a read that fails leaves everything as it was.
    #[verifier::opaque]
    pub open spec fn pop_native(self) -> (Machine, Result<u64, CpuError>) {
        let width = stack_width(self.regs.mode());
        let pointer = self.regs.gpr[RSP as int];
        match self.read_linear(self.stack_address(pointer), width) {
            Ok(value) => (
                self.set_gpr(RSP as int, moved_pointer(self.regs.mode(), pointer, width as int)),
                Ok(value),
            ),
            Err(error) => (self, Err(error)),
        }
    }
}

fn width_of(mode: CpuMode) -> (width: usize)
    ensures
        width == stack_width(mode),
        width <= 8,
{
    match mode {
        CpuMode::Long => 8,
        CpuMode::Protected32 => 4,
        _ => 2,
    }
}

fn lowered(mode: CpuMode, pointer: u64) -> (moved: u64)
    ensures
        moved == moved_pointer(mode, pointer, -(stack_width(mode) as int)),
{
    match mode {
        CpuMode::Long => pointer.wrapping_sub(8),
        CpuMode::Protected32 => {
            proof {
                assert((pointer - 4) % 0x1_0000_0000 == ((pointer - 4) % 0x1_0000_0000_0000_0000) % 0x1_0000_0000);
            }
            pointer.wrapping_sub(4) % 0x1_0000_0000
        },
        _ => {
            proof {
                assert((pointer - 2) % 0x1_0000 == ((pointer - 2) % 0x1_0000_0000_0000_0000) % 0x1_0000);
            }
            pointer - pointer % 0x1_0000 + pointer.wrapping_sub(2) % 0x1_0000
        },
    }
}

fn raised(mode: CpuMode, pointer: u64) -> (moved: u64)
    ensures
        moved == moved_pointer(mode, pointer, stack_width(mode) as int),
{
    match mode {
        CpuMode::Long => pointer.wrapping_add(8),
        CpuMode::Protected32 => {
            proof {
                assert((pointer + 4) % 0x1_0000_0000 == ((pointer + 4) % 0x1_0000_0000_0000_0000) % 0x1_0000_0000);
            }
            pointer.wrapping_add(4) % 0x1_0000_0000
        },
        _ => {
            proof {
                assert((pointer + 2) % 0x1_0000 == ((pointer + 2) % 0x1_0000_0000_0000_0000) % 0x1_0000);
            }
            pointer - pointer % 0x1_0000 + pointer.wrapping_add(2) % 0x1_0000
        },
    }
}

impl Cpu {
    fn stack_address(&self, pointer: u64) -> (linear: u64)
        ensures
            linear == self@.stack_address(pointer),
    {
        match self.regs.mode() {
            CpuMode::Long => pointer,
            CpuMode::Protected32 => self.regs.ss.base.wrapping_add(pointer % 0x1_0000_0000),
            _ => self.regs.ss.base.wrapping_add(pointer % 0x1_0000),
        }
    }

    pub fn push_native(&mut self, value: u64) -> (result: Result<(), CpuError>)
        ensures
            (final(self)@, result) == old(self)@.push_native(value),
    {
        proof {
            reveal(Machine::push_native);
        }
        let mode = self.regs.mode();
        let pointer = lowered(mode, self.regs.gpr[RSP]);
        let linear = self.stack_address(pointer);
        self.write_linear(linear, width_of(mode), value as u128)?;
        self.regs.set_gpr(RSP, pointer);
        Ok(())
    }

    pub fn pop_native(&mut self) -> (result: Result<u64, CpuError>)
        ensures
            (final(self)@, result) == old(self)@.pop_native(),
    {
        proof {
            reveal(Machine::pop_native);
        }
        let mode = self.regs.mode();
        let pointer = self.regs.gpr[RSP];
        let linear = self.stack_address(pointer);
        let value = self.read_linear(linear, width_of(mode))?;
        self.regs.set_gpr(RSP, raised(mode, pointer));
        Ok(value)
    }
}

} // verus!
