//! The processor: its state and the errors an instruction can end in.

use vstd::prelude::*;

use crate::arch::registers::{RegisterState, Registers};
use crate::cpu::memory::Memory;

pub mod access_laws;
pub mod interrupts;
pub mod linear;
pub mod memory;
pub mod operands;
pub mod stack;
pub mod step;

verus! {

/// A step that the interpreter refuses to take for the guest.
#[derive(Clone, Copy, PartialEq, Eq, Structural, Debug)]
pub enum GuestFault {
    /// Horizontal arithmetic with a rounding mode or unmasked exceptions.
    HorizontalMode,
    /// Horizontal arithmetic on an infinity or a NaN.
    HorizontalOperand,
    /// An unmasked exception of a packed conversion.
    Conversion,
    /// An unmasked exception of a rounding instruction.
    Rounding,
    /// A floating-point exception that the guest wants as an external interrupt.
    LegacyException,
    /// A memory operand of a size that the floating-point unit does not take.
    OperandSize,
    /// A read or a write of a model-specific register that the interpreter does not know.
    UnknownMsr { register: u32, write: bool },
}

/// Why an instruction did not complete.
#[derive(Clone, Copy, PartialEq, Eq, Structural, Debug)]
pub enum CpuError {
    /// A linear address that the page tables do not let the access reach.
    PageFault { linear: u64, error_code: u32 },
    /// A physical address outside the memory.
    OutOfRange { address: u64 },
    /// An instruction or a form of it that the interpreter does not know.
    UnimplementedInstruction { code: u16, address: u64 },
    /// An interrupt whose gate cannot be used.
    Undeliverable { vector: u8 },
    /// A selector outside its descriptor table.
    BadSelector { selector: u16 },
    /// A step that is refused.
    GuestFault { reason: GuestFault },
    /// The processor is halted for good.
    Halted,
}

/// The last fault or interrupt that was delivered.
#[derive(Clone, Copy, PartialEq, Eq, Structural, Debug)]
pub struct FaultEvent {
    pub vector: u8,
    pub rip: u64,
    pub error_code: u32,
}

/// The floating-point unit. The stack holds the bit patterns of doubles.
pub struct Fpu {
    pub stack: [u64; 8],
    pub top: u8,
    pub control: u16,
    pub status: u16,
}

/// The mathematical reading of the floating-point unit.
#[verifier::ext_equal]
pub struct FpuState {
    pub stack: Seq<u64>,
    pub top: u8,
    pub control: u16,
    pub status: u16,
}

impl View for Fpu {
    type V = FpuState;

    open spec fn view(&self) -> FpuState {
        FpuState { stack: self.stack@, top: self.top, control: self.control, status: self.status }
    }
}

/// One processor with its memory.
pub struct Cpu {
    pub regs: Registers,
    pub memory: Memory,
    pub fpu: Fpu,
    pub mxcsr: u32,
    pub halted: bool,
    pub waiting_for_interrupt: bool,
    pub instruction_start: u64,
    pub exceptions_raised: u64,
    pub last_fault: Option<FaultEvent>,
    pub instructions_retired: u64,
    pub tsc: u64,
    pub kernel_gs_base: u64,
    pub xcr0: u64,
}

/// The mathematical reading of a processor.
#[verifier::ext_equal]
pub struct Machine {
    pub regs: RegisterState,
    pub memory: Seq<u8>,
    pub fpu: FpuState,
    pub mxcsr: u32,
    pub halted: bool,
    pub waiting_for_interrupt: bool,
    pub instruction_start: u64,
    pub exceptions_raised: u64,
    pub last_fault: Option<FaultEvent>,
    pub instructions_retired: u64,
    pub tsc: u64,
    pub kernel_gs_base: u64,
    pub xcr0: u64,
}

impl View for Cpu {
    type V = Machine;

    open spec fn view(&self) -> Machine {
        Machine {
            regs: self.regs@,
            memory: self.memory@,
            fpu: self.fpu@,
            mxcsr: self.mxcsr,
            halted: self.halted,
            waiting_for_interrupt: self.waiting_for_interrupt,
            instruction_start: self.instruction_start,
            exceptions_raised: self.exceptions_raised,
            last_fault: self.last_fault,
            instructions_retired: self.instructions_retired,
            tsc: self.tsc,
            kernel_gs_base: self.kernel_gs_base,
            xcr0: self.xcr0,
        }
    }
}

impl Machine {
    /// The processor after power-on, with `bytes` bytes of cleared memory.
    pub open spec fn initial(bytes: nat) -> Machine {
        Machine {
            regs: Registers::reset_state(),
            memory: Seq::new(bytes, |i: int| 0u8),
            fpu: FpuState { stack: Seq::new(8, |i: int| 0u64), top: 0, control: 0x037F, status: 0 },
            mxcsr: 0x1F80,
            halted: false,
            waiting_for_interrupt: false,
            instruction_start: 0,
            exceptions_raised: 0,
            last_fault: None,
            instructions_retired: 0,
            tsc: 0,
            kernel_gs_base: 0,
            xcr0: 1,
        }
    }

    pub open spec fn set_regs(self, regs: RegisterState) -> Machine {
        Machine { regs, ..self }
    }

    pub open spec fn set_gpr(self, index: int, value: u64) -> Machine {
        self.set_regs(self.regs.set_gpr(index, value))
    }

    pub open spec fn set_xmm(self, index: int, value: u128) -> Machine {
        self.set_regs(self.regs.set_xmm(index, value))
    }

    pub open spec fn set_flags(self, rflags: u64) -> Machine {
        self.set_regs(self.regs.set_flags(rflags))
    }

    pub open spec fn set_rip(self, rip: u64) -> Machine {
        self.set_regs(RegisterState { rip, ..self.regs })
    }

    pub open spec fn set_fpu(self, fpu: FpuState) -> Machine {
        Machine { fpu, ..self }
    }
}

impl Cpu {
    /// A processor after power-on with `bytes` bytes of cleared memory.
    pub fn new(bytes: usize) -> (cpu: Cpu)
        ensures
            cpu@ == Machine::initial(bytes as nat),
    {
        let cpu = Cpu {
            regs: Registers::new(),
            memory: Memory::new(bytes),
            fpu: Fpu { stack: [0; 8], top: 0, control: 0x037F, status: 0 },
            mxcsr: 0x1F80,
            halted: false,
            waiting_for_interrupt: false,
            instruction_start: 0,
            exceptions_raised: 0,
            last_fault: None,
            instructions_retired: 0,
            tsc: 0,
            kernel_gs_base: 0,
            xcr0: 1,
        };
        assert(cpu.fpu.stack@ =~= Seq::new(8, |i: int| 0u64));
        cpu
    }
}

} // verus!
