//! Segment loads from descriptor tables and the delivery of faults and
//! interrupts through the interrupt table.

use vstd::prelude::*;

use crate::arch::registers::{contains, holds, set_flag, with_flag, RegisterState, EFER_LMA, IF, RSP, TF};
use crate::arch::segments::{Descriptor, SegmentRegister, SegmentSelector};
use crate::arith::{le_bytes, to_le};
use crate::cpu::{Cpu, CpuError, FaultEvent, Machine};

verus! {

pub const VECTOR_DIVIDE_ERROR: u8 = 0;
pub const VECTOR_INVALID_OPCODE: u8 = 6;
pub const VECTOR_DEVICE_NOT_AVAILABLE: u8 = 7;
pub const VECTOR_STACK: u8 = 12;
pub const VECTOR_GENERAL_PROTECTION: u8 = 13;
pub const VECTOR_PAGE_FAULT: u8 = 14;
pub const VECTOR_X87_FLOATING_POINT: u8 = 16;
pub const VECTOR_ALIGNMENT_CHECK: u8 = 17;
pub const VECTOR_SIMD_FLOATING_POINT: u8 = 19;

/// Where an interrupt gate leads.
#[derive(Clone, Copy, PartialEq, Eq, Structural, Debug)]
pub struct Gate {
    pub offset: u64,
    pub selector: SegmentSelector,
    pub present: bool,
    pub interrupt: bool,
}

/// The architectural layout of a long-mode gate.
pub open spec fn gate_of(low: u64, high: u64) -> Gate {
    Gate {
        offset: (low % 0x1_0000 + (low / 0x1_0000_0000_0000) * 0x1_0000 + (high % 0x1_0000_0000)
            * 0x1_0000_0000) as u64,
        selector: SegmentSelector(((low / 0x1_0000) % 0x1_0000) as u16),
        present: (low / 0x8000_0000_0000) % 2 == 1,
        interrupt: (low / 0x100_0000_0000) % 16 == 14,
    }
}

fn read_gate(low: u64, high: u64) -> (gate: Gate)
    ensures
        gate == gate_of(low, high),
{
    Gate {
        offset: low % 0x1_0000 + (low / 0x1_0000_0000_0000) * 0x1_0000 + (high % 0x1_0000_0000)
            * 0x1_0000_0000,
        selector: SegmentSelector(((low / 0x1_0000) % 0x1_0000) as u16),
        present: (low / 0x8000_0000_0000) % 2 == 1,
        interrupt: (low / 0x100_0000_0000) % 16 == 14,
    }
}

/// The stack frame that a delivery leaves, lowest address first.
#[verifier::opaque]
pub open spec fn interrupt_frame(regs: RegisterState, rip: u64, error: Option<u32>) -> Seq<u8> {
    let tail = le_bytes(rip as nat, 8) + le_bytes(regs.cs.selector.0 as nat, 8) + le_bytes(regs.rflags as nat, 8)
        + le_bytes(regs.gpr[RSP as int] as nat, 8) + le_bytes(regs.ss.selector.0 as nat, 8);
    match error {
        Some(code) => le_bytes(code as nat, 8) + tail,
        None => tail,
    }
}

impl Machine {
    /// The segment that `selector` names in its descriptor table.
    #[verifier::opaque]
    pub open spec fn load_segment(self, selector: SegmentSelector) -> Result<SegmentRegister, CpuError> {
        let (base, limit) = if selector.table_spec() == 0 {
            (self.regs.gdt_base, self.regs.gdt_limit as u64)
        } else {
            (self.regs.ldtr.base, self.regs.ldtr.effective_limit_spec())
        };
        let offset = (selector.index_spec() * 8) as u64;
        if offset + 7 > limit {
            Err(CpuError::BadSelector { selector: selector.0 })
        } else {
            match self.linear_load(base.wrapping_add(offset), 8, false) {
                Err(error) => Err(error),
                Ok(raw) => Ok(Descriptor::decode_spec(raw as u64).load_spec(selector)),
            }
        }
    }

    /// The processor with the delivery noted.
    pub open spec fn noted(self, vector: u8, error_code: u32, rip: u64) -> Machine {
        Machine {
            exceptions_raised: self.exceptions_raised.wrapping_add(1),
            last_fault: Some(FaultEvent { vector, rip, error_code }),
            ..self
        }
    }

    /// The entry of `vector` in the interrupt table; none where the table holds no present one.
    #[verifier::opaque]
    pub open spec fn gate(self, vector: u8) -> Result<Gate, CpuError> {
        let offset = (vector * 16) as u64;
        if !holds(self.regs.efer, EFER_LMA) || offset + 15 > self.regs.idt_limit {
            Err(CpuError::Undeliverable { vector })
        } else {
            match self.linear_load(self.regs.idt_base.wrapping_add(offset), 8, false) {
                Err(error) => Err(error),
                Ok(low) => match self.linear_load(self.regs.idt_base.wrapping_add(offset).wrapping_add(8), 8, false) {
                    Err(error) => Err(error),
                    Ok(high) => {
                        let gate = gate_of(low as u64, high as u64);
                        if gate.present {
                            Ok(gate)
                        } else {
                            Err(CpuError::Undeliverable { vector })
                        }
                    },
                },
            }
        }
    }

    /// The top of the stack that a delivery uses: from the task state when the
    /// processor leaves the user level, else the current one.
    #[verifier::opaque]
    pub open spec fn delivery_stack(self) -> Result<u64, CpuError> {
        if self.regs.cpl() == 3 {
            match self.linear_load(self.regs.tr_base.wrapping_add(4), 8, false) {
                Err(error) => Err(error),
                Ok(top) => Ok(top as u64),
            }
        } else {
            Ok(self.regs.gpr[RSP as int])
        }
    }

    /// The processor inside the handler behind `gate`.
    pub open spec fn entered(self, gate: Gate, cs: SegmentRegister, rsp: u64) -> Machine {
        let cleared = with_flag(self.regs.rflags, TF, false);
        let user = self.regs.cpl() == 3;
        Machine {
            regs: RegisterState {
                gpr: self.regs.gpr.update(RSP as int, rsp),
                rip: gate.offset,
                rflags: if gate.interrupt {
                    with_flag(cleared, IF, false)
                } else {
                    cleared
                },
                cs,
                ss: if user {
                    SegmentRegister::empty()
                } else {
                    self.regs.ss
                },
                ..self.regs
            },
            halted: false,
            waiting_for_interrupt: false,
            ..self
        }
    }

    /// Delivers `vector` so that the handler returns to `rip`: notes it, finds the
    /// gate, the handler's segment and the stack, writes the frame and enters.
    #[verifier::opaque]
    pub open spec fn deliver(self, vector: u8, error: Option<u32>, rip: u64) -> (Machine, Result<(), CpuError>) {
        let noted = self.noted(vector, match error {
            Some(code) => code,
            None => 0,
        }, rip);
        match noted.gate(vector) {
            Err(error) => (noted, Err(error)),
            Ok(gate) => match noted.load_segment(gate.selector) {
                Err(error) => (noted, Err(error)),
                Ok(cs) => match noted.delivery_stack() {
                    Err(error) => (noted, Err(error)),
                    Ok(top) => {
                        let frame = interrupt_frame(noted.regs, rip, error);
                        let rsp = ((top - top % 16 - frame.len()) % 0x1_0000_0000_0000_0000) as u64;
                        match noted.linear_store(rsp, frame, false) {
                            (written, Err(error)) => (written, Err(error)),
                            (written, Ok(done)) => (written.entered(gate, cs, rsp), Ok(())),
                        }
                    },
                },
            },
        }
    }

    /// Delivers a fault of the instruction under way, which can be restarted.
    pub open spec fn raise(self, vector: u8, error: Option<u32>) -> (Machine, Result<(), CpuError>) {
        self.deliver(vector, error, self.instruction_start)
    }

    /// Delivers an interrupt that continues after the instruction under way.
    pub open spec fn inject_interrupt(self, vector: u8) -> (Machine, Result<(), CpuError>) {
        self.deliver(vector, None, self.regs.rip)
    }
}

impl Cpu {
    pub fn load_segment_from_table(&self, selector: SegmentSelector) -> (segment: Result<SegmentRegister, CpuError>)
        ensures
            segment == self@.load_segment(selector),
    {
        proof {
            reveal(Machine::load_segment);
        }
        let (base, limit): (u64, u64) = if selector.table() == 0 {
            (self.regs.gdt_base, self.regs.gdt_limit as u64)
        } else {
            (self.regs.ldtr.base, self.regs.ldtr.effective_limit())
        };
        let offset = selector.index() as u64 * 8;
        if offset + 7 > limit {
            return Err(CpuError::BadSelector { selector: selector.0 });
        }
        let raw = self.linear_load(base.wrapping_add(offset), 8, false)?;
        Ok(Descriptor::decode(raw as u64).load(selector))
    }

    fn gate(&self, vector: u8) -> (gate: Result<Gate, CpuError>)
        ensures
            gate == self@.gate(vector),
    {
        proof {
            reveal(Machine::gate);
        }
        let offset = vector as u64 * 16;
        if !contains(self.regs.efer, EFER_LMA) || offset + 15 > self.regs.idt_limit as u64 {
            return Err(CpuError::Undeliverable { vector });
        }
        let address = self.regs.idt_base.wrapping_add(offset);
        let low = self.linear_load(address, 8, false)?;
        let high = self.linear_load(address.wrapping_add(8), 8, false)?;
        let gate = read_gate(low as u64, high as u64);
        if gate.present {
            Ok(gate)
        } else {
            Err(CpuError::Undeliverable { vector })
        }
    }

    fn delivery_stack(&self) -> (top: Result<u64, CpuError>)
        ensures
            top == self@.delivery_stack(),
    {
        proof {
            reveal(Machine::delivery_stack);
        }
        if self.regs.cpl() == 3 {
            let top = self.linear_load(self.regs.tr_base.wrapping_add(4), 8, false)?;
            Ok(top as u64)
        } else {
            Ok(self.regs.gpr[RSP])
        }
    }

    fn frame(&self, rip: u64, error: Option<u32>) -> (bytes: Vec<u8>)
        ensures
            bytes@ == interrupt_frame(self@.regs, rip, error),
            bytes@.len() == 40 || bytes@.len() == 48,
    {
        proof {
            reveal(interrupt_frame);
        }
        let mut bytes: Vec<u8> = Vec::new();
        let mut rip_bytes = to_le(rip as u128, 8);
        let mut cs_bytes = to_le(self.regs.cs.selector.0 as u128, 8);
        let mut flag_bytes = to_le(self.regs.rflags as u128, 8);
        let mut rsp_bytes = to_le(self.regs.gpr[RSP] as u128, 8);
        let mut ss_bytes = to_le(self.regs.ss.selector.0 as u128, 8);
        if let Some(code) = error {
            let mut code_bytes = to_le(code as u128, 8);
            bytes.append(&mut code_bytes);
        }
        bytes.append(&mut rip_bytes);
        bytes.append(&mut cs_bytes);
        bytes.append(&mut flag_bytes);
        bytes.append(&mut rsp_bytes);
        bytes.append(&mut ss_bytes);
        assert(bytes@ =~= interrupt_frame(self@.regs, rip, error));
        bytes
    }

    /// Delivers `vector` so that the handler returns to `rip`.
    pub fn deliver(&mut self, vector: u8, error: Option<u32>, rip: u64) -> (result: Result<(), CpuError>)
        ensures
            (final(self)@, result) == old(self)@.deliver(vector, error, rip),
    {
        proof {
            reveal(Machine::deliver);
        }
        let error_code: u32 = match error {
            Some(code) => code,
            None => 0,
        };
        self.exceptions_raised = self.exceptions_raised.wrapping_add(1);
        self.last_fault = Some(FaultEvent { vector, rip, error_code });
        let gate = self.gate(vector)?;
        let cs = self.load_segment_from_table(gate.selector)?;
        let top = self.delivery_stack()?;
        let frame = self.frame(rip, error);
        let rsp = (top - top % 16).wrapping_sub(frame.len() as u64);
        let user = self.regs.cpl() == 3;
        self.linear_store(rsp, frame.as_slice(), false)?;
        proof {
            lemma_store_keeps_regs(old(self)@.noted(vector, error_code, rip), rsp, frame@, false);
        }
        let cleared = set_flag(self.regs.rflags, TF, false);
        self.regs.rflags = if gate.interrupt {
            set_flag(cleared, IF, false)
        } else {
            cleared
        };
        self.regs.gpr[RSP] = rsp;
        self.regs.rip = gate.offset;
        self.regs.cs = cs;
        if user {
            self.regs.ss = Default::default();
        }
        self.halted = false;
        self.waiting_for_interrupt = false;
        Ok(())
    }

    /// Delivers a fault of the instruction under way.
    pub fn raise(&mut self, vector: u8, error: Option<u32>) -> (result: Result<(), CpuError>)
        ensures
            (final(self)@, result) == old(self)@.raise(vector, error),
    {
        let rip = self.instruction_start;
        self.deliver(vector, error, rip)
    }

    /// Delivers an interrupt that returns to the next instruction.
    pub fn inject_interrupt(&mut self, vector: u8) -> (result: Result<(), CpuError>)
        ensures
            (final(self)@, result) == old(self)@.inject_interrupt(vector),
    {
        let rip = self.regs.rip;
        self.deliver(vector, None, rip)
    }
}

/// A linear write changes memory and nothing else.
pub proof fn lemma_store_keeps_regs(machine: Machine, linear: u64, bytes: Seq<u8>, user: bool)
    ensures
        machine.linear_store(linear, bytes, user).0 == (Machine {
            memory: machine.linear_store(linear, bytes, user).0.memory,
            ..machine
        }),
        machine.linear_store(linear, bytes, user).0.memory.len() == machine.memory.len(),
    decreases bytes.len(),
{
    reveal(Machine::linear_store);
    if bytes.len() > 0 {
        match machine.translate_as(linear, crate::cpu::linear::AccessKind::Write, user) {
            Err(error) => {},
            Ok(physical) => {
                if physical < machine.memory.len() {
                    let next = Machine { memory: machine.memory.update(physical as int, bytes[0]), ..machine };
                    lemma_store_keeps_regs(next, linear.wrapping_add(1), bytes.skip(1), user);
                }
            },
        }
    }
}

} // verus!
