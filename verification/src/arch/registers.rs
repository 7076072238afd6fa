//! General, control, segment and vector registers.

use vstd::prelude::*;

use crate::arch::segments::SegmentRegister;
use crate::decode::register;

verus! {

/// Positions of the general registers.
pub const RAX: usize = 0;
pub const RCX: usize = 1;
pub const RDX: usize = 2;
pub const RBX: usize = 3;
pub const RSP: usize = 4;
pub const RBP: usize = 5;
pub const RSI: usize = 6;
pub const RDI: usize = 7;

/// Bits of the flags register.
pub const CF: u64 = 0x1;
pub const PF: u64 = 0x4;
pub const AF: u64 = 0x10;
pub const ZF: u64 = 0x40;
pub const SF: u64 = 0x80;
pub const TF: u64 = 0x100;
pub const IF: u64 = 0x200;
pub const DF: u64 = 0x400;
pub const OF: u64 = 0x800;
pub const VM: u64 = 0x2_0000;
pub const AC: u64 = 0x4_0000;

/// Every defined bit of the flags register.
pub const FLAGS_DEFINED: u64 = 0x3F_7FD7;

/// Bits of CR0.
pub const CR0_PE: u64 = 0x1;
pub const CR0_EM: u64 = 0x4;
pub const CR0_TS: u64 = 0x8;
pub const CR0_NE: u64 = 0x20;
pub const CR0_WP: u64 = 0x1_0000;
pub const CR0_AM: u64 = 0x4_0000;
pub const CR0_PG: u64 = 0x8000_0000;

/// Every defined bit of CR0.
pub const CR0_DEFINED: u64 = 0xE005_003F;

/// Bits of CR4.
pub const CR4_PAE: u64 = 0x20;
pub const CR4_OSFXSR: u64 = 0x200;
pub const CR4_OSXMMEXCPT: u64 = 0x400;
pub const CR4_LA57: u64 = 0x1000;

/// Every defined bit of CR4.
pub const CR4_DEFINED: u64 = 0x37_7FFF;

pub const EFER_LMA: u64 = 0x400;

/// Every defined bit of EFER.
pub const EFER_DEFINED: u64 = 0xD01;

/// What the code segment and the control registers select.
#[derive(Clone, Copy, PartialEq, Eq, Structural, Debug)]
pub enum CpuMode {
    Real,
    Protected16,
    Protected32,
    Long,
}

/// The register file.
pub struct Registers {
    pub gpr: [u64; 16],
    pub xmm: [u128; 16],
    pub rip: u64,
    pub rflags: u64,
    pub cr0: u64,
    pub cr2: u64,
    pub cr3: u64,
    pub cr4: u64,
    pub cr8: u64,
    pub efer: u64,
    pub es: SegmentRegister,
    pub cs: SegmentRegister,
    pub ss: SegmentRegister,
    pub ds: SegmentRegister,
    pub fs: SegmentRegister,
    pub gs: SegmentRegister,
    pub ldtr: SegmentRegister,
    pub tr: SegmentRegister,
    pub tr_base: u64,
    pub gdt_base: u64,
    pub gdt_limit: u32,
    pub idt_base: u64,
    pub idt_limit: u32,
}

/// The mathematical reading of a register file.
#[verifier::ext_equal]
pub struct RegisterState {
    pub gpr: Seq<u64>,
    pub xmm: Seq<u128>,
    pub rip: u64,
    pub rflags: u64,
    pub cr0: u64,
    pub cr2: u64,
    pub cr3: u64,
    pub cr4: u64,
    pub cr8: u64,
    pub efer: u64,
    pub es: SegmentRegister,
    pub cs: SegmentRegister,
    pub ss: SegmentRegister,
    pub ds: SegmentRegister,
    pub fs: SegmentRegister,
    pub gs: SegmentRegister,
    pub ldtr: SegmentRegister,
    pub tr: SegmentRegister,
    pub tr_base: u64,
    pub gdt_base: u64,
    pub gdt_limit: u32,
    pub idt_base: u64,
    pub idt_limit: u32,
}

impl View for Registers {
    type V = RegisterState;

    open spec fn view(&self) -> RegisterState {
        RegisterState {
            gpr: self.gpr@,
            xmm: self.xmm@,
            rip: self.rip,
            rflags: self.rflags,
            cr0: self.cr0,
            cr2: self.cr2,
            cr3: self.cr3,
            cr4: self.cr4,
            cr8: self.cr8,
            efer: self.efer,
            es: self.es,
            cs: self.cs,
            ss: self.ss,
            ds: self.ds,
            fs: self.fs,
            gs: self.gs,
            ldtr: self.ldtr,
            tr: self.tr,
            tr_base: self.tr_base,
            gdt_base: self.gdt_base,
            gdt_limit: self.gdt_limit,
            idt_base: self.idt_base,
            idt_limit: self.idt_limit,
        }
    }
}

/// Whether every bit of `mask` is set in `bits`.
pub open spec fn holds(bits: u64, mask: u64) -> bool {
    bits & mask == mask
}

/// `bits` with the bits of `mask` set or cleared.
pub open spec fn with_flag(bits: u64, mask: u64, on: bool) -> u64 {
    if on {
        bits | mask
    } else {
        bits & !mask
    }
}

pub fn contains(bits: u64, mask: u64) -> (held: bool)
    ensures
        held == holds(bits, mask),
{
    bits & mask == mask
}

pub fn set_flag(bits: u64, mask: u64, on: bool) -> (result: u64)
    ensures
        result == with_flag(bits, mask, on),
{
    if on {
        bits | mask
    } else {
        bits & !mask
    }
}

impl RegisterState {
    pub open spec fn mode(self) -> CpuMode {
        if holds(self.efer, EFER_LMA) && self.cs.long_mode {
            CpuMode::Long
        } else if !holds(self.cr0, CR0_PE) {
            CpuMode::Real
        } else if self.cs.default_32 {
            CpuMode::Protected32
        } else {
            CpuMode::Protected16
        }
    }

    /// The current privilege level.
    pub open spec fn cpl(self) -> u8 {
        if self.mode() == CpuMode::Real {
            0
        } else {
            self.cs.selector.rpl_spec()
        }
    }

    /// The segment register with the decoder's number `number`; DS for any other.
    pub open spec fn segment(self, number: u8) -> SegmentRegister {
        if number == register::ES {
            self.es
        } else if number == register::CS {
            self.cs
        } else if number == register::SS {
            self.ss
        } else if number == register::FS {
            self.fs
        } else if number == register::GS {
            self.gs
        } else {
            self.ds
        }
    }

    /// The base that a data access under the segment prefix `prefix` adds: in long
    /// mode only FS and GS have one.
    pub open spec fn data_base(self, prefix: u8) -> u64 {
        if self.mode() == CpuMode::Long {
            if prefix == register::FS {
                self.fs.base
            } else if prefix == register::GS {
                self.gs.base
            } else {
                0
            }
        } else {
            self.segment(prefix).base
        }
    }

    pub open spec fn set_gpr(self, index: int, value: u64) -> RegisterState {
        RegisterState { gpr: self.gpr.update(index, value), ..self }
    }

    pub open spec fn set_xmm(self, index: int, value: u128) -> RegisterState {
        RegisterState { xmm: self.xmm.update(index, value), ..self }
    }

    pub open spec fn set_flags(self, rflags: u64) -> RegisterState {
        RegisterState { rflags, ..self }
    }
}

impl Registers {
    pub open spec fn reset_state() -> RegisterState {
        RegisterState {
            gpr: Seq::new(16, |i: int| 0u64),
            xmm: Seq::new(16, |i: int| 0u128),
            rip: 0,
            rflags: 2,
            cr0: 0,
            cr2: 0,
            cr3: 0,
            cr4: 0,
            cr8: 0,
            efer: 0,
            es: SegmentRegister::empty(),
            cs: SegmentRegister::empty(),
            ss: SegmentRegister::empty(),
            ds: SegmentRegister::empty(),
            fs: SegmentRegister::empty(),
            gs: SegmentRegister::empty(),
            ldtr: SegmentRegister::empty(),
            tr: SegmentRegister::empty(),
            tr_base: 0,
            gdt_base: 0,
            gdt_limit: 0,
            idt_base: 0,
            idt_limit: 0,
        }
    }

    pub fn new() -> (regs: Registers)
        ensures
            regs@ == Registers::reset_state(),
    {
        let empty: SegmentRegister = Default::default();
        let regs = Registers {
            gpr: [0; 16],
            xmm: [0; 16],
            rip: 0,
            rflags: 2,
            cr0: 0,
            cr2: 0,
            cr3: 0,
            cr4: 0,
            cr8: 0,
            efer: 0,
            es: empty,
            cs: empty,
            ss: empty,
            ds: empty,
            fs: empty,
            gs: empty,
            ldtr: empty,
            tr: empty,
            tr_base: 0,
            gdt_base: 0,
            gdt_limit: 0,
            idt_base: 0,
            idt_limit: 0,
        };
        assert(regs.gpr@ =~= Seq::new(16, |i: int| 0u64));
        assert(regs.xmm@ =~= Seq::new(16, |i: int| 0u128));
        regs
    }

    pub fn mode(&self) -> (mode: CpuMode)
        ensures
            mode == self@.mode(),
    {
        if contains(self.efer, EFER_LMA) && self.cs.long_mode {
            CpuMode::Long
        } else if !contains(self.cr0, CR0_PE) {
            CpuMode::Real
        } else if self.cs.default_32 {
            CpuMode::Protected32
        } else {
            CpuMode::Protected16
        }
    }

    pub fn cpl(&self) -> (cpl: u8)
        ensures
            cpl == self@.cpl(),
    {
        if self.mode() == CpuMode::Real {
            0
        } else {
            self.cs.selector.rpl()
        }
    }

    pub fn segment(&self, number: u8) -> (segment: SegmentRegister)
        ensures
            segment == self@.segment(number),
    {
        if number == register::ES {
            self.es
        } else if number == register::CS {
            self.cs
        } else if number == register::SS {
            self.ss
        } else if number == register::FS {
            self.fs
        } else if number == register::GS {
            self.gs
        } else {
            self.ds
        }
    }

    pub fn data_base(&self, prefix: u8) -> (base: u64)
        ensures
            base == self@.data_base(prefix),
    {
        if self.mode() == CpuMode::Long {
            if prefix == register::FS {
                self.fs.base
            } else if prefix == register::GS {
                self.gs.base
            } else {
                0
            }
        } else {
            self.segment(prefix).base
        }
    }

    pub fn gpr(&self, index: usize) -> (value: u64)
        requires
            index < 16,
        ensures
            value == self@.gpr[index as int],
    {
        self.gpr[index]
    }

    pub fn set_gpr(&mut self, index: usize, value: u64)
        requires
            index < 16,
        ensures
            final(self)@ == old(self)@.set_gpr(index as int, value),
    {
        self.gpr[index] = value;
    }

    pub fn set_xmm(&mut self, index: usize, value: u128)
        requires
            index < 16,
        ensures
            final(self)@ == old(self)@.set_xmm(index as int, value),
    {
        self.xmm[index] = value;
    }

    pub fn rsp(&self) -> (value: u64)
        ensures
            value == self@.gpr[RSP as int],
    {
        self.gpr[RSP]
    }

    pub fn set_rsp(&mut self, value: u64)
        ensures
            final(self)@ == old(self)@.set_gpr(RSP as int, value),
    {
        self.gpr[RSP] = value;
    }
}

} // verus!
