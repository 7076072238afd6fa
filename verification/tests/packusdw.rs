use rish_softvm_core::arch::registers::{AF, CF, CR0_PG, CR0_WP, CR4_PAE, EFER_LMA, OF, PF, RBX, SF, ZF};
use rish_softvm_core::cpu::memory::Memory;
use rish_softvm_core::cpu::{Cpu, CpuError};
use rish_softvm_core::decode::Instruction;
use rish_softvm_core::ops::effect::{complete_float, Effect, FloatOperation, FloatWork};

const R12: usize = 12;
const R13: usize = 13;

/// An instruction as the library reads it, beside the decoder's own reading.
struct Decoded {
    shown: iced_x86::Instruction,
    read: Instruction,
}

impl std::ops::Deref for Decoded {
    type Target = iced_x86::Instruction;

    fn deref(&self) -> &iced_x86::Instruction {
        &self.shown
    }
}

fn decoded(bitness: u32, bytes: &[u8], ip: u64) -> Decoded {
    Decoded {
        shown: iced_x86::Decoder::with_ip(bitness, bytes, ip, iced_x86::DecoderOptions::NONE).decode(),
        read: rish_softvm_core::decode::decode(bitness, bytes, ip),
    }
}

/// One lane of the arithmetic that an instruction leaves to the host, and whether it was
/// rounded.
fn lane(operation: FloatOperation, index: u32, a: f64, b: f64) -> (f64, bool) {
    let (sum, right) = match operation {
        FloatOperation::Add => (a + b, b),
        FloatOperation::Subtract => (a - b, -b),
        FloatOperation::Multiply => return (a * b, false),
        FloatOperation::Divide => return (a / b, false),
        FloatOperation::SquareRoot => return (b.sqrt(), false),
        FloatOperation::Alternate if index % 2 == 0 => (a - b, -b),
        FloatOperation::Alternate => (a + b, b),
    };
    let part = sum - a;
    (sum, (a - (sum - part)) + (right - part) != 0.0)
}

/// One lane in single precision: what a single holds is rounded once more, which for these
/// operations gives the single that is nearest to the exact result.
fn single_lane(operation: FloatOperation, index: u32, a: f32, b: f32) -> (f32, bool) {
    let (wide, rounded) = lane(operation, index, f64::from(a), f64::from(b));
    (wide as f32, rounded || f64::from(wide as f32) != wide)
}

fn perform(cpu: &mut Cpu, work: &FloatWork) {
    let mut value = 0_u128;
    let mut inexact = false;
    for index in 0..u32::from(work.count) {
        if work.double {
            let shift = index * 64;
            let (a, b) = ((work.left >> shift) as u64, (work.right >> shift) as u64);
            let (result, rounded) = lane(work.operation, index, f64::from_bits(a), f64::from_bits(b));
            value |= u128::from(result.to_bits()) << shift;
            inexact |= rounded;
        } else {
            let shift = index * 32;
            let (a, b) = ((work.left >> shift) as u32, (work.right >> shift) as u32);
            let (result, rounded) = single_lane(work.operation, index, f32::from_bits(a), f32::from_bits(b));
            value |= u128::from(result.to_bits()) << shift;
            inexact |= rounded;
        }
    }
    complete_float(cpu, work, value, inexact);
}

/// Runs instructions to their end, with the arithmetic that they leave to the host.
trait Host {
    fn settle(&mut self, effect: Effect) -> Result<(), CpuError>;
    fn run_step(&mut self) -> Result<(), CpuError>;
    fn run_dispatch(&mut self, instruction: &Decoded) -> Result<(), CpuError>;
}

impl Host for Cpu {
    fn settle(&mut self, effect: Effect) -> Result<(), CpuError> {
        if let Effect::Float(work) = effect {
            perform(self, &work);
        }
        Ok(())
    }

    fn run_step(&mut self) -> Result<(), CpuError> {
        let effect = self.step()?;
        self.settle(effect)
    }

    fn run_dispatch(&mut self, instruction: &Decoded) -> Result<(), CpuError> {
        let effect = self.dispatch(&instruction.read)?;
        self.settle(effect)
    }
}

/// Memory read byte by byte.
trait ReadBytes {
    fn read(&self, address: u64, bytes: &mut [u8]) -> Result<(), CpuError>;
}

impl ReadBytes for Memory {
    fn read(&self, address: u64, bytes: &mut [u8]) -> Result<(), CpuError> {
        for (index, byte) in bytes.iter_mut().enumerate() {
            *byte = self.read_u8(address + index as u64)?;
        }
        Ok(())
    }
}

const CODE: u64 = 0x1000;

fn cpu() -> Cpu {
    let mut cpu = Cpu::new(1 << 20);
    cpu.regs.efer |= EFER_LMA;
    cpu.regs.cs.long_mode = true;
    cpu.regs.rflags = CF | PF | AF | ZF | SF | OF;
    cpu
}

fn dwords(lanes: [i32; 4]) -> u128 {
    u128::from_le_bytes(lanes.map(i32::to_le_bytes).concat().try_into().unwrap())
}

fn words(lanes: [u16; 8]) -> u128 {
    u128::from_le_bytes(lanes.map(u16::to_le_bytes).concat().try_into().unwrap())
}

fn decode(bytes: &[u8]) -> Decoded {
    let instruction = decoded(64, bytes, CODE);
    assert_eq!(instruction.mnemonic(), iced_x86::Mnemonic::Packusdw);
    assert_eq!(instruction.len(), bytes.len());
    instruction
}

fn run(cpu: &mut Cpu, bytes: &[u8]) -> Result<(), CpuError> {
    decode(bytes);
    cpu.memory.write(CODE, bytes).unwrap();
    cpu.regs.rip = CODE;
    cpu.run_step()
}

#[test]
fn packusdw_saturates_signed_dwords_and_appends_source_after_destination() {
    let mut cpu = cpu();
    cpu.regs.xmm[0] = dwords([i32::MIN, -1, 0, 1]);
    cpu.regs.xmm[1] = dwords([65_534, 65_535, 65_536, i32::MAX]);
    let mut xmm = cpu.regs.xmm;
    let gpr = cpu.regs.gpr;
    let flags = cpu.regs.rflags;
    let mxcsr = cpu.mxcsr;

    // Legacy SSE4.1: packusdw xmm0, xmm1.
    run(&mut cpu, &[0x66, 0x0F, 0x38, 0x2B, 0xC1]).unwrap();

    xmm[0] = words([0, 0, 0, 1, 65_534, 65_535, 65_535, 65_535]);
    assert_eq!(
        cpu.regs.xmm, xmm,
        "source and unrelated registers stay unchanged"
    );
    assert_eq!(cpu.regs.gpr, gpr);
    assert_eq!(cpu.regs.rflags, flags);
    assert_eq!(cpu.mxcsr, mxcsr);
    assert_eq!(cpu.regs.rip, CODE + 5);
}

#[test]
fn packusdw_rex_high_registers_and_self_alias_preserve_original_input_lanes() {
    for (destination, source) in [(0, 0), (15, 15), (14, 9), (9, 14), (0, 15), (15, 0)] {
        let mut cpu = cpu();
        cpu.regs.xmm[destination] = dwords([-4, 1, 32_768, 65_535]);
        cpu.regs.xmm[source] = dwords([17, -2, 65_536, i32::MAX]);
        let mut xmm = cpu.regs.xmm;
        let gpr = cpu.regs.gpr;
        let flags = cpu.regs.rflags;
        let rex = 0x40 | ((destination >> 3) as u8 * 4) | (source >> 3) as u8;
        let modrm = 0xC0 | ((destination & 7) as u8 * 8) | (source & 7) as u8;

        run(&mut cpu, &[0x66, rex, 0x0F, 0x38, 0x2B, modrm]).unwrap();

        xmm[destination] = if destination == source {
            words([17, 0, 65_535, 65_535, 17, 0, 65_535, 65_535])
        } else {
            words([0, 1, 32_768, 65_535, 17, 0, 65_535, 65_535])
        };
        assert_eq!(cpu.regs.xmm, xmm, "xmm{destination}, xmm{source}");
        assert_eq!(cpu.regs.gpr, gpr);
        assert_eq!(cpu.regs.rflags, flags);
    }
}

#[test]
fn packusdw_memory_source_uses_rex_sib_and_remains_unchanged() {
    let mut cpu = cpu();
    cpu.regs.set_gpr(R12, 0x2000);
    cpu.regs.set_gpr(R13, 3);
    cpu.regs.xmm[14] = dwords([-1, 10, 65_536, 20]);
    let source = dwords([-2, 30, 65_535, i32::MAX]).to_le_bytes();
    cpu.memory.write(0x2030, &source).unwrap();
    let mut xmm = cpu.regs.xmm;
    let gpr = cpu.regs.gpr;
    let flags = cpu.regs.rflags;

    // packusdw xmm14, [r12 + r13*4 + 0x24]
    run(&mut cpu, &[0x66, 0x47, 0x0F, 0x38, 0x2B, 0x74, 0xAC, 0x24]).unwrap();

    xmm[14] = words([0, 10, 65_535, 20, 0, 30, 65_535, 65_535]);
    assert_eq!(cpu.regs.xmm, xmm);
    assert_eq!(cpu.regs.gpr, gpr);
    assert_eq!(cpu.regs.rflags, flags);
    let mut after = [0; 16];
    cpu.memory.read(0x2030, &mut after).unwrap();
    assert_eq!(after, source);
}

fn paging(cpu: &mut Cpu) {
    cpu.regs.cr0 |= CR0_PG | CR0_WP;
    cpu.regs.cr4 |= CR4_PAE;
    cpu.regs.cr3 = 0x10000;
    cpu.memory.write_u64(0x10000, 0x11003).unwrap();
    cpu.memory.write_u64(0x11000, 0x12003).unwrap();
    cpu.memory.write_u64(0x12000, 0x13003).unwrap();
    cpu.memory.write_u64(0x13000 + 8, 0x1003).unwrap();
    cpu.memory.write_u64(0x13000 + 0x40 * 8, 0x50003).unwrap();
    cpu.regs.set_gpr(RBX, 0x40FF8);
}

#[test]
fn packusdw_cross_page_fault_preserves_destination_before_packing_any_lanes() {
    let mut cpu = cpu();
    paging(&mut cpu);
    cpu.regs.xmm[0] = dwords([-1, 10, 65_536, 20]);
    cpu.memory.write_u64(0x50FF8, u64::MAX).unwrap();
    let xmm = cpu.regs.xmm;
    let gpr = cpu.regs.gpr;
    let flags = cpu.regs.rflags;
    let mxcsr = cpu.mxcsr;
    let instruction = decode(&[0x66, 0x0F, 0x38, 0x2B, 0x03]); // packusdw xmm0, [rbx]

    assert_eq!(
        cpu.run_dispatch(&instruction).unwrap_err(),
        CpuError::PageFault {
            linear: 0x41000,
            error_code: 0,
        }
    );

    assert_eq!(cpu.regs.xmm, xmm);
    assert_eq!(cpu.regs.gpr, gpr);
    assert_eq!(cpu.regs.rflags, flags);
    assert_eq!(cpu.mxcsr, mxcsr);
}

#[test]
fn packusdw_memory_source_reads_both_noncontiguous_physical_pages() {
    let mut cpu = cpu();
    paging(&mut cpu);
    cpu.memory.write_u64(0x13000 + 0x41 * 8, 0x60003).unwrap();
    cpu.regs.xmm[0] = dwords([-1, 10, 65_536, 20]);
    let source = dwords([-2, 30, 65_535, i32::MAX]).to_le_bytes();
    cpu.memory.write(0x50FF8, &source[..8]).unwrap();
    cpu.memory.write(0x60000, &source[8..]).unwrap();

    run(&mut cpu, &[0x66, 0x0F, 0x38, 0x2B, 0x03]).unwrap();

    assert_eq!(
        cpu.regs.xmm[0],
        words([0, 10, 65_535, 20, 0, 30, 65_535, 65_535])
    );
}
