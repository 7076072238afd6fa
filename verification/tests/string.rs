use rish_softvm_core::arch::registers::{CR0_PE, CR0_PG, CR4_PAE, EFER_LMA, RAX, RCX, RDI, RDX, RSI, ZF};
use rish_softvm_core::arch::segments::SegmentRegister;
use rish_softvm_core::cpu::memory::Memory;
use rish_softvm_core::cpu::{Cpu, CpuError};
use rish_softvm_core::decode::Instruction;
use rish_softvm_core::ops::effect::{complete_float, Effect, FloatOperation, FloatWork};

/// An instruction as the library reads it, beside the decoder's own reading.
struct Decoded {
    shown: iced_x86::Instruction,
    read: Instruction,
}

impl std::ops::Deref for Decoded {
    type Target = iced_x86::Instruction;

    fn deref(&self) -> &iced_x86::Instruction {
        &self.shown
    }
}

fn decoded(bitness: u32, bytes: &[u8], ip: u64) -> Decoded {
    Decoded {
        shown: iced_x86::Decoder::with_ip(bitness, bytes, ip, iced_x86::DecoderOptions::NONE).decode(),
        read: rish_softvm_core::decode::decode(bitness, bytes, ip),
    }
}

/// One lane of the arithmetic that an instruction leaves to the host, and whether it was
/// rounded.
fn lane(operation: FloatOperation, index: u32, a: f64, b: f64) -> (f64, bool) {
    let (sum, right) = match operation {
        FloatOperation::Add => (a + b, b),
        FloatOperation::Subtract => (a - b, -b),
        FloatOperation::Multiply => return (a * b, false),
        FloatOperation::Divide => return (a / b, false),
        FloatOperation::SquareRoot => return (b.sqrt(), false),
        FloatOperation::Alternate if index % 2 == 0 => (a - b, -b),
        FloatOperation::Alternate => (a + b, b),
    };
    let part = sum - a;
    (sum, (a - (sum - part)) + (right - part) != 0.0)
}

/// One lane in single precision: what a single holds is rounded once more, which for these
/// operations gives the single that is nearest to the exact result.
fn single_lane(operation: FloatOperation, index: u32, a: f32, b: f32) -> (f32, bool) {
    let (wide, rounded) = lane(operation, index, f64::from(a), f64::from(b));
    (wide as f32, rounded || f64::from(wide as f32) != wide)
}

fn perform(cpu: &mut Cpu, work: &FloatWork) {
    let mut value = 0_u128;
    let mut inexact = false;
    for index in 0..u32::from(work.count) {
        if work.double {
            let shift = index * 64;
            let (a, b) = ((work.left >> shift) as u64, (work.right >> shift) as u64);
            let (result, rounded) = lane(work.operation, index, f64::from_bits(a), f64::from_bits(b));
            value |= u128::from(result.to_bits()) << shift;
            inexact |= rounded;
        } else {
            let shift = index * 32;
            let (a, b) = ((work.left >> shift) as u32, (work.right >> shift) as u32);
            let (result, rounded) = single_lane(work.operation, index, f32::from_bits(a), f32::from_bits(b));
            value |= u128::from(result.to_bits()) << shift;
            inexact |= rounded;
        }
    }
    complete_float(cpu, work, value, inexact);
}

/// Runs instructions to their end, with the arithmetic that they leave to the host.
trait Host {
    fn settle(&mut self, effect: Effect) -> Result<(), CpuError>;
    fn run_step(&mut self) -> Result<(), CpuError>;
    fn run_dispatch(&mut self, instruction: &Decoded) -> Result<(), CpuError>;
}

impl Host for Cpu {
    fn settle(&mut self, effect: Effect) -> Result<(), CpuError> {
        if let Effect::Float(work) = effect {
            perform(self, &work);
        }
        Ok(())
    }

    fn run_step(&mut self) -> Result<(), CpuError> {
        let effect = self.step()?;
        self.settle(effect)
    }

    fn run_dispatch(&mut self, instruction: &Decoded) -> Result<(), CpuError> {
        let effect = self.dispatch(&instruction.read)?;
        self.settle(effect)
    }
}

/// Bits of a register by their mask.
trait Bits {
    fn contains(&self, mask: u64) -> bool;
}

impl Bits for u64 {
    fn contains(&self, mask: u64) -> bool {
        self & mask == mask
    }
}

/// Memory read byte by byte.
trait ReadBytes {
    fn read(&self, address: u64, bytes: &mut [u8]) -> Result<(), CpuError>;
}

impl ReadBytes for Memory {
    fn read(&self, address: u64, bytes: &mut [u8]) -> Result<(), CpuError> {
        for (index, byte) in bytes.iter_mut().enumerate() {
            *byte = self.read_u8(address + index as u64)?;
        }
        Ok(())
    }
}

fn cpu() -> Cpu {
    Cpu::new(1 << 20)
}

fn decode(bitness: u32, bytes: &[u8], ip: u64) -> Decoded {
    decoded(bitness, bytes, ip)
}

fn run(cpu: &mut Cpu, bitness: u32, bytes: &[u8]) -> Result<(), CpuError> {
    cpu.memory.write(0x1000, bytes).unwrap();
    cpu.regs.rip = 0x1000;
    if bitness == 64 {
        cpu.regs.efer |= EFER_LMA;
    }
    cpu.regs.cs = SegmentRegister {
        base: 0,
        long_mode: bitness == 64,
        default_32: bitness == 32,
        code: true,
        limit: u32::MAX,
        granularity: true,
        writable_or_readable: true,
        ..Default::default()
    };
    let instruction = decode(bitness, bytes, 0x1000);
    let size = instruction.len();
    cpu.regs.rip = 0x1000 + size as u64;
    cpu.run_dispatch(&instruction)
}

#[test]
fn movsq_stitches_nonadjacent_physical_pages() {
    let mut cpu = cpu();
    cpu.regs.cr0 |= CR0_PG | CR0_PE;
    cpu.regs.cr4 |= CR4_PAE;
    cpu.regs.cr3 = 0x10000;
    for (address, value) in [
        (0x10000, 0x11003),
        (0x11000, 0x12003),
        (0x12000, 0x13003),
        (0x13008, 0x1003),
        (0x13200, 0x50003),
        (0x13208, 0x60003),
        (0x13210, 0x70003),
        (0x13218, 0x80003),
    ] {
        cpu.memory.write_u64(address, value).unwrap();
    }
    cpu.memory.write(0x50ffc, &[1, 2, 3, 4]).unwrap();
    cpu.memory.write(0x60000, &[5, 6, 7, 8]).unwrap();
    cpu.regs.gpr[RSI] = 0x40ffc;
    cpu.regs.gpr[RDI] = 0x42ffc;
    cpu.regs.gpr[RCX] = 1;
    run(&mut cpu, 64, &[0xf3, 0x48, 0xa5]).unwrap();
    let mut low = [0; 4];
    let mut high = [0; 4];
    cpu.memory.read(0x70ffc, &mut low).unwrap();
    cpu.memory.read(0x80000, &mut high).unwrap();
    assert_eq!(low, [1, 2, 3, 4]);
    assert_eq!(high, [5, 6, 7, 8]);
    cpu.regs.gpr[RSI] = 0x40ffc;
    run(&mut cpu, 64, &[0x48, 0xad]).unwrap(); // lodsq
    assert_eq!(cpu.regs.gpr[RAX], 0x0807_0605_0403_0201);
    cpu.regs.gpr[RDI] = 0x42ffc;
    run(&mut cpu, 64, &[0x48, 0xaf]).unwrap(); // scasq
    assert!(cpu.regs.rflags.contains(ZF));
    cpu.regs.gpr[RSI] = 0x40ffc;
    cpu.regs.gpr[RDI] = 0x42ffc;
    run(&mut cpu, 64, &[0x48, 0xa7]).unwrap(); // cmpsq
    assert!(cpu.regs.rflags.contains(ZF));
    cpu.regs.gpr[RAX] = 0x8877_6655_4433_2211;
    cpu.regs.gpr[RDI] = 0x42ffc;
    run(&mut cpu, 64, &[0x48, 0xab]).unwrap(); // stosq
    cpu.memory.read(0x70ffc, &mut low).unwrap();
    cpu.memory.read(0x80000, &mut high).unwrap();
    assert_eq!(low, [0x11, 0x22, 0x33, 0x44]);
    assert_eq!(high, [0x55, 0x66, 0x77, 0x88]);
}

#[test]
fn unprefixed_string_operations_preserve_count_register() {
    for opcode in [0xa4, 0xaa, 0xac, 0xae, 0xa6] {
        let mut cpu = cpu();
        cpu.regs.gpr[RSI] = 0x5000;
        cpu.regs.gpr[RDI] = 0x6000;
        cpu.regs.gpr[RCX] = 0x1234_5678_9abc_def0;
        run(&mut cpu, 64, &[opcode]).unwrap();
        assert_eq!(cpu.regs.gpr[RCX], 0x1234_5678_9abc_def0);
    }
}

#[test]
fn movsb_copies_and_advances() {
    let mut cpu = cpu();
    cpu.memory.write(0x5000, b"hello").unwrap();
    cpu.regs.set_gpr(RSI, 0x5000);
    cpu.regs.set_gpr(RDI, 0x6000);
    run(&mut cpu, 64, &[0xA4]).unwrap(); // movsb
    assert_eq!(cpu.memory.read_u8(0x6000).unwrap(), b'h');
    assert_eq!(cpu.regs.gpr(RSI), 0x5001);
    assert_eq!(cpu.regs.gpr(RDI), 0x6001);
}

#[test]
fn rep_stosq_fills_memory() {
    let mut cpu = cpu();
    cpu.regs.set_gpr(RAX, 0xABAB_ABAB_ABAB_ABAB);
    cpu.regs.set_gpr(RDI, 0x6000);
    cpu.regs.set_gpr(RCX, 4);
    run(&mut cpu, 64, &[0xF3, 0x48, 0xAB]).unwrap(); // rep stosq
    assert_eq!(cpu.memory.read_u64(0x6000).unwrap(), 0xABAB_ABAB_ABAB_ABAB);
    assert_eq!(cpu.memory.read_u64(0x6018).unwrap(), 0xABAB_ABAB_ABAB_ABAB);
    assert_eq!(cpu.regs.gpr(RDI), 0x6020);
    assert_eq!(cpu.regs.gpr(RCX), 0);
}

#[test]
fn rep_movsb_copies_a_block() {
    let mut cpu = cpu();
    cpu.memory.write(0x5000, b"abcd").unwrap();
    cpu.regs.set_gpr(RSI, 0x5000);
    cpu.regs.set_gpr(RDI, 0x6000);
    cpu.regs.set_gpr(RCX, 4);
    run(&mut cpu, 64, &[0xF3, 0xA4]).unwrap(); // rep movsb
    let mut buffer = [0_u8; 4];
    cpu.memory.read(0x6000, &mut buffer).unwrap();
    assert_eq!(&buffer, b"abcd");
}

#[test]
fn rep_stosd_preserves_rsi() {
    let mut cpu = cpu();
    cpu.regs.set_gpr(RAX, 0x1234_5678);
    cpu.regs.set_gpr(RDI, 0x6000);
    cpu.regs.set_gpr(RSI, 0xABCD);
    cpu.regs.set_gpr(RCX, 4);
    run(&mut cpu, 64, &[0xF3, 0xAB]).unwrap(); // rep stosd
    assert_eq!(cpu.regs.gpr(RDI), 0x6010);
    assert_eq!(cpu.regs.gpr(RSI), 0xABCD);
}

#[test]
fn rep_lodsd_preserves_rdi() {
    let mut cpu = cpu();
    cpu.memory.write_u32(0x5000, 0x42).unwrap();
    cpu.regs.set_gpr(RSI, 0x5000);
    cpu.regs.set_gpr(RDI, 0xABCD);
    cpu.regs.set_gpr(RCX, 2);
    run(&mut cpu, 64, &[0xF3, 0xAD]).unwrap(); // rep lodsd
    assert_eq!(cpu.regs.gpr(RSI), 0x5008);
    assert_eq!(cpu.regs.gpr(RDI), 0xABCD);
}

#[test]
fn mov_byte_from_sil_stores_sil_not_al() {
    let mut cpu = cpu();
    cpu.regs.set_gpr(RAX, 0x6000);
    cpu.regs.set_gpr(RSI, 0x98);
    cpu.regs.set_gpr(RDX, 0x6006);
    // loop: mov [rax], sil; add rax, 2; mov [rax-1], sil; cmp rax, rdx; jne
    cpu.memory
        .write(
            0x1000,
            &[
                0x40, 0x88, 0x30, 0x48, 0x83, 0xC0, 0x02, 0x40, 0x88, 0x70, 0xFF, 0x48, 0x39,
                0xD0, 0x75, 0xF0,
            ],
        )
        .unwrap();
    cpu.regs.rip = 0x1000;
    cpu.regs.efer |= EFER_LMA;
    cpu.regs.cs = SegmentRegister {
        base: 0,
        long_mode: true,
        default_32: false,
        code: true,
        limit: u32::MAX,
        granularity: true,
        writable_or_readable: true,
        ..Default::default()
    };
    // Run 3 loop iterations (15 instructions).
    for _ in 0..15 {
        cpu.run_step().unwrap();
    }
    let mut out = [0_u8; 6];
    cpu.memory.read(0x6000, &mut out).unwrap();
    assert_eq!(&out, &[0x98, 0x98, 0x98, 0x98, 0x98, 0x98]);
}
