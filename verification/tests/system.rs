use rish_softvm_core::arch::registers::{CR0_PE, EFER_LMA, IF, RAX, RBX, RCX, RDX};
use rish_softvm_core::arch::segments::SegmentRegister;
use rish_softvm_core::cpu::{Cpu, CpuError};
use rish_softvm_core::decode::Instruction;
use rish_softvm_core::ops::effect::{complete_float, Effect, FloatOperation, FloatWork};
use rish_softvm_core::ops::system::{finish_port_read, PortAccess, MSR_EFER};

/// An instruction as the library reads it, beside the decoder's own reading.
struct Decoded {
    shown: iced_x86::Instruction,
    read: Instruction,
}

impl std::ops::Deref for Decoded {
    type Target = iced_x86::Instruction;

    fn deref(&self) -> &iced_x86::Instruction {
        &self.shown
    }
}

fn decoded(bitness: u32, bytes: &[u8], ip: u64) -> Decoded {
    Decoded {
        shown: iced_x86::Decoder::with_ip(bitness, bytes, ip, iced_x86::DecoderOptions::NONE).decode(),
        read: rish_softvm_core::decode::decode(bitness, bytes, ip),
    }
}

/// One lane of the arithmetic that an instruction leaves to the host, and whether it was
/// rounded.
fn lane(operation: FloatOperation, index: u32, a: f64, b: f64) -> (f64, bool) {
    let (sum, right) = match operation {
        FloatOperation::Add => (a + b, b),
        FloatOperation::Subtract => (a - b, -b),
        FloatOperation::Multiply => return (a * b, false),
        FloatOperation::Divide => return (a / b, false),
        FloatOperation::SquareRoot => return (b.sqrt(), false),
        FloatOperation::Alternate if index % 2 == 0 => (a - b, -b),
        FloatOperation::Alternate => (a + b, b),
    };
    let part = sum - a;
    (sum, (a - (sum - part)) + (right - part) != 0.0)
}

/// One lane in single precision: what a single holds is rounded once more, which for these
/// operations gives the single that is nearest to the exact result.
fn single_lane(operation: FloatOperation, index: u32, a: f32, b: f32) -> (f32, bool) {
    let (wide, rounded) = lane(operation, index, f64::from(a), f64::from(b));
    (wide as f32, rounded || f64::from(wide as f32) != wide)
}

fn perform(cpu: &mut Cpu, work: &FloatWork) {
    let mut value = 0_u128;
    let mut inexact = false;
    for index in 0..u32::from(work.count) {
        if work.double {
            let shift = index * 64;
            let (a, b) = ((work.left >> shift) as u64, (work.right >> shift) as u64);
            let (result, rounded) = lane(work.operation, index, f64::from_bits(a), f64::from_bits(b));
            value |= u128::from(result.to_bits()) << shift;
            inexact |= rounded;
        } else {
            let shift = index * 32;
            let (a, b) = ((work.left >> shift) as u32, (work.right >> shift) as u32);
            let (result, rounded) = single_lane(work.operation, index, f32::from_bits(a), f32::from_bits(b));
            value |= u128::from(result.to_bits()) << shift;
            inexact |= rounded;
        }
    }
    complete_float(cpu, work, value, inexact);
}

/// Runs instructions to their end, with the arithmetic that they leave to the host.
trait Host {
    fn settle(&mut self, effect: Effect) -> Result<(), CpuError>;
    fn run_step(&mut self) -> Result<(), CpuError>;
    fn run_dispatch(&mut self, instruction: &Decoded) -> Result<(), CpuError>;
}

impl Host for Cpu {
    fn settle(&mut self, effect: Effect) -> Result<(), CpuError> {
        if let Effect::Float(work) = effect {
            perform(self, &work);
        }
        Ok(())
    }

    fn run_step(&mut self) -> Result<(), CpuError> {
        let effect = self.step()?;
        self.settle(effect)
    }

    fn run_dispatch(&mut self, instruction: &Decoded) -> Result<(), CpuError> {
        let effect = self.dispatch(&instruction.read)?;
        self.settle(effect)
    }
}

/// Bits of a register by their mask.
trait Bits {
    fn contains(&self, mask: u64) -> bool;
}

impl Bits for u64 {
    fn contains(&self, mask: u64) -> bool {
        self & mask == mask
    }
}

fn cpu() -> Cpu {
    Cpu::new(1 << 20)
}

fn decode(bitness: u32, bytes: &[u8], ip: u64) -> Decoded {
    decoded(bitness, bytes, ip)
}

fn run(cpu: &mut Cpu, bitness: u32, bytes: &[u8]) -> Result<(), CpuError> {
    cpu.memory.write(0x1000, bytes).unwrap();
    cpu.regs.rip = 0x1000;
    if bitness == 64 {
        cpu.regs.efer |= EFER_LMA;
    }
    cpu.regs.cs = SegmentRegister {
        base: 0,
        long_mode: bitness == 64,
        default_32: bitness == 32,
        code: true,
        limit: u32::MAX,
        granularity: true,
        writable_or_readable: true,
        ..Default::default()
    };
    let instruction = decode(bitness, bytes, 0x1000);
    let size = instruction.len();
    cpu.regs.rip = 0x1000 + size as u64;
    cpu.run_dispatch(&instruction)
}

#[test]
fn cpuid_leaves_vendor_and_features() {
    let mut cpu = cpu();
    cpu.regs.set_gpr(RAX, 0);
    run(&mut cpu, 64, &[0x0F, 0xA2]).unwrap();
    assert_eq!(
        cpu.regs.gpr(RBX),
        u32::from_le_bytes(*b"Genu") as u64
    );
    cpu.regs.set_gpr(RAX, 1);
    run(&mut cpu, 64, &[0x0F, 0xA2]).unwrap();
    let edx = cpu.regs.gpr(RDX) as u32;
    assert_ne!(edx & (1 << 26), 0); // SSE2
    assert_ne!(edx & (1 << 15), 0); // CMOV
    assert_ne!(edx & (1 << 9), 0); // APIC
}

#[test]
fn rdmsr_efer_round_trip() {
    let mut cpu = cpu();
    cpu.regs.set_gpr(RCX, u64::from(MSR_EFER));
    run(&mut cpu, 64, &[0x0F, 0x32]).unwrap();
    assert_eq!(
        cpu.regs.gpr(RAX) & 0xFFFF_FFFF,
        cpu.regs.efer & 0xFFFF_FFFF
    );
}

#[test]
fn mov_to_cr0_enables_protected_mode() {
    let mut cpu = cpu();
    cpu.regs.set_gpr(RAX, CR0_PE);
    // mov cr0, rax (0F 22 C0)
    run(&mut cpu, 64, &[0x0F, 0x22, 0xC0]).unwrap();
    assert!(cpu.regs.cr0.contains(CR0_PE));
}

#[test]
fn cli_sti_toggle_interrupt_flag() {
    let mut cpu = cpu();
    run(&mut cpu, 64, &[0xFA]).unwrap();
    assert!(!cpu.regs.rflags.contains(IF));
    run(&mut cpu, 64, &[0xFB]).unwrap();
    assert!(cpu.regs.rflags.contains(IF));
}

#[test]
fn hlt_halts_the_cpu() {
    let mut cpu = cpu();
    run(&mut cpu, 64, &[0xF4]).unwrap();
    assert!(cpu.halted);
    assert!(matches!(cpu.run_step(), Err(CpuError::Halted)));
}

/// The port access that an instruction asks for.
fn access(cpu: &mut Cpu, bytes: &[u8]) -> PortAccess {
    cpu.regs.efer |= EFER_LMA;
    cpu.regs.cs.long_mode = true;
    match cpu.dispatch(&decoded(64, bytes, 0x1000).read).unwrap() {
        Effect::Port(access) => access,
        other => panic!("{other:?} is no port access"),
    }
}

#[test]
fn out_to_uart_sends_bytes() {
    let mut cpu = cpu();
    cpu.regs.set_gpr(RAX, 0x41);
    // mov dx, 0x3f8 ; out dx, al
    run(&mut cpu, 64, &[0x66, 0xBA, 0xF8, 0x03]).unwrap();
    let sent = access(&mut cpu, &[0xEE]);
    assert_eq!(sent, PortAccess::Write { port: 0x3F8, size: 1, value: u32::from(b'A') });
}

#[test]
fn in_from_cmos_index_data() {
    let mut cpu = cpu();
    cpu.regs.set_gpr(RAX, 0x0A);
    // out 0x70, al ; in al, 0x71
    let index = access(&mut cpu, &[0xE6, 0x70]);
    assert_eq!(index, PortAccess::Write { port: 0x70, size: 1, value: 0x0A });
    let PortAccess::Read { port: 0x71, size: 1, register } = access(&mut cpu, &[0xE4, 0x71]) else {
        panic!("no read of the data port");
    };
    // Status register A at rest.
    finish_port_read(&mut cpu, register, 1, 0x20);
    assert_eq!(cpu.regs.gpr(RAX) & 0xFF, 0x20);
}
