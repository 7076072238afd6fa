use rish_softvm_core::arch::registers::{CF, EFER_LMA, RCX, ZF};
use rish_softvm_core::arch::segments::SegmentRegister;
use rish_softvm_core::cpu::{Cpu, CpuError};
use rish_softvm_core::decode::Instruction;
use rish_softvm_core::ops::effect::{complete_float, Effect, FloatOperation, FloatWork};

/// An instruction as the library reads it, beside the decoder's own reading.
struct Decoded {
    shown: iced_x86::Instruction,
    read: Instruction,
}

impl std::ops::Deref for Decoded {
    type Target = iced_x86::Instruction;

    fn deref(&self) -> &iced_x86::Instruction {
        &self.shown
    }
}

fn decoded(bitness: u32, bytes: &[u8], ip: u64) -> Decoded {
    Decoded {
        shown: iced_x86::Decoder::with_ip(bitness, bytes, ip, iced_x86::DecoderOptions::NONE).decode(),
        read: rish_softvm_core::decode::decode(bitness, bytes, ip),
    }
}

/// One lane of the arithmetic that an instruction leaves to the host, and whether it was
/// rounded.
fn lane(operation: FloatOperation, index: u32, a: f64, b: f64) -> (f64, bool) {
    let (sum, right) = match operation {
        FloatOperation::Add => (a + b, b),
        FloatOperation::Subtract => (a - b, -b),
        FloatOperation::Multiply => return (a * b, false),
        FloatOperation::Divide => return (a / b, false),
        FloatOperation::SquareRoot => return (b.sqrt(), false),
        FloatOperation::Alternate if index % 2 == 0 => (a - b, -b),
        FloatOperation::Alternate => (a + b, b),
    };
    let part = sum - a;
    (sum, (a - (sum - part)) + (right - part) != 0.0)
}

/// One lane in single precision: what a single holds is rounded once more, which for these
/// operations gives the single that is nearest to the exact result.
fn single_lane(operation: FloatOperation, index: u32, a: f32, b: f32) -> (f32, bool) {
    let (wide, rounded) = lane(operation, index, f64::from(a), f64::from(b));
    (wide as f32, rounded || f64::from(wide as f32) != wide)
}

fn perform(cpu: &mut Cpu, work: &FloatWork) {
    let mut value = 0_u128;
    let mut inexact = false;
    for index in 0..u32::from(work.count) {
        if work.double {
            let shift = index * 64;
            let (a, b) = ((work.left >> shift) as u64, (work.right >> shift) as u64);
            let (result, rounded) = lane(work.operation, index, f64::from_bits(a), f64::from_bits(b));
            value |= u128::from(result.to_bits()) << shift;
            inexact |= rounded;
        } else {
            let shift = index * 32;
            let (a, b) = ((work.left >> shift) as u32, (work.right >> shift) as u32);
            let (result, rounded) = single_lane(work.operation, index, f32::from_bits(a), f32::from_bits(b));
            value |= u128::from(result.to_bits()) << shift;
            inexact |= rounded;
        }
    }
    complete_float(cpu, work, value, inexact);
}

/// Runs instructions to their end, with the arithmetic that they leave to the host.
trait Host {
    fn settle(&mut self, effect: Effect) -> Result<(), CpuError>;
    fn run_dispatch(&mut self, instruction: &Decoded) -> Result<(), CpuError>;
}

impl Host for Cpu {
    fn settle(&mut self, effect: Effect) -> Result<(), CpuError> {
        if let Effect::Float(work) = effect {
            perform(self, &work);
        }
        Ok(())
    }

    fn run_dispatch(&mut self, instruction: &Decoded) -> Result<(), CpuError> {
        let effect = self.dispatch(&instruction.read)?;
        self.settle(effect)
    }
}

/// Bits of a register by their mask.
trait Bits {
    fn contains(&self, mask: u64) -> bool;
}

impl Bits for u64 {
    fn contains(&self, mask: u64) -> bool {
        self & mask == mask
    }
}

fn cpu() -> Cpu {
    Cpu::new(1 << 20)
}

fn decode(bitness: u32, bytes: &[u8], ip: u64) -> Decoded {
    decoded(bitness, bytes, ip)
}

fn run(cpu: &mut Cpu, bitness: u32, bytes: &[u8], at: u64) -> Result<(), CpuError> {
    cpu.memory.write(at, bytes).unwrap();
    cpu.regs.rip = at;
    if bitness == 64 {
        cpu.regs.efer |= EFER_LMA;
    }
    cpu.regs.cs = SegmentRegister {
        base: 0,
        long_mode: bitness == 64,
        default_32: bitness == 32,
        code: true,
        limit: u32::MAX,
        granularity: true,
        writable_or_readable: true,
        ..Default::default()
    };
    let instruction = decode(bitness, bytes, at);
    let size = instruction.len();
    cpu.regs.rip = at + size as u64;
    cpu.run_dispatch(&instruction)
}

#[test]
fn jmp_rel8_taken_and_not() {
    let mut cpu = cpu();
    run(&mut cpu, 64, &[0xEB, 0x05], 0x1000).unwrap();
    assert_eq!(cpu.regs.rip, 0x1007);
}

#[test]
fn jne_taken_when_zf_clear() {
    let mut cpu = cpu();
    run(&mut cpu, 64, &[0x75, 0x03], 0x1000).unwrap();
    assert_eq!(cpu.regs.rip, 0x1005);
    cpu.regs.rflags |= ZF;
    run(&mut cpu, 64, &[0x75, 0x03], 0x1000).unwrap();
    assert_eq!(cpu.regs.rip, 0x1002);
}

#[test]
fn call_pushes_return_and_jumps() {
    let mut cpu = cpu();
    cpu.regs.set_rsp(0x8000);
    run(&mut cpu, 64, &[0xE8, 0x04, 0x00, 0x00, 0x00], 0x1000).unwrap();
    assert_eq!(cpu.regs.rip, 0x1009);
    assert_eq!(cpu.regs.rsp(), 0x7FF8);
    let saved = cpu.pop_native().unwrap();
    assert_eq!(saved, 0x1005);
}

#[test]
fn ret_returns_to_caller() {
    let mut cpu = cpu();
    cpu.regs.set_rsp(0x8000);
    run(&mut cpu, 64, &[0xE8, 0x00, 0x00, 0x00, 0x00], 0x1000).unwrap();
    run(&mut cpu, 64, &[0xC3], 0x1005).unwrap();
    assert_eq!(cpu.regs.rip, 0x1005);
}

#[test]
fn loop_decrements_and_branches() {
    let mut cpu = cpu();
    cpu.regs.set_gpr(RCX, 3);
    run(&mut cpu, 64, &[0xE2, 0xFE], 0x1000).unwrap(); // loop -2
    assert_eq!(cpu.regs.gpr(RCX), 2);
    assert_eq!(cpu.regs.rip, 0x1000);
}

#[test]
fn setcc_writes_one_or_zero() {
    let mut cpu = cpu();
    cpu.regs.rflags |= CF;
    cpu.memory.write_u8(0x2000, 0xAA).unwrap();
    // setc [0x2000] in 64-bit: 0F 92 04 25 00 20 00 00
    run(
        &mut cpu,
        64,
        &[0x0F, 0x92, 0x04, 0x25, 0x00, 0x20, 0x00, 0x00],
        0x1000,
    )
    .unwrap();
    assert_eq!(cpu.memory.read_u8(0x2000).unwrap(), 1);
}

#[test]
fn stc_clc_cmc_toggle() {
    let mut cpu = cpu();
    run(&mut cpu, 64, &[0xF9], 0x1000).unwrap(); // stc
    assert!(cpu.regs.rflags.contains(CF));
    run(&mut cpu, 64, &[0xF8], 0x1000).unwrap(); // clc
    assert!(!cpu.regs.rflags.contains(CF));
    run(&mut cpu, 64, &[0xF5], 0x1000).unwrap(); // cmc
    assert!(cpu.regs.rflags.contains(CF));
}
