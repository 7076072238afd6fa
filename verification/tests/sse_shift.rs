use rish_softvm_core::arch::registers::EFER_LMA;
use rish_softvm_core::cpu::{Cpu, CpuError};
use rish_softvm_core::decode::Instruction;
use rish_softvm_core::ops::effect::{complete_float, Effect, FloatOperation, FloatWork};

/// An instruction as the library reads it, beside the decoder's own reading.
struct Decoded {
    shown: iced_x86::Instruction,
    read: Instruction,
}

impl std::ops::Deref for Decoded {
    type Target = iced_x86::Instruction;

    fn deref(&self) -> &iced_x86::Instruction {
        &self.shown
    }
}

fn decoded(bitness: u32, bytes: &[u8], ip: u64) -> Decoded {
    Decoded {
        shown: iced_x86::Decoder::with_ip(bitness, bytes, ip, iced_x86::DecoderOptions::NONE).decode(),
        read: rish_softvm_core::decode::decode(bitness, bytes, ip),
    }
}

/// One lane of the arithmetic that an instruction leaves to the host, and whether it was
/// rounded.
fn lane(operation: FloatOperation, index: u32, a: f64, b: f64) -> (f64, bool) {
    let (sum, right) = match operation {
        FloatOperation::Add => (a + b, b),
        FloatOperation::Subtract => (a - b, -b),
        FloatOperation::Multiply => return (a * b, false),
        FloatOperation::Divide => return (a / b, false),
        FloatOperation::SquareRoot => return (b.sqrt(), false),
        FloatOperation::Alternate if index % 2 == 0 => (a - b, -b),
        FloatOperation::Alternate => (a + b, b),
    };
    let part = sum - a;
    (sum, (a - (sum - part)) + (right - part) != 0.0)
}

/// One lane in single precision: what a single holds is rounded once more, which for these
/// operations gives the single that is nearest to the exact result.
fn single_lane(operation: FloatOperation, index: u32, a: f32, b: f32) -> (f32, bool) {
    let (wide, rounded) = lane(operation, index, f64::from(a), f64::from(b));
    (wide as f32, rounded || f64::from(wide as f32) != wide)
}

fn perform(cpu: &mut Cpu, work: &FloatWork) {
    let mut value = 0_u128;
    let mut inexact = false;
    for index in 0..u32::from(work.count) {
        if work.double {
            let shift = index * 64;
            let (a, b) = ((work.left >> shift) as u64, (work.right >> shift) as u64);
            let (result, rounded) = lane(work.operation, index, f64::from_bits(a), f64::from_bits(b));
            value |= u128::from(result.to_bits()) << shift;
            inexact |= rounded;
        } else {
            let shift = index * 32;
            let (a, b) = ((work.left >> shift) as u32, (work.right >> shift) as u32);
            let (result, rounded) = single_lane(work.operation, index, f32::from_bits(a), f32::from_bits(b));
            value |= u128::from(result.to_bits()) << shift;
            inexact |= rounded;
        }
    }
    complete_float(cpu, work, value, inexact);
}

/// Runs instructions to their end, with the arithmetic that they leave to the host.
trait Host {
    fn settle(&mut self, effect: Effect) -> Result<(), CpuError>;
    fn run_dispatch(&mut self, instruction: &Decoded) -> Result<(), CpuError>;
}

impl Host for Cpu {
    fn settle(&mut self, effect: Effect) -> Result<(), CpuError> {
        if let Effect::Float(work) = effect {
            perform(self, &work);
        }
        Ok(())
    }

    fn run_dispatch(&mut self, instruction: &Decoded) -> Result<(), CpuError> {
        let effect = self.dispatch(&instruction.read)?;
        self.settle(effect)
    }
}

fn run(cpu: &mut Cpu, bytes: &[u8]) -> Result<(), CpuError> {
    cpu.regs.efer |= EFER_LMA;
    cpu.regs.cs.long_mode = true;
    cpu.run_dispatch(
        &decoded(64, bytes, 0x1000),
    )
}

#[test]
fn variable_shift_reads_low_xmm_qword_instead_of_same_numbered_gpr() {
    for (opcode, input, count, expected) in [
        (
            0xf1,
            0x1234_1234_1234_1234_1234_1234_1234_1234_u128,
            1,
            0x2468_2468_2468_2468_2468_2468_2468_2468,
        ),
        (
            0xd3,
            u128::MAX,
            1,
            0x7fff_ffff_ffff_ffff_7fff_ffff_ffff_ffff,
        ),
        (
            0xe1,
            0xfff0_fff0_fff0_fff0_fff0_fff0_fff0_fff0,
            4,
            u128::MAX,
        ),
    ] {
        let mut cpu = Cpu::new(1 << 20);
        cpu.regs.xmm[0] = input;
        cpu.regs.xmm[1] = (u128::from(u64::MAX) << 64) | count;
        cpu.regs.gpr[1] = 16;
        let flags = cpu.regs.rflags;
        run(&mut cpu, &[0x66, 0x0f, opcode, 0xc1]).unwrap();
        assert_eq!(cpu.regs.xmm[0], expected);
        assert_eq!(cpu.regs.rflags, flags);
    }
}

#[test]
fn memory_shift_count_is_loaded_and_memory_fault_preserves_destination() {
    let mut cpu = Cpu::new(1 << 20);
    cpu.regs.xmm[0] = 0x0000_0001_0000_0001_0000_0001_0000_0001;
    cpu.regs.gpr[0] = 0x2000;
    cpu.memory.write(0x2000, &2_u128.to_le_bytes()).unwrap();
    run(&mut cpu, &[0x66, 0x0f, 0xf2, 0x00]).unwrap();
    assert_eq!(cpu.regs.xmm[0], 0x0000_0004_0000_0004_0000_0004_0000_0004);
    let previous = cpu.regs.xmm[0];
    cpu.regs.gpr[0] = 0xffff8;
    assert!(run(&mut cpu, &[0x66, 0x0f, 0xf2, 0x00]).is_err());
    assert_eq!(cpu.regs.xmm[0], previous);
}

#[test]
fn byte_shifts_at_or_above_16_clear_the_register_without_wrapping() {
    for (modrm, left) in [(0xf8, true), (0xd8, false)] {
        for count in [0, 1, 15, 16, 255] {
            let mut cpu = Cpu::new(1 << 20);
            cpu.regs.xmm[0] = u128::MAX;
            run(&mut cpu, &[0x66, 0x0f, 0x73, modrm, count]).unwrap();
            let expected = if count >= 16 {
                0
            } else if left {
                u128::MAX << (count * 8)
            } else {
                u128::MAX >> (count * 8)
            };
            assert_eq!(cpu.regs.xmm[0], expected);
        }
    }
}

#[test]
fn scalar_memory_loads_clear_upper_lanes_but_register_moves_preserve_them() {
    for (prefix, width) in [(0xf3, 4), (0xf2, 8)] {
        let mut cpu = Cpu::new(1 << 20);
        cpu.regs.xmm[0] = u128::MAX;
        cpu.regs.gpr[0] = 0x2000;
        cpu.memory.write(0x2000, &0x1234_u64.to_le_bytes()).unwrap();
        run(&mut cpu, &[prefix, 0x0f, 0x10, 0x00]).unwrap();
        assert_eq!(cpu.regs.xmm[0], 0x1234);
        cpu.regs.xmm[0] = u128::MAX;
        cpu.regs.xmm[1] = 0x1234;
        run(&mut cpu, &[prefix, 0x0f, 0x10, 0xc1]).unwrap();
        let mask = (1_u128 << (width * 8)) - 1;
        assert_eq!(cpu.regs.xmm[0], !mask | 0x1234);
    }
}

#[test]
fn word_shuffle_loads_memory_and_preserves_the_unshuffled_half() {
    for (prefix, expected) in [
        (0xf2, [3_u16, 2, 1, 0, 4, 5, 6, 7]),
        (0xf3, [0_u16, 1, 2, 3, 7, 6, 5, 4]),
    ] {
        let mut cpu = Cpu::new(1 << 20);
        cpu.regs.gpr[0] = 0x2000;
        let mut data = [0; 16];
        for i in 0..8 {
            data[i * 2..i * 2 + 2].copy_from_slice(&(i as u16).to_le_bytes());
        }
        cpu.memory.write(0x2000, &data).unwrap();
        run(&mut cpu, &[prefix, 0x0f, 0x70, 0x00, 0x1b]).unwrap();
        let result = cpu.regs.xmm[0].to_le_bytes();
        let words: Vec<u16> = result
            .chunks_exact(2)
            .map(|x| u16::from_le_bytes(x.try_into().unwrap()))
            .collect();
        assert_eq!(words, expected);
    }
}
