use rish_softvm_core::cpu::{Cpu, CpuError};
use rish_softvm_core::decode::Instruction;
use rish_softvm_core::ops::effect::{complete_float, Effect, FloatOperation, FloatWork};

/// An instruction as the library reads it, beside the decoder's own reading.
struct Decoded {
    shown: iced_x86::Instruction,
    read: Instruction,
}

impl std::ops::Deref for Decoded {
    type Target = iced_x86::Instruction;

    fn deref(&self) -> &iced_x86::Instruction {
        &self.shown
    }
}

fn decoded(bitness: u32, bytes: &[u8], ip: u64) -> Decoded {
    Decoded {
        shown: iced_x86::Decoder::with_ip(bitness, bytes, ip, iced_x86::DecoderOptions::NONE).decode(),
        read: rish_softvm_core::decode::decode(bitness, bytes, ip),
    }
}

/// One lane of the arithmetic that an instruction leaves to the host, and whether it was
/// rounded.
fn lane(operation: FloatOperation, index: u32, a: f64, b: f64) -> (f64, bool) {
    let (sum, right) = match operation {
        FloatOperation::Add => (a + b, b),
        FloatOperation::Subtract => (a - b, -b),
        FloatOperation::Multiply => return (a * b, false),
        FloatOperation::Divide => return (a / b, false),
        FloatOperation::SquareRoot => return (b.sqrt(), false),
        FloatOperation::Alternate if index % 2 == 0 => (a - b, -b),
        FloatOperation::Alternate => (a + b, b),
    };
    let part = sum - a;
    (sum, (a - (sum - part)) + (right - part) != 0.0)
}

/// One lane in single precision: what a single holds is rounded once more, which for these
/// operations gives the single that is nearest to the exact result.
fn single_lane(operation: FloatOperation, index: u32, a: f32, b: f32) -> (f32, bool) {
    let (wide, rounded) = lane(operation, index, f64::from(a), f64::from(b));
    (wide as f32, rounded || f64::from(wide as f32) != wide)
}

fn perform(cpu: &mut Cpu, work: &FloatWork) {
    let mut value = 0_u128;
    let mut inexact = false;
    for index in 0..u32::from(work.count) {
        if work.double {
            let shift = index * 64;
            let (a, b) = ((work.left >> shift) as u64, (work.right >> shift) as u64);
            let (result, rounded) = lane(work.operation, index, f64::from_bits(a), f64::from_bits(b));
            value |= u128::from(result.to_bits()) << shift;
            inexact |= rounded;
        } else {
            let shift = index * 32;
            let (a, b) = ((work.left >> shift) as u32, (work.right >> shift) as u32);
            let (result, rounded) = single_lane(work.operation, index, f32::from_bits(a), f32::from_bits(b));
            value |= u128::from(result.to_bits()) << shift;
            inexact |= rounded;
        }
    }
    complete_float(cpu, work, value, inexact);
}

/// Runs instructions to their end, with the arithmetic that they leave to the host.
trait Host {
    fn settle(&mut self, effect: Effect) -> Result<(), CpuError>;
    fn run_dispatch(&mut self, instruction: &Decoded) -> Result<(), CpuError>;
}

impl Host for Cpu {
    fn settle(&mut self, effect: Effect) -> Result<(), CpuError> {
        if let Effect::Float(work) = effect {
            perform(self, &work);
        }
        Ok(())
    }

    fn run_dispatch(&mut self, instruction: &Decoded) -> Result<(), CpuError> {
        let effect = self.dispatch(&instruction.read)?;
        self.settle(effect)
    }
}

fn run(cpu: &mut Cpu, bytes: &[u8]) -> Result<(), CpuError> {
    let instruction = decoded(64, bytes, 0x1000);
    cpu.regs.rip = 0x1000 + instruction.len() as u64;
    cpu.run_dispatch(&instruction)
}

#[test]
fn sse4_tests_roundsd_floors_the_source_and_preserves_the_high_lane() {
    let mut cpu = Cpu::new(1 << 20);
    cpu.regs.xmm[0] = (0xDEAD_BEEF_CAFE_F00D_u128 << 64) | u128::from(99.0_f64.to_bits());
    cpu.regs.xmm[1] = u128::from((-3.25_f64).to_bits());

    // 66 0F 3A 0B C1 09: roundsd xmm0, xmm1, floor|no-exception
    run(&mut cpu, &[0x66, 0x0F, 0x3A, 0x0B, 0xC1, 0x09]).unwrap();

    assert_eq!(f64::from_bits(cpu.regs.xmm[0] as u64), -4.0);
    assert_eq!(cpu.regs.xmm[0] >> 64, 0xDEAD_BEEF_CAFE_F00D);
}

#[test]
fn sse4_tests_blendvpd_selects_each_qword_from_the_xmm0_sign_bits() {
    let mut cpu = Cpu::new(1 << 20);
    cpu.regs.xmm[3] = (20_u128 << 64) | 10;
    cpu.regs.xmm[2] = (40_u128 << 64) | 30;
    cpu.regs.xmm[0] = 1_u128 << 127;

    // 66 0F 38 15 DA: blendvpd xmm3, xmm2
    run(&mut cpu, &[0x66, 0x0F, 0x38, 0x15, 0xDA]).unwrap();

    assert_eq!(cpu.regs.xmm[3], (40_u128 << 64) | 10);
}
