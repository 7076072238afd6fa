use rish_softvm_core::arch::registers::{CF, CR0_NE, CR0_PE, EFER_LMA, OF, PF, RBX, SF, ZF};
use rish_softvm_core::arch::segments::{Descriptor, SegmentSelector};
use rish_softvm_core::cpu::{Cpu, CpuError};
use rish_softvm_core::ops::effect::{complete_float, Effect, FloatOperation, FloatWork};

/// One lane of the arithmetic that an instruction leaves to the host, and whether it was
/// rounded.
fn lane(operation: FloatOperation, index: u32, a: f64, b: f64) -> (f64, bool) {
    let (sum, right) = match operation {
        FloatOperation::Add => (a + b, b),
        FloatOperation::Subtract => (a - b, -b),
        FloatOperation::Multiply => return (a * b, false),
        FloatOperation::Divide => return (a / b, false),
        FloatOperation::SquareRoot => return (b.sqrt(), false),
        FloatOperation::Alternate if index % 2 == 0 => (a - b, -b),
        FloatOperation::Alternate => (a + b, b),
    };
    let part = sum - a;
    (sum, (a - (sum - part)) + (right - part) != 0.0)
}

/// One lane in single precision: what a single holds is rounded once more, which for these
/// operations gives the single that is nearest to the exact result.
fn single_lane(operation: FloatOperation, index: u32, a: f32, b: f32) -> (f32, bool) {
    let (wide, rounded) = lane(operation, index, f64::from(a), f64::from(b));
    (wide as f32, rounded || f64::from(wide as f32) != wide)
}

fn perform(cpu: &mut Cpu, work: &FloatWork) {
    let mut value = 0_u128;
    let mut inexact = false;
    for index in 0..u32::from(work.count) {
        if work.double {
            let shift = index * 64;
            let (a, b) = ((work.left >> shift) as u64, (work.right >> shift) as u64);
            let (result, rounded) = lane(work.operation, index, f64::from_bits(a), f64::from_bits(b));
            value |= u128::from(result.to_bits()) << shift;
            inexact |= rounded;
        } else {
            let shift = index * 32;
            let (a, b) = ((work.left >> shift) as u32, (work.right >> shift) as u32);
            let (result, rounded) = single_lane(work.operation, index, f32::from_bits(a), f32::from_bits(b));
            value |= u128::from(result.to_bits()) << shift;
            inexact |= rounded;
        }
    }
    complete_float(cpu, work, value, inexact);
}

/// Runs instructions to their end, with the arithmetic that they leave to the host.
trait Host {
    fn settle(&mut self, effect: Effect) -> Result<(), CpuError>;
    fn run_step(&mut self) -> Result<(), CpuError>;
}

impl Host for Cpu {
    fn settle(&mut self, effect: Effect) -> Result<(), CpuError> {
        if let Effect::Float(work) = effect {
            perform(self, &work);
        }
        Ok(())
    }

    fn run_step(&mut self) -> Result<(), CpuError> {
        let effect = self.step()?;
        self.settle(effect)
    }
}

/// Bits of a register by their mask.
trait Bits {
    fn intersects(&self, mask: u64) -> bool;
}

impl Bits for u64 {
    fn intersects(&self, mask: u64) -> bool {
        self & mask != 0
    }
}

const CODE: u64 = 0x1000;
const DATA: u64 = 0x2000;

#[test]
fn x87_fxch_swaps_explicit_second_register_without_popping_or_touching_integer_flags() {
    for top in 0..8_u8 {
        for index in 0..8_u8 {
            let mut cpu = cpu(12.0, 5.0);
            cpu.fpu.top = top;
            // Swap must preserve exact payload bits, including signed zero
            // and NaNs, rather than calculating with either register value.
            cpu.fpu.stack[2] = f64::to_bits(-0.0);
            cpu.fpu.stack[4] = f64::to_bits(f64::from_bits(0x7ff0_0000_0000_0123));
            cpu.fpu.status = 0x5a5a;
            let flags = cpu.regs.rflags;
            let before = cpu.fpu.stack;
            let target = usize::from((top + index) & 7);
            let mut expected = before;
            expected.swap(usize::from(top), target);
            run(&mut cpu, &[0xd9, 0xc8 + index]);
            assert_eq!(
                cpu.fpu.stack,
                expected,
                "top={top} ST({index})"
            );
            assert_eq!(cpu.fpu.top, top);
            assert_eq!(cpu.regs.rflags, flags);
            assert_eq!(cpu.fpu.status, 0x5a5a & !(1 << 9));
        }
    }
}

fn cpu(a: f64, b: f64) -> Cpu {
    let mut cpu = Cpu::new(1 << 20);
    cpu.regs.efer |= EFER_LMA;
    cpu.regs.cr0 |= CR0_PE | CR0_NE;
    cpu.regs.cs = Descriptor::decode(0x00af_9b00_0000_ffff).load(SegmentSelector(8));
    cpu.regs.set_gpr(RBX, DATA);
    cpu.fpu.top = 6;
    cpu.fpu.stack = [29.0, b, 37.0, 41.0, 43.0, 47.0, a, 23.0].map(f64::to_bits);
    cpu
}

fn run(cpu: &mut Cpu, bytes: &[u8]) {
    cpu.memory.write(CODE, bytes).unwrap();
    cpu.regs.rip = CODE;
    cpu.run_step().unwrap();
}

#[test]
fn x87_arithmetic_st0_uses_explicit_second_operand() {
    for (modrm, expected) in [
        (0xc3, 17.0),
        (0xcb, 60.0),
        (0xe3, 7.0),
        (0xeb, -7.0),
        (0xf3, 12.0 / 5.0),
        (0xfb, 5.0 / 12.0),
    ] {
        let mut cpu = cpu(12.0, 5.0);
        let old = cpu.fpu.stack.map(f64::from_bits);
        run(&mut cpu, &[0xd8, modrm]);
        assert_eq!(cpu.fpu.stack.map(f64::from_bits)[6], expected, "D8 {modrm:02X}");
        assert_eq!(cpu.fpu.top, 6);
        for (slot, previous) in old.iter().enumerate() {
            if slot != 6 {
                assert_eq!(cpu.fpu.stack.map(f64::from_bits)[slot], *previous);
            }
        }
    }
}

#[test]
fn x87_arithmetic_sti_uses_st0_source_without_overwriting_it() {
    // DC reverses the SUB/SUBR and DIV/DIVR opcode groups relative to D8.
    for (modrm, expected) in [
        (0xc3, 17.0),
        (0xcb, 60.0),
        (0xe3, 7.0),
        (0xeb, -7.0),
        (0xf3, 12.0 / 5.0),
        (0xfb, 5.0 / 12.0),
    ] {
        let mut cpu = cpu(12.0, 5.0);
        let old = cpu.fpu.stack.map(f64::from_bits);
        run(&mut cpu, &[0xdc, modrm]);
        assert_eq!(cpu.fpu.stack.map(f64::from_bits)[1], expected, "DC {modrm:02X}");
        assert_eq!(cpu.fpu.top, 6);
        for (slot, previous) in old.iter().enumerate() {
            if slot != 1 {
                assert_eq!(cpu.fpu.stack.map(f64::from_bits)[slot], *previous);
            }
        }
    }
}

#[test]
fn x87_pop_arithmetic_keeps_first_operand_as_destination() {
    for (modrm, expected) in [
        (0xc3, 17.0),
        (0xcb, 60.0),
        (0xe3, 7.0),
        (0xeb, -7.0),
        (0xf3, 12.0 / 5.0),
        (0xfb, 5.0 / 12.0),
    ] {
        let mut cpu = cpu(12.0, 5.0);
        run(&mut cpu, &[0xde, modrm]);
        assert_eq!(cpu.fpu.stack.map(f64::from_bits)[1], expected, "DE {modrm:02X}");
        assert_eq!(cpu.fpu.top, 7);
        assert_eq!(cpu.fpu.stack.map(f64::from_bits)[6], 12.0);
    }
}

#[test]
fn x87_memory_arithmetic_keeps_using_memory_source() {
    for opcode in [0xd8, 0xdc] {
        for (modrm, expected) in [
            (0x03, 17.0),
            (0x0b, 60.0),
            (0x23, 7.0),
            (0x2b, -7.0),
            (0x33, 12.0 / 5.0),
            (0x3b, 5.0 / 12.0),
        ] {
            let mut cpu = cpu(12.0, 41.0);
            if opcode == 0xd8 {
                cpu.memory.write(DATA, &5.0_f32.to_le_bytes()).unwrap();
            } else {
                cpu.memory.write(DATA, &5.0_f64.to_le_bytes()).unwrap();
            }
            run(&mut cpu, &[opcode, modrm]);
            assert_eq!(cpu.fpu.stack.map(f64::from_bits)[6], expected, "{opcode:02X} {modrm:02X}");
            assert_eq!(cpu.fpu.stack.map(f64::from_bits)[1], 41.0);
            assert_eq!(cpu.fpu.top, 6);
        }
    }
}

#[test]
fn x87_status_compares_use_named_source_and_preserve_pop_counts() {
    for (bytes, pops) in [
        ([0xd8, 0xd3], 0),
        ([0xd8, 0xdb], 1),
        ([0xdd, 0xe3], 0),
        ([0xdd, 0xeb], 1),
    ] {
        for (a, b, expected) in [(12.0, 5.0, 0), (5.0, 12.0, 0x100), (5.0, 5.0, 0x4000)] {
            let mut cpu = cpu(a, b);
            cpu.fpu.status = 0x4700;
            run(&mut cpu, &bytes);
            assert_eq!(cpu.fpu.status & 0x4700, expected, "{bytes:02X?}");
            assert_eq!(cpu.fpu.top, 6 + pops);
        }
    }
}

#[test]
fn x87_flag_compares_use_explicit_second_operand_and_preserve_pop_counts() {
    for (bytes, pops) in [
        ([0xdb, 0xf3], 0),
        ([0xdb, 0xeb], 0),
        ([0xdf, 0xf3], 1),
        ([0xdf, 0xeb], 1),
    ] {
        for (a, b, expected) in [
            (12.0, 5.0, 0),
            (5.0, 12.0, CF),
            (5.0, 5.0, ZF),
            (5.0, f64::NAN, ZF | PF | CF),
        ] {
            let mut cpu = cpu(a, b);
            cpu.regs.rflags |= ZF | PF | CF | OF | SF;
            run(&mut cpu, &bytes);
            assert_eq!(
                cpu.regs.rflags & (ZF | PF | CF),
                expected,
                "{bytes:02X?}"
            );
            assert!(!cpu.regs.rflags.intersects(OF | SF));
            assert_eq!(cpu.fpu.top, 6 + pops);
        }
    }
}
