use rish_softvm_core::arch::registers::{CF, EFER_LMA, OF, RAX, RBP, RBX, RDI, RDX, RSI, RSP, ZF};
use rish_softvm_core::arch::segments::SegmentRegister;
use rish_softvm_core::cpu::{Cpu, CpuError};
use rish_softvm_core::decode::Instruction;
use rish_softvm_core::ops::effect::{complete_float, Effect, FloatOperation, FloatWork};

const R13: usize = 13;
const R14: usize = 14;

/// An instruction as the library reads it, beside the decoder's own reading.
struct Decoded {
    shown: iced_x86::Instruction,
    read: Instruction,
}

impl std::ops::Deref for Decoded {
    type Target = iced_x86::Instruction;

    fn deref(&self) -> &iced_x86::Instruction {
        &self.shown
    }
}

fn decoded(bitness: u32, bytes: &[u8], ip: u64) -> Decoded {
    Decoded {
        shown: iced_x86::Decoder::with_ip(bitness, bytes, ip, iced_x86::DecoderOptions::NONE).decode(),
        read: rish_softvm_core::decode::decode(bitness, bytes, ip),
    }
}

/// One lane of the arithmetic that an instruction leaves to the host, and whether it was
/// rounded.
fn lane(operation: FloatOperation, index: u32, a: f64, b: f64) -> (f64, bool) {
    let (sum, right) = match operation {
        FloatOperation::Add => (a + b, b),
        FloatOperation::Subtract => (a - b, -b),
        FloatOperation::Multiply => return (a * b, false),
        FloatOperation::Divide => return (a / b, false),
        FloatOperation::SquareRoot => return (b.sqrt(), false),
        FloatOperation::Alternate if index % 2 == 0 => (a - b, -b),
        FloatOperation::Alternate => (a + b, b),
    };
    let part = sum - a;
    (sum, (a - (sum - part)) + (right - part) != 0.0)
}

/// One lane in single precision: what a single holds is rounded once more, which for these
/// operations gives the single that is nearest to the exact result.
fn single_lane(operation: FloatOperation, index: u32, a: f32, b: f32) -> (f32, bool) {
    let (wide, rounded) = lane(operation, index, f64::from(a), f64::from(b));
    (wide as f32, rounded || f64::from(wide as f32) != wide)
}

fn perform(cpu: &mut Cpu, work: &FloatWork) {
    let mut value = 0_u128;
    let mut inexact = false;
    for index in 0..u32::from(work.count) {
        if work.double {
            let shift = index * 64;
            let (a, b) = ((work.left >> shift) as u64, (work.right >> shift) as u64);
            let (result, rounded) = lane(work.operation, index, f64::from_bits(a), f64::from_bits(b));
            value |= u128::from(result.to_bits()) << shift;
            inexact |= rounded;
        } else {
            let shift = index * 32;
            let (a, b) = ((work.left >> shift) as u32, (work.right >> shift) as u32);
            let (result, rounded) = single_lane(work.operation, index, f32::from_bits(a), f32::from_bits(b));
            value |= u128::from(result.to_bits()) << shift;
            inexact |= rounded;
        }
    }
    complete_float(cpu, work, value, inexact);
}

/// Runs instructions to their end, with the arithmetic that they leave to the host.
trait Host {
    fn settle(&mut self, effect: Effect) -> Result<(), CpuError>;
    fn run_dispatch(&mut self, instruction: &Decoded) -> Result<(), CpuError>;
}

impl Host for Cpu {
    fn settle(&mut self, effect: Effect) -> Result<(), CpuError> {
        if let Effect::Float(work) = effect {
            perform(self, &work);
        }
        Ok(())
    }

    fn run_dispatch(&mut self, instruction: &Decoded) -> Result<(), CpuError> {
        let effect = self.dispatch(&instruction.read)?;
        self.settle(effect)
    }
}

/// Bits of a register by their mask.
trait Bits {
    fn contains(&self, mask: u64) -> bool;
}

impl Bits for u64 {
    fn contains(&self, mask: u64) -> bool {
        self & mask == mask
    }
}

fn cpu() -> Cpu {
    Cpu::new(1 << 20)
}

fn decode(bitness: u32, bytes: &[u8], ip: u64) -> Decoded {
    decoded(bitness, bytes, ip)
}

fn run(cpu: &mut Cpu, bitness: u32, bytes: &[u8]) -> Result<(), CpuError> {
    cpu.memory.write(0x1000, bytes).unwrap();
    cpu.regs.rip = 0x1000;
    if bitness == 64 {
        cpu.regs.efer |= EFER_LMA;
    }
    cpu.regs.cs = SegmentRegister {
        base: 0,
        long_mode: bitness == 64,
        default_32: bitness == 32,
        code: true,
        limit: u32::MAX,
        granularity: true,
        writable_or_readable: true,
        ..Default::default()
    };
    let instruction = decode(bitness, bytes, 0x1000);
    let size = instruction.len();
    cpu.regs.rip = 0x1000 + size as u64;
    cpu.run_dispatch(&instruction)
}

#[test]
fn add_64_bit_registers() {
    let mut cpu = cpu();
    cpu.regs.set_gpr(RAX, 10);
    run(&mut cpu, 64, &[0x48, 0x83, 0xC0, 0x05]).unwrap(); // add rax, 5
    assert_eq!(cpu.regs.gpr(RAX), 15);
    assert!(!cpu.regs.rflags.contains(CF));
}

#[test]
fn add_carries_and_sets_flags() {
    let mut cpu = cpu();
    cpu.regs
        .set_gpr(RAX, u64::MAX);
    run(&mut cpu, 64, &[0x48, 0x83, 0xC0, 0x01]).unwrap(); // add rax, 1
    assert_eq!(cpu.regs.gpr(RAX), 0);
    assert!(cpu.regs.rflags.contains(CF));
    assert!(cpu.regs.rflags.contains(ZF));
}

#[test]
fn sub_borrow_sets_carry() {
    let mut cpu = cpu();
    cpu.regs.set_gpr(RAX, 0);
    run(&mut cpu, 64, &[0x48, 0x83, 0xE8, 0x01]).unwrap(); // sub rax, 1
    assert_eq!(cpu.regs.gpr(RAX), u64::MAX);
    assert!(cpu.regs.rflags.contains(CF));
}

#[test]
fn mul_8_bit_writes_ax() {
    let mut cpu = cpu();
    cpu.regs.set_gpr(RAX, 0x20);
    cpu.regs.set_gpr(RBX, 0x10);
    run(&mut cpu, 64, &[0xF6, 0xE3]).unwrap(); // mul bl
    assert_eq!(
        cpu.regs.gpr(RAX) & 0xFFFF,
        0x200
    );
    assert!(cpu.regs.rflags.contains(CF));
}

#[test]
fn div_16_bit_unsigned() {
    let mut cpu = cpu();
    cpu.regs
        .set_gpr(RAX, 0x0000_0007);
    cpu.regs.set_gpr(RDX, 0);
    cpu.regs
        .set_gpr(RBX, 0x0000_0002);
    run(&mut cpu, 64, &[0x66, 0xF7, 0xF3]).unwrap(); // div bx
    assert_eq!(cpu.regs.gpr(RAX) & 0xFFFF, 3);
    assert_eq!(cpu.regs.gpr(RDX) & 0xFFFF, 1);
}

#[test]
fn div_by_zero_raises_divide_error() {
    let mut cpu = cpu();
    cpu.regs.set_gpr(RAX, 1);
    cpu.regs.set_gpr(RBX, 0);
    // div rbx (48 F7 F3) with no IDT installed faults through the IDT
    // limit; the guest fault is the observable signal here.
    let result = run(&mut cpu, 64, &[0x48, 0xF7, 0xF3]);
    assert!(result.is_err());
}

#[test]
fn cmp_does_not_modify_the_destination() {
    let mut cpu = cpu();
    cpu.regs
        .set_gpr(RBP, 0x1000000);
    // 48 81 fd 00 00 00 01: cmp rbp, 0x1000000
    run(&mut cpu, 64, &[0x48, 0x81, 0xFD, 0x00, 0x00, 0x00, 0x01]).unwrap();
    assert_eq!(cpu.regs.gpr(RBP), 0x1000000);
    assert!(cpu.regs.rflags.contains(ZF));
}
#[test]
fn inc_does_not_touch_carry() {
    let mut cpu = cpu();
    cpu.regs.rflags |= CF;
    cpu.regs.set_gpr(RAX, 5);
    run(&mut cpu, 64, &[0x48, 0xFF, 0xC0]).unwrap(); // inc rax
    assert_eq!(cpu.regs.gpr(RAX), 6);
    assert!(cpu.regs.rflags.contains(CF));
}

#[test]
fn imul_two_operand_immediate_form_uses_the_immediate() {
    let mut cpu = cpu();
    cpu.regs.set_gpr(RDI, 3);
    run(&mut cpu, 64, &[0x6B, 0xFF, 0x38]).unwrap();
    assert_eq!(
        cpu.regs.gpr(RDI) & 0xFFFF_FFFF,
        0xA8
    );
}

#[test]
fn imul_three_operand_multiplies_rm_by_immediate() {
    let mut cpu = cpu();
    cpu.regs
        .set_gpr(R13, 0x10000);
    cpu.regs.set_gpr(R14, 3);
    run(&mut cpu, 64, &[0x45, 0x6B, 0xEE, 0xC0]).unwrap();
    assert_eq!(
        cpu.regs.gpr(R13),
        0xFFFF_FF40
    );
}

#[test]
fn idiv_signed_memory_operand_reads_32_bits() {
    let mut cpu = cpu();
    // [rsp+8] holds upa=1 with garbage in the upper 32 bits; the dword
    // divisor must be 1, not the 8-byte value, or the division diverges.
    cpu.memory.write_u64(0x8, 0xffff_ffff_0000_0001).unwrap();
    cpu.regs.set_gpr(RSP, 0);
    cpu.regs.set_gpr(RAX, 1);
    cpu.regs.set_gpr(RDX, 0);
    run(&mut cpu, 64, &[0xF7, 0x7C, 0x24, 0x08]).unwrap();
    assert_eq!(
        cpu.regs.gpr(RAX),
        1,
        "quotient"
    );
    assert_eq!(
        cpu.regs.gpr(RDX),
        0,
        "remainder"
    );
}

#[test]
fn imul_register_form_reads_the_register() {
    let mut cpu = cpu();
    cpu.regs
        .set_gpr(RAX, 0x10000);
    cpu.regs.set_gpr(RBX, 0x10);
    // imul rax, rbx (48 0f af c3)
    run(&mut cpu, 64, &[0x48, 0x0F, 0xAF, 0xC3]).unwrap();
    assert_eq!(cpu.regs.gpr(RAX), 0x10_0000);
}

#[test]
fn cwd_cdq_cqo_sign_extend() {
    let mut cpu = cpu();
    cpu.regs.set_gpr(RAX, 0x8000);
    run(&mut cpu, 64, &[0x66, 0x99]).unwrap(); // cwd
    assert_eq!(
        cpu.regs.gpr(RDX) & 0xFFFF,
        0xFFFF
    );
    cpu.regs
        .set_gpr(RAX, 0x7FFF_FFFF);
    run(&mut cpu, 64, &[0x99]).unwrap(); // cdq
    assert_eq!(
        cpu.regs.gpr(RDX) & 0xFFFF_FFFF,
        0
    );
}
#[test]
fn a_64_bit_multiply_keeps_the_full_product() {
    // The 128-bit product mask must not be built as `1 << 128`.
    let mut cpu = cpu();
    cpu.regs.set_gpr(RAX, 1);
    cpu.regs.set_gpr(RSI, 0x20);
    // mul rsi
    run(&mut cpu, 64, &[0x48, 0xF7, 0xE6]).unwrap();
    assert_eq!(cpu.regs.gpr(RAX), 0x20);
    assert_eq!(cpu.regs.gpr(RDX), 0);
    assert!(!cpu.regs.rflags.contains(CF));
}

#[test]
fn a_64_bit_multiply_reports_the_high_half() {
    let mut cpu = cpu();
    cpu.regs.set_gpr(RAX, u64::MAX);
    cpu.regs.set_gpr(RSI, 2);
    run(&mut cpu, 64, &[0x48, 0xF7, 0xE6]).unwrap();
    assert_eq!(cpu.regs.gpr(RAX), 0xFFFF_FFFF_FFFF_FFFE);
    assert_eq!(cpu.regs.gpr(RDX), 1);
    assert!(cpu.regs.rflags.contains(CF));
    assert!(cpu.regs.rflags.contains(OF));
}

#[test]
fn a_signed_multiply_that_fits_leaves_carry_clear() {
    // imul with a negative result sign-extends into RDX, which is not an
    // overflow even though the upper half is non-zero.
    let mut cpu = cpu();
    cpu.regs.set_gpr(RAX, (-3_i64) as u64);
    cpu.regs.set_gpr(RSI, 5);
    // imul rsi
    run(&mut cpu, 64, &[0x48, 0xF7, 0xEE]).unwrap();
    assert_eq!(cpu.regs.gpr(RAX), (-15_i64) as u64);
    assert_eq!(cpu.regs.gpr(RDX), u64::MAX);
    assert!(!cpu.regs.rflags.contains(CF));
    assert!(!cpu.regs.rflags.contains(OF));
}

#[test]
fn a_signed_multiply_that_overflows_sets_carry() {
    let mut cpu = cpu();
    cpu.regs.set_gpr(RAX, 1 << 62);
    cpu.regs.set_gpr(RSI, 4);
    run(&mut cpu, 64, &[0x48, 0xF7, 0xEE]).unwrap();
    assert!(cpu.regs.rflags.contains(CF));
    assert!(cpu.regs.rflags.contains(OF));
}

#[test]
fn a_32_bit_multiply_still_splits_into_eax_and_edx() {
    let mut cpu = cpu();
    cpu.regs.set_gpr(RAX, 0x1_0000);
    cpu.regs.set_gpr(RSI, 0x1_0000);
    // mul esi
    run(&mut cpu, 64, &[0xF7, 0xE6]).unwrap();
    assert_eq!(cpu.regs.gpr(RAX), 0);
    assert_eq!(cpu.regs.gpr(RDX), 1);
}
