use rish_softvm_core::arch::registers::{CR0_PE, EFER_LMA, RAX, RCX};
use rish_softvm_core::cpu::{Cpu, CpuError, GuestFault};
use rish_softvm_core::decode::{decode, op_kind};

fn long_mode() -> Cpu {
    let mut cpu = Cpu::new(0x1000);
    cpu.regs.efer |= EFER_LMA;
    cpu.regs.cs.long_mode = true;
    cpu
}

fn failure(cpu: &mut Cpu, bytes: &[u8]) -> Option<CpuError> {
    cpu.dispatch(&decode(64, bytes, 0x1000)).err()
}

fn fault(reason: GuestFault) -> Option<CpuError> {
    Some(CpuError::GuestFault { reason })
}

#[test]
fn an_address_past_the_memory_is_out_of_range() {
    let mut cpu = long_mode();
    // mov al, [0x5000]
    let bytes = [0x8A, 0x04, 0x25, 0x00, 0x50, 0x00, 0x00];
    assert_eq!(failure(&mut cpu, &bytes), Some(CpuError::OutOfRange { address: 0x5000 }));
    assert_eq!(cpu.memory.read_u8(0x1000), Err(CpuError::OutOfRange { address: 0x1000 }));
    assert_eq!(cpu.memory.write_u64(0xFF9, 0), Err(CpuError::OutOfRange { address: 0xFF9 }));
    assert_eq!(cpu.memory.write_u64(0xFF8, 7), Ok(()));
    assert_eq!(cpu.memory.read_u64(0xFF8), Ok(7));
}

#[test]
fn unknown_model_specific_registers_are_reported() {
    let mut cpu = long_mode();
    cpu.regs.gpr[RCX] = 0x1234_5678;
    assert_eq!(
        failure(&mut cpu, &[0x0F, 0x32]),
        fault(GuestFault::UnknownMsr { register: 0x1234_5678, write: false })
    );
    assert_eq!(
        failure(&mut cpu, &[0x0F, 0x30]),
        fault(GuestFault::UnknownMsr { register: 0x1234_5678, write: true })
    );
}

#[test]
fn an_interrupt_without_a_table_entry_is_undeliverable() {
    let mut cpu = long_mode();
    cpu.regs.idt_limit = 0;
    // ud2
    assert_eq!(failure(&mut cpu, &[0x0F, 0x0B]), Some(CpuError::Undeliverable { vector: 6 }));
    // A table entry that is not present.
    cpu.regs.idt_limit = 0xFFF;
    assert_eq!(failure(&mut cpu, &[0x0F, 0x0B]), Some(CpuError::Undeliverable { vector: 6 }));
}

#[test]
fn a_selector_outside_its_table_is_bad() {
    let mut cpu = long_mode();
    cpu.regs.cr0 |= CR0_PE;
    cpu.regs.gdt_limit = 0x27;
    cpu.regs.gpr[RAX] = 0x28;
    // ltr ax
    assert_eq!(failure(&mut cpu, &[0x0F, 0x00, 0xD8]), Some(CpuError::BadSelector { selector: 0x28 }));
    cpu.regs.gdt_limit = 0x2F;
    assert_eq!(failure(&mut cpu, &[0x0F, 0x00, 0xD8]), None);
}

#[test]
fn horizontal_arithmetic_refuses_modes_and_operands() {
    let addps = [0xF2, 0x0F, 0x7C, 0xC1];
    let mut cpu = long_mode();
    cpu.mxcsr = 0x3F80;
    assert_eq!(failure(&mut cpu, &addps), fault(GuestFault::HorizontalMode));
    cpu.mxcsr = 0x1F00;
    assert_eq!(failure(&mut cpu, &addps), fault(GuestFault::HorizontalMode));
    cpu.mxcsr = 0x1F80;
    cpu.regs.xmm[1] = u128::from(f32::INFINITY.to_bits());
    assert_eq!(failure(&mut cpu, &addps), fault(GuestFault::HorizontalOperand));
    assert_eq!(cpu.mxcsr, 0x1F80);
}

#[test]
fn unmasked_exceptions_of_conversions_and_roundings_are_refused() {
    let mut cpu = long_mode();
    cpu.mxcsr = 0x0F80;
    cpu.regs.xmm[1] = u128::from(1.5_f32.to_bits());
    cpu.regs.xmm[0] = 9;
    // cvttps2dq
    assert_eq!(failure(&mut cpu, &[0xF3, 0x0F, 0x5B, 0xC1]), fault(GuestFault::Conversion));
    assert_eq!((cpu.regs.xmm[0], cpu.mxcsr), (9, 0x0FA0));
    cpu.mxcsr = 0x0F80;
    // roundps
    assert_eq!(failure(&mut cpu, &[0x66, 0x0F, 0x3A, 0x08, 0xC1, 0x00]), fault(GuestFault::Rounding));
    assert_eq!((cpu.regs.xmm[0], cpu.mxcsr), (9, 0x0FA0));
}

#[test]
fn a_waiting_exception_without_native_reporting_is_refused() {
    let mut cpu = long_mode();
    cpu.fpu.status = 1;
    cpu.fpu.control = 0x037E;
    cpu.regs.cr0 = 0;
    // fprem
    assert_eq!(failure(&mut cpu, &[0xD9, 0xF8]), fault(GuestFault::LegacyException));
}

#[test]
fn a_floating_point_operand_of_another_size_is_refused() {
    let mut cpu = long_mode();
    // fld dword ptr [0x100]
    let mut instruction = decode(64, &[0xD9, 0x04, 0x25, 0x00, 0x01, 0x00, 0x00], 0x1000);
    assert!(cpu.dispatch(&instruction).is_ok());
    instruction.memory_size = op_kind::SIZE_UINT8;
    assert_eq!(cpu.dispatch(&instruction).err(), fault(GuestFault::OperandSize));
}

#[test]
fn a_halted_processor_stays_halted() {
    let mut cpu = long_mode();
    cpu.halted = true;
    assert_eq!(cpu.step(), Err(CpuError::Halted));
    assert_eq!(cpu.step(), Err(CpuError::Halted));
}
