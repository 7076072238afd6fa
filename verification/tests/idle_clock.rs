use rish_softvm_core::arch::registers::{EFER_LMA, IF};
use rish_softvm_core::arch::segments::{Descriptor, SegmentSelector};
use rish_softvm_core::cpu::{Cpu, CpuError};

const CODE: u64 = 0x1000;
const IDLE_TICKS: u64 = 64;

fn cpu(interrupts_enabled: bool) -> Cpu {
    let mut cpu = Cpu::new(1 << 20);
    cpu.regs.efer |= EFER_LMA;
    cpu.regs.cs = Descriptor::decode(0x00AF_9B00_0000_FFFF).load(SegmentSelector(8));
    cpu.regs.rflags = if interrupts_enabled { cpu.regs.rflags | IF } else { cpu.regs.rflags & !IF };
    cpu.regs.rip = CODE;
    cpu.memory.write(CODE, &[0xF4]).unwrap(); // hlt
    cpu
}

#[test]
fn idle_clock_hlt_advances_tsc_without_retiring_instructions() {
    let mut cpu = cpu(true);
    cpu.tsc = 0x1003;
    cpu.step().unwrap();
    assert!(cpu.waiting_for_interrupt);
    assert_eq!(cpu.tsc, 0x1004, "HLT itself retires normally");
    let retired = cpu.instructions_retired;

    for idle_step in 1..=5 {
        cpu.step().unwrap();
        assert_eq!(cpu.tsc, 0x1004 + idle_step * IDLE_TICKS);
        assert_eq!(cpu.instructions_retired, retired);
        assert_eq!(cpu.regs.rip, CODE + 1);
        assert!(cpu.waiting_for_interrupt);
        assert!(!cpu.halted);
    }
}

#[test]
fn a_halt_without_interrupts_stops_the_processor_for_good() {
    let mut cpu = cpu(false);
    cpu.step().unwrap();
    assert!(cpu.halted);
    assert!(!cpu.waiting_for_interrupt);
    assert_eq!(cpu.tsc, 1);

    for _ in 0..5 {
        assert_eq!(cpu.step(), Err(CpuError::Halted));
        assert_eq!(cpu.tsc, 1);
        assert_eq!(cpu.instructions_retired, 1);
        assert_eq!(cpu.regs.rip, CODE + 1);
    }
}

#[test]
fn the_time_stamp_counter_stays_at_its_largest_value() {
    let mut cpu = cpu(true);
    cpu.tsc = u64::MAX - 32;
    cpu.step().unwrap();
    cpu.step().unwrap();
    assert_eq!(cpu.tsc, u64::MAX);
    cpu.step().unwrap();
    assert_eq!(cpu.tsc, u64::MAX);
    assert_eq!(cpu.instructions_retired, 1);
}
