//! Where addresses lead and where interrupts go, told by the entries that memory holds.

use vstd::prelude::*;

use crate::arch::registers::{holds, CpuMode};
use crate::arch::segments::{Descriptor, SegmentRegister, SegmentSelector};
use crate::arith::le_bytes;
use crate::cpu::interrupts::{gate_of, interrupt_frame};
use crate::cpu::linear::{lemma_same_bytes, lemma_same_translation, same_elsewhere, AccessKind};
use crate::cpu::memory::load_word;
use crate::cpu::step::{dispatch_spec, route_of, Route};
use crate::cpu::{CpuError, Machine};
use crate::decode::{mnemonic, Instruction};
use crate::ops::effect::{done, Effect};
use crate::ops::system::{iret_spec, system_op_spec};

verus! {

/// The frame that a page table entry names.
pub open spec fn frame_of(entry: u64) -> int {
    ((entry as int / 0x1000) % 0x100_0000_0000) * 0x1000
}

pub open spec fn is_present(entry: u64) -> bool {
    entry as int % 2 == 1
}

pub open spec fn is_writable(entry: u64) -> bool {
    (entry as int / 2) % 2 == 1
}

pub open spec fn is_for_users(entry: u64) -> bool {
    (entry as int / 4) % 2 == 1
}

pub open spec fn is_large(entry: u64) -> bool {
    (entry as int / 0x80) % 2 == 1
}

/// Whether memory holds an entry at its place in a table.
pub open spec fn has_entry(machine: Machine, table: int, index: int, entry: u64) -> bool {
    load_word(machine.memory, (table + index * 8) as u64, 8) == Ok::<u64, CpuError>(entry)
}

/// What an access through a mapping gives: the address, or a protection fault for a user
/// access to a page that is not for users and for a write to one that is read-only. Above
/// the user level read-only pages are so only where write protection is on.
pub open spec fn guarded(
    machine: Machine,
    linear: u64,
    kind: AccessKind,
    user: bool,
    writable: bool,
    for_users: bool,
    physical: int,
) -> Result<u64, CpuError> {
    let write = kind == AccessKind::Write;
    if user && !for_users || write && !writable && (user || holds(machine.regs.cr0, 0x1_0000)) {
        Err(
            CpuError::PageFault {
                linear,
                error_code: (1 + if write { 2int } else { 0 } + if user { 4int } else { 0 }) as u32,
            },
        )
    } else {
        Ok(physical as u64)
    }
}

/// What an access to a page that is not there gives.
pub open spec fn missing(linear: u64, kind: AccessKind, user: bool) -> Result<u64, CpuError> {
    Err(
        CpuError::PageFault {
            linear,
            error_code: (if kind == AccessKind::Write { 2int } else { 0 } + if user { 4int } else { 0 }) as u32,
        },
    )
}

/// With paging on, an address goes through four tables, nine bits of it at each. A page is
/// allowed what every level allows. An entry that is marked large ends the walk at the
/// second or third table from the last, and the rest of the address stays; an entry that is
/// not present at any level is a fault.
pub proof fn addresses_go_through_four_tables(
    machine: Machine,
    linear: u64,
    kind: AccessKind,
    user: bool,
    top: u64,
    upper: u64,
    lower: u64,
    last: u64,
)
    requires
        holds(machine.regs.cr0, 0x8000_0000),
        has_entry(machine, frame_of(machine.regs.cr3), (linear as int / 0x80_0000_0000) % 512, top),
        is_present(top) ==> has_entry(machine, frame_of(top), (linear as int / 0x4000_0000) % 512, upper),
        is_present(top) && is_present(upper) && !is_large(upper) ==> has_entry(
            machine,
            frame_of(upper),
            (linear as int / 0x20_0000) % 512,
            lower,
        ),
        is_present(top) && is_present(upper) && !is_large(upper) && is_present(lower) && !is_large(lower) ==> has_entry(
            machine,
            frame_of(lower),
            (linear as int / 0x1000) % 512,
            last,
        ),
    ensures
        ({
            let writable = is_writable(top) && is_writable(upper);
            let for_users = is_for_users(top) && is_for_users(upper);
            machine.translate_as(linear, kind, user) == if !is_present(top) || !is_present(upper) {
                missing(linear, kind, user)
            } else if is_large(upper) {
                guarded(
                    machine,
                    linear,
                    kind,
                    user,
                    writable,
                    for_users,
                    frame_of(upper) - frame_of(upper) % 0x4000_0000 + linear as int % 0x4000_0000,
                )
            } else if !is_present(lower) {
                missing(linear, kind, user)
            } else if is_large(lower) {
                guarded(
                    machine,
                    linear,
                    kind,
                    user,
                    writable && is_writable(lower),
                    for_users && is_for_users(lower),
                    frame_of(lower) - frame_of(lower) % 0x20_0000 + linear as int % 0x20_0000,
                )
            } else if !is_present(last) {
                missing(linear, kind, user)
            } else {
                guarded(
                    machine,
                    linear,
                    kind,
                    user,
                    writable && is_writable(lower) && is_writable(last),
                    for_users && is_for_users(lower) && is_for_users(last),
                    frame_of(last) + linear as int % 0x1000,
                )
            }
        }),
{
    reveal(Machine::translate_as);
    reveal_with_fuel(Machine::walk, 5);
    assert(frame_of(last) % 0x1000 == 0);
}

/// Without paging every address is its own.
pub proof fn unpaged_addresses_stay(machine: Machine, linear: u64, kind: AccessKind, user: bool)
    requires
        !holds(machine.regs.cr0, 0x8000_0000),
    ensures
        machine.translate_as(linear, kind, user) == Ok::<u64, CpuError>(linear),
{
    reveal(Machine::translate_as);
}

/// A segment descriptor spells its base in two pieces and its limit in two others; the
/// flags between them say what it is.
pub proof fn descriptors_spell_their_fields(
    base_low: int,
    base_high: int,
    limit_low: int,
    limit_high: int,
    kind: int,
    application: bool,
    level: int,
    present: bool,
    available: bool,
    long: bool,
    wide: bool,
    coarse: bool,
    raw: u64,
)
    requires
        0 <= base_low < 0x100_0000,
        0 <= base_high < 0x100,
        0 <= limit_low < 0x1_0000,
        0 <= limit_high < 16,
        0 <= kind < 16,
        0 <= level < 4,
        raw == limit_low + 0x1_0000 * (base_low + 0x100_0000 * (kind + 16 * (flag(application) + 2 * (level + 4 * (flag(
            present,
        ) + 2 * (limit_high + 16 * (flag(available) + 2 * (flag(long) + 2 * (flag(wide) + 2 * (flag(coarse) + 2
            * base_high)))))))))),
    ensures
        ({
            let found = Descriptor::decode_spec(raw);
            &&& found.base == base_low + base_high * 0x100_0000
            &&& found.limit == limit_low + limit_high * 0x1_0000
            &&& found.descriptor_type == kind
            &&& found.system == !application
            &&& found.dpl == level
            &&& found.present == present
            &&& found.long_mode == long
            &&& found.default_32 == wide
            &&& found.granularity == coarse
            &&& found.code == (application && kind >= 8)
            &&& found.conforming == (application && kind >= 8 && (kind / 4) % 2 == 1)
            &&& found.expand_down == (application && kind < 8 && (kind / 4) % 2 == 1)
            &&& found.writable_or_readable == (application && (kind / 2) % 2 == 1)
        }),
{
    let g = flag(coarse) + 2 * base_high;
    let f = flag(wide) + 2 * g;
    let e = flag(long) + 2 * f;
    let d = flag(available) + 2 * e;
    let c = limit_high + 16 * d;
    let b = flag(present) + 2 * c;
    let a = level + 4 * b;
    let s = flag(application) + 2 * a;
    let k = kind + 16 * s;
    let u = base_low + 0x100_0000 * k;
    assert(raw == limit_low + 0x1_0000 * u);
    assert(raw as int / 0x1_0000 == u);
    assert(raw as int / 0x100_0000_0000 == k);
    assert(raw as int / 0x1000_0000_0000 == s);
    assert(raw as int / 0x2000_0000_0000 == a);
    assert(raw as int / 0x8000_0000_0000 == b);
    assert(raw as int / 0x1_0000_0000_0000 == c);
    assert(raw as int / 0x10_0000_0000_0000 == d);
    assert(raw as int / 0x20_0000_0000_0000 == e);
    assert(raw as int / 0x40_0000_0000_0000 == f);
    assert(raw as int / 0x80_0000_0000_0000 == g);
    assert(raw as int / 0x100_0000_0000_0000 == base_high);
}

/// One for a set flag.
pub open spec fn flag(on: bool) -> int {
    if on {
        1
    } else {
        0
    }
}

/// A gate spells its offset in three pieces, with the selector, the type and the present
/// bit between them.
pub proof fn gates_spell_their_fields(
    offset_low: int,
    offset_middle: int,
    offset_high: int,
    selector: int,
    stack: int,
    kind: int,
    level: int,
    present: bool,
    low: u64,
    high: u64,
)
    requires
        0 <= offset_low < 0x1_0000,
        0 <= offset_middle < 0x1_0000,
        0 <= offset_high < 0x1_0000_0000,
        0 <= selector < 0x1_0000,
        0 <= stack < 0x100,
        0 <= kind < 16,
        0 <= level < 8,
        low == offset_low + 0x1_0000 * (selector + 0x1_0000 * (stack + 0x100 * (kind + 16 * (level + 8 * (flag(present)
            + 2 * offset_middle))))),
        high as int % 0x1_0000_0000 == offset_high,
    ensures
        ({
            let gate = gate_of(low, high);
            &&& gate.offset == offset_low + offset_middle * 0x1_0000 + offset_high * 0x1_0000_0000
            &&& gate.selector == SegmentSelector(selector as u16)
            &&& gate.present == present
            &&& gate.interrupt == (kind == 14)
        }),
{
    let c = flag(present) + 2 * offset_middle;
    let b = level + 8 * c;
    let a = kind + 16 * b;
    let s = stack + 0x100 * a;
    let u = selector + 0x1_0000 * s;
    assert(low == offset_low + 0x1_0000 * u);
    assert(low as int / 0x1_0000 == u);
    assert(low as int / 0x1_0000_0000 == s);
    assert(low as int / 0x100_0000_0000 == a);
    assert(low as int / 0x8000_0000_0000 == c);
    assert(low as int / 0x1_0000_0000_0000 == offset_middle);
}

/// An interrupt above the user level goes where its descriptor says: the processor continues
/// at the offset and in the segment that stand there, with the trap flag clear, and the
/// interrupt flag too where the descriptor is of the kind that masks interrupts. On the stack, from an address that was brought to a multiple
/// of sixteen, stand the address to return to, the code segment, the flags, the stack
/// pointer and the stack segment as they were.
pub proof fn interrupts_enter_their_handler(
    machine: Machine,
    vector: u8,
    low: u64,
    high: u64,
    cs: SegmentRegister,
    places: Seq<u64>,
)
    requires
        machine.regs.gpr.len() == 16,
        holds(machine.regs.efer, 0x400),
        machine.regs.cpl() != 3,
        vector * 16 + 15 <= machine.regs.idt_limit,
        machine.linear_load(machine.regs.idt_base.wrapping_add((vector * 16) as u64), 8, false) == Ok::<u128, CpuError>(
            low as u128,
        ),
        machine.linear_load(
            machine.regs.idt_base.wrapping_add((vector * 16) as u64).wrapping_add(8),
            8,
            false,
        ) == Ok::<u128, CpuError>(high as u128),
        gate_of(low, high).present,
        machine.load_segment(gate_of(low, high).selector) == Ok::<SegmentRegister, CpuError>(cs),
        places.len() == 40,
        machine.lie_at(
            ((machine.regs.gpr[4] - machine.regs.gpr[4] % 16 - 40) % 0x1_0000_0000_0000_0000) as u64,
            false,
            places,
        ),
    ensures
        ({
            let (after, result) = machine.inject_interrupt(vector);
            let gate = gate_of(low, high);
            let rsp = machine.regs.gpr[4];
            let pointer = (rsp - rsp % 16 - 40) % 0x1_0000_0000_0000_0000;
            &&& result == Ok::<(), CpuError>(())
            &&& after.regs.rip == gate.offset
            &&& after.regs.cs == cs
            &&& after.regs.gpr == machine.regs.gpr.update(4, pointer as u64)
            &&& after.regs.ss == machine.regs.ss
            &&& !holds(after.regs.rflags, 0x100)
            &&& gate.interrupt ==> !holds(after.regs.rflags, 0x200)
            &&& !gate.interrupt ==> holds(after.regs.rflags, 0x200) == holds(machine.regs.rflags, 0x200)
            &&& after.regs.rflags & !0x300 == machine.regs.rflags & !0x300
            &&& !after.halted
            &&& !after.waiting_for_interrupt
            &&& same_elsewhere(machine.memory, after.memory, places)
            &&& after.linear_bytes(pointer as u64, 40, false) == Ok::<Seq<u8>, CpuError>(
                le_bytes(machine.regs.rip as nat, 8) + le_bytes(machine.regs.cs.selector.0 as nat, 8) + le_bytes(
                    machine.regs.rflags as nat,
                    8,
                ) + le_bytes(rsp as nat, 8) + le_bytes(machine.regs.ss.selector.0 as nat, 8),
            )
        }),
{
    let noted = machine.noted(vector, 0, machine.regs.rip);
    let rsp = machine.regs.gpr[4];
    let pointer = ((rsp - rsp % 16 - 40) % 0x1_0000_0000_0000_0000) as u64;
    let frame = interrupt_frame(noted.regs, machine.regs.rip, None);
    let offset = (vector * 16) as u64;
    crate::arith::lemma_le_bytes_len(machine.regs.rip as nat, 8);
    crate::arith::lemma_le_bytes_len(machine.regs.cs.selector.0 as nat, 8);
    crate::arith::lemma_le_bytes_len(machine.regs.rflags as nat, 8);
    crate::arith::lemma_le_bytes_len(rsp as nat, 8);
    crate::arith::lemma_le_bytes_len(machine.regs.ss.selector.0 as nat, 8);
    reveal(interrupt_frame);
    assert(frame.len() == 40);
    lemma_noted(machine, noted, offset, gate_of(low, high).selector);
    lemma_noted_places(machine, noted, pointer, places);
    crate::cpu::linear::read_after_write(noted, pointer, frame, false, places);
    let written = noted.linear_store(pointer, frame, false).0;
    let gate = gate_of(low, high);
    let after = written.entered(gate, cs, pointer);
    assert(noted.gate(vector) == Ok::<crate::cpu::interrupts::Gate, CpuError>(gate)) by {
        reveal(Machine::gate);
    }
    assert(noted.delivery_stack() == Ok::<u64, CpuError>(rsp)) by {
        reveal(Machine::delivery_stack);
    }
    assert(machine.inject_interrupt(vector) == (after, Ok::<(), CpuError>(()))) by {
        reveal(Machine::deliver);
    }
    lemma_same_bytes(after, written, pointer, 40, false);
    lemma_entry_flags(machine.regs.rflags);
}

proof fn lemma_entry_flags(flags: u64)
    ensures
        (flags & !0x100) & 0x100 != 0x100,
        ((flags & !0x100) & 0x200 == 0x200) == (flags & 0x200 == 0x200),
        ((flags & !0x100) & !0x200) & 0x200 != 0x200,
        ((flags & !0x100) & !0x200) & 0x100 != 0x100,
        (flags & !0x100) & !0x300 == flags & !0x300,
        ((flags & !0x100) & !0x200) & !0x300 == flags & !0x300,
{
    assert((flags & !0x100) & 0x100 != 0x100 && ((flags & !0x100) & 0x200 == 0x200) == (flags & 0x200 == 0x200) && ((flags
        & !0x100) & !0x200) & 0x200 != 0x200 && ((flags & !0x100) & !0x200) & 0x100 != 0x100 && (flags & !0x100)
        & !0x300 == flags & !0x300 && ((flags & !0x100) & !0x200) & !0x300 == flags & !0x300) by (bit_vector);
}

proof fn lemma_noted(machine: Machine, noted: Machine, offset: u64, selector: SegmentSelector)
    requires
        noted.memory == machine.memory,
        noted.regs == machine.regs,
    ensures
        noted.linear_load(machine.regs.idt_base.wrapping_add(offset), 8, false) == machine.linear_load(
            machine.regs.idt_base.wrapping_add(offset),
            8,
            false,
        ),
        noted.linear_load(machine.regs.idt_base.wrapping_add(offset).wrapping_add(8), 8, false) == machine.linear_load(
            machine.regs.idt_base.wrapping_add(offset).wrapping_add(8),
            8,
            false,
        ),
        noted.load_segment(selector) == machine.load_segment(selector),
{
    reveal(Machine::load_segment);
    lemma_same_bytes(noted, machine, machine.regs.idt_base.wrapping_add(offset), 8, false);
    lemma_same_bytes(noted, machine, machine.regs.idt_base.wrapping_add(offset).wrapping_add(8), 8, false);
    let (base, limit) = if selector.table_spec() == 0 {
        (machine.regs.gdt_base, machine.regs.gdt_limit as u64)
    } else {
        (machine.regs.ldtr.base, machine.regs.ldtr.effective_limit_spec())
    };
    lemma_same_bytes(noted, machine, base.wrapping_add((selector.index_spec() * 8) as u64), 8, false);
}

proof fn lemma_noted_places(machine: Machine, noted: Machine, linear: u64, places: Seq<u64>)
    requires
        noted.memory == machine.memory,
        noted.regs == machine.regs,
        machine.lie_at(linear, false, places),
    ensures
        noted.lie_at(linear, false, places),
{
    assert forall|memory: Seq<u8>, i: int, kind: AccessKind|
        #![trigger (Machine { memory, ..noted }).translate_as(linear.wrapping_add(i as u64), kind, false)]
        same_elsewhere(noted.memory, memory, places) && 0 <= i < places.len() implies (Machine {
        memory,
        ..noted
    }).translate_as(linear.wrapping_add(i as u64), kind, false) == Ok::<u64, CpuError>(places[i]) by {
        lemma_same_translation(
            Machine { memory, ..noted },
            Machine { memory, ..machine },
            linear.wrapping_add(i as u64),
            kind,
            false,
        );
    }
}

proof fn lemma_routed_return(machine: Machine, instruction: Instruction)
    requires
        instruction.mnemonic == mnemonic::IRET,
    ensures
        dispatch_spec(machine, instruction) == done(iret_spec(machine)),
{
    assert(route_of(instruction.mnemonic) == Route::System);
    reveal(dispatch_spec);
    assert(system_op_spec(machine, instruction) == iret_spec(machine));
}

proof fn lemma_popped(machine: Machine, value: u64)
    requires
        machine.regs.gpr.len() == 16,
        machine.regs.mode() == CpuMode::Long,
        machine.read_linear(machine.regs.gpr[4], 8) == Ok::<u64, CpuError>(value),
    ensures
        machine.pop_native() == (
            machine.set_gpr(4, machine.regs.gpr[4].wrapping_add(8)),
            Ok::<u64, CpuError>(value),
        ),
{
    reveal(Machine::pop_native);
    assert(crate::cpu::stack::stack_width(machine.regs.mode()) == 8);
}

/// In long mode an interrupt return takes the address to continue at, the code segment and
/// the flags from the stack, in this order.
pub proof fn interrupt_returns_take_the_frame(
    machine: Machine,
    instruction: Instruction,
    rip: u64,
    selector: u64,
    flags: u64,
    cs: SegmentRegister,
)
    requires
        machine.regs.gpr.len() == 16,
        instruction.mnemonic == mnemonic::IRET,
        machine.regs.mode() == CpuMode::Long,
        machine.read_linear(machine.regs.gpr[4], 8) == Ok::<u64, CpuError>(rip),
        machine.read_linear(machine.regs.gpr[4].wrapping_add(8), 8) == Ok::<u64, CpuError>(selector),
        machine.read_linear(machine.regs.gpr[4].wrapping_add(16), 8) == Ok::<u64, CpuError>(flags),
        machine.load_segment(SegmentSelector(selector as u16)) == Ok::<SegmentRegister, CpuError>(cs),
    ensures
        ({
            let (after, result) = dispatch_spec(machine, instruction);
            &&& result == Ok::<Effect, CpuError>(Effect::Done)
            &&& after.regs.rip == rip
            &&& after.regs.cs == cs
            &&& after.regs.rflags == (flags & 0x3F_7FD7) | (machine.regs.rflags & 0x2_0000)
            &&& after.regs.gpr == machine.regs.gpr.update(4, machine.regs.gpr[4].wrapping_add(24))
            &&& after.memory == machine.memory
        }),
{
    reveal(Machine::load_segment);
    lemma_routed_return(machine, instruction);
    let rsp = machine.regs.gpr[4];
    let first = machine.set_gpr(4, rsp.wrapping_add(8));
    let second = first.set_gpr(4, first.regs.gpr[4].wrapping_add(8));
    let third = second.set_gpr(4, second.regs.gpr[4].wrapping_add(8));
    lemma_popped(machine, rip);
    lemma_same_bytes(first, machine, rsp.wrapping_add(8), 8, machine.regs.cpl() == 3);
    lemma_popped(first, selector);
    assert(rsp.wrapping_add(8).wrapping_add(8) == rsp.wrapping_add(16));
    lemma_same_bytes(second, machine, rsp.wrapping_add(16), 8, machine.regs.cpl() == 3);
    lemma_popped(second, flags);
    let flagged = third.set_flags((flags & 0x3F_7FD7) | (machine.regs.rflags & 0x2_0000));
    let chosen = SegmentSelector(selector as u16);
    let (base, limit) = if chosen.table_spec() == 0 {
        (machine.regs.gdt_base, machine.regs.gdt_limit as u64)
    } else {
        (machine.regs.ldtr.base, machine.regs.ldtr.effective_limit_spec())
    };
    lemma_same_bytes(flagged, machine, base.wrapping_add((chosen.index_spec() * 8) as u64), 8, false);
    assert(third.regs.gpr =~= machine.regs.gpr.update(4, rsp.wrapping_add(24)));
}

} // verus!
