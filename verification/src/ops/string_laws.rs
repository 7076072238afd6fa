//! What string instructions do to whole strings.

use vstd::arithmetic::power2::{lemma2_to64, pow2};
use vstd::prelude::*;

use crate::arch::registers::{holds, CpuMode};
use crate::arith::{byte_span, lemma_le_value_bound, low_bits};
use crate::cpu::linear::{lemma_bytes_read, lemma_same_bytes};
use crate::cpu::step::{dispatch_spec, is_text_kind, route_of, Route};
use crate::cpu::{CpuError, Machine};
use crate::decode::{mnemonic, Instruction};
use crate::ops::branch::conditions_tell_the_order;
use crate::ops::effect::{done, Effect};
use crate::ops::memory_size_spec;
use crate::ops::string::{compared, string_element, string_elements, string_kind_spec, string_op_spec, StringKind};
use crate::ops::{arithmetic_flags, arithmetic_keeps_other_flags, sub_result};

verus! {

/// Where an element of a string stands: `index` elements up from `base`, or down from it
/// while the direction flag is set.
#[verifier::opaque]
pub open spec fn element_at(flags: u64, base: u64, size: int, index: int) -> u64 {
    (if holds(flags, 0x400) {
        (base - index * size) % 0x1_0000_0000_0000_0000
    } else {
        (base + index * size) % 0x1_0000_0000_0000_0000
    }) as u64
}

/// The repeat counter: the part of RCX that the mode uses.
pub open spec fn counter(machine: Machine) -> int {
    let rcx = machine.regs.gpr[1] as int;
    match machine.regs.mode() {
        CpuMode::Long => rcx,
        CpuMode::Protected32 => rcx % 0x1_0000_0000,
        _ => rcx % 0x1_0000,
    }
}

pub open spec fn is_element_size(size: int) -> bool {
    size == 1 || size == 2 || size == 4 || size == 8
}

/// The part of RAX that an element is compared with, stored from or loaded to.
pub open spec fn accumulator(machine: Machine, size: int) -> int {
    machine.regs.gpr[0] as int % (pow2((8 * size) as nat) as int)
}

proof fn lemma_next_element(flags: u64, base: u64, size: int, index: int)
    requires
        is_element_size(size),
    ensures
        element_at(flags, element_at(flags, base, size, 1), size, index) == element_at(flags, base, size, index + 1),
        element_at(flags, base, size, 0) == base,
{
    reveal(element_at);
    assert((index + 1) * size == index * size + size && 1 * size == size && 0 * size == 0) by (nonlinear_arith);
    let wide = 0x1_0000_0000_0000_0000int;
    let far = index * size;
    let up = base + size;
    let down = base - size;
    assert((up % wide + far) % wide == (up + far) % wide);
    assert((down % wide - far) % wide == (down - far) % wide);
}

proof fn lemma_advanced(flags: u64, base: u64, size: u8)
    requires
        is_element_size(size as int),
    ensures
        crate::ops::string::advanced(flags, base, size) == element_at(flags, base, size as int, 1),
{
    reveal(element_at);
    assert(1 * (size as int) == size) by (nonlinear_arith);
}

proof fn lemma_same_direction(flags: u64, other: u64, base: u64, size: int, index: int)
    requires
        holds(flags, 0x400) == holds(other, 0x400),
    ensures
        element_at(flags, base, size, index) == element_at(other, base, size, index),
{
    reveal(element_at);
}

proof fn lemma_read_bound(machine: Machine, linear: u64, size: int)
    requires
        is_element_size(size),
    ensures
        machine.read_linear(linear, size as nat) matches Ok(value) ==> value < pow2((8 * size) as nat),
{
    lemma2_to64();
    let user = machine.regs.cpl() == 3;
    lemma_bytes_read(machine, linear, size as nat, user);
    if let Ok(bytes) = machine.linear_bytes(linear, size as nat, user) {
        lemma_le_value_bound(bytes);
        assert(byte_span(size as nat) == pow2((8 * size) as nat));
    }
}

proof fn lemma_same_read(machine: Machine, other: Machine, linear: u64, count: nat)
    requires
        machine.memory == other.memory,
        machine.regs.cr0 == other.regs.cr0,
        machine.regs.cr3 == other.regs.cr3,
        machine.regs.cpl() == other.regs.cpl(),
    ensures
        machine.read_linear(linear, count) == other.read_linear(linear, count),
{
    lemma_same_bytes(machine, other, linear, count, machine.regs.cpl() == 3);
}

/// Whether two machines differ in the counter, the string pointers and the flags at most.
pub open spec fn same_but_pointers(machine: Machine, other: Machine) -> bool {
    &&& machine.regs.gpr.len() == other.regs.gpr.len()
    &&& forall|i: int|
        0 <= i < machine.regs.gpr.len() && i != 1 && i != 6 && i != 7 ==> #[trigger] machine.regs.gpr[i]
            == other.regs.gpr[i]
    &&& machine == (Machine {
        regs: crate::arch::registers::RegisterState {
            gpr: machine.regs.gpr,
            rflags: machine.regs.rflags,
            ..other.regs
        },
        ..other
    })
}

/// One comparison: where the pointers go, what is counted and what the flags tell.
proof fn lemma_compared(machine: Machine, instruction: Instruction, left: u64, right: u64, source: bool)
    requires
        machine.regs.gpr.len() == 16,
        is_element_size(memory_size_spec(instruction) as int),
        left < pow2(8 * memory_size_spec(instruction) as nat),
        right < pow2(8 * memory_size_spec(instruction) as nat),
    ensures
        ({
            let (after, ends) = compared(machine, instruction, left, right, source);
            let size = memory_size_spec(instruction) as int;
            let flags = machine.regs.rflags;
            let repeated = instruction.rep || instruction.repne;
            &&& after.regs.gpr.len() == 16
            &&& after.regs.gpr[0] == machine.regs.gpr[0]
            &&& after.regs.gpr[1] == if repeated { machine.regs.gpr[1].wrapping_sub(1) } else { machine.regs.gpr[1] }
            &&& after.regs.gpr[6] == element_at(flags, machine.regs.gpr[6], size, if source { 1 } else { 0 })
            &&& after.regs.gpr[7] == element_at(flags, machine.regs.gpr[7], size, 1)
            &&& holds(after.regs.rflags, 0x400) == holds(flags, 0x400)
            &&& holds(after.regs.rflags, 0x40) == (left == right)
            &&& holds(after.regs.rflags, 0x1) == (left < right)
            &&& same_but_pointers(after, machine)
            &&& ends is Ok
            &&& ends->Ok_0 == (instruction.rep && left != right || instruction.repne && left == right)
        }),
{
    let size = memory_size_spec(instruction);
    let bits = crate::ops::width_bits(size);
    let flags = machine.regs.rflags;
    let outcome = sub_result(left, right, false, bits);
    let set = arithmetic_flags(flags, outcome, bits);
    lemma2_to64();
    conditions_tell_the_order(flags, left, right, bits);
    vstd::arithmetic::div_mod::lemma_small_mod(left as nat, pow2(bits as nat));
    vstd::arithmetic::div_mod::lemma_small_mod(right as nat, pow2(bits as nat));
    assert(low_bits(left as int, bits as nat) == left);
    assert(low_bits(right as int, bits as nat) == right);
    assert(0x400u64 & 0x8D5 == 0) by (bit_vector);
    arithmetic_keeps_other_flags(flags, outcome, bits, 0x400);
    lemma_advanced(set, machine.regs.gpr[6], size);
    lemma_advanced(set, machine.regs.gpr[7], size);
    lemma_same_direction(set, flags, machine.regs.gpr[6], size as int, 1);
    lemma_same_direction(set, flags, machine.regs.gpr[7], size as int, 1);
    lemma_next_element(flags, machine.regs.gpr[6], size as int, 0);
}

/// The first comparison of a string instruction.
proof fn lemma_first(machine: Machine, instruction: Instruction, left: u64, right: u64, source: bool)
    requires
        machine.regs.gpr.len() == 16,
        string_kind_spec(instruction.mnemonic) == if source { StringKind::Compare } else { StringKind::Scan },
        is_element_size(memory_size_spec(instruction) as int),
        source ==> machine.read_linear(machine.regs.gpr[6], memory_size_spec(instruction) as nat) == Ok::<u64, CpuError>(
            left,
        ),
        !source ==> left == accumulator(machine, memory_size_spec(instruction) as int),
        machine.read_linear(machine.regs.gpr[7], memory_size_spec(instruction) as nat) == Ok::<u64, CpuError>(right),
    ensures
        ({
            let (after, ends) = string_element(machine, instruction);
            let size = memory_size_spec(instruction) as int;
            let flags = machine.regs.rflags;
            let repeated = instruction.rep || instruction.repne;
            &&& after.regs.gpr.len() == 16
            &&& after.regs.gpr[0] == machine.regs.gpr[0]
            &&& after.regs.gpr[1] == if repeated { machine.regs.gpr[1].wrapping_sub(1) } else { machine.regs.gpr[1] }
            &&& after.regs.gpr[6] == element_at(flags, machine.regs.gpr[6], size, if source { 1 } else { 0 })
            &&& after.regs.gpr[7] == element_at(flags, machine.regs.gpr[7], size, 1)
            &&& holds(after.regs.rflags, 0x400) == holds(flags, 0x400)
            &&& holds(after.regs.rflags, 0x40) == (left == right)
            &&& holds(after.regs.rflags, 0x1) == (left < right)
            &&& same_but_pointers(after, machine)
            &&& ends is Ok
            &&& ends->Ok_0 == (instruction.rep && left != right || instruction.repne && left == right)
        }),
{
    let size = memory_size_spec(instruction) as int;
    lemma_read_bound(machine, machine.regs.gpr[7], size);
    lemma_read_bound(machine, machine.regs.gpr[6], size);
    lemma_accumulator(machine, memory_size_spec(instruction));
    lemma_compared(machine, instruction, left, right, source);
    assert(string_element(machine, instruction) == compared(machine, instruction, left, right, source)) by {
        reveal(string_element);
    }
}

/// A run of `done` comparisons out of `count`: all but the last go on, and the last ends
/// the repetition unless the counter does.
proof fn lemma_run(
    machine: Machine,
    instruction: Instruction,
    count: nat,
    done: nat,
    left: Seq<u64>,
    right: Seq<u64>,
    source: bool,
)
    requires
        machine.regs.gpr.len() == 16,
        string_kind_spec(instruction.mnemonic) == if source { StringKind::Compare } else { StringKind::Scan },
        is_element_size(memory_size_spec(instruction) as int),
        instruction.rep != instruction.repne,
        1 <= done <= count,
        left.len() == done,
        right.len() == done,
        forall|i: int|
            0 <= i < done ==> Ok::<u64, CpuError>(#[trigger] right[i]) == machine.read_linear(
                element_at(machine.regs.rflags, machine.regs.gpr[7], memory_size_spec(instruction) as int, i),
                memory_size_spec(instruction) as nat,
            ),
        source ==> forall|i: int|
            0 <= i < done ==> Ok::<u64, CpuError>(#[trigger] left[i]) == machine.read_linear(
                element_at(machine.regs.rflags, machine.regs.gpr[6], memory_size_spec(instruction) as int, i),
                memory_size_spec(instruction) as nat,
            ),
        !source ==> forall|i: int|
            0 <= i < done ==> #[trigger] left[i] == accumulator(machine, memory_size_spec(instruction) as int),
        forall|i: int| 0 <= i < done - 1 ==> (#[trigger] left[i] == #[trigger] right[i]) == instruction.rep,
        done < count ==> (left[done - 1] == right[done - 1]) != instruction.rep,
    ensures
        ({
            let (after, result) = string_elements(machine, instruction, count);
            let size = memory_size_spec(instruction) as int;
            let flags = machine.regs.rflags;
            &&& result is Ok
            &&& after.regs.gpr[1] == (machine.regs.gpr[1] - done) % 0x1_0000_0000_0000_0000
            &&& after.regs.gpr[6] == element_at(flags, machine.regs.gpr[6], size, if source { done as int } else { 0 })
            &&& after.regs.gpr[7] == element_at(flags, machine.regs.gpr[7], size, done as int)
            &&& holds(after.regs.rflags, 0x40) == (left[done - 1] == right[done - 1])
            &&& holds(after.regs.rflags, 0x1) == (left[done - 1] < right[done - 1])
            &&& same_but_pointers(after, machine)
        }),
    decreases done,
{
    let size = memory_size_spec(instruction) as int;
    let flags = machine.regs.rflags;
    let rsi = machine.regs.gpr[6];
    let rdi = machine.regs.gpr[7];
    lemma_next_element(flags, rsi, size, 0);
    lemma_next_element(flags, rdi, size, 0);
    assert(Ok::<u64, CpuError>(right[0]) == machine.read_linear(rdi, size as nat));
    assert(source ==> Ok::<u64, CpuError>(left[0]) == machine.read_linear(rsi, size as nat));
    lemma_first(machine, instruction, left[0], right[0], source);
    let (one, ends) = string_element(machine, instruction);
    if done > 1 {
        assert(left[0] == left[0] && right[0] == right[0]);
        let lefts = left.skip(1);
        let rights = right.skip(1);
        let less = (done - 1) as nat;
        assert forall|i: int| 0 <= i < less implies Ok::<u64, CpuError>(#[trigger] rights[i]) == one.read_linear(
            element_at(one.regs.rflags, one.regs.gpr[7], size, i),
            size as nat,
        ) by {
            assert(rights[i] == right[i + 1]);
            lemma_next_element(flags, rdi, size, i);
            lemma_same_direction(one.regs.rflags, flags, one.regs.gpr[7], size, i);
            lemma_same_read(one, machine, element_at(flags, rdi, size, i + 1), size as nat);
        }
        if source {
            assert forall|i: int| 0 <= i < less implies Ok::<u64, CpuError>(#[trigger] lefts[i]) == one.read_linear(
                element_at(one.regs.rflags, one.regs.gpr[6], size, i),
                size as nat,
            ) by {
                assert(lefts[i] == left[i + 1]);
                lemma_next_element(flags, rsi, size, i);
                lemma_same_direction(one.regs.rflags, flags, one.regs.gpr[6], size, i);
                lemma_same_read(one, machine, element_at(flags, rsi, size, i + 1), size as nat);
            }
        } else {
            assert forall|i: int| 0 <= i < less implies #[trigger] lefts[i] == accumulator(one, size) by {
                assert(lefts[i] == left[i + 1]);
            }
        }
        assert forall|i: int| 0 <= i < less - 1 implies (#[trigger] lefts[i] == #[trigger] rights[i]) == instruction.rep by {
            assert(lefts[i] == left[i + 1] && rights[i] == right[i + 1]);
        }
        lemma_run(one, instruction, (count - 1) as nat, less, lefts, rights, source);
        lemma_next_element(flags, rdi, size, less as int);
        lemma_next_element(flags, rsi, size, less as int);
        lemma_same_direction(one.regs.rflags, flags, one.regs.gpr[7], size, less as int);
        lemma_same_direction(one.regs.rflags, flags, one.regs.gpr[6], size, less as int);
        lemma_same_direction(one.regs.rflags, flags, one.regs.gpr[6], size, 0);
        lemma_next_element(one.regs.rflags, one.regs.gpr[6], size, 0);
        assert(string_elements(machine, instruction, count) == string_elements(one, instruction, (count - 1) as nat));
    } else {
        assert(count > 1 ==> string_elements(machine, instruction, count) == (one, Ok::<(), CpuError>(())));
        assert(count == 1 ==> string_elements(one, instruction, 0) == (one, Ok::<(), CpuError>(())));
    }
}

proof fn lemma_accumulator(machine: Machine, size: u8)
    requires
        is_element_size(size as int),
    ensures
        machine.read_accumulator(size) == accumulator(machine, size as int),
        machine.read_accumulator(size) < pow2((8 * size) as nat),
{
    lemma2_to64();
    let value = machine.regs.gpr[0];
    if size == 1 {
        assert(machine.read_accumulator(size) == value % 0x100);
    } else if size == 2 {
        assert(machine.read_accumulator(size) == value % 0x1_0000);
    } else if size == 4 {
        assert(machine.read_accumulator(size) == value % 0x1_0000_0000);
    } else {
        assert(machine.read_accumulator(size) == value);
        assert((8 * (size as int)) as nat == 64nat);
        vstd::arithmetic::div_mod::lemma_small_mod(value as nat, pow2(64));
    }
}

/// String instructions are string instructions, whatever else shares their mnemonic.
proof fn lemma_routed(machine: Machine, instruction: Instruction)
    requires
        compares_strings(instruction) || scans_a_string(instruction) || copies_a_string(instruction) || fills_a_string(
            instruction,
        ) || loads_from_a_string(instruction),
    ensures
        dispatch_spec(machine, instruction) == done(string_op_spec(machine, instruction)),
{
    assert(route_of(instruction.mnemonic) == if instruction.mnemonic == mnemonic::CMPSD || instruction.mnemonic
        == mnemonic::MOVSD {
        Route::TextOrScalar
    } else {
        Route::Text
    });
    reveal(dispatch_spec);
}

/// Whether an instruction compares two strings, the one at RSI with the one at RDI.
pub open spec fn compares_strings(instruction: Instruction) -> bool {
    ||| instruction.mnemonic == mnemonic::CMPSB
    ||| instruction.mnemonic == mnemonic::CMPSW
    ||| instruction.mnemonic == mnemonic::CMPSD && is_text_kind(instruction.op0_kind)
    ||| instruction.mnemonic == mnemonic::CMPSQ
}

/// Whether an instruction looks for the accumulator in the string at RDI.
pub open spec fn scans_a_string(instruction: Instruction) -> bool {
    ||| instruction.mnemonic == mnemonic::SCASB
    ||| instruction.mnemonic == mnemonic::SCASW
    ||| instruction.mnemonic == mnemonic::SCASD
    ||| instruction.mnemonic == mnemonic::SCASQ
}

/// A repeated comparison of two strings handles their elements in order. Under REPE it
/// goes on while the elements are equal, under REPNE while they differ, and no further
/// than the counter says. The counter and both pointers tell how many elements were
/// handled, and the flags are those of the last two: equal, and lower without sign.
/// Nothing else changes.
pub proof fn repeated_comparisons_stop_at_the_first_match(
    machine: Machine,
    instruction: Instruction,
    handled: nat,
    left: Seq<u64>,
    right: Seq<u64>,
)
    requires
        machine.regs.gpr.len() == 16,
        compares_strings(instruction),
        instruction.rep != instruction.repne,
        is_element_size(memory_size_spec(instruction) as int),
        1 <= handled <= counter(machine),
        left.len() == handled,
        right.len() == handled,
        forall|i: int|
            0 <= i < handled ==> Ok::<u64, CpuError>(#[trigger] left[i]) == machine.read_linear(
                element_at(machine.regs.rflags, machine.regs.gpr[6], memory_size_spec(instruction) as int, i),
                memory_size_spec(instruction) as nat,
            ),
        forall|i: int|
            0 <= i < handled ==> Ok::<u64, CpuError>(#[trigger] right[i]) == machine.read_linear(
                element_at(machine.regs.rflags, machine.regs.gpr[7], memory_size_spec(instruction) as int, i),
                memory_size_spec(instruction) as nat,
            ),
        forall|i: int| 0 <= i < handled - 1 ==> (#[trigger] left[i] == #[trigger] right[i]) == instruction.rep,
        handled < counter(machine) ==> (left[handled - 1] == right[handled - 1]) != instruction.rep,
    ensures
        ({
            let (after, result) = dispatch_spec(machine, instruction);
            let size = memory_size_spec(instruction) as int;
            let flags = machine.regs.rflags;
            &&& result == Ok::<Effect, CpuError>(Effect::Done)
            &&& after.regs.gpr[1] == (machine.regs.gpr[1] - handled) % 0x1_0000_0000_0000_0000
            &&& after.regs.gpr[6] == element_at(flags, machine.regs.gpr[6], size, handled as int)
            &&& after.regs.gpr[7] == element_at(flags, machine.regs.gpr[7], size, handled as int)
            &&& holds(after.regs.rflags, 0x40) == (left[handled - 1] == right[handled - 1])
            &&& holds(after.regs.rflags, 0x1) == (left[handled - 1] < right[handled - 1])
            &&& same_but_pointers(after, machine)
        }),
{
    lemma_routed(machine, instruction);
    lemma_run(machine, instruction, counter(machine) as nat, handled, left, right, true);
}

/// A repeated scan handles the elements of its string in order. Under REPNE it goes on
/// while they differ from the accumulator, under REPE while they equal it, and no further
/// than the counter says. The counter and the pointer tell how many elements were handled,
/// and the flags are those of the accumulator and the last one. Nothing else changes.
pub proof fn repeated_scans_stop_at_the_first_match(
    machine: Machine,
    instruction: Instruction,
    handled: nat,
    elements: Seq<u64>,
)
    requires
        machine.regs.gpr.len() == 16,
        scans_a_string(instruction),
        instruction.rep != instruction.repne,
        is_element_size(memory_size_spec(instruction) as int),
        1 <= handled <= counter(machine),
        elements.len() == handled,
        forall|i: int|
            0 <= i < handled ==> Ok::<u64, CpuError>(#[trigger] elements[i]) == machine.read_linear(
                element_at(machine.regs.rflags, machine.regs.gpr[7], memory_size_spec(instruction) as int, i),
                memory_size_spec(instruction) as nat,
            ),
        forall|i: int|
            0 <= i < handled - 1 ==> (#[trigger] elements[i] == accumulator(
                machine,
                memory_size_spec(instruction) as int,
            )) == instruction.rep,
        handled < counter(machine) ==> (elements[handled - 1] == accumulator(
            machine,
            memory_size_spec(instruction) as int,
        )) != instruction.rep,
    ensures
        ({
            let (after, result) = dispatch_spec(machine, instruction);
            let size = memory_size_spec(instruction) as int;
            let flags = machine.regs.rflags;
            let wanted = accumulator(machine, size);
            &&& result == Ok::<Effect, CpuError>(Effect::Done)
            &&& after.regs.gpr[1] == (machine.regs.gpr[1] - handled) % 0x1_0000_0000_0000_0000
            &&& after.regs.gpr[6] == machine.regs.gpr[6]
            &&& after.regs.gpr[7] == element_at(flags, machine.regs.gpr[7], size, handled as int)
            &&& holds(after.regs.rflags, 0x40) == (wanted == elements[handled - 1])
            &&& holds(after.regs.rflags, 0x1) == (wanted < elements[handled - 1])
            &&& same_but_pointers(after, machine)
        }),
{
    let size = memory_size_spec(instruction);
    lemma_accumulator(machine, size);
    let wanted = machine.read_accumulator(size);
    let left = Seq::new(handled, |i: int| wanted);
    assert forall|i: int| 0 <= i < handled - 1 implies (#[trigger] left[i] == #[trigger] elements[i]) == instruction.rep by {}
    lemma_routed(machine, instruction);
    lemma_run(machine, instruction, counter(machine) as nat, handled, left, elements, false);
    lemma_next_element(machine.regs.rflags, machine.regs.gpr[6], size as int, 0);
}

/// A comparison or a scan without a repeat prefix handles one element and leaves the
/// counter alone.
pub proof fn single_comparisons_tell_the_order(machine: Machine, instruction: Instruction, left: u64, right: u64)
    requires
        machine.regs.gpr.len() == 16,
        compares_strings(instruction) || scans_a_string(instruction),
        !instruction.rep && !instruction.repne,
        is_element_size(memory_size_spec(instruction) as int),
        compares_strings(instruction) ==> machine.read_linear(
            machine.regs.gpr[6],
            memory_size_spec(instruction) as nat,
        ) == Ok::<u64, CpuError>(left),
        scans_a_string(instruction) ==> left == accumulator(machine, memory_size_spec(instruction) as int),
        machine.read_linear(machine.regs.gpr[7], memory_size_spec(instruction) as nat) == Ok::<u64, CpuError>(right),
    ensures
        ({
            let (after, result) = dispatch_spec(machine, instruction);
            let size = memory_size_spec(instruction) as int;
            let flags = machine.regs.rflags;
            &&& result == Ok::<Effect, CpuError>(Effect::Done)
            &&& after.regs.gpr[1] == machine.regs.gpr[1]
            &&& after.regs.gpr[6] == element_at(
                flags,
                machine.regs.gpr[6],
                size,
                if compares_strings(instruction) { 1 } else { 0 },
            )
            &&& after.regs.gpr[7] == element_at(flags, machine.regs.gpr[7], size, 1)
            &&& holds(after.regs.rflags, 0x40) == (left == right)
            &&& holds(after.regs.rflags, 0x1) == (left < right)
            &&& same_but_pointers(after, machine)
        }),
{
    lemma_routed(machine, instruction);
    lemma_first(machine, instruction, left, right, compares_strings(instruction));
    reveal_with_fuel(string_elements, 2);
}

/// Whether an instruction copies from the string at RSI to the one at RDI.
pub open spec fn copies_a_string(instruction: Instruction) -> bool {
    ||| instruction.mnemonic == mnemonic::MOVSB
    ||| instruction.mnemonic == mnemonic::MOVSW
    ||| instruction.mnemonic == mnemonic::MOVSD && is_text_kind(instruction.op0_kind)
    ||| instruction.mnemonic == mnemonic::MOVSQ
}

/// Whether an instruction fills the string at RDI.
pub open spec fn fills_a_string(instruction: Instruction) -> bool {
    ||| instruction.mnemonic == mnemonic::STOSB
    ||| instruction.mnemonic == mnemonic::STOSW
    ||| instruction.mnemonic == mnemonic::STOSD
    ||| instruction.mnemonic == mnemonic::STOSQ
}

/// Whether an instruction loads from the string at RSI.
pub open spec fn loads_from_a_string(instruction: Instruction) -> bool {
    ||| instruction.mnemonic == mnemonic::LODSB
    ||| instruction.mnemonic == mnemonic::LODSW
    ||| instruction.mnemonic == mnemonic::LODSD
    ||| instruction.mnemonic == mnemonic::LODSQ
}

/// One element of a copy, a fill or a load: it is read from the string at RSI or from the
/// accumulator, goes to the string at RDI or to the accumulator, and the pointers of the
/// strings move past it.
pub proof fn single_elements_are_moved(machine: Machine, instruction: Instruction, value: u64)
    requires
        machine.regs.gpr.len() == 16,
        !instruction.rep && !instruction.repne,
        is_element_size(memory_size_spec(instruction) as int),
        copies_a_string(instruction) || fills_a_string(instruction) || loads_from_a_string(instruction),
        if fills_a_string(instruction) {
            value == accumulator(machine, memory_size_spec(instruction) as int)
        } else {
            machine.read_linear(machine.regs.gpr[6], memory_size_spec(instruction) as nat) == Ok::<u64, CpuError>(value)
        },
        loads_from_a_string(instruction) || machine.write_linear(
            machine.regs.gpr[7],
            memory_size_spec(instruction) as nat,
            value as u128,
        ).1 is Ok,
    ensures
        ({
            let (after, result) = dispatch_spec(machine, instruction);
            let size = memory_size_spec(instruction) as int;
            let flags = machine.regs.rflags;
            let rsi = machine.regs.gpr[6];
            let rdi = machine.regs.gpr[7];
            &&& result == Ok::<Effect, CpuError>(Effect::Done)
            &&& after.memory == if loads_from_a_string(instruction) {
                machine.memory
            } else {
                machine.write_linear(rdi, size as nat, value as u128).0.memory
            }
            &&& after.regs.rflags == flags
            &&& after.regs.gpr[1] == machine.regs.gpr[1]
            &&& after.regs.gpr[6] == if fills_a_string(instruction) { rsi } else { element_at(flags, rsi, size, 1) }
            &&& after.regs.gpr[7] == if loads_from_a_string(instruction) {
                rdi
            } else {
                element_at(flags, rdi, size, 1)
            }
            &&& loads_from_a_string(instruction) ==> accumulator(after, size) == value
            &&& !loads_from_a_string(instruction) ==> after.regs.gpr[0] == machine.regs.gpr[0]
        }),
{
    reveal_with_fuel(string_elements, 2);
    lemma_routed(machine, instruction);
    let size = memory_size_spec(instruction);
    let count = size as nat;
    let flags = machine.regs.rflags;
    lemma_accumulator(machine, size);
    lemma_advanced(flags, machine.regs.gpr[6], size);
    lemma_advanced(flags, machine.regs.gpr[7], size);
    if loads_from_a_string(instruction) {
        lemma_load_element(machine, instruction, size, count, false);
        lemma_loaded(machine, size, value);
    } else {
        crate::cpu::interrupts::lemma_store_keeps_regs(
            machine,
            machine.regs.gpr[7],
            crate::arith::le_bytes(value as nat, count),
            machine.regs.cpl() == 3,
        );
        if copies_a_string(instruction) {
            lemma_copy_element(machine, instruction, size, count, false);
        } else {
            lemma_fill_element(machine, instruction, size, count, false);
        }
    }
}

proof fn lemma_loaded(machine: Machine, size: u8, value: u64)
    requires
        machine.regs.gpr.len() == 16,
        is_element_size(size as int),
        machine.read_linear(machine.regs.gpr[6], size as nat) == Ok::<u64, CpuError>(value),
    ensures
        accumulator(machine.write_accumulator(size, value), size as int) == value,
{
    let loaded = machine.write_accumulator(size, value);
    lemma_read_bound(machine, machine.regs.gpr[6], size as int);
    crate::ops::read_after_write(machine.regs, crate::ops::arithmetic::accumulator_spec(size), size, value);
    lemma_accumulator(loaded, size);
    vstd::arithmetic::div_mod::lemma_small_mod(value as nat, pow2((8 * size) as nat));
}

/// A repeated copy, fill or load with an empty counter does nothing; with another it is the
/// same instruction once, then the repetition with the counter one lower, and a fault ends
/// it where it stands.
pub proof fn repetitions_go_element_by_element(machine: Machine, instruction: Instruction)
    requires
        machine.regs.gpr.len() == 16,
        instruction.rep || instruction.repne,
        copies_a_string(instruction) || fills_a_string(instruction) || loads_from_a_string(instruction),
    ensures
        ({
            let once = Instruction { rep: false, repne: false, ..instruction };
            let (one, first) = dispatch_spec(machine, once);
            let rest = one.set_gpr(1, one.regs.gpr[1].wrapping_sub(1));
            let all = dispatch_spec(machine, instruction);
            &&& counter(machine) == 0 ==> all == (machine, Ok::<Effect, CpuError>(Effect::Done))
            &&& counter(machine) > 0 ==> all == (if first is Ok {
                dispatch_spec(rest, instruction)
            } else {
                (one, first)
            })
        }),
{
    let once = Instruction { rep: false, repne: false, ..instruction };
    lemma_once(machine, instruction);
    lemma_routed(machine, instruction);
    lemma_routed(machine, once);
    reveal_with_fuel(string_elements, 2);
    let (one, first) = string_element(machine, once);
    if first is Ok && counter(machine) > 0 {
        let rest = one.set_gpr(1, one.regs.gpr[1].wrapping_sub(1));
        lemma_routed(rest, instruction);
        assert(counter(rest) == counter(machine) - 1);
    }
}

proof fn lemma_copy_element(machine: Machine, instruction: Instruction, size: u8, count: nat, repeated: bool)
    requires
        string_kind_spec(instruction.mnemonic) == StringKind::Move,
        size == memory_size_spec(instruction),
        count == crate::cpu::operands::operand_bytes(size),
        repeated == (instruction.rep || instruction.repne),
    ensures
        string_element(machine, instruction) == match machine.read_linear(machine.regs.gpr[6], count) {
            Err(error) => (machine, Err(error)),
            Ok(value) => match machine.write_linear(machine.regs.gpr[7], count, value as u128) {
                (written, Err(error)) => (written, Err(error)),
                (written, Ok(_)) => (written.advance(true, true, size, repeated), Ok::<bool, CpuError>(false)),
            },
        },
{
    reveal(string_element);
}

proof fn lemma_fill_element(machine: Machine, instruction: Instruction, size: u8, count: nat, repeated: bool)
    requires
        string_kind_spec(instruction.mnemonic) == StringKind::Store,
        size == memory_size_spec(instruction),
        count == crate::cpu::operands::operand_bytes(size),
        repeated == (instruction.rep || instruction.repne),
    ensures
        string_element(machine, instruction) == match machine.write_linear(
            machine.regs.gpr[7],
            count,
            machine.read_accumulator(size) as u128,
        ) {
            (written, Err(error)) => (written, Err(error)),
            (written, Ok(_)) => (written.advance(false, true, size, repeated), Ok::<bool, CpuError>(false)),
        },
{
    reveal(string_element);
}

proof fn lemma_load_element(machine: Machine, instruction: Instruction, size: u8, count: nat, repeated: bool)
    requires
        string_kind_spec(instruction.mnemonic) == StringKind::Load,
        size == memory_size_spec(instruction),
        count == crate::cpu::operands::operand_bytes(size),
        repeated == (instruction.rep || instruction.repne),
    ensures
        string_element(machine, instruction) == match machine.read_linear(machine.regs.gpr[6], count) {
            Err(error) => (machine, Err(error)),
            Ok(value) => (
                machine.write_accumulator(size, value).advance(true, false, size, repeated),
                Ok::<bool, CpuError>(false),
            ),
        },
{
    reveal(string_element);
}

proof fn lemma_counted(machine: Machine, source: bool, destination: bool, size: u8)
    requires
        machine.regs.gpr.len() == 16,
    ensures
        ({
            let once = machine.advance(source, destination, size, false);
            &&& machine.advance(source, destination, size, true) == once.set_gpr(1, once.regs.gpr[1].wrapping_sub(1))
            &&& once.regs.gpr[1] == machine.regs.gpr[1]
            &&& once.regs.gpr.len() == 16
            &&& once.regs.mode() == machine.regs.mode()
        }),
{
}

proof fn lemma_once(machine: Machine, instruction: Instruction)
    requires
        machine.regs.gpr.len() == 16,
        instruction.rep || instruction.repne,
        copies_a_string(instruction) || fills_a_string(instruction) || loads_from_a_string(instruction),
    ensures
        ({
            let once = Instruction { rep: false, repne: false, ..instruction };
            let (one, first) = string_element(machine, once);
            &&& first is Ok ==> first == Ok::<bool, CpuError>(false)
            &&& first is Ok ==> string_element(machine, instruction) == (
                one.set_gpr(1, one.regs.gpr[1].wrapping_sub(1)),
                first,
            )
            &&& first is Err ==> string_element(machine, instruction) == (one, first)
            &&& first is Ok ==> one.regs.mode() == machine.regs.mode()
            &&& first is Ok ==> one.regs.gpr[1] == machine.regs.gpr[1]
            &&& first is Ok ==> one.regs.gpr.len() == 16
        }),
{
    if copies_a_string(instruction) {
        lemma_copied_once(machine, instruction);
    } else if fills_a_string(instruction) {
        lemma_filled_once(machine, instruction);
    } else {
        lemma_loaded_once(machine, instruction);
    }
}

proof fn lemma_copied_once(machine: Machine, instruction: Instruction)
    requires
        machine.regs.gpr.len() == 16,
        instruction.rep || instruction.repne,
        string_kind_spec(instruction.mnemonic) == StringKind::Move,
    ensures
        ({
            let once = Instruction { rep: false, repne: false, ..instruction };
            let (one, first) = string_element(machine, once);
            &&& first is Ok ==> first == Ok::<bool, CpuError>(false)
            &&& first is Ok ==> string_element(machine, instruction) == (
                one.set_gpr(1, one.regs.gpr[1].wrapping_sub(1)),
                first,
            )
            &&& first is Err ==> string_element(machine, instruction) == (one, first)
            &&& first is Ok ==> one.regs.mode() == machine.regs.mode()
            &&& first is Ok ==> one.regs.gpr[1] == machine.regs.gpr[1]
            &&& first is Ok ==> one.regs.gpr.len() == 16
        }),
{
    let size = memory_size_spec(instruction);
    let count = crate::cpu::operands::operand_bytes(size);
    let once = Instruction { rep: false, repne: false, ..instruction };
    lemma_copy_element(machine, instruction, size, count, true);
    lemma_copy_element(machine, once, size, count, false);
    if let Ok(value) = machine.read_linear(machine.regs.gpr[6], count) {
        crate::cpu::interrupts::lemma_store_keeps_regs(
            machine,
            machine.regs.gpr[7],
            crate::arith::le_bytes(value as nat, count),
            machine.regs.cpl() == 3,
        );
        let written = machine.write_linear(machine.regs.gpr[7], count, value as u128).0;
        lemma_counted(written, true, true, size);
    }
}

proof fn lemma_filled_once(machine: Machine, instruction: Instruction)
    requires
        machine.regs.gpr.len() == 16,
        instruction.rep || instruction.repne,
        string_kind_spec(instruction.mnemonic) == StringKind::Store,
    ensures
        ({
            let once = Instruction { rep: false, repne: false, ..instruction };
            let (one, first) = string_element(machine, once);
            &&& first is Ok ==> first == Ok::<bool, CpuError>(false)
            &&& first is Ok ==> string_element(machine, instruction) == (
                one.set_gpr(1, one.regs.gpr[1].wrapping_sub(1)),
                first,
            )
            &&& first is Err ==> string_element(machine, instruction) == (one, first)
            &&& first is Ok ==> one.regs.mode() == machine.regs.mode()
            &&& first is Ok ==> one.regs.gpr[1] == machine.regs.gpr[1]
            &&& first is Ok ==> one.regs.gpr.len() == 16
        }),
{
    let size = memory_size_spec(instruction);
    let count = crate::cpu::operands::operand_bytes(size);
    let once = Instruction { rep: false, repne: false, ..instruction };
    lemma_fill_element(machine, instruction, size, count, true);
    lemma_fill_element(machine, once, size, count, false);
    let value = machine.read_accumulator(size);
    crate::cpu::interrupts::lemma_store_keeps_regs(
        machine,
        machine.regs.gpr[7],
        crate::arith::le_bytes(value as nat, count),
        machine.regs.cpl() == 3,
    );
    let written = machine.write_linear(machine.regs.gpr[7], count, value as u128).0;
    lemma_counted(written, false, true, size);
}

proof fn lemma_loaded_once(machine: Machine, instruction: Instruction)
    requires
        machine.regs.gpr.len() == 16,
        instruction.rep || instruction.repne,
        string_kind_spec(instruction.mnemonic) == StringKind::Load,
    ensures
        ({
            let once = Instruction { rep: false, repne: false, ..instruction };
            let (one, first) = string_element(machine, once);
            &&& first is Ok ==> first == Ok::<bool, CpuError>(false)
            &&& first is Ok ==> string_element(machine, instruction) == (
                one.set_gpr(1, one.regs.gpr[1].wrapping_sub(1)),
                first,
            )
            &&& first is Err ==> string_element(machine, instruction) == (one, first)
            &&& first is Ok ==> one.regs.mode() == machine.regs.mode()
            &&& first is Ok ==> one.regs.gpr[1] == machine.regs.gpr[1]
            &&& first is Ok ==> one.regs.gpr.len() == 16
        }),
{
    let size = memory_size_spec(instruction);
    let count = crate::cpu::operands::operand_bytes(size);
    let once = Instruction { rep: false, repne: false, ..instruction };
    lemma_load_element(machine, instruction, size, count, true);
    lemma_load_element(machine, once, size, count, false);
    if let Ok(value) = machine.read_linear(machine.regs.gpr[6], count) {
        let written = machine.write_accumulator(size, value);
        assert(written.regs.gpr[1] == machine.regs.gpr[1]);
        lemma_counted(written, true, false, size);
    }
}

} // verus!
