//! Linear addresses: the four-level page walk and byte-wise access.

use vstd::prelude::*;

use crate::arch::registers::{contains, holds, CR0_PG, CR0_WP};
use crate::arith::{from_le, le_bytes, le_value, lemma_le_value_bound, lemma_span_16, to_le};
use crate::cpu::memory::{load_word, store};
use crate::cpu::{Cpu, CpuError, Machine};

verus! {

#[derive(Clone, Copy, PartialEq, Eq, Structural, Debug)]
pub enum AccessKind {
    Read,
    Write,
}

/// Where a page walk ended: the physical address and what every level allows.
#[derive(Clone, Copy, PartialEq, Eq, Structural, Debug)]
pub struct Mapping {
    pub physical: u64,
    pub writable: bool,
    pub user: bool,
}

/// The bytes that one entry of a table at `level` covers: 4 KiB at level one,
/// 512 times as much at each level above.
pub open spec fn entry_span(level: u8) -> u64 {
    if level == 1 {
        0x1000
    } else if level == 2 {
        0x20_0000
    } else if level == 3 {
        0x4000_0000
    } else {
        0x80_0000_0000
    }
}

/// The error code of a page fault.
pub open spec fn fault_code(present: bool, kind: AccessKind, user: bool) -> u32 {
    (if present { 1u32 } else { 0 } + if kind == AccessKind::Write { 2u32 } else { 0 } + if user { 4u32 } else { 0 }) as u32
}

impl Machine {
    /// The walk from `table`, a table at `level`, to the page that holds `linear`.
    /// `None` stands for an entry that is not present.
    pub open spec fn walk(self, table: u64, linear: u64, level: u8, writable: bool, user: bool) -> Result<Option<Mapping>, CpuError>
        decreases level,
    {
        let index = (linear / entry_span(level)) % 512;
        match load_word(self.memory, (table + index * 8) as u64, 8) {
            Err(error) => Err(error),
            Ok(entry) => {
                let writable = writable && (entry / 2) % 2 == 1;
                let user = user && (entry / 4) % 2 == 1;
                let large = (entry / 0x80) % 2 == 1;
                let frame = ((entry / 0x1000) % 0x100_0000_0000) * 0x1000;
                if entry % 2 == 0 {
                    Ok(None)
                } else if level <= 1 || (large && level <= 3) {
                    let span = entry_span(level) as int;
                    let physical = (frame - frame % span + linear as int % span) as u64;
                    Ok(Some(Mapping { physical, writable, user }))
                } else {
                    self.walk(frame as u64, linear, (level - 1) as u8, writable, user)
                }
            },
        }
    }

    /// The physical address of `linear` for an access of `kind`, made at the user
    /// privilege level or above it.
    #[verifier::opaque]
    pub open spec fn translate_as(self, linear: u64, kind: AccessKind, user: bool) -> Result<u64, CpuError> {
        if !holds(self.regs.cr0, CR0_PG) {
            Ok(linear)
        } else {
            let table = (self.regs.cr3 / 0x1000) % 0x100_0000_0000 * 0x1000;
            match self.walk(table as u64, linear, 4, true, true) {
                Err(error) => Err(error),
                Ok(None) => Err(CpuError::PageFault { linear, error_code: fault_code(false, kind, user) }),
                Ok(Some(mapping)) => {
                    if (user && !mapping.user) || (kind == AccessKind::Write && !mapping.writable && (user || holds(
                        self.regs.cr0,
                        CR0_WP,
                    ))) {
                        Err(CpuError::PageFault { linear, error_code: fault_code(true, kind, user) })
                    } else {
                        Ok(mapping.physical)
                    }
                },
            }
        }
    }

    /// Translation at the current privilege level.
    pub open spec fn translate(self, linear: u64, kind: AccessKind) -> Result<u64, CpuError> {
        self.translate_as(linear, kind, self.regs.cpl() == 3)
    }

    /// Translation of an access that the processor makes on its own behalf.
    pub open spec fn translate_privileged(self, linear: u64, kind: AccessKind) -> Result<u64, CpuError> {
        self.translate_as(linear, kind, false)
    }

    /// The `count` bytes from `linear` on, each translated for itself, or what the
    /// first byte that cannot be read ends in.
    #[verifier::opaque]
    pub open spec fn linear_bytes(self, linear: u64, count: nat, user: bool) -> Result<Seq<u8>, CpuError>
        decreases count,
    {
        if count == 0 {
            Ok(seq![])
        } else {
            match self.translate_as(linear, AccessKind::Read, user) {
                Err(error) => Err(error),
                Ok(physical) => if physical >= self.memory.len() {
                    Err(CpuError::OutOfRange { address: physical })
                } else {
                    match self.linear_bytes(linear.wrapping_add(1), (count - 1) as nat, user) {
                        Err(error) => Err(error),
                        Ok(rest) => Ok(seq![self.memory[physical as int]] + rest),
                    }
                },
            }
        }
    }

    /// The number that `count` bytes from `linear` on spell.
    pub open spec fn linear_load(self, linear: u64, count: nat, user: bool) -> Result<u128, CpuError> {
        match self.linear_bytes(linear, count, user) {
            Err(error) => Err(error),
            Ok(bytes) => Ok(le_value(bytes) as u128),
        }
    }

    /// `linear_load` of at most eight bytes at the current privilege level.
    pub open spec fn read_linear(self, linear: u64, count: nat) -> Result<u64, CpuError> {
        match self.linear_load(linear, count, self.regs.cpl() == 3) {
            Err(error) => Err(error),
            Ok(value) => Ok(value as u64),
        }
    }

    /// Writes `bytes` from `linear` on, byte by byte: the bytes before the first
    /// one that cannot be written stay written.
    #[verifier::opaque]
    pub open spec fn linear_store(self, linear: u64, bytes: Seq<u8>, user: bool) -> (Machine, Result<(), CpuError>)
        decreases bytes.len(),
    {
        if bytes.len() == 0 {
            (self, Ok(()))
        } else {
            match self.translate_as(linear, AccessKind::Write, user) {
                Err(error) => (self, Err(error)),
                Ok(physical) => if physical >= self.memory.len() {
                    (self, Err(CpuError::OutOfRange { address: physical }))
                } else {
                    Machine {
                        memory: self.memory.update(physical as int, bytes[0]),
                        ..self
                    }.linear_store(linear.wrapping_add(1), bytes.skip(1), user)
                },
            }
        }
    }

    /// Writes the low `count` bytes of `value` at a physical address.
    pub open spec fn store_physical(self, physical: u64, count: nat, value: u128) -> (Machine, Result<(), CpuError>) {
        let (memory, result) = store(self.memory, physical, count, value);
        (Machine { memory, ..self }, result)
    }

    /// `linear_store` of the low `count` bytes of `value` at the current privilege
    /// level.
    pub open spec fn write_linear(self, linear: u64, count: nat, value: u128) -> (Machine, Result<(), CpuError>) {
        self.linear_store(linear, le_bytes(value as nat, count), self.regs.cpl() == 3)
    }
}

/// Where an address leads depends on memory and on two control registers alone.
pub proof fn lemma_same_translation(machine: Machine, other: Machine, linear: u64, kind: AccessKind, user: bool)
    requires
        machine.memory == other.memory,
        machine.regs.cr0 == other.regs.cr0,
        machine.regs.cr3 == other.regs.cr3,
    ensures
        machine.translate_as(linear, kind, user) == other.translate_as(linear, kind, user),
{
    reveal(Machine::translate_as);
    let table = ((machine.regs.cr3 / 0x1000) % 0x100_0000_0000 * 0x1000) as u64;
    lemma_same_walk(machine, other, table, linear, 4, true, true);
}

/// What is read depends on memory and on the registers that lead to it alone.
pub proof fn lemma_same_bytes(machine: Machine, other: Machine, linear: u64, count: nat, user: bool)
    requires
        machine.memory == other.memory,
        machine.regs.cr0 == other.regs.cr0,
        machine.regs.cr3 == other.regs.cr3,
    ensures
        machine.linear_bytes(linear, count, user) == other.linear_bytes(linear, count, user),
    decreases count,
{
    reveal(Machine::linear_bytes);
    if count > 0 {
        lemma_same_translation(machine, other, linear, AccessKind::Read, user);
        lemma_same_bytes(machine, other, linear.wrapping_add(1), (count - 1) as nat, user);
    }
}

/// As many bytes are read as are asked for.
pub proof fn lemma_bytes_read(machine: Machine, linear: u64, count: nat, user: bool)
    ensures
        machine.linear_bytes(linear, count, user) matches Ok(bytes) ==> bytes.len() == count,
    decreases count,
{
    reveal(Machine::linear_bytes);
    if count > 0 {
        lemma_bytes_read(machine, linear.wrapping_add(1), (count - 1) as nat, user);
    }
}

proof fn lemma_same_walk(
    machine: Machine,
    other: Machine,
    table: u64,
    linear: u64,
    level: u8,
    writable: bool,
    user: bool,
)
    requires
        machine.memory == other.memory,
    ensures
        machine.walk(table, linear, level, writable, user) == other.walk(table, linear, level, writable, user),
    decreases level,
{
    let place = (table + ((linear / entry_span(level)) % 512) * 8) as u64;
    match load_word(machine.memory, place, 8) {
        Err(error) => {},
        Ok(entry) => {
            if level > 1 {
                let frame = ((entry / 0x1000) % 0x100_0000_0000) * 0x1000;
                lemma_same_walk(
                    machine,
                    other,
                    frame as u64,
                    linear,
                    (level - 1) as u8,
                    writable && (entry / 2) % 2 == 1,
                    user && (entry / 4) % 2 == 1,
                );
            }
        },
    }
}

/// Memories that differ in `places` at most.
pub open spec fn same_elsewhere(before: Seq<u8>, after: Seq<u8>, places: Seq<u64>) -> bool {
    &&& before.len() == after.len()
    &&& forall|i: int| 0 <= i < before.len() && !places.contains(i as u64) ==> #[trigger] after[i] == before[i]
}

impl Machine {
    /// Whether the bytes from `linear` on lie at `places`, each at one of its own, and stay
    /// there whatever is written to them: no page table that leads there lies among them.
    pub open spec fn lie_at(self, linear: u64, user: bool, places: Seq<u64>) -> bool {
        &&& places.no_duplicates()
        &&& forall|i: int| 0 <= i < places.len() ==> #[trigger] places[i] < self.memory.len()
        &&& forall|memory: Seq<u8>, i: int, kind: AccessKind|
            #![trigger (Machine { memory, ..self }).translate_as(linear.wrapping_add(i as u64), kind, user)]
            same_elsewhere(self.memory, memory, places) && 0 <= i < places.len() ==> (Machine {
                memory,
                ..self
            }).translate_as(linear.wrapping_add(i as u64), kind, user) == Ok::<u64, CpuError>(places[i])
    }
}

/// A linear read gives back a linear write, across pages too, and the write changes nothing
/// else.
pub proof fn read_after_write(machine: Machine, linear: u64, bytes: Seq<u8>, user: bool, places: Seq<u64>)
    requires
        machine.lie_at(linear, user, places),
        places.len() == bytes.len(),
        bytes.len() <= u64::MAX,
    ensures
        machine.linear_store(linear, bytes, user).1 is Ok,
        machine.linear_store(linear, bytes, user).0.linear_bytes(linear, bytes.len(), user) == Ok::<Seq<u8>, CpuError>(
            bytes,
        ),
        machine.linear_store(linear, bytes, user).0 == (Machine {
            memory: machine.linear_store(linear, bytes, user).0.memory,
            ..machine
        }),
        same_elsewhere(machine.memory, machine.linear_store(linear, bytes, user).0.memory, places),
{
    assert((Machine { memory: machine.memory, ..machine }) == machine);
    assert(bytes.skip(0) =~= bytes);
    assert(linear.wrapping_add(0) == linear);
    lemma_mapped_store(machine, machine.memory, linear, bytes, user, places, 0);
    let after = machine.linear_store(linear, bytes, user).0;
    lemma_mapped_load(machine, after.memory, linear, user, places, 0);
    assert(Seq::new(places.len(), |i: int| after.memory[places[i] as int]) =~= bytes);
}

proof fn lemma_mapped_store(
    machine: Machine,
    memory: Seq<u8>,
    linear: u64,
    bytes: Seq<u8>,
    user: bool,
    places: Seq<u64>,
    from: nat,
)
    requires
        machine.lie_at(linear, user, places),
        places.len() == bytes.len(),
        from <= bytes.len() <= u64::MAX,
        same_elsewhere(machine.memory, memory, places),
    ensures
        ({
            let (after, result) = (Machine { memory, ..machine }).linear_store(
                linear.wrapping_add(from as u64),
                bytes.skip(from as int),
                user,
            );
            &&& result is Ok
            &&& after == (Machine { memory: after.memory, ..machine })
            &&& same_elsewhere(machine.memory, after.memory, places)
            &&& forall|i: int| 0 <= i < from ==> after.memory[#[trigger] places[i] as int] == memory[places[i] as int]
            &&& forall|i: int| from <= i < places.len() ==> after.memory[#[trigger] places[i] as int] == bytes[i]
        }),
    decreases bytes.len() - from,
{
    reveal(Machine::linear_store);
    let here = Machine { memory, ..machine };
    if from < bytes.len() {
        let at = linear.wrapping_add(from as u64);
        assert(here.translate_as(at, AccessKind::Write, user) == Ok::<u64, CpuError>(places[from as int]));
        let place = places[from as int];
        let next = memory.update(place as int, bytes[from as int]);
        assert(bytes.skip(from as int)[0] == bytes[from as int]);
        assert(bytes.skip(from as int).skip(1) =~= bytes.skip((from + 1) as int));
        assert(at.wrapping_add(1) == linear.wrapping_add((from + 1) as u64));
        assert(same_elsewhere(machine.memory, next, places)) by {
            assert(places.contains(place));
        }
        lemma_mapped_store(machine, next, linear, bytes, user, places, from + 1);
    }
}

proof fn lemma_mapped_load(machine: Machine, memory: Seq<u8>, linear: u64, user: bool, places: Seq<u64>, from: nat)
    requires
        machine.lie_at(linear, user, places),
        from <= places.len() <= u64::MAX,
        same_elsewhere(machine.memory, memory, places),
    ensures
        (Machine { memory, ..machine }).linear_bytes(
            linear.wrapping_add(from as u64),
            (places.len() - from) as nat,
            user,
        ) == Ok::<Seq<u8>, CpuError>(Seq::new(places.len(), |i: int| memory[places[i] as int]).skip(from as int)),
    decreases places.len() - from,
{
    reveal(Machine::linear_bytes);
    let here = Machine { memory, ..machine };
    let all = Seq::new(places.len(), |i: int| memory[places[i] as int]);
    if from < places.len() {
        let at = linear.wrapping_add(from as u64);
        assert(here.translate_as(at, AccessKind::Read, user) == Ok::<u64, CpuError>(places[from as int]));
        assert(at.wrapping_add(1) == linear.wrapping_add((from + 1) as u64));
        lemma_mapped_load(machine, memory, linear, user, places, from + 1);
        assert(seq![memory[places[from as int] as int]] + all.skip((from + 1) as int) =~= all.skip(from as int));
    } else {
        assert(all.skip(from as int) =~= seq![]);
    }
}

/// Without paging and inside memory, bytes lie at their own addresses.
pub proof fn unpaged_bytes_lie_in_place(machine: Machine, linear: u64, count: nat, user: bool)
    requires
        !holds(machine.regs.cr0, CR0_PG),
        linear + count <= machine.memory.len(),
        linear + count <= u64::MAX,
    ensures
        machine.lie_at(linear, user, Seq::new(count, |i: int| (linear + i) as u64)),
{
    reveal(Machine::translate_as);
}

fn span_of(level: u8) -> (span: u64)
    ensures
        span == entry_span(level),
{
    if level == 1 {
        0x1000
    } else if level == 2 {
        0x20_0000
    } else if level == 3 {
        0x4000_0000
    } else {
        0x80_0000_0000
    }
}

fn code_of(present: bool, kind: AccessKind, user: bool) -> (code: u32)
    ensures
        code == fault_code(present, kind, user),
{
    let present_bit: u32 = if present { 1 } else { 0 };
    let write_bit: u32 = if kind == AccessKind::Write { 2 } else { 0 };
    let user_bit: u32 = if user { 4 } else { 0 };
    present_bit + write_bit + user_bit
}

impl Cpu {
    fn walk(&self, linear: u64) -> (mapping: Result<Option<Mapping>, CpuError>)
        ensures
            mapping == self@.walk(
                ((self@.regs.cr3 / 0x1000) % 0x100_0000_0000 * 0x1000) as u64,
                linear,
                4,
                true,
                true,
            ),
    {
        let mut table: u64 = (self.regs.cr3 / 0x1000) % 0x100_0000_0000 * 0x1000;
        let mut level: u8 = 4;
        let mut writable = true;
        let mut user = true;
        loop
            invariant
                1 <= level <= 4,
                table <= 0xF_FFFF_FFFF_F000,
                self@.walk(table, linear, level, writable, user) == self@.walk(
                    ((self@.regs.cr3 / 0x1000) % 0x100_0000_0000 * 0x1000) as u64,
                    linear,
                    4,
                    true,
                    true,
                ),
            decreases level,
        {
            let span = span_of(level);
            let index = (linear / span) % 512;
            let entry = self.memory.load_word(table + index * 8, 8)?;
            if entry % 2 == 0 {
                return Ok(None);
            }
            writable = writable && (entry / 2) % 2 == 1;
            user = user && (entry / 4) % 2 == 1;
            let large = (entry / 0x80) % 2 == 1;
            let frame = ((entry / 0x1000) % 0x100_0000_0000) * 0x1000;
            if level == 1 || (large && level <= 3) {
                let physical = frame - frame % span + linear % span;
                return Ok(Some(Mapping { physical, writable, user }));
            }
            table = frame;
            level = level - 1;
        }
    }

    /// The physical address of `linear`, for a user or a supervisor access.
    pub fn translate_as(&self, linear: u64, kind: AccessKind, user: bool) -> (physical: Result<u64, CpuError>)
        ensures
            physical == self@.translate_as(linear, kind, user),
    {
        proof {
            reveal(Machine::translate_as);
        }
        if !contains(self.regs.cr0, CR0_PG) {
            return Ok(linear);
        }
        let found = self.walk(linear)?;
        match found {
            None => Err(CpuError::PageFault { linear, error_code: code_of(false, kind, user) }),
            Some(mapping) => {
                let refused = kind == AccessKind::Write && !mapping.writable && (user || contains(
                    self.regs.cr0,
                    CR0_WP,
                ));
                if (user && !mapping.user) || refused {
                    Err(CpuError::PageFault { linear, error_code: code_of(true, kind, user) })
                } else {
                    Ok(mapping.physical)
                }
            },
        }
    }

    pub fn translate(&self, linear: u64, kind: AccessKind) -> (physical: Result<u64, CpuError>)
        ensures
            physical == self@.translate(linear, kind),
    {
        let user = self.regs.cpl() == 3;
        self.translate_as(linear, kind, user)
    }

    pub fn translate_privileged(&self, linear: u64, kind: AccessKind) -> (physical: Result<u64, CpuError>)
        ensures
            physical == self@.translate_privileged(linear, kind),
    {
        self.translate_as(linear, kind, false)
    }

    /// The bytes from `linear` on.
    pub fn linear_bytes(&self, linear: u64, count: usize, user: bool) -> (bytes: Result<Vec<u8>, CpuError>)
        ensures
            match self@.linear_bytes(linear, count as nat, user) {
                Ok(expected) => bytes matches Ok(read) && read@ == expected && read@.len() == count,
                Err(error) => bytes == Err::<Vec<u8>, CpuError>(error),
            },
    {
        let mut bytes: Vec<u8> = Vec::new();
        let mut address = linear;
        let mut index: usize = 0;
        proof {
            reveal(Machine::linear_bytes);
            assert(forall|s: Seq<u8>| seq![] + s =~= s);
        }
        while index < count
            invariant
                index <= count,
                bytes@.len() == index,
                self@.linear_bytes(linear, count as nat, user) == (match self@.linear_bytes(
                    address,
                    (count - index) as nat,
                    user,
                ) {
                    Err(error) => Err::<Seq<u8>, CpuError>(error),
                    Ok(rest) => Ok(bytes@ + rest),
                }),
            decreases count - index,
        {
            proof {
                reveal(Machine::linear_bytes);
            }
            let physical = self.translate_as(address, AccessKind::Read, user)?;
            if physical >= self.memory.bytes.len() as u64 {
                return Err(CpuError::OutOfRange { address: physical });
            }
            let ghost before = bytes@;
            let byte = self.memory.bytes[physical as usize];
            bytes.push(byte);
            proof {
                assert forall|rest: Seq<u8>| before + (seq![byte] + rest) == bytes@ + rest by {
                    assert(before + (seq![byte] + rest) =~= bytes@ + rest);
                }
            }
            address = address.wrapping_add(1);
            index = index + 1;
        }
        assert(bytes@ + Seq::<u8>::empty() =~= bytes@);
        Ok(bytes)
    }

    /// The number that at most sixteen bytes from `linear` on spell.
    pub fn linear_load(&self, linear: u64, count: usize, user: bool) -> (value: Result<u128, CpuError>)
        requires
            count <= 16,
        ensures
            value == self@.linear_load(linear, count as nat, user),
    {
        let bytes = self.linear_bytes(linear, count, user)?;
        proof {
            lemma_le_value_bound(bytes@);
            lemma_span_16(bytes@.len());
        }
        Ok(from_le(bytes.as_slice()))
    }

    /// The number that at most eight bytes from `linear` on spell, read at the
    /// current privilege level.
    pub fn read_linear(&self, linear: u64, count: usize) -> (value: Result<u64, CpuError>)
        requires
            count <= 8,
        ensures
            value == self@.read_linear(linear, count as nat),
    {
        let user = self.regs.cpl() == 3;
        let value = self.linear_load(linear, count, user)?;
        Ok(value as u64)
    }

    /// Writes `bytes` from `linear` on.
    pub fn linear_store(&mut self, linear: u64, bytes: &[u8], user: bool) -> (result: Result<(), CpuError>)
        ensures
            (final(self)@, result) == old(self)@.linear_store(linear, bytes@, user),
    {
        let mut address = linear;
        let mut index: usize = 0;
        let ghost start = self@;
        proof {
            reveal(Machine::linear_store);
            assert(bytes@.skip(0) =~= bytes@);
        }
        while index < bytes.len()
            invariant
                index <= bytes@.len(),
                start == old(self)@,
                self@.linear_store(address, bytes@.skip(index as int), user) == start.linear_store(linear, bytes@, user),
            decreases bytes@.len() - index,
        {
            proof {
                reveal(Machine::linear_store);
            }
            let physical = self.translate_as(address, AccessKind::Write, user)?;
            if physical >= self.memory.bytes.len() as u64 {
                return Err(CpuError::OutOfRange { address: physical });
            }
            proof {
                assert(bytes@.skip(index as int).skip(1) =~= bytes@.skip(index + 1));
            }
            let ghost before = self@;
            self.memory.bytes.set(physical as usize, bytes[index]);
            proof {
                assert(self@ == (Machine { memory: before.memory.update(physical as int, bytes@[index as int]), ..before }));
            }
            address = address.wrapping_add(1);
            index = index + 1;
        }
        Ok(())
    }

    /// Writes the low `count` bytes of `value` at a physical address.
    pub fn store_physical(&mut self, physical: u64, count: usize, value: u128) -> (result: Result<(), CpuError>)
        ensures
            (final(self)@, result) == old(self)@.store_physical(physical, count as nat, value),
    {
        self.memory.store(physical, count, value)
    }

    /// Writes the low `count` bytes of `value` from `linear` on, at the current
    /// privilege level.
    pub fn write_linear(&mut self, linear: u64, count: usize, value: u128) -> (result: Result<(), CpuError>)
        ensures
            (final(self)@, result) == old(self)@.write_linear(linear, count as nat, value),
    {
        let user = self.regs.cpl() == 3;
        let bytes = to_le(value, count);
        self.linear_store(linear, bytes.as_slice(), user)
    }
}

} // verus!
