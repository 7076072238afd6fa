//! Physical memory.

use vstd::prelude::*;

use crate::arith::{from_le, le_bytes, le_value, lemma_le_bytes_len, lemma_le_value_bound, lemma_span_16, to_le};
use crate::cpu::CpuError;

verus! {

/// Bytes at addresses from zero.
pub struct Memory {
    pub bytes: Vec<u8>,
}

impl View for Memory {
    type V = Seq<u8>;

    open spec fn view(&self) -> Seq<u8> {
        self.bytes@
    }
}

/// Whether `count` bytes at `address` lie inside `memory`.
pub open spec fn fits(memory: Seq<u8>, address: u64, count: nat) -> bool {
    address + count <= memory.len()
}

/// The number that `count` bytes at `address` spell, or where the access leaves
/// the memory.
pub open spec fn load(memory: Seq<u8>, address: u64, count: nat) -> Result<u128, CpuError> {
    if fits(memory, address, count) {
        Ok(le_value(memory.subrange(address as int, address + count)) as u128)
    } else {
        Err(CpuError::OutOfRange { address })
    }
}

/// `load` of at most eight bytes, as a word.
pub open spec fn load_word(memory: Seq<u8>, address: u64, count: nat) -> Result<u64, CpuError> {
    match load(memory, address, count) {
        Ok(value) => Ok(value as u64),
        Err(error) => Err(error),
    }
}

/// `memory` with `bytes` written at `address`.
pub open spec fn patched(memory: Seq<u8>, address: u64, bytes: Seq<u8>) -> Seq<u8> {
    memory.take(address as int) + bytes + memory.skip(address + bytes.len())
}

/// What writing the low `count` bytes of `value` at `address` leaves in memory.
pub open spec fn store(memory: Seq<u8>, address: u64, count: nat, value: u128) -> (Seq<u8>, Result<(), CpuError>) {
    store_bytes(memory, address, le_bytes(value as nat, count))
}

/// What writing `bytes` at `address` leaves in memory.
pub open spec fn store_bytes(memory: Seq<u8>, address: u64, bytes: Seq<u8>) -> (Seq<u8>, Result<(), CpuError>) {
    if fits(memory, address, bytes.len()) {
        (patched(memory, address, bytes), Ok(()))
    } else {
        (memory, Err(CpuError::OutOfRange { address }))
    }
}

/// Reading where a write of the same length went gives back what was written.
pub proof fn load_after_store(memory: Seq<u8>, address: u64, count: nat, value: u128)
    requires
        fits(memory, address, count),
        count <= 16,
        value < crate::arith::byte_span(count),
    ensures
        load(store(memory, address, count, value).0, address, count) == Ok::<u128, CpuError>(value),
{
    lemma_le_bytes_len(value as nat, count);
    let bytes = le_bytes(value as nat, count);
    let after = patched(memory, address, bytes);
    assert(after.subrange(address as int, address + count) =~= bytes);
    crate::arith::lemma_le_round_trip(value as nat, count);
    assert(value as nat % crate::arith::byte_span(count) == value as nat) by (nonlinear_arith)
        requires
            value < crate::arith::byte_span(count),
            value >= 0,
    ;
}

/// A write changes no byte outside the bytes it names.
pub proof fn store_keeps_the_rest(memory: Seq<u8>, address: u64, count: nat, value: u128, other: int)
    requires
        0 <= other < memory.len(),
        other < address || address + count <= other,
    ensures
        store(memory, address, count, value).0[other] == memory[other],
        store(memory, address, count, value).0.len() == memory.len(),
{
    lemma_le_bytes_len(value as nat, count);
}

impl Memory {
    pub fn new(bytes: usize) -> (memory: Memory)
        ensures
            memory@ == Seq::new(bytes as nat, |i: int| 0u8),
    {
        let mut cleared: Vec<u8> = Vec::new();
        let mut index: usize = 0;
        while index < bytes
            invariant
                index <= bytes,
                cleared@ == Seq::new(index as nat, |i: int| 0u8),
            decreases bytes - index,
        {
            cleared.push(0);
            index = index + 1;
        }
        Memory { bytes: cleared }
    }

    /// The little-endian number in `count` bytes at `address`.
    pub fn load(&self, address: u64, count: usize) -> (value: Result<u128, CpuError>)
        requires
            count <= 16,
        ensures
            value == load(self@, address, count as nat),
    {
        let length = self.bytes.len() as u64;
        if address > length || count as u64 > length - address {
            return Err(CpuError::OutOfRange { address });
        }
        let start = address as usize;
        let bytes = vstd::slice::slice_subrange(self.bytes.as_slice(), start, start + count);
        proof {
            lemma_le_value_bound(bytes@);
            lemma_span_16(bytes@.len());
        }
        Ok(from_le(bytes))
    }

    /// The little-endian number in at most eight bytes at `address`.
    pub fn load_word(&self, address: u64, count: usize) -> (value: Result<u64, CpuError>)
        requires
            count <= 8,
        ensures
            value == load_word(self@, address, count as nat),
    {
        let value = self.load(address, count)?;
        Ok(value as u64)
    }

    /// Writes `bytes` at `address`.
    pub fn write(&mut self, address: u64, bytes: &[u8]) -> (result: Result<(), CpuError>)
        ensures
            (final(self)@, result) == store_bytes(old(self)@, address, bytes@),
    {
        let length = self.bytes.len() as u64;
        if address > length || bytes.len() as u64 > length - address {
            return Err(CpuError::OutOfRange { address });
        }
        let start = address as usize;
        let mut index: usize = 0;
        let ghost before = self@;
        assert(patched(before, address, bytes@.take(0)) =~= before);
        while index < bytes.len()
            invariant
                index <= bytes@.len(),
                start == address,
                fits(before, address, bytes@.len()),
                self@ == patched(before, address, bytes@.take(index as int)),
                self@.len() == before.len(),
                before.len() <= usize::MAX,
            decreases bytes@.len() - index,
        {
            let ghost current = self@;
            self.bytes.set(start + index, bytes[index]);
            proof {
                assert(current.update(start + index, bytes@[index as int])
                    =~= patched(before, address, bytes@.take(index + 1)));
            }
            index = index + 1;
        }
        assert(bytes@.take(bytes@.len() as int) =~= bytes@);
        Ok(())
    }

    /// Writes the low `count` bytes of `value` at `address`.
    pub fn store(&mut self, address: u64, count: usize, value: u128) -> (result: Result<(), CpuError>)
        ensures
            (final(self)@, result) == store(old(self)@, address, count as nat, value),
    {
        let bytes = to_le(value, count);
        self.write(address, bytes.as_slice())
    }

    pub fn read_u8(&self, address: u64) -> (value: Result<u8, CpuError>)
        ensures
            match load(self@, address, 1) {
                Ok(number) => value == Ok::<u8, CpuError>(number as u8),
                Err(error) => value == Err::<u8, CpuError>(error),
            },
    {
        let value = self.load(address, 1)?;
        Ok(value as u8)
    }

    pub fn read_u16(&self, address: u64) -> (value: Result<u16, CpuError>)
        ensures
            match load(self@, address, 2) {
                Ok(number) => value == Ok::<u16, CpuError>(number as u16),
                Err(error) => value == Err::<u16, CpuError>(error),
            },
    {
        let value = self.load(address, 2)?;
        Ok(value as u16)
    }

    pub fn read_u32(&self, address: u64) -> (value: Result<u32, CpuError>)
        ensures
            match load(self@, address, 4) {
                Ok(number) => value == Ok::<u32, CpuError>(number as u32),
                Err(error) => value == Err::<u32, CpuError>(error),
            },
    {
        let value = self.load(address, 4)?;
        Ok(value as u32)
    }

    pub fn read_u64(&self, address: u64) -> (value: Result<u64, CpuError>)
        ensures
            value == load_word(self@, address, 8),
    {
        self.load_word(address, 8)
    }

    pub fn write_u8(&mut self, address: u64, value: u8) -> (result: Result<(), CpuError>)
        ensures
            (final(self)@, result) == store(old(self)@, address, 1, value as u128),
    {
        self.store(address, 1, value as u128)
    }

    pub fn write_u16(&mut self, address: u64, value: u16) -> (result: Result<(), CpuError>)
        ensures
            (final(self)@, result) == store(old(self)@, address, 2, value as u128),
    {
        self.store(address, 2, value as u128)
    }

    pub fn write_u32(&mut self, address: u64, value: u32) -> (result: Result<(), CpuError>)
        ensures
            (final(self)@, result) == store(old(self)@, address, 4, value as u128),
    {
        self.store(address, 4, value as u128)
    }

    pub fn write_u64(&mut self, address: u64, value: u64) -> (result: Result<(), CpuError>)
        ensures
            (final(self)@, result) == store(old(self)@, address, 8, value as u128),
    {
        self.store(address, 8, value as u128)
    }
}

} // verus!
