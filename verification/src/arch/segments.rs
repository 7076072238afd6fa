//! Segment selectors, segment descriptors and cached segment registers.

use vstd::prelude::*;

verus! {

/// A segment selector: a table index, a table choice and a privilege level.
#[derive(Clone, Copy, PartialEq, Eq, Structural, Debug)]
pub struct SegmentSelector(pub u16);

impl SegmentSelector {
    pub open spec fn index_spec(self) -> u16 {
        self.0 / 8
    }

    pub open spec fn table_spec(self) -> u16 {
        (self.0 / 4) % 2
    }

    pub open spec fn rpl_spec(self) -> u8 {
        (self.0 % 4) as u8
    }

    /// Whether the selector names entry zero of the global table.
    pub open spec fn is_null_spec(self) -> bool {
        self.0 < 4
    }

    /// The descriptor's number in its table.
    pub fn index(&self) -> (index: u16)
        ensures
            index == self.index_spec(),
    {
        self.0 / 8
    }

    /// Zero for the global table, one for the local table.
    pub fn table(&self) -> (table: u16)
        ensures
            table == self.table_spec(),
    {
        (self.0 / 4) % 2
    }

    /// The requested privilege level.
    pub fn rpl(&self) -> (rpl: u8)
        ensures
            rpl == self.rpl_spec(),
            rpl < 4,
    {
        (self.0 % 4) as u8
    }

    pub fn is_null(&self) -> (null: bool)
        ensures
            null == self.is_null_spec(),
    {
        self.0 < 4
    }
}

/// A loaded segment register: the selector and the cached descriptor.
#[derive(Clone, Copy, PartialEq, Eq, Structural, Debug)]
pub struct SegmentRegister {
    pub selector: SegmentSelector,
    pub base: u64,
    pub limit: u32,
    pub granularity: bool,
    pub present: bool,
    pub code: bool,
    pub conforming: bool,
    pub expand_down: bool,
    pub writable_or_readable: bool,
    pub long_mode: bool,
    pub default_32: bool,
}

impl SegmentRegister {
    /// The segment that no descriptor was loaded into.
    pub open spec fn empty() -> SegmentRegister {
        SegmentRegister {
            selector: SegmentSelector(0),
            base: 0,
            limit: 0,
            granularity: false,
            present: false,
            code: false,
            conforming: false,
            expand_down: false,
            writable_or_readable: false,
            long_mode: false,
            default_32: false,
        }
    }

    pub open spec fn real_mode_spec(selector: SegmentSelector) -> SegmentRegister {
        SegmentRegister {
            selector,
            base: (selector.0 * 16) as u64,
            limit: 0xFFFF,
            present: true,
            writable_or_readable: true,
            ..SegmentRegister::empty()
        }
    }

    /// The real-mode segment at sixteen times the selector.
    pub fn real_mode(selector: SegmentSelector) -> (segment: SegmentRegister)
        ensures
            segment == SegmentRegister::real_mode_spec(selector),
    {
        let empty: SegmentRegister = Default::default();
        SegmentRegister {
            selector,
            base: selector.0 as u64 * 16,
            limit: 0xFFFF,
            present: true,
            writable_or_readable: true,
            ..empty
        }
    }

    /// The last offset of the segment: with page granularity the limit counts
    /// pages of 4096 bytes.
    pub open spec fn effective_limit_spec(self) -> u64 {
        if self.granularity {
            (self.limit * 4096 + 4095) as u64
        } else {
            self.limit as u64
        }
    }

    pub fn effective_limit(&self) -> (limit: u64)
        ensures
            limit == self.effective_limit_spec(),
    {
        if self.granularity {
            self.limit as u64 * 4096 + 4095
        } else {
            self.limit as u64
        }
    }
}

impl Default for SegmentRegister {
    fn default() -> (segment: Self)
        ensures
            segment == SegmentRegister::empty(),
    {
        SegmentRegister {
            selector: SegmentSelector(0),
            base: 0,
            limit: 0,
            granularity: false,
            present: false,
            code: false,
            conforming: false,
            expand_down: false,
            writable_or_readable: false,
            long_mode: false,
            default_32: false,
        }
    }
}

/// The fields of an eight-byte segment descriptor.
#[derive(Clone, Copy, PartialEq, Eq, Structural, Debug)]
pub struct Descriptor {
    pub base: u64,
    pub limit: u32,
    pub descriptor_type: u8,
    pub system: bool,
    pub dpl: u8,
    pub present: bool,
    pub long_mode: bool,
    pub default_32: bool,
    pub granularity: bool,
    pub code: bool,
    pub conforming: bool,
    pub expand_down: bool,
    pub writable_or_readable: bool,
}

impl Descriptor {
    /// The architectural layout of a descriptor.
    pub open spec fn decode_spec(raw: u64) -> Descriptor {
        let kind = (raw / 0x100_0000_0000) % 16;
        let system = (raw / 0x1000_0000_0000) % 2 == 0;
        let code = !system && kind >= 8;
        Descriptor {
            base: ((raw / 0x1_0000) % 0x100_0000 + (raw / 0x100_0000_0000_0000) * 0x100_0000) as u64,
            limit: (raw % 0x1_0000 + ((raw / 0x1_0000_0000_0000) % 16) * 0x1_0000) as u32,
            descriptor_type: kind as u8,
            system,
            dpl: ((raw / 0x2000_0000_0000) % 4) as u8,
            present: (raw / 0x8000_0000_0000) % 2 == 1,
            long_mode: (raw / 0x20_0000_0000_0000) % 2 == 1,
            default_32: (raw / 0x40_0000_0000_0000) % 2 == 1,
            granularity: (raw / 0x80_0000_0000_0000) % 2 == 1,
            code,
            conforming: code && (kind / 4) % 2 == 1,
            expand_down: !system && kind < 8 && (kind / 4) % 2 == 1,
            writable_or_readable: !system && (kind / 2) % 2 == 1,
        }
    }

    pub fn decode(raw: u64) -> (descriptor: Descriptor)
        ensures
            descriptor == Descriptor::decode_spec(raw),
    {
        let kind = (raw / 0x100_0000_0000) % 16;
        let system = (raw / 0x1000_0000_0000) % 2 == 0;
        let code = !system && kind >= 8;
        Descriptor {
            base: (raw / 0x1_0000) % 0x100_0000 + (raw / 0x100_0000_0000_0000) * 0x100_0000,
            limit: (raw % 0x1_0000 + ((raw / 0x1_0000_0000_0000) % 16) * 0x1_0000) as u32,
            descriptor_type: kind as u8,
            system,
            dpl: ((raw / 0x2000_0000_0000) % 4) as u8,
            present: (raw / 0x8000_0000_0000) % 2 == 1,
            long_mode: (raw / 0x20_0000_0000_0000) % 2 == 1,
            default_32: (raw / 0x40_0000_0000_0000) % 2 == 1,
            granularity: (raw / 0x80_0000_0000_0000) % 2 == 1,
            code,
            conforming: code && (kind / 4) % 2 == 1,
            expand_down: !system && kind < 8 && (kind / 4) % 2 == 1,
            writable_or_readable: !system && (kind / 2) % 2 == 1,
        }
    }

    pub open spec fn load_spec(self, selector: SegmentSelector) -> SegmentRegister {
        SegmentRegister {
            selector,
            base: self.base,
            limit: self.limit,
            granularity: self.granularity,
            present: self.present,
            code: self.code,
            conforming: self.conforming,
            expand_down: self.expand_down,
            writable_or_readable: self.writable_or_readable,
            long_mode: self.long_mode,
            default_32: self.default_32,
        }
    }

    /// The segment register that holds this descriptor under `selector`.
    pub fn load(&self, selector: SegmentSelector) -> (segment: SegmentRegister)
        ensures
            segment == self.load_spec(selector),
    {
        SegmentRegister {
            selector,
            base: self.base,
            limit: self.limit,
            granularity: self.granularity,
            present: self.present,
            code: self.code,
            conforming: self.conforming,
            expand_down: self.expand_down,
            writable_or_readable: self.writable_or_readable,
            long_mode: self.long_mode,
            default_32: self.default_32,
        }
    }
}

} // verus!
