//! Numbers of the operand kinds and memory sizes, as the decoder reports them.

use vstd::prelude::*;

verus! {

pub const REGISTER: u8 = 0;
pub const NEAR_BRANCH16: u8 = 1;
pub const NEAR_BRANCH32: u8 = 2;
pub const NEAR_BRANCH64: u8 = 3;
pub const FAR_BRANCH16: u8 = 4;
pub const FAR_BRANCH32: u8 = 5;
pub const IMMEDIATE8: u8 = 6;
pub const IMMEDIATE16: u8 = 8;
pub const IMMEDIATE8TO16: u8 = 11;
pub const IMMEDIATE8TO32: u8 = 12;
pub const IMMEDIATE8TO64: u8 = 13;
/// The first of the implied memory operands of string instructions.
pub const MEMORY_SEG_SI: u8 = 15;
/// The last of them.
pub const MEMORY_ES_RDI: u8 = 23;
pub const MEMORY: u8 = 24;

pub const SIZE_UINT8: u8 = 1;
pub const SIZE_UINT16: u8 = 2;
pub const SIZE_UINT32: u8 = 3;
pub const SIZE_UINT64: u8 = 5;
pub const SIZE_UINT128: u8 = 6;
pub const SIZE_UINT256: u8 = 7;
pub const SIZE_UINT512: u8 = 8;
pub const SIZE_INT8: u8 = 9;
pub const SIZE_INT16: u8 = 10;
pub const SIZE_INT32: u8 = 11;
pub const SIZE_INT64: u8 = 12;
pub const SIZE_INT128: u8 = 13;
pub const SIZE_INT256: u8 = 14;
pub const SIZE_INT512: u8 = 15;
pub const SIZE_FWORD10: u8 = 27;
pub const SIZE_FLOAT32: u8 = 29;
pub const SIZE_FLOAT64: u8 = 30;
pub const SIZE_FLOAT80: u8 = 31;

} // verus!
