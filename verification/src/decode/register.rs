//! Numbers of the registers, as the decoder reports them.

use vstd::prelude::*;

verus! {

pub const NONE: u8 = 0;
pub const AL: u8 = 1;
pub const CL: u8 = 2;
pub const DL: u8 = 3;
pub const BL: u8 = 4;
pub const AH: u8 = 5;
pub const CH: u8 = 6;
pub const DH: u8 = 7;
pub const BH: u8 = 8;
pub const SPL: u8 = 9;
pub const BPL: u8 = 10;
pub const SIL: u8 = 11;
pub const DIL: u8 = 12;
pub const R15L: u8 = 20;
pub const AX: u8 = 21;
pub const CX: u8 = 22;
pub const DX: u8 = 23;
pub const BX: u8 = 24;
pub const R15W: u8 = 36;
pub const EAX: u8 = 37;
pub const ECX: u8 = 38;
pub const EDX: u8 = 39;
pub const EBX: u8 = 40;
pub const R15D: u8 = 52;
pub const RAX: u8 = 53;
pub const RCX: u8 = 54;
pub const RDX: u8 = 55;
pub const RBX: u8 = 56;
pub const RSP: u8 = 57;
pub const RBP: u8 = 58;
pub const RSI: u8 = 59;
pub const RDI: u8 = 60;
pub const R8: u8 = 61;
pub const R15: u8 = 68;
pub const EIP: u8 = 69;
pub const RIP: u8 = 70;
pub const ES: u8 = 71;
pub const CS: u8 = 72;
pub const SS: u8 = 73;
pub const DS: u8 = 74;
pub const FS: u8 = 75;
pub const GS: u8 = 76;
pub const XMM0: u8 = 77;
pub const XMM15: u8 = 92;
pub const CR0: u8 = 185;
pub const CR2: u8 = 187;
pub const CR3: u8 = 188;
pub const CR4: u8 = 189;
pub const CR8: u8 = 193;
pub const DR0: u8 = 201;
pub const DR1: u8 = 202;
pub const DR2: u8 = 203;
pub const DR3: u8 = 204;
pub const DR6: u8 = 207;
pub const DR7: u8 = 208;
pub const ST0: u8 = 217;
pub const ST7: u8 = 224;
pub const MM0: u8 = 225;
pub const MM7: u8 = 232;

} // verus!
