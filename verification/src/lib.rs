//! The core of a software x86-64 machine: the instruction operations on a model of the
//! processor, and the user-mode network behind its virtual network card.
//!
//! - [`arch`]: registers and segments.
//! - [`arith`]: fixed-width arithmetic.
//! - [`cpu`]: the processor, its memory, operands, stack, interrupts and single steps.
//! - [`decode`]: instructions from bytes.
//! - [`ops`]: what each instruction does.
//! - [`net`]: Ethernet, IPv4, TCP and DNS for the guest.

pub mod arch;
pub mod arith;
pub mod cpu;
pub mod decode;
pub mod net;
pub mod ops;
