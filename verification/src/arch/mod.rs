//! The architectural state: registers and segments.

pub mod registers;
pub mod segments;
