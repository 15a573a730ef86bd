//! A two-pass assembler for a CHIP-8 style virtual machine.
//!
//! Source text is a flat run of whitespace-separated tokens. The parser turns
//! it into an ordered list of instructions and label declarations; the linker
//! gives every label its address and packs every instruction into one 16-bit
//! opcode, written out high byte first.

pub mod assembler;
pub mod error;
pub mod instructions;
pub mod linker;
pub mod opcode;
pub mod parser;
pub mod program;
pub mod syntax;
