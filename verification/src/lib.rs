//! A small assembler for a RISC-V subset.
//!
//! A scanner outside this crate turns assembly text into lexemes. The parser
//! in [`parser`] builds a tree of sections, labels and instructions from them,
//! [`riscv`] encodes that tree into the object model of [`elf`], and the object
//! model is finally serialised as a relocatable ELF file.

pub mod elf;
pub mod laws;
pub mod parser;
pub mod riscv;
pub mod utils;
