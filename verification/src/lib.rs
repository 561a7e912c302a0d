//! A register-based bytecode virtual machine and its companion assembler.
//!
//! The assembler pipeline (lexer, parser, symbol-table pass, instruction
//! encoder) turns assembly source text into a flat stream of 4-byte
//! instruction slots; the virtual machine executes that stream on a
//! 32-register integer machine with a program counter, a division
//! remainder and a growable zero-filled heap.

pub mod assembler;
pub mod instruction;
pub mod vm;
