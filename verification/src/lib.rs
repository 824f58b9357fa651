//! A small toolchain for a RISC-V-like 32-bit instruction set: an assembler
//! that turns mnemonic instructions into 32-bit machine words, and a simulator
//! that fetches, decodes, and executes those words against an architectural
//! machine state. A tiny language front end produces assembly text for the
//! assembler to consume.

pub mod encoder;
pub mod errors;
pub mod fields;
pub mod frontend;
pub mod laws;
pub mod machine;
pub mod regs;
pub mod symtab;
pub mod text;
