//! Decoded x86-64 instructions.

pub mod decode;
pub mod instr;
pub mod kind;
pub mod mnemonic;
