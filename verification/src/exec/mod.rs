//! Instruction execution for the x86-64 interpreter.

pub mod access;
pub mod model;
pub mod operand;
pub mod operand_laws;
pub mod alu;
pub mod alu_laws;
pub mod logic;
pub mod move_laws;
pub mod muldiv;
pub mod shift;
pub mod shift_laws;
pub mod branch;
pub mod sse;
pub mod string;
pub mod string_laws;
pub mod wide_laws;
pub mod complete_laws;
pub mod hook;
pub mod step;
pub mod laws;
