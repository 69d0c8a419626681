//! A software x86-64 machine for running small Windows programs.

pub mod ascii;
pub mod bitmap;
pub mod cpu;
pub mod cpu_laws;
pub mod endian;
pub mod error;
pub mod exec;
pub mod iced_cpu;
pub mod insn;
pub mod jit;
pub mod mem;
pub mod pe;
pub mod perm;
pub mod regs;
pub mod runtime;
pub mod text;
pub mod text_laws;
