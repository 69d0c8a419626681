//! The machine that instructions act on, and the ways in which one can fail.

use vstd::prelude::*;

use crate::error::CpuError;
use crate::mem::guest::GuestMemory;
use crate::mem::model::Bytes;
use crate::regs::Regs;

verus! {

/// Access type of a data read.
pub const ACCESS_READ: i32 = 0;

/// Access type of a data write.
pub const ACCESS_WRITE: i32 = 1;

/// Access type of an instruction fetch.
pub const ACCESS_FETCH: i32 = 2;

/// An access to unmapped guest memory.
#[derive(Debug, Clone, Copy, PartialEq, Eq, Structural)]
pub struct InvalidMem {
    /// What the access was.
    pub access_type: i32,
    /// First address of the access.
    pub address: u64,
    /// Size of the access in bytes.
    pub size: i32,
    /// The value of a write, where it fits.
    pub value: i64,
}

/// Why an instruction did not complete.
#[derive(Debug)]
pub enum StepExecError {
    /// It touched unmapped memory.
    InvalidMemory(InvalidMem),
    /// The interpreter cannot execute it.
    Cpu(CpuError),
}

/// Why an instruction did not complete, as a mathematical value.
pub enum Fault {
    /// It touched unmapped memory.
    Memory(InvalidMem),
    /// The interpreter cannot execute it, for the reason given.
    Cpu(Seq<char>),
}

impl StepExecError {
    /// The error as a mathematical value.
    pub open spec fn fault(self) -> Fault {
        match self {
            StepExecError::InvalidMemory(inv) => Fault::Memory(inv),
            StepExecError::Cpu(e) => Fault::Cpu(e.text()),
        }
    }
}

/// Memory and registers.
#[verifier::ext_equal]
pub struct Machine {
    /// Guest memory.
    pub mem: Bytes,
    /// Registers.
    pub regs: Regs,
}

/// What an instruction does: the machine afterwards, and the fault if it did not
/// complete.
pub type Next = (Machine, Option<Fault>);

/// A memory and a register file make a machine.
pub open spec fn machine(mem: GuestMemory, regs: Regs) -> Machine {
    Machine { mem: mem.bytes(), regs }
}

impl Machine {
    /// With the registers replaced.
    pub open spec fn with_regs(self, regs: Regs) -> Machine {
        Machine { regs, ..self }
    }

    /// With the memory replaced.
    pub open spec fn with_mem(self, mem: Bytes) -> Machine {
        Machine { mem, ..self }
    }

    /// The instruction completed here.
    pub open spec fn done(self) -> Next {
        (self, None)
    }

    /// The instruction failed here.
    pub open spec fn failed(self, f: Fault) -> Next {
        (self, Some(f))
    }
}

/// The outcome of a function that may fail is the one that is wanted.
pub open spec fn gives<T>(want: Result<T, Fault>, r: Result<T, StepExecError>) -> bool {
    match want {
        Ok(v) => r == Ok::<T, StepExecError>(v),
        Err(f) => r matches Err(e) && e.fault() == f,
    }
}

/// The outcome of an instruction is the one that is wanted.
pub open spec fn reaches(
    want: Next,
    mem: GuestMemory,
    regs: Regs,
    r: Result<(), StepExecError>,
) -> bool {
    &&& mem.bytes() == want.0.mem
    &&& regs == want.0.regs
    &&& match want.1 {
        None => r is Ok,
        Some(f) => r matches Err(e) && e.fault() == f,
    }
}

/// Executing instructions changes bytes of memory, never its layout.
pub open spec fn same_layout(before: GuestMemory, after: GuestMemory) -> bool {
    &&& after.wf()
    &&& after.kind() == before.kind()
    &&& after.regions() == before.regions()
    &&& forall|key: u64| #[trigger] after.host_page(key) == before.host_page(key)
}

} // verus!
