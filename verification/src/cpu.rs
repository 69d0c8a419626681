//! The CPU interface that backends implement.

use vstd::prelude::*;

use crate::ascii;
use crate::error::CpuError;
use crate::exec::access::{after_pop, popped};
use crate::exec::model::Machine;
use crate::mem::backend::{map_outcome, read_outcome, write_outcome};
use crate::regs::{R12, R8, R9, RAX, RBX, RCX, RDX, RSP};

verus! {

/// Result of stopping on a code-hook or stop-bitmap hit.
#[derive(Debug, Clone, Copy)]
pub struct CodeHookOutcome {
    /// Whether a host-stop address was hit.
    pub hit: bool,
    /// Hit guest address.
    pub address: u64,
    /// Instruction size (if known); may be 0 for interpreter stops.
    pub size: u32,
}

impl CodeHookOutcome {
    /// No hit.
    pub open spec fn nothing() -> Self {
        CodeHookOutcome { hit: false, address: 0, size: 0 }
    }
}

impl Default for CodeHookOutcome {
    fn default() -> (r: Self)
        ensures
            r == Self::nothing(),
    {
        CodeHookOutcome { hit: false, address: 0, size: 0 }
    }
}

/// Invalid guest memory access diagnostics (demand-paging / faults).
#[derive(Debug, Clone, Copy)]
pub struct InvalidMemoryAccess {
    /// Whether an invalid access was observed.
    pub hit: bool,
    /// Access type (0 if unused).
    pub access_type: i32,
    /// Faulting address.
    pub address: u64,
    /// Access size.
    pub size: i32,
    /// Write value when applicable.
    pub value: i64,
}

impl InvalidMemoryAccess {
    /// No invalid access.
    pub open spec fn nothing() -> Self {
        InvalidMemoryAccess { hit: false, access_type: 0, address: 0, size: 0, value: 0 }
    }
}

impl Default for InvalidMemoryAccess {
    fn default() -> (r: Self)
        ensures
            r == Self::nothing(),
    {
        InvalidMemoryAccess { hit: false, access_type: 0, address: 0, size: 0, value: 0 }
    }
}

/// Outcome of running until a code hook or stop condition.
#[derive(Debug, Clone, Copy)]
pub struct RunUntilHook {
    /// Code hook hit (fake API / trampoline).
    pub code: CodeHookOutcome,
    /// Invalid memory diagnostics (if any).
    pub invalid_memory: InvalidMemoryAccess,
}

/// Lightweight counters for diagnostics.
#[derive(Debug, Clone, Copy)]
pub struct JitStats {
    /// Instructions retired via native blocks.
    pub jit_insns: u64,
    /// Instructions retired via the interpreter.
    pub iced_insns: u64,
    /// Successful block compiles.
    pub compiles: u64,
    /// Block decode declined or cold skip.
    pub compile_skip: u64,
    /// Cache hits (native run).
    pub cache_hits: u64,
}

impl JitStats {
    /// All counters at zero.
    pub open spec fn zero() -> Self {
        JitStats { jit_insns: 0, iced_insns: 0, compiles: 0, compile_skip: 0, cache_hits: 0 }
    }
}

impl Default for JitStats {
    fn default() -> (r: Self)
        ensures
            r == Self::zero(),
    {
        JitStats { jit_insns: 0, iced_insns: 0, compiles: 0, compile_skip: 0, cache_hits: 0 }
    }
}

/// How many bytes a stop bitmap for the range needs: one bit per address.
pub open spec fn bitmap_bytes_needed(hook_begin: u64, hook_end: u64) -> int {
    let len = crate::exec::hook::window_len(hook_begin, hook_end);
    let fit = if len <= usize::MAX {
        len
    } else {
        usize::MAX as int
    };
    (fit + 7) / 8
}

/// Minimal CPU and guest memory surface used by the runtime.
pub trait CpuEngine {
    /// The backend's invariant.
    spec fn wf(&self) -> bool;

    /// Memory and registers.
    spec fn machine(&self) -> Machine;

    /// Maps a guest VA range.
    fn mem_map(&mut self, address: u64, size: usize, perms: u32) -> (r: Result<(), CpuError>)
        requires
            old(self).wf(),
        ensures
            final(self).wf(),
            final(self).machine().regs == old(self).machine().regs,
            map_outcome(old(self).machine().mem, address, size, r, final(self).machine().mem),
    ;

    /// Writes guest memory.
    fn mem_write(&mut self, address: u64, bytes: &[u8]) -> (r: Result<(), CpuError>)
        requires
            old(self).wf(),
        ensures
            final(self).wf(),
            final(self).machine().regs == old(self).machine().regs,
            write_outcome(old(self).machine().mem, address, bytes@, r, final(self).machine().mem),
    ;

    /// Reads guest memory.
    fn mem_read(&mut self, address: u64, bytes: &mut [u8]) -> (r: Result<(), CpuError>)
        requires
            old(self).wf(),
        ensures
            final(self).wf(),
            final(self).machine() == old(self).machine(),
            read_outcome(old(self).machine().mem, address, old(bytes)@, r, final(bytes)@),
    ;

    /// Installs the range of addresses at which the host takes over. A bitmap
    /// that is too short for the range is refused.
    fn install_runtime_hooks(
        &mut self,
        hook_begin: u64,
        hook_end: u64,
        stop_bitmap: Vec<u8>,
    ) -> (r: Result<(), CpuError>)
        requires
            old(self).wf(),
        ensures
            final(self).wf(),
            final(self).machine() == old(self).machine(),
            r is Err <==> stop_bitmap@.len() < bitmap_bytes_needed(hook_begin, hook_end),
            r matches Err(e) ==> e.text() == "stop_bitmap too small: "@ + crate::text::dec(
                stop_bitmap@.len(),
            ) + " < "@ + crate::text::dec(bitmap_bytes_needed(hook_begin, hook_end) as nat),
    ;

    /// Runs until a stop-bitmap hit, invalid memory, or the instruction budget.
    fn run_until_stop(
        &mut self,
        begin: u64,
        until: u64,
        timeout: u64,
        count: usize,
        hook_begin: u64,
        hook_end: u64,
    ) -> (r: Result<RunUntilHook, CpuError>)
        requires
            old(self).wf(),
        ensures
            final(self).wf(),
            r matches Ok(run) ==> !(run.code.hit && run.invalid_memory.hit),
    ;

    /// Win64 return: pops the return address, sets `RAX`, and continues there.
    fn return_from_win64_api(&mut self, rax: u64) -> (r: Result<u64, CpuError>)
        requires
            old(self).wf(),
        ensures
            final(self).wf(),
            match popped(old(self).machine(), 8) {
                Ok(v) => {
                    &&& r == Ok::<u64, CpuError>(v)
                    &&& final(self).machine() == old(self).machine().with_regs(
                        after_pop(old(self).machine(), 8).regs.set(RAX as int, rax).at(v),
                    )
                },
                Err(_) => {
                    &&& r matches Err(e) && e.text()
                        == "return_from_win64_api stack read: mem_read unmapped "@
                        + crate::text::hex(
                        (old(self).machine().regs.gpr[RSP as int]
                            + crate::mem::model::mapped_run(
                            old(self).machine().mem,
                            old(self).machine().regs.gpr[RSP as int] as int,
                            8,
                        )) as nat,
                    )
                    &&& final(self).machine() == old(self).machine()
                },
            },
    ;

    /// Reads `RIP`.
    fn read_rip(&mut self) -> (r: Result<u64, CpuError>)
        requires
            old(self).wf(),
        ensures
            final(self).wf(),
            final(self).machine() == old(self).machine(),
            r == Ok::<u64, CpuError>(old(self).machine().regs.rip),
    ;

    /// Writes `RIP`.
    fn write_rip(&mut self, value: u64) -> (r: Result<(), CpuError>)
        requires
            old(self).wf(),
        ensures
            final(self).wf(),
            final(self).machine() == old(self).machine().with_regs(
                old(self).machine().regs.at(value),
            ),
            r is Ok,
    ;

    /// Reads `RSP`.
    fn read_rsp(&mut self) -> (r: Result<u64, CpuError>)
        requires
            old(self).wf(),
        ensures
            final(self).wf(),
            final(self).machine() == old(self).machine(),
            r == Ok::<u64, CpuError>(old(self).machine().regs.gpr[RSP as int]),
    ;

    /// Writes `RSP`.
    fn write_rsp(&mut self, value: u64) -> (r: Result<(), CpuError>)
        requires
            old(self).wf(),
        ensures
            final(self).wf(),
            final(self).machine() == old(self).machine().with_regs(
                old(self).machine().regs.set(RSP as int, value),
            ),
            r is Ok,
    ;

    /// Reads `RAX`.
    fn read_rax(&mut self) -> (r: Result<u64, CpuError>)
        requires
            old(self).wf(),
        ensures
            final(self).wf(),
            final(self).machine() == old(self).machine(),
            r == Ok::<u64, CpuError>(old(self).machine().regs.gpr[RAX as int]),
    ;

    /// Writes `RAX`.
    fn write_rax(&mut self, value: u64) -> (r: Result<(), CpuError>)
        requires
            old(self).wf(),
        ensures
            final(self).wf(),
            final(self).machine() == old(self).machine().with_regs(
                old(self).machine().regs.set(RAX as int, value),
            ),
            r is Ok,
    ;

    /// Reads `RCX`.
    fn read_rcx(&mut self) -> (r: Result<u64, CpuError>)
        requires
            old(self).wf(),
        ensures
            final(self).wf(),
            final(self).machine() == old(self).machine(),
            r == Ok::<u64, CpuError>(old(self).machine().regs.gpr[RCX as int]),
    ;

    /// Writes `RCX`.
    fn write_rcx(&mut self, value: u64) -> (r: Result<(), CpuError>)
        requires
            old(self).wf(),
        ensures
            final(self).wf(),
            final(self).machine() == old(self).machine().with_regs(
                old(self).machine().regs.set(RCX as int, value),
            ),
            r is Ok,
    ;

    /// Reads `RDX`.
    fn read_rdx(&mut self) -> (r: Result<u64, CpuError>)
        requires
            old(self).wf(),
        ensures
            final(self).wf(),
            final(self).machine() == old(self).machine(),
            r == Ok::<u64, CpuError>(old(self).machine().regs.gpr[RDX as int]),
    ;

    /// Writes `RDX`.
    fn write_rdx(&mut self, value: u64) -> (r: Result<(), CpuError>)
        requires
            old(self).wf(),
        ensures
            final(self).wf(),
            final(self).machine() == old(self).machine().with_regs(
                old(self).machine().regs.set(RDX as int, value),
            ),
            r is Ok,
    ;

    /// Reads `R8`.
    fn read_r8(&mut self) -> (r: Result<u64, CpuError>)
        requires
            old(self).wf(),
        ensures
            final(self).wf(),
            final(self).machine() == old(self).machine(),
            r == Ok::<u64, CpuError>(old(self).machine().regs.gpr[R8 as int]),
    ;

    /// Writes `R8`.
    fn write_r8(&mut self, value: u64) -> (r: Result<(), CpuError>)
        requires
            old(self).wf(),
        ensures
            final(self).wf(),
            final(self).machine() == old(self).machine().with_regs(
                old(self).machine().regs.set(R8 as int, value),
            ),
            r is Ok,
    ;

    /// Reads `R9`.
    fn read_r9(&mut self) -> (r: Result<u64, CpuError>)
        requires
            old(self).wf(),
        ensures
            final(self).wf(),
            final(self).machine() == old(self).machine(),
            r == Ok::<u64, CpuError>(old(self).machine().regs.gpr[R9 as int]),
    ;

    /// Writes `R9`.
    fn write_r9(&mut self, value: u64) -> (r: Result<(), CpuError>)
        requires
            old(self).wf(),
        ensures
            final(self).wf(),
            final(self).machine() == old(self).machine().with_regs(
                old(self).machine().regs.set(R9 as int, value),
            ),
            r is Ok,
    ;

    /// Reads `RBX`.
    fn read_rbx(&mut self) -> (r: Result<u64, CpuError>)
        requires
            old(self).wf(),
        ensures
            final(self).wf(),
            final(self).machine() == old(self).machine(),
            r == Ok::<u64, CpuError>(old(self).machine().regs.gpr[RBX as int]),
    ;

    /// Reads `R12`.
    fn read_r12(&mut self) -> (r: Result<u64, CpuError>)
        requires
            old(self).wf(),
        ensures
            final(self).wf(),
            final(self).machine() == old(self).machine(),
            r == Ok::<u64, CpuError>(old(self).machine().regs.gpr[R12 as int]),
    ;
}

/// The backend that a setting names, ASCII case aside: `iced` is the interpreter,
/// anything else the block compiler.
#[must_use]
pub fn active_backend_name(setting: Option<&str>) -> (name: &'static str)
    ensures
        name@ == match setting {
            Some(v) => if ascii::lower(v@) == ascii::lower("iced"@) {
                "iced"@
            } else {
                "jit"@
            },
            None => "jit"@,
        },
{
    match setting {
        Some(v) => {
            if v.eq_ignore_ascii_case("iced") {
                "iced"
            } else {
                "jit"
            }
        },
        None => "jit",
    }
}

/// A time of `sec` seconds and `usec` microseconds in microseconds; negative
/// parts count as zero, and each step saturates.
pub open spec fn us_of(sec: i64, usec: i64) -> int {
    let s = if sec > 0 {
        sec as int
    } else {
        0
    };
    let u = if usec > 0 {
        usec as int
    } else {
        0
    };
    let whole = if s * 1_000_000 > u64::MAX {
        u64::MAX as int
    } else {
        s * 1_000_000
    };
    if whole + u > u64::MAX {
        u64::MAX as int
    } else {
        whole + u
    }
}

/// A time of `sec` seconds and `usec` microseconds in microseconds.
#[must_use]
pub fn timeval_to_us(sec: i64, usec: i64) -> (us: u64)
    ensures
        us == us_of(sec, usec),
{
    let s: u64 = if sec > 0 {
        sec as u64
    } else {
        0
    };
    let u: u64 = if usec > 0 {
        usec as u64
    } else {
        0
    };
    let whole: u64 = match s.checked_mul(1_000_000) {
        Some(v) => v,
        None => u64::MAX,
    };
    whole.saturating_add(u)
}

/// Process CPU times `(user, system)` in microseconds, from what the host says of
/// each in seconds and microseconds; zero where the host says nothing.
#[must_use]
pub fn process_cpu_times_us(usage: Option<((i64, i64), (i64, i64))>) -> (r: (u64, u64))
    ensures
        match usage {
            Some((user, system)) => r.0 == us_of(user.0, user.1) && r.1 == us_of(
                system.0,
                system.1,
            ),
            None => r == (0u64, 0u64),
        },
{
    match usage {
        Some((user, system)) => (
            timeval_to_us(user.0, user.1),
            timeval_to_us(system.0, system.1),
        ),
        None => (0, 0),
    }
}

} // verus!
