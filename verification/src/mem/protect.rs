//! Windows `PAGE_*` protection constants and software access checks.
//!
//! Guest correctness uses these constants at 4 KiB granularity; host page
//! protection is never the sole permission oracle.

use vstd::prelude::*;

use crate::perm;

verus! {

/// No access (committed or reserved placeholder).
pub const PAGE_NOACCESS: u32 = 0x01;

/// Read-only.
pub const PAGE_READONLY: u32 = 0x02;

/// Read and write.
pub const PAGE_READWRITE: u32 = 0x04;

/// Execute only (no data read or write).
pub const PAGE_EXECUTE: u32 = 0x10;

/// Execute and read.
pub const PAGE_EXECUTE_READ: u32 = 0x20;

/// Execute, read and write.
pub const PAGE_EXECUTE_READWRITE: u32 = 0x40;

/// Kind of guest memory access for software permission checks.
#[derive(Debug, Clone, Copy, PartialEq, Eq, Hash, Structural)]
pub enum AccessKind {
    /// Data load.
    Read,
    /// Data store.
    Write,
    /// Instruction fetch.
    Execute,
}

/// The protections that allow a data read.
pub open spec fn readable(protect: u32) -> bool {
    protect == PAGE_READONLY || protect == PAGE_READWRITE || protect == PAGE_EXECUTE_READ || protect
        == PAGE_EXECUTE_READWRITE
}

/// The protections that allow a data write.
pub open spec fn writable(protect: u32) -> bool {
    protect == PAGE_READWRITE || protect == PAGE_EXECUTE_READWRITE
}

/// The protections that allow an instruction fetch.
pub open spec fn executable(protect: u32) -> bool {
    protect == PAGE_EXECUTE || protect == PAGE_EXECUTE_READ || protect == PAGE_EXECUTE_READWRITE
}

/// Whether `protect` (a Windows `PAGE_*` value) allows a data read.
#[must_use]
pub fn allows_read(protect: u32) -> (r: bool)
    ensures
        r == readable(protect),
{
    matches!(
        protect,
        PAGE_READONLY | PAGE_READWRITE | PAGE_EXECUTE_READ | PAGE_EXECUTE_READWRITE
    )
}

/// Whether `protect` allows a data write.
#[must_use]
pub fn allows_write(protect: u32) -> (r: bool)
    ensures
        r == writable(protect),
{
    matches!(protect, PAGE_READWRITE | PAGE_EXECUTE_READWRITE)
}

/// Whether `protect` allows instruction fetch.
#[must_use]
pub fn allows_execute(protect: u32) -> (r: bool)
    ensures
        r == executable(protect),
{
    matches!(
        protect,
        PAGE_EXECUTE | PAGE_EXECUTE_READ | PAGE_EXECUTE_READWRITE
    )
}

/// Whether `protect` allows the given access kind.
#[must_use]
pub fn allows(protect: u32, kind: AccessKind) -> (r: bool)
    ensures
        r == match kind {
            AccessKind::Read => readable(protect),
            AccessKind::Write => writable(protect),
            AccessKind::Execute => executable(protect),
        },
{
    match kind {
        AccessKind::Read => allows_read(protect),
        AccessKind::Write => allows_write(protect),
        AccessKind::Execute => allows_execute(protect),
    }
}

/// The protection that stands for the rights `r`, `w` and `x`. Windows has no
/// write-only page: write access brings read access with it.
pub open spec fn protect_for(r: bool, w: bool, x: bool) -> u32 {
    if x {
        if w {
            PAGE_EXECUTE_READWRITE
        } else if r {
            PAGE_EXECUTE_READ
        } else {
            PAGE_EXECUTE
        }
    } else if w {
        PAGE_READWRITE
    } else if r {
        PAGE_READONLY
    } else {
        PAGE_NOACCESS
    }
}

/// Converts rwx bits ([`perm::READ`], [`perm::WRITE`], [`perm::EXEC`]) to a
/// Windows `PAGE_*` value.
#[must_use]
pub fn page_protect_from_rwx(rwx: u32) -> (protect: u32)
    ensures
        protect == protect_for(
            rwx & perm::READ != 0,
            rwx & perm::WRITE != 0,
            rwx & perm::EXEC != 0,
        ),
{
    let r: bool = (rwx & perm::READ) != 0;
    let w: bool = (rwx & perm::WRITE) != 0;
    let x: bool = (rwx & perm::EXEC) != 0;
    match (r, w, x) {
        (_, true, true) => PAGE_EXECUTE_READWRITE,
        (true, false, true) => PAGE_EXECUTE_READ,
        (_, true, false) => PAGE_READWRITE,
        (true, false, false) => PAGE_READONLY,
        (false, false, true) => PAGE_EXECUTE,
        (false, false, false) => PAGE_NOACCESS,
    }
}

/// Converts a Windows `PAGE_*` value to rwx bits.
#[must_use]
pub fn rwx_from_page_protect(protect: u32) -> (bits: u32)
    ensures
        bits == (if readable(protect) {
            1int
        } else {
            0
        }) + (if writable(protect) {
            2int
        } else {
            0
        }) + (if executable(protect) {
            4int
        } else {
            0
        }),
{
    let mut bits: u32 = 0;
    assert(0u32 | 1 == 1 && 0u32 | 2 == 2 && 1u32 | 2 == 3 && 0u32 | 4 == 4 && 1u32 | 4 == 5 && 2u32
        | 4 == 6 && 3u32 | 4 == 7) by (bit_vector);
    if allows_read(protect) {
        bits = bits | perm::READ;
    }
    if allows_write(protect) {
        bits = bits | perm::WRITE;
    }
    if allows_execute(protect) {
        bits = bits | perm::EXEC;
    }
    bits
}

/// The protections that this library knows.
pub open spec fn supported(protect: u32) -> bool {
    readable(protect) || executable(protect) || protect == PAGE_NOACCESS
}

/// True if `value` is one of the primary protect constants.
#[must_use]
pub fn is_supported_protect(value: u32) -> (r: bool)
    ensures
        r == supported(value),
{
    matches!(
        value,
        PAGE_NOACCESS | PAGE_READONLY | PAGE_READWRITE | PAGE_EXECUTE | PAGE_EXECUTE_READ
            | PAGE_EXECUTE_READWRITE
    )
}

/// Converting a supported protection to rights and back gives it back; the
/// rights that come out are those that go in, with read added to write.
pub proof fn protection_round_trip(protect: u32, r: bool, w: bool, x: bool)
    ensures
        supported(protect) ==> protect_for(
            readable(protect),
            writable(protect),
            executable(protect),
        ) == protect,
        supported(protect_for(r, w, x)),
        readable(protect_for(r, w, x)) == (r || w),
        writable(protect_for(r, w, x)) == w,
        executable(protect_for(r, w, x)) == x,
{
}

} // verus!
