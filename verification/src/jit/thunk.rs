//! Import thunks and jumps that a call may lead to.

use vstd::prelude::*;

use crate::cpu::CpuEngine;
use crate::endian::{le_value, read_le};
use crate::exec::alu::{sign_extend, sign_extended};
use crate::iced_cpu::IcedCpu;
use crate::mem::model::{is_mapped, lemma_mapped_run, load, Bytes};

verus! {

/// How many thunks are followed.
pub const MAX_HOPS: usize = 4;

/// The address `after` bytes behind `va`, and a signed offset of `size` bytes from
/// there.
pub open spec fn relative(va: u64, after: u64, offset: int, size: int) -> u64 {
    va.wrapping_add(after).wrapping_add(sign_extended(offset, size))
}

/// Where the code at `va` jumps to at once: through an import slot, by a near or
/// short jump, or to an address that it loads. `None` if it does anything else, or
/// if it cannot be read.
pub open spec fn hop(m: Bytes, va: u64) -> Option<u64> {
    if !is_mapped(m, va as int, 16) {
        None
    } else {
        let b = load(m, va as int, 16);
        if b[0] == 0xff && b[1] == 0x25 {
            let slot = relative(va, 6, le_value(b.subrange(2, 6)), 4);
            if is_mapped(m, slot as int, 8) {
                Some(le_value(load(m, slot as int, 8)) as u64)
            } else {
                None
            }
        } else if b[0] == 0xe9 {
            Some(relative(va, 5, le_value(b.subrange(1, 5)), 4))
        } else if b[0] == 0x48 && b[1] == 0xb8 && b[10] == 0xff && b[11] == 0xe0 {
            Some(le_value(b.subrange(2, 10)) as u64)
        } else if b[0] == 0xeb {
            Some(relative(va, 2, b[1] as int, 1))
        } else {
            None
        }
    }
}

/// Where a call of `va` leads to in the end, following at most `n` jumps.
pub open spec fn final_target(m: Bytes, va: u64, n: nat) -> u64
    decreases n,
{
    if n == 0 {
        va
    } else {
        match hop(m, va) {
            Some(next) => final_target(m, next, (n - 1) as nat),
            None => va,
        }
    }
}

/// Reads a run of bytes.
fn bytes_at(cpu: &IcedCpu, va: u64, n: usize) -> (r: Option<Vec<u8>>)
    requires
        cpu.wf(),
    ensures
        match r {
            Some(b) => is_mapped(cpu.machine().mem, va as int, n as nat) && b@ == load(
                cpu.machine().mem,
                va as int,
                n as nat,
            ),
            None => !is_mapped(cpu.machine().mem, va as int, n as nat),
        },
{
    let mut buf: Vec<u8> = vec![0u8; n];
    proof {
        lemma_mapped_run(cpu.machine().mem, va as int, n as nat);
    }
    match cpu.mem_read_into(va, buf.as_mut_slice()) {
        Ok(()) => {
            assert(buf@ =~= load(cpu.machine().mem, va as int, n as nat));
            Some(buf)
        },
        Err(_) => None,
    }
}

/// The value of a part of a run of bytes.
fn part(b: &Vec<u8>, from: usize, to: usize) -> (v: u64)
    requires
        from <= to <= b@.len(),
        to - from <= 8,
    ensures
        v == le_value(b@.subrange(from as int, to as int)),
{
    read_le(vstd::slice::slice_subrange(b.as_slice(), from, to))
}

/// Where the code at `va` jumps to at once.
fn next_hop(cpu: &IcedCpu, va: u64) -> (r: Option<u64>)
    requires
        cpu.wf(),
    ensures
        r == hop(cpu.machine().mem, va),
{
    let b = match bytes_at(cpu, va, 16) {
        Some(b) => b,
        None => {
            return None;
        },
    };
    if b[0] == 0xff && b[1] == 0x25 {
        let rel: u64 = sign_extend(part(&b, 2, 6), 4);
        let slot: u64 = va.wrapping_add(6).wrapping_add(rel);
        return match bytes_at(cpu, slot, 8) {
            Some(s) => {
                assert(s@.subrange(0, 8) =~= s@);
                Some(part(&s, 0, 8))
            },
            None => None,
        };
    }
    if b[0] == 0xe9 {
        let rel: u64 = sign_extend(part(&b, 1, 5), 4);
        return Some(va.wrapping_add(5).wrapping_add(rel));
    }
    if b[0] == 0x48 && b[1] == 0xb8 && b[10] == 0xff && b[11] == 0xe0 {
        return Some(part(&b, 2, 10));
    }
    if b[0] == 0xeb {
        let rel: u64 = sign_extend(b[1] as u64, 1);
        return Some(va.wrapping_add(2).wrapping_add(rel));
    }
    None
}

/// Follows import thunks and jumps to the address that a call leads to.
pub fn resolve_thunk_va(cpu: &IcedCpu, va: u64) -> (r: u64)
    requires
        cpu.wf(),
    ensures
        r == final_target(cpu.machine().mem, va, MAX_HOPS as nat),
{
    let ghost m = cpu.machine().mem;
    let mut at: u64 = va;
    let mut left: usize = MAX_HOPS;
    while left > 0
        invariant
            cpu.wf(),
            m == cpu.machine().mem,
            left <= 4,
            final_target(m, va, 4) == final_target(m, at, left as nat),
        decreases left,
    {
        match next_hop(cpu, at) {
            Some(next) => {
                at = next;
            },
            None => {
                return at;
            },
        }
        left = left - 1;
    }
    at
}

} // verus!
