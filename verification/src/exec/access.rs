//! Integer loads and stores, and the stack.

use vstd::prelude::*;

use crate::endian::{lemma_le_bytes_len, lemma_pow256};
use crate::endian::{le_bytes, le_value, pow256, read_le, write_le};
use crate::error::CpuError;
use crate::exec::model::{
    gives, machine, reaches, same_layout, Fault, InvalidMem, Machine, Next, StepExecError,
    ACCESS_READ, ACCESS_WRITE,
};
use crate::mem::guest::GuestMemory;
use crate::mem::model::{is_mapped, lemma_mapped_run, load, mapped_run, store, Bytes};
use crate::regs::{RegFile, RSP};
use crate::text;

verus! {

/// The value of an integer of `size` bytes at `address`.
pub open spec fn loaded(m: Bytes, address: u64, size: int) -> Result<u64, Fault> {
    if size == 0 || size > 8 {
        Err(Fault::Cpu("bad mem read size "@ + text::dec(size as nat)))
    } else if !is_mapped(m, address as int, size as nat) {
        Err(
            Fault::Memory(
                InvalidMem {
                    access_type: ACCESS_READ,
                    address,
                    size: size as i32,
                    value: 0,
                },
            ),
        )
    } else if size == 1 || size == 2 || size == 4 || size == 8 {
        Ok(le_value(load(m, address as int, size as nat)) as u64)
    } else {
        Ok(0)
    }
}

/// Memory after an integer of `size` bytes was stored at `address`. The bytes
/// before the first unmapped address are stored in any case.
pub open spec fn stored(m: Bytes, address: u64, value: u64, size: int) -> (Bytes, Option<Fault>) {
    if size == 0 || size > 8 {
        (m, Some(Fault::Cpu("bad mem write size "@ + text::dec(size as nat))))
    } else {
        let n = mapped_run(m, address as int, size as nat);
        let after = store(m, address as int, le_bytes(value as int, size as nat).take(n as int));
        if n == size {
            (after, None)
        } else {
            (
                after,
                Some(
                    Fault::Memory(
                        InvalidMem {
                            access_type: ACCESS_WRITE,
                            address,
                            size: size as i32,
                            value: if value <= i64::MAX {
                                value as i64
                            } else {
                                0
                            },
                        },
                    ),
                ),
            )
        }
    }
}

/// The machine after an integer was stored.
pub open spec fn after_store(s: Machine, address: u64, value: u64, size: int) -> Next {
    let (mem, fault) = stored(s.mem, address, value, size);
    (s.with_mem(mem), fault)
}

/// The machine after `value` was pushed as `size` bytes.
pub open spec fn after_push(s: Machine, value: u64, size: int) -> Next {
    let rsp = s.regs.gpr[RSP as int].wrapping_sub(size as u64);
    let (mem, fault) = stored(s.mem, rsp, value, size);
    match fault {
        Some(f) => s.with_mem(mem).failed(f),
        None => Machine { mem, regs: s.regs.set(RSP as int, rsp) }.done(),
    }
}

/// The value of `size` bytes that a pop takes from the stack.
pub open spec fn popped(s: Machine, size: int) -> Result<u64, Fault> {
    loaded(s.mem, s.regs.gpr[RSP as int], size)
}

/// The machine after `size` bytes were popped.
pub open spec fn after_pop(s: Machine, size: int) -> Machine {
    match popped(s, size) {
        Ok(_) => s.with_regs(
            s.regs.set(RSP as int, s.regs.gpr[RSP as int].wrapping_add(size as u64)),
        ),
        Err(_) => s,
    }
}

/// Loads an integer of `size` bytes.
pub fn read_mem_value(mem: &GuestMemory, address: u64, size: usize) -> (r: Result<
    u64,
    StepExecError,
>)
    requires
        mem.wf(),
    ensures
        gives(loaded(mem.bytes(), address, size as int), r),
{
    if size == 0 || size > 8 {
        return Err(
            StepExecError::Cpu(CpuError::Message(text::with_dec("bad mem read size ", size as u64))),
        );
    }
    let mut buf: Vec<u8> = vec![0u8; size];
    proof {
        lemma_mapped_run(mem.bytes(), address as int, size as nat);
    }
    match mem.read(address, buf.as_mut_slice()) {
        Ok(()) => {
            assert(buf@ =~= load(mem.bytes(), address as int, size as nat));
            match size {
                1 | 2 | 4 | 8 => Ok(read_le(buf.as_slice())),
                _ => Ok(0),
            }
        },
        Err(_) => Err(
            StepExecError::InvalidMemory(
                InvalidMem { access_type: ACCESS_READ, address, size: size as i32, value: 0 },
            ),
        ),
    }
}

/// Stores an integer of `size` bytes.
pub fn write_mem_value(mem: &mut GuestMemory, address: u64, value: u64, size: usize) -> (r: Result<
    (),
    StepExecError,
>)
    requires
        old(mem).wf(),
    ensures
        same_layout(*old(mem), *final(mem)),
        stored(old(mem).bytes(), address, value, size as int).0 == final(mem).bytes(),
        match stored(old(mem).bytes(), address, value, size as int).1 {
            None => r is Ok,
            Some(f) => r matches Err(e) && e.fault() == f,
        },
{
    if size == 0 || size > 8 {
        return Err(
            StepExecError::Cpu(
                CpuError::Message(text::with_dec("bad mem write size ", size as u64)),
            ),
        );
    }
    let bytes = write_le(value, size);
    match mem.write(address, bytes.as_slice()) {
        Ok(()) => Ok(()),
        Err(_) => {
            let shown: i64 = if value <= 0x7fff_ffff_ffff_ffff {
                value as i64
            } else {
                0
            };
            Err(
                StepExecError::InvalidMemory(
                    InvalidMem { access_type: ACCESS_WRITE, address, size: size as i32, value: shown },
                ),
            )
        },
    }
}

/// Pushes `value` as `size` bytes.
pub fn push_n(mem: &mut GuestMemory, regs: &mut RegFile, value: u64, size: usize) -> (r: Result<
    (),
    StepExecError,
>)
    requires
        old(mem).wf(),
    ensures
        same_layout(*old(mem), *final(mem)),
        reaches(after_push(machine(*old(mem), old(regs)@), value, size as int), *final(mem), final(regs)@, r),
{
    let rsp: u64 = regs.gpr(RSP).wrapping_sub(size as u64);
    match write_mem_value(mem, rsp, value, size) {
        Ok(()) => {
            regs.set_gpr(RSP, rsp);
            Ok(())
        },
        Err(e) => Err(e),
    }
}

/// Pops `size` bytes.
pub fn pop_n(mem: &GuestMemory, regs: &mut RegFile, size: usize) -> (r: Result<u64, StepExecError>)
    requires
        mem.wf(),
    ensures
        gives(popped(machine(*mem, old(regs)@), size as int), r),
        final(regs)@ == after_pop(machine(*mem, old(regs)@), size as int).regs,
{
    let rsp: u64 = regs.gpr(RSP);
    match read_mem_value(mem, rsp, size) {
        Ok(v) => {
            regs.set_gpr(RSP, rsp.wrapping_add(size as u64));
            Ok(v)
        },
        Err(e) => Err(e),
    }
}

/// What was pushed is popped again, and the stack pointer is back where it was.
pub proof fn pop_after_push(s: Machine, value: u64, size: int)
    requires
        size == 1 || size == 2 || size == 4 || size == 8,
        s.regs.gpr.len() == 16,
        after_push(s, value, size).1 is None,
    ensures
        ({
            let t = after_push(s, value, size).0;
            &&& popped(t, size) == Ok::<u64, Fault>((value as int % pow256(size as nat)) as u64)
            &&& after_pop(t, size).regs == s.regs
        }),
{
    let t = after_push(s, value, size).0;
    let rsp = s.regs.gpr[RSP as int].wrapping_sub(size as u64);
    let bytes = le_bytes(value as int, size as nat);
    lemma_le_bytes_len(value as int, size as nat);
    lemma_mapped_run(s.mem, rsp as int, size as nat);
    assert(bytes.take(size) =~= bytes);
    crate::mem::model::load_after_store(s.mem, rsp as int, bytes);
    crate::endian::bytes_round_trip(value as int, size as nat);
    lemma_pow256();
    assert(after_pop(t, size).regs.gpr =~= s.regs.gpr);
}

} // verus!
