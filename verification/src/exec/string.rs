//! String instructions, one element per step.
//!
//! A repeated instruction does one element and stays where it is, so that the
//! next step does the next element. It moves on when a step finds the count at
//! zero, or when a comparison ends it early.

use vstd::prelude::*;

use crate::exec::access::{after_store, loaded, read_mem_value, write_mem_value};
use crate::exec::alu::lemma_trunc_narrow;
use crate::exec::logic::{accumulator, accumulator_reg};
use crate::exec::model::{machine, reaches, same_layout, Machine, Next, StepExecError};
use crate::insn::instr::Instr;
use crate::mem::guest::GuestMemory;
use crate::regs::{
    modulus, set_sub_flags, sub_flags, trunc, truncate, with_alu_flags, RegFile, Regs, DF, RAX, RCX,
    RDI, RSI, ZF,
};

verus! {

/// A string pointer moved by one element: down if the direction flag is set.
pub open spec fn advanced(regs: Regs, pointer: u64, size: int) -> u64 {
    if regs.flag(DF) {
        pointer.wrapping_sub(size as u64)
    } else {
        pointer.wrapping_add(size as u64)
    }
}

/// A string pointer moved by one element.
fn advance(regs: &RegFile, pointer: u64, size: usize) -> (p: u64)
    ensures
        p == advanced(regs@, pointer, size as int),
{
    if regs.flag(DF) {
        pointer.wrapping_sub(size as u64)
    } else {
        pointer.wrapping_add(size as u64)
    }
}

/// After an element was done: a repeated instruction counts down, and stays where
/// it is unless it stops early.
pub open spec fn counted(regs: Regs, i: Instr, stop: bool) -> Regs {
    if i.repeats() {
        let down = regs.set(RCX as int, regs.gpr[RCX as int].wrapping_sub(1));
        if stop {
            down
        } else {
            down.at(i.ip)
        }
    } else {
        regs
    }
}

/// Counts a repeated instruction down.
fn count_down(regs: &mut RegFile, i: &Instr, stop: bool)
    ensures
        final(regs)@ == counted(old(regs)@, *i, stop),
{
    if i.has_any_rep() {
        let rcx: u64 = regs.gpr(RCX).wrapping_sub(1);
        regs.set_gpr(RCX, rcx);
        if !stop {
            regs.set_rip(i.ip);
        }
    }
}

/// A repeated instruction with the count at zero does nothing.
pub open spec fn exhausted(regs: Regs, i: Instr) -> bool {
    i.repeats() && regs.gpr[RCX as int] == 0
}

/// A comparison ends a `repe` on a mismatch and a `repne` on a match.
pub open spec fn ended(regs: Regs, i: Instr) -> bool {
    (i.repe && !regs.flag(ZF)) || (i.repne && regs.flag(ZF))
}

/// `stos`.
pub open spec fn after_stos(s: Machine, i: Instr, size: int) -> Next {
    if exhausted(s.regs, i) {
        s.done()
    } else {
        let rdi = s.regs.gpr[RDI as int];
        let value = trunc(s.regs.gpr[RAX as int] as int, size) as u64;
        match after_store(s, rdi, value, size) {
            (t, Some(f)) => t.failed(f),
            (t, None) => t.with_regs(
                counted(t.regs.set(RDI as int, advanced(s.regs, rdi, size)), i, false),
            ).done(),
        }
    }
}

/// `stos`: stores the accumulator.
pub fn exec_stos(mem: &mut GuestMemory, regs: &mut RegFile, i: &Instr, size: usize) -> (r: Result<
    (),
    StepExecError,
>)
    requires
        old(mem).wf(),
        i.wf(),
    ensures
        same_layout(*old(mem), *final(mem)),
        reaches(
            after_stos(machine(*old(mem), old(regs)@), *i, size as int),
            *final(mem),
            final(regs)@,
            r,
        ),
{
    if i.has_any_rep() && regs.gpr(RCX) == 0 {
        return Ok(());
    }
    let rdi: u64 = regs.gpr(RDI);
    let value: u64 = truncate(regs.gpr(RAX), size);
    match write_mem_value(mem, rdi, value, size) {
        Ok(()) => {},
        Err(e) => {
            return Err(e);
        },
    }
    let next: u64 = advance(regs, rdi, size);
    regs.set_gpr(RDI, next);
    count_down(regs, i, false);
    Ok(())
}

/// `movs`.
pub open spec fn after_movs(s: Machine, i: Instr, size: int) -> Next {
    if exhausted(s.regs, i) {
        s.done()
    } else {
        let rsi = s.regs.gpr[RSI as int];
        let rdi = s.regs.gpr[RDI as int];
        match loaded(s.mem, rsi, size) {
            Err(f) => s.failed(f),
            Ok(v) => match after_store(s, rdi, v, size) {
                (t, Some(f)) => t.failed(f),
                (t, None) => t.with_regs(
                    counted(
                        t.regs.set(RSI as int, advanced(s.regs, rsi, size)).set(
                            RDI as int,
                            advanced(s.regs, rdi, size),
                        ),
                        i,
                        false,
                    ),
                ).done(),
            },
        }
    }
}

/// `movs`: copies one element.
pub fn exec_movs(mem: &mut GuestMemory, regs: &mut RegFile, i: &Instr, size: usize) -> (r: Result<
    (),
    StepExecError,
>)
    requires
        old(mem).wf(),
        i.wf(),
    ensures
        same_layout(*old(mem), *final(mem)),
        reaches(
            after_movs(machine(*old(mem), old(regs)@), *i, size as int),
            *final(mem),
            final(regs)@,
            r,
        ),
{
    if i.has_any_rep() && regs.gpr(RCX) == 0 {
        return Ok(());
    }
    let rsi: u64 = regs.gpr(RSI);
    let rdi: u64 = regs.gpr(RDI);
    let value: u64 = match read_mem_value(mem, rsi, size) {
        Ok(v) => v,
        Err(e) => {
            return Err(e);
        },
    };
    match write_mem_value(mem, rdi, value, size) {
        Ok(()) => {},
        Err(e) => {
            return Err(e);
        },
    }
    let next_rsi: u64 = advance(regs, rsi, size);
    let next_rdi: u64 = advance(regs, rdi, size);
    regs.set_gpr(RSI, next_rsi);
    regs.set_gpr(RDI, next_rdi);
    count_down(regs, i, false);
    Ok(())
}

/// `lods`.
pub open spec fn after_lods(s: Machine, i: Instr, size: int) -> Next {
    if exhausted(s.regs, i) {
        s.done()
    } else {
        let rsi = s.regs.gpr[RSI as int];
        match loaded(s.mem, rsi, size) {
            Err(f) => s.failed(f),
            Ok(v) => {
                let regs = s.regs.set_reg(accumulator(size), v)->0;
                s.with_regs(
                    counted(regs.set(RSI as int, advanced(s.regs, rsi, size)), i, false),
                ).done()
            },
        }
    }
}

/// `lods`: loads the accumulator.
pub fn exec_lods(mem: &GuestMemory, regs: &mut RegFile, i: &Instr, size: usize) -> (r: Result<
    (),
    StepExecError,
>)
    requires
        mem.wf(),
        i.wf(),
        size == 1 || size == 4 || size == 8,
    ensures
        reaches(after_lods(machine(*mem, old(regs)@), *i, size as int), *mem, final(regs)@, r),
{
    if i.has_any_rep() && regs.gpr(RCX) == 0 {
        return Ok(());
    }
    let rsi: u64 = regs.gpr(RSI);
    let value: u64 = match read_mem_value(mem, rsi, size) {
        Ok(v) => v,
        Err(e) => {
            return Err(e);
        },
    };
    let next: u64 = advance(regs, rsi, size);
    let _ = regs.write_reg(accumulator_reg(size), value);
    regs.set_gpr(RSI, next);
    count_down(regs, i, false);
    Ok(())
}

/// The registers after the flags were set for comparing `a` with `b`.
pub open spec fn compared(regs: Regs, a: int, b: int, size: int) -> Regs {
    regs.flags(with_alu_flags(regs.rflags, sub_flags(a, b, size)))
}

/// `scas`.
pub open spec fn after_scas(s: Machine, i: Instr, size: int) -> Next {
    if exhausted(s.regs, i) {
        s.done()
    } else {
        let rdi = s.regs.gpr[RDI as int];
        match loaded(s.mem, rdi, size) {
            Err(f) => s.failed(f),
            Ok(v) => {
                let regs = compared(
                    s.regs,
                    trunc(s.regs.gpr[RAX as int] as int, size),
                    trunc(v as int, size),
                    size,
                ).set(RDI as int, advanced(s.regs, rdi, size));
                s.with_regs(counted(regs, i, ended(regs, i))).done()
            },
        }
    }
}

/// Sets the flags for comparing `a` with `b`, two operands of `size` bytes.
fn compare(regs: &mut RegFile, a: u64, b: u64, size: usize)
    requires
        a < modulus(size as int),
        b < modulus(size as int),
    ensures
        final(regs)@ == compared(old(regs)@, a as int, b as int, size as int),
{
    proof {
        lemma_trunc_narrow(a - b, size as int);
    }
    let difference: u64 = a.wrapping_sub(b);
    set_sub_flags(regs, a, b, difference, size);
}

/// Whether a comparison ends a repeated instruction early.
fn ends_early(regs: &RegFile, i: &Instr) -> (r: bool)
    ensures
        r == ended(regs@, *i),
{
    let zf: bool = regs.flag(ZF);
    (i.repe && !zf) || (i.repne && zf)
}

/// `scas`: compares the accumulator with an element.
pub fn exec_scas(mem: &GuestMemory, regs: &mut RegFile, i: &Instr, size: usize) -> (r: Result<
    (),
    StepExecError,
>)
    requires
        mem.wf(),
        i.wf(),
    ensures
        reaches(after_scas(machine(*mem, old(regs)@), *i, size as int), *mem, final(regs)@, r),
{
    if i.has_any_rep() && regs.gpr(RCX) == 0 {
        return Ok(());
    }
    let acc: u64 = truncate(regs.gpr(RAX), size);
    let rdi: u64 = regs.gpr(RDI);
    let value: u64 = match read_mem_value(mem, rdi, size) {
        Ok(v) => truncate(v, size),
        Err(e) => {
            return Err(e);
        },
    };
    let next: u64 = advance(regs, rdi, size);
    compare(regs, acc, value, size);
    regs.set_gpr(RDI, next);
    let stop: bool = ends_early(regs, i);
    count_down(regs, i, stop);
    Ok(())
}

/// `cmps`.
pub open spec fn after_compare_string(s: Machine, i: Instr, size: int) -> Next {
    if exhausted(s.regs, i) {
        s.done()
    } else {
        let rsi = s.regs.gpr[RSI as int];
        let rdi = s.regs.gpr[RDI as int];
        match loaded(s.mem, rsi, size) {
            Err(f) => s.failed(f),
            Ok(a) => match loaded(s.mem, rdi, size) {
                Err(f) => s.failed(f),
                Ok(b) => {
                    let regs = compared(
                        s.regs,
                        trunc(a as int, size),
                        trunc(b as int, size),
                        size,
                    ).set(RSI as int, advanced(s.regs, rsi, size)).set(
                        RDI as int,
                        advanced(s.regs, rdi, size),
                    );
                    s.with_regs(counted(regs, i, ended(regs, i))).done()
                },
            },
        }
    }
}

/// The string comparison: compares two elements.
pub fn exec_compare_string(mem: &GuestMemory, regs: &mut RegFile, i: &Instr, size: usize) -> (r:
    Result<(), StepExecError>)
    requires
        mem.wf(),
        i.wf(),
    ensures
        reaches(
            after_compare_string(machine(*mem, old(regs)@), *i, size as int),
            *mem,
            final(regs)@,
            r,
        ),
{
    if i.has_any_rep() && regs.gpr(RCX) == 0 {
        return Ok(());
    }
    let rsi: u64 = regs.gpr(RSI);
    let rdi: u64 = regs.gpr(RDI);
    let a: u64 = match read_mem_value(mem, rsi, size) {
        Ok(v) => truncate(v, size),
        Err(e) => {
            return Err(e);
        },
    };
    let b: u64 = match read_mem_value(mem, rdi, size) {
        Ok(v) => truncate(v, size),
        Err(e) => {
            return Err(e);
        },
    };
    let next_rsi: u64 = advance(regs, rsi, size);
    let next_rdi: u64 = advance(regs, rdi, size);
    compare(regs, a, b, size);
    regs.set_gpr(RSI, next_rsi);
    regs.set_gpr(RDI, next_rdi);
    let stop: bool = ends_early(regs, i);
    count_down(regs, i, stop);
    Ok(())
}

} // verus!
