//! Vector register moves and exclusive or.

use vstd::prelude::*;
use vstd::string::StringExecFns;

use crate::endian::{le_bytes, le_value, lemma_pow256, pow256, read_le_wide, write_le_wide};
use crate::error::{error, CpuError};
use crate::exec::access::{after_store, loaded, read_mem_value, write_mem_value};
use crate::exec::alu::{after_mov, exec_mov};
use crate::exec::model::{
    gives, machine, reaches, same_layout, Fault, InvalidMem, Machine, Next, StepExecError,
    ACCESS_READ, ACCESS_WRITE,
};
use crate::exec::operand::{
    address_of, after_register, effective_address, read_register, register_value, write_register,
};
use crate::insn::decode::{iced_op_kind_name, op_kind_name};
use crate::insn::instr::Instr;
use crate::insn::kind;
use crate::mem::guest::GuestMemory;
use crate::mem::model::{is_mapped, lemma_mapped_run, load, mapped_run, store};
use crate::regs::{Reg, RegFile, Regs};

verus! {

/// The decoder's code of `movsd` from memory or a register to a vector register.
pub const MOVSD_XMM_XMMM64: u16 = 910;

/// The decoder's code of `movsd` from a vector register to memory or a register.
pub const MOVSD_XMMM64_XMM: u16 = 932;

/// Whether a `movsd` is the vector move and not the string instruction.
pub open spec fn vector_movsd(i: Instr) -> bool {
    i.op0.reg is Xmm || i.op1.reg is Xmm || i.code == MOVSD_XMM_XMMM64 || i.code
        == MOVSD_XMMM64_XMM
}

/// Whether a `movsd` is the vector move and not the string instruction.
pub fn is_sse_movsd(i: &Instr) -> (r: bool)
    ensures
        r == vector_movsd(*i),
{
    i.op0.reg.is_xmm() || i.op1.reg.is_xmm() || i.code == MOVSD_XMM_XMMM64 || i.code
        == MOVSD_XMMM64_XMM
}

/// The fault of a vector register beyond the sixteenth.
pub open spec fn no_xmm() -> Fault {
    Fault::Cpu("unsupported xmm register"@)
}

/// The value of a vector register.
pub open spec fn xmm_value(regs: Regs, reg: Reg) -> Result<u128, Fault> {
    match regs.xmm_reg(reg) {
        Some(v) => Ok(v),
        None => Err(no_xmm()),
    }
}

/// The `n` low bytes of operand `op` of a vector instruction. A general register
/// is read whole.
pub open spec fn sse_value(s: Machine, i: Instr, op: int, n: nat) -> Result<u128, Fault> {
    let o = i.operand(op);
    if o.kind == kind::REGISTER && o.reg is Xmm {
        match xmm_value(s.regs, o.reg) {
            Err(f) => Err(f),
            Ok(v) => Ok((v as int % pow256(n)) as u128),
        }
    } else if o.kind == kind::MEMORY {
        match address_of(s.regs, i) {
            Err(f) => Err(f),
            Ok(a) => if is_mapped(s.mem, a as int, n) {
                Ok(le_value(load(s.mem, a as int, n)) as u128)
            } else {
                Err(
                    Fault::Memory(
                        InvalidMem {
                            access_type: ACCESS_READ,
                            address: a,
                            size: n as i32,
                            value: 0,
                        },
                    ),
                )
            },
        }
    } else if o.kind == kind::REGISTER {
        match register_value(s.regs, o.reg) {
            Err(f) => Err(f),
            Ok(v) => Ok(v as u128),
        }
    } else {
        Err(Fault::Cpu("sse read op kind "@ + iced_op_kind_name(o.kind)))
    }
}

/// The machine after a vector register was written.
pub open spec fn after_xmm(s: Machine, reg: Reg, v: u128) -> Next {
    match s.regs.set_xmm_reg(reg, v) {
        Some(regs) => s.with_regs(regs).done(),
        None => s.failed(no_xmm()),
    }
}

/// The machine after the `n` low bytes of `value` were written to operand `op` of
/// a vector instruction. In a register the other bytes stay if `merge` says so,
/// and read zero otherwise.
pub open spec fn after_sse_operand(
    s: Machine,
    i: Instr,
    op: int,
    value: u128,
    n: nat,
    merge: bool,
) -> Next {
    let o = i.operand(op);
    if o.kind == kind::REGISTER && o.reg is Xmm {
        if n >= 16 {
            after_xmm(s, o.reg, value)
        } else if merge {
            match xmm_value(s.regs, o.reg) {
                Err(f) => s.failed(f),
                Ok(old) => after_xmm(
                    s,
                    o.reg,
                    (old as int - old as int % pow256(n) + value as int % pow256(n)) as u128,
                ),
            }
        } else {
            after_xmm(s, o.reg, (value as int % pow256(n)) as u128)
        }
    } else if o.kind == kind::MEMORY {
        match address_of(s.regs, i) {
            Err(f) => s.failed(f),
            Ok(a) => {
                let k = mapped_run(s.mem, a as int, n);
                let t = s.with_mem(
                    store(s.mem, a as int, le_bytes(value as int, n).take(k as int)),
                );
                if k == n {
                    t.done()
                } else {
                    t.failed(
                        Fault::Memory(
                            InvalidMem {
                                access_type: ACCESS_WRITE,
                                address: a,
                                size: n as i32,
                                value: 0,
                            },
                        ),
                    )
                }
            },
        }
    } else {
        s.failed(Fault::Cpu("sse write op kind "@ + iced_op_kind_name(o.kind)))
    }
}

/// Reads a vector register.
fn read_xmm(regs: &RegFile, reg: Reg) -> (r: Result<u128, StepExecError>)
    ensures
        gives(xmm_value(regs@, reg), r),
{
    match regs.read_xmm(reg) {
        Ok(v) => Ok(v),
        Err(e) => Err(StepExecError::Cpu(e)),
    }
}

/// Writes a vector register.
fn write_xmm(mem: &GuestMemory, regs: &mut RegFile, reg: Reg, v: u128) -> (r: Result<
    (),
    StepExecError,
>)
    ensures
        reaches(after_xmm(machine(*mem, old(regs)@), reg, v), *mem, final(regs)@, r),
{
    match regs.write_xmm(reg, v) {
        Ok(()) => Ok(()),
        Err(e) => Err(StepExecError::Cpu(e)),
    }
}

/// The `n` low bytes of `v`.
fn low_bytes(v: u128, n: usize) -> (r: u128)
    requires
        n == 4 || n == 8 || n == 16,
    ensures
        r == v as int % pow256(n as nat),
{
    proof {
        lemma_pow256();
    }
    match n {
        4 => v % 0x1_0000_0000,
        8 => v % 0x1_0000_0000_0000_0000,
        _ => v,
    }
}

/// Reads operand `op` of a vector instruction.
pub fn read_sse_op(mem: &GuestMemory, regs: &RegFile, i: &Instr, op: u32, n: usize) -> (r: Result<
    u128,
    StepExecError,
>)
    requires
        mem.wf(),
        i.wf(),
        op < 3,
        n == 4 || n == 8 || n == 16,
    ensures
        gives(sse_value(machine(*mem, regs@), *i, op as int, n as nat), r),
{
    let o = i.op(op);
    match o.kind {
        kind::REGISTER => {
            if o.reg.is_xmm() {
                match read_xmm(regs, o.reg) {
                    Ok(v) => Ok(low_bytes(v, n)),
                    Err(e) => Err(e),
                }
            } else {
                match read_register(regs, o.reg) {
                    Ok(v) => Ok(v as u128),
                    Err(e) => Err(e),
                }
            }
        },
        kind::MEMORY => {
            let a: u64 = match effective_address(regs, i) {
                Ok(a) => a,
                Err(e) => {
                    return Err(e);
                },
            };
            let mut buf: Vec<u8> = vec![0u8; n];
            proof {
                lemma_mapped_run(mem.bytes(), a as int, n as nat);
            }
            match mem.read(a, buf.as_mut_slice()) {
                Ok(()) => {
                    assert(buf@ =~= load(mem.bytes(), a as int, n as nat));
                    Ok(read_le_wide(buf.as_slice()))
                },
                Err(_) => Err(
                    StepExecError::InvalidMemory(
                        InvalidMem {
                            access_type: ACCESS_READ,
                            address: a,
                            size: n as i32,
                            value: 0,
                        },
                    ),
                ),
            }
        },
        other => {
            let name = op_kind_name(other);
            let mut m = "sse read op kind ".to_owned();
            m.append(name.as_str());
            Err(StepExecError::Cpu(CpuError::Message(m)))
        },
    }
}

/// Writes operand `op` of a vector instruction.
pub fn write_sse_op(
    mem: &mut GuestMemory,
    regs: &mut RegFile,
    i: &Instr,
    op: u32,
    value: u128,
    n: usize,
    merge: bool,
) -> (r: Result<(), StepExecError>)
    requires
        old(mem).wf(),
        i.wf(),
        op < 3,
        n == 4 || n == 8 || n == 16,
    ensures
        same_layout(*old(mem), *final(mem)),
        reaches(
            after_sse_operand(
                machine(*old(mem), old(regs)@),
                *i,
                op as int,
                value,
                n as nat,
                merge,
            ),
            *final(mem),
            final(regs)@,
            r,
        ),
{
    let o = i.op(op);
    if o.kind == kind::REGISTER && o.reg.is_xmm() {
        if n >= 16 {
            return write_xmm(mem, regs, o.reg, value);
        }
        if merge {
            let before: u128 = match read_xmm(regs, o.reg) {
                Ok(v) => v,
                Err(e) => {
                    return Err(e);
                },
            };
            proof {
                lemma_pow256();
            }
            let merged: u128 = before - low_bytes(before, n) + low_bytes(value, n);
            return write_xmm(mem, regs, o.reg, merged);
        }
        return write_xmm(mem, regs, o.reg, low_bytes(value, n));
    }
    if o.kind == kind::MEMORY {
        let a: u64 = match effective_address(regs, i) {
            Ok(a) => a,
            Err(e) => {
                return Err(e);
            },
        };
        let bytes = write_le_wide(value, n);
        return match mem.write(a, bytes.as_slice()) {
            Ok(()) => Ok(()),
            Err(_) => Err(
                StepExecError::InvalidMemory(
                    InvalidMem { access_type: ACCESS_WRITE, address: a, size: n as i32, value: 0 },
                ),
            ),
        };
    }
    let name = op_kind_name(o.kind);
    let mut m = "sse write op kind ".to_owned();
    m.append(name.as_str());
    Err(StepExecError::Cpu(CpuError::Message(m)))
}

/// A move of `n` bytes.
pub open spec fn after_sse_mov(s: Machine, i: Instr, n: nat, merge: bool) -> Next {
    match sse_value(s, i, 1, n) {
        Err(f) => s.failed(f),
        Ok(v) => after_sse_operand(s, i, 0, v, n, merge),
    }
}

/// A move of `n` bytes.
pub fn exec_sse_mov(mem: &mut GuestMemory, regs: &mut RegFile, i: &Instr, n: usize, merge: bool)
    -> (r: Result<(), StepExecError>)
    requires
        old(mem).wf(),
        i.wf(),
        n == 4 || n == 8 || n == 16,
    ensures
        same_layout(*old(mem), *final(mem)),
        reaches(
            after_sse_mov(machine(*old(mem), old(regs)@), *i, n as nat, merge),
            *final(mem),
            final(regs)@,
            r,
        ),
{
    match read_sse_op(mem, regs, i, 1, n) {
        Ok(v) => write_sse_op(mem, regs, i, 0, v, n, merge),
        Err(e) => Err(e),
    }
}

/// `xorps`, `xorpd` and `pxor`.
pub open spec fn after_sse_xor(s: Machine, i: Instr) -> Next {
    match sse_value(s, i, 0, 16) {
        Err(f) => s.failed(f),
        Ok(a) => match sse_value(s, i, 1, 16) {
            Err(f) => s.failed(f),
            Ok(b) => after_sse_operand(s, i, 0, a ^ b, 16, false),
        },
    }
}

/// `xorps`, `xorpd` and `pxor`.
pub fn exec_sse_xor(mem: &mut GuestMemory, regs: &mut RegFile, i: &Instr) -> (r: Result<
    (),
    StepExecError,
>)
    requires
        old(mem).wf(),
        i.wf(),
    ensures
        same_layout(*old(mem), *final(mem)),
        reaches(after_sse_xor(machine(*old(mem), old(regs)@), *i), *final(mem), final(regs)@, r),
{
    let a: u128 = match read_sse_op(mem, regs, i, 0, 16) {
        Ok(v) => v,
        Err(e) => {
            return Err(e);
        },
    };
    let b: u128 = match read_sse_op(mem, regs, i, 1, 16) {
        Ok(v) => v,
        Err(e) => {
            return Err(e);
        },
    };
    write_sse_op(mem, regs, i, 0, a ^ b, 16, false)
}

/// `movq`.
pub open spec fn after_sse_movq(s: Machine, i: Instr) -> Next {
    if i.op0.reg is Xmm || i.op1.reg is Xmm {
        after_sse_mov(s, i, 8, true)
    } else {
        after_mov(s, i)
    }
}

/// `movq`: eight bytes to or from a vector register; a plain move if there is
/// none.
pub fn exec_sse_movq(mem: &mut GuestMemory, regs: &mut RegFile, i: &Instr) -> (r: Result<
    (),
    StepExecError,
>)
    requires
        old(mem).wf(),
        i.wf(),
    ensures
        same_layout(*old(mem), *final(mem)),
        reaches(after_sse_movq(machine(*old(mem), old(regs)@), *i), *final(mem), final(regs)@, r),
{
    if i.op0.reg.is_xmm() || i.op1.reg.is_xmm() {
        return exec_sse_mov(mem, regs, i, 8, true);
    }
    exec_mov(mem, regs, i)
}

/// `movd`: four bytes, zero-extended into the whole vector register, or the low
/// four bytes of one.
pub open spec fn after_sse_movd(s: Machine, i: Instr) -> Next {
    if i.op0.reg is Xmm {
        let source = if i.op1.kind == kind::MEMORY {
            match address_of(s.regs, i) {
                Err(f) => Err(f),
                Ok(a) => loaded(s.mem, a, 4),
            }
        } else {
            register_value(s.regs, i.op1.reg)
        };
        match source {
            Err(f) => s.failed(f),
            Ok(v) => after_xmm(s, i.op0.reg, (v as int % 0x1_0000_0000) as u128),
        }
    } else if i.op1.reg is Xmm {
        match xmm_value(s.regs, i.op1.reg) {
            Err(f) => s.failed(f),
            Ok(x) => {
                let v = (x as int % 0x1_0000_0000) as u64;
                if i.op0.kind == kind::MEMORY {
                    match address_of(s.regs, i) {
                        Err(f) => s.failed(f),
                        Ok(a) => after_store(s, a, v, 4),
                    }
                } else {
                    after_register(s, i.op0.reg, v)
                }
            },
        }
    } else {
        s.failed(Fault::Cpu("movd without xmm"@))
    }
}

/// `movd`.
pub fn exec_sse_movd(mem: &mut GuestMemory, regs: &mut RegFile, i: &Instr) -> (r: Result<
    (),
    StepExecError,
>)
    requires
        old(mem).wf(),
        i.wf(),
    ensures
        same_layout(*old(mem), *final(mem)),
        reaches(after_sse_movd(machine(*old(mem), old(regs)@), *i), *final(mem), final(regs)@, r),
{
    if i.op0.reg.is_xmm() {
        let source: Result<u64, StepExecError> = if i.op1.kind == kind::MEMORY {
            match effective_address(regs, i) {
                Ok(a) => read_mem_value(mem, a, 4),
                Err(e) => Err(e),
            }
        } else {
            read_register(regs, i.op1.reg)
        };
        return match source {
            Ok(v) => write_xmm(mem, regs, i.op0.reg, (v % 0x1_0000_0000) as u128),
            Err(e) => Err(e),
        };
    }
    if i.op1.reg.is_xmm() {
        let x: u128 = match read_xmm(regs, i.op1.reg) {
            Ok(v) => v,
            Err(e) => {
                return Err(e);
            },
        };
        let v: u64 = (x % 0x1_0000_0000) as u64;
        if i.op0.kind == kind::MEMORY {
            return match effective_address(regs, i) {
                Ok(a) => write_mem_value(mem, a, v, 4),
                Err(e) => Err(e),
            };
        }
        return write_register(regs, i.op0.reg, v);
    }
    Err(StepExecError::Cpu(error("movd without xmm")))
}

} // verus!
