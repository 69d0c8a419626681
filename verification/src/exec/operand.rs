//! Operand sizes, addresses, reads and writes.

use vstd::prelude::*;

use crate::error::CpuError;
use crate::exec::access::{after_store, loaded, read_mem_value, write_mem_value};
use crate::exec::model::{
    gives, machine, reaches, same_layout, Fault, Machine, Next, StepExecError,
};
use crate::insn::decode::{
    iced_memory_size_name, iced_op_kind_name, memory_size_name, op_kind_name,
};
use crate::insn::instr::Instr;
use crate::insn::kind;
use crate::mem::guest::GuestMemory;
use crate::regs::{Reg, RegFile, Regs};
use vstd::string::StringExecFns;

verus! {

/// The fault of a register that holds no integer.
pub open spec fn no_register() -> Fault {
    Fault::Cpu("unsupported register"@)
}

/// The integer that a register holds.
pub open spec fn register_value(regs: Regs, reg: Reg) -> Result<u64, Fault> {
    match regs.reg(reg) {
        Some(v) => Ok(v),
        None => Err(no_register()),
    }
}

/// The address of the memory operand. With a base of `RIP` or `EIP` the
/// displacement is the whole address; otherwise it is added to the base and the
/// scaled index.
pub open spec fn address_of(regs: Regs, i: Instr) -> Result<u64, Fault> {
    if i.base == Reg::Rip || i.base == Reg::Eip {
        Ok(i.disp)
    } else {
        let with_base = if i.base == Reg::Absent {
            Ok(i.disp)
        } else {
            match register_value(regs, i.base) {
                Ok(b) => Ok(i.disp.wrapping_add(b)),
                Err(f) => Err(f),
            }
        };
        match with_base {
            Err(f) => Err(f),
            Ok(a) => if i.index == Reg::Absent {
                Ok(a)
            } else {
                match register_value(regs, i.index) {
                    Ok(x) => Ok(a.wrapping_add(x.wrapping_mul(i.scale as u64))),
                    Err(f) => Err(f),
                }
            },
        }
    }
}

/// The size in bytes of the memory operand: that of an integer, or else that of
/// a register among the first two operands.
pub open spec fn memory_bytes(i: Instr) -> Result<int, Fault> {
    match kind::integer_bytes(i.mem_size) {
        Some(n) => Ok(n),
        None => if i.op_count > 0 && i.op0.kind == kind::REGISTER {
            Ok(i.op0.reg.bytes())
        } else if i.op_count > 1 && i.op1.kind == kind::REGISTER {
            Ok(i.op1.reg.bytes())
        } else {
            Err(Fault::Cpu("unsupported memory size "@ + iced_memory_size_name(i.mem_size)))
        },
    }
}

/// The size in bytes of operand `op`.
pub open spec fn operand_bytes(i: Instr, op: int) -> Result<int, Fault> {
    let o = i.operand(op);
    if o.kind == kind::REGISTER {
        Ok(o.reg.bytes())
    } else if o.kind == kind::MEMORY {
        memory_bytes(i)
    } else if kind::immediate(o.kind) {
        Ok(kind::immediate_bytes(o.kind))
    } else {
        Err(Fault::Cpu("cannot size op kind "@ + iced_op_kind_name(o.kind)))
    }
}

/// The value of operand `op`.
pub open spec fn operand_value(s: Machine, i: Instr, op: int) -> Result<u64, Fault> {
    let o = i.operand(op);
    if o.kind == kind::REGISTER {
        register_value(s.regs, o.reg)
    } else if o.kind == kind::MEMORY {
        match address_of(s.regs, i) {
            Err(f) => Err(f),
            Ok(a) => match memory_bytes(i) {
                Err(f) => Err(f),
                Ok(n) => loaded(s.mem, a, n),
            },
        }
    } else if kind::immediate(o.kind) {
        Ok(o.imm)
    } else {
        Err(Fault::Cpu("unsupported op kind "@ + iced_op_kind_name(o.kind) + " for read"@))
    }
}

/// The machine after a register was written.
pub open spec fn after_register(s: Machine, reg: Reg, value: u64) -> Next {
    match s.regs.set_reg(reg, value) {
        Some(regs) => s.with_regs(regs).done(),
        None => s.failed(no_register()),
    }
}

/// The machine after operand `op` was written as `size` bytes. A register is
/// written whole, whatever `size` says.
pub open spec fn after_operand_sized(s: Machine, i: Instr, op: int, value: u64, size: int) -> Next {
    let o = i.operand(op);
    if o.kind == kind::REGISTER {
        after_register(s, o.reg, value)
    } else if o.kind == kind::MEMORY {
        match address_of(s.regs, i) {
            Err(f) => s.failed(f),
            Ok(a) => after_store(s, a, value, size),
        }
    } else {
        s.failed(Fault::Cpu("unsupported op kind "@ + iced_op_kind_name(o.kind) + " for write"@))
    }
}

/// The machine after operand `op` was written.
pub open spec fn after_operand(s: Machine, i: Instr, op: int, value: u64) -> Next {
    match operand_bytes(i, op) {
        Err(f) => s.failed(f),
        Ok(n) => after_operand_sized(s, i, op, value, n),
    }
}

/// Reads a register that holds an integer.
pub fn read_register(regs: &RegFile, reg: Reg) -> (r: Result<u64, StepExecError>)
    requires
        reg.wf(),
    ensures
        gives(register_value(regs@, reg), r),
{
    match regs.read_reg(reg) {
        Ok(v) => Ok(v),
        Err(e) => Err(StepExecError::Cpu(e)),
    }
}

/// Computes the address of the memory operand.
pub fn effective_address(regs: &RegFile, i: &Instr) -> (r: Result<u64, StepExecError>)
    requires
        i.wf(),
    ensures
        gives(address_of(regs@, *i), r),
{
    if i.base == Reg::Rip || i.base == Reg::Eip {
        return Ok(i.disp);
    }
    let mut address: u64 = i.disp;
    if i.base != Reg::Absent {
        match read_register(regs, i.base) {
            Ok(b) => {
                address = address.wrapping_add(b);
            },
            Err(e) => {
                return Err(e);
            },
        }
    }
    if i.index != Reg::Absent {
        match read_register(regs, i.index) {
            Ok(x) => {
                address = address.wrapping_add(x.wrapping_mul(i.scale as u64));
            },
            Err(e) => {
                return Err(e);
            },
        }
    }
    Ok(address)
}

/// The size in bytes of the memory operand.
pub fn memory_op_size(i: &Instr) -> (r: Result<usize, StepExecError>)
    ensures
        match memory_bytes(*i) {
            Ok(n) => r == Ok::<usize, StepExecError>(n as usize) && 0 <= n <= 0xffff,
            Err(f) => r matches Err(e) && e.fault() == f,
        },
{
    match kind::integer_size(i.mem_size) {
        Some(n) => Ok(n),
        None => {
            if i.op_count > 0 && i.op0.kind == kind::REGISTER {
                return Ok(i.op0.reg.size());
            }
            if i.op_count > 1 && i.op1.kind == kind::REGISTER {
                return Ok(i.op1.reg.size());
            }
            let name = memory_size_name(i.mem_size);
            let mut m = "unsupported memory size ".to_owned();
            m.append(name.as_str());
            Err(StepExecError::Cpu(CpuError::Message(m)))
        },
    }
}

/// The size in bytes of operand `op`.
pub fn op_size_bytes(i: &Instr, op: u32) -> (r: Result<usize, StepExecError>)
    requires
        op < 3,
    ensures
        match operand_bytes(*i, op as int) {
            Ok(n) => r == Ok::<usize, StepExecError>(n as usize) && 0 <= n <= 0xffff,
            Err(f) => r matches Err(e) && e.fault() == f,
        },
{
    let o = i.op(op);
    match o.kind {
        kind::REGISTER => Ok(o.reg.size()),
        kind::MEMORY => memory_op_size(i),
        kind::IMMEDIATE8 | kind::IMMEDIATE8_2ND => Ok(1),
        kind::IMMEDIATE16 | kind::IMMEDIATE8TO16 => Ok(2),
        kind::IMMEDIATE32 | kind::IMMEDIATE8TO32 => Ok(4),
        kind::IMMEDIATE64 | kind::IMMEDIATE8TO64 | kind::IMMEDIATE32TO64 => Ok(8),
        _ => {
            let name = op_kind_name(o.kind);
            let mut m = "cannot size op kind ".to_owned();
            m.append(name.as_str());
            Err(StepExecError::Cpu(CpuError::Message(m)))
        },
    }
}

/// Reads operand `op`.
pub fn read_op(mem: &GuestMemory, regs: &RegFile, i: &Instr, op: u32) -> (r: Result<
    u64,
    StepExecError,
>)
    requires
        mem.wf(),
        i.wf(),
        op < 3,
    ensures
        gives(operand_value(machine(*mem, regs@), *i, op as int), r),
{
    let o = i.op(op);
    match o.kind {
        kind::REGISTER => read_register(regs, o.reg),
        kind::MEMORY => {
            let address: u64 = match effective_address(regs, i) {
                Ok(a) => a,
                Err(e) => {
                    return Err(e);
                },
            };
            let size: usize = match memory_op_size(i) {
                Ok(n) => n,
                Err(e) => {
                    return Err(e);
                },
            };
            read_mem_value(mem, address, size)
        },
        kind::IMMEDIATE8 | kind::IMMEDIATE8_2ND | kind::IMMEDIATE16 | kind::IMMEDIATE32
        | kind::IMMEDIATE64 | kind::IMMEDIATE8TO16 | kind::IMMEDIATE8TO32 | kind::IMMEDIATE8TO64
        | kind::IMMEDIATE32TO64 => Ok(o.imm),
        _ => {
            let name = op_kind_name(o.kind);
            let mut m = "unsupported op kind ".to_owned();
            m.append(name.as_str());
            m.append(" for read");
            Err(StepExecError::Cpu(CpuError::Message(m)))
        },
    }
}

/// Writes a register that holds an integer.
pub fn write_register(regs: &mut RegFile, reg: Reg, value: u64) -> (r: Result<(), StepExecError>)
    requires
        reg.wf(),
    ensures
        match old(regs)@.set_reg(reg, value) {
            Some(after) => r is Ok && final(regs)@ == after,
            None => (r matches Err(e) && e.fault() == no_register()) && final(regs)@ == old(regs)@,
        },
{
    match regs.write_reg(reg, value) {
        Ok(()) => Ok(()),
        Err(e) => Err(StepExecError::Cpu(e)),
    }
}

/// Writes operand `op`.
pub fn write_op(
    mem: &mut GuestMemory,
    regs: &mut RegFile,
    i: &Instr,
    op: u32,
    value: u64,
) -> (r: Result<(), StepExecError>)
    requires
        old(mem).wf(),
        i.wf(),
        op < 3,
    ensures
        same_layout(*old(mem), *final(mem)),
        reaches(
            after_operand(machine(*old(mem), old(regs)@), *i, op as int, value),
            *final(mem),
            final(regs)@,
            r,
        ),
{
    match op_size_bytes(i, op) {
        Ok(size) => write_op_sized(mem, regs, i, op, value, size),
        Err(e) => Err(e),
    }
}

/// Writes operand `op` as `size` bytes.
pub fn write_op_sized(
    mem: &mut GuestMemory,
    regs: &mut RegFile,
    i: &Instr,
    op: u32,
    value: u64,
    size: usize,
) -> (r: Result<(), StepExecError>)
    requires
        old(mem).wf(),
        i.wf(),
        op < 3,
    ensures
        same_layout(*old(mem), *final(mem)),
        reaches(
            after_operand_sized(machine(*old(mem), old(regs)@), *i, op as int, value, size as int),
            *final(mem),
            final(regs)@,
            r,
        ),
{
    let o = i.op(op);
    match o.kind {
        kind::REGISTER => write_register(regs, o.reg, value),
        kind::MEMORY => {
            match effective_address(regs, i) {
                Ok(address) => write_mem_value(mem, address, value, size),
                Err(e) => Err(e),
            }
        },
        _ => {
            let name = op_kind_name(o.kind);
            let mut m = "unsupported op kind ".to_owned();
            m.append(name.as_str());
            m.append(" for write");
            Err(StepExecError::Cpu(CpuError::Message(m)))
        },
    }
}

} // verus!
