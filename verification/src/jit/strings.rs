//! String instructions at the end of a block, which a helper carries out.

use vstd::prelude::*;

use crate::exec::model::{machine, same_layout, Machine, Next, StepExecError};
use crate::exec::step::after_vector;
use crate::exec::string::{
    after_compare_string, after_lods, after_movs, after_scas, after_stos, exec_compare_string,
    exec_lods, exec_movs, exec_scas, exec_stos,
};
use crate::insn::instr::{Instr, Operand};
use crate::insn::mnemonic;
use crate::jit::block::{string_bytes, string_op_size};
use crate::mem::guest::GuestMemory;
use crate::regs::{Reg, RegFile};

verus! {

/// A string instruction, as the helper takes it.
#[derive(Debug, Clone, Copy, PartialEq, Eq, Structural)]
pub struct StringCall {
    /// 0 stores, 1 moves, 2 loads, 3 scans, 4 compares.
    pub op: u8,
    /// Size of an element in bytes.
    pub size: u8,
    /// Bit 0: repeated; bit 1: while equal; bit 2: while not equal.
    pub flags: u8,
    /// Address of the instruction.
    pub ip: u64,
    /// Address of the next instruction.
    pub next_ip: u64,
}

/// What a string instruction does.
pub open spec fn string_op(i: Instr) -> u8 {
    match i.mnemonic {
        mnemonic::STOSB => 0,
        mnemonic::STOSW => 0,
        mnemonic::STOSD => 0,
        mnemonic::STOSQ => 0,
        mnemonic::MOVSB => 1,
        mnemonic::MOVSW => 1,
        mnemonic::MOVSD => 1,
        mnemonic::MOVSQ => 1,
        mnemonic::LODSB => 2,
        mnemonic::LODSD => 2,
        mnemonic::LODSQ => 2,
        mnemonic::SCASB => 3,
        mnemonic::SCASW => 3,
        mnemonic::SCASD => 3,
        mnemonic::SCASQ => 3,
        _ => 4,
    }
}

/// The prefixes of a string instruction.
pub open spec fn string_flags(i: Instr) -> u8 {
    ((if i.repeats() {
        1int
    } else {
        0
    }) + (if i.repe {
        2int
    } else {
        0
    }) + (if i.repne {
        4int
    } else {
        0
    })) as u8
}

/// A string instruction, as the helper takes it.
pub open spec fn string_call(i: Instr) -> StringCall {
    StringCall {
        op: string_op(i),
        size: match string_bytes(i) {
            Some(n) => n as u8,
            None => 0,
        },
        flags: string_flags(i),
        ip: i.ip,
        next_ip: i.next_ip,
    }
}

/// A string instruction, as the helper takes it; `None` for any other.
pub fn lower_string(i: &Instr) -> (r: Option<StringCall>)
    ensures
        match r {
            Some(c) => string_bytes(*i) is Some && c == string_call(*i),
            None => string_bytes(*i) is None,
        },
{
    let size: u8 = match string_op_size(i) {
        Some(n) => n as u8,
        None => {
            return None;
        },
    };
    let op: u8 = match i.mnemonic {
        mnemonic::STOSB | mnemonic::STOSW | mnemonic::STOSD | mnemonic::STOSQ => 0,
        mnemonic::MOVSB | mnemonic::MOVSW | mnemonic::MOVSD | mnemonic::MOVSQ => 1,
        mnemonic::LODSB | mnemonic::LODSD | mnemonic::LODSQ => 2,
        mnemonic::SCASB | mnemonic::SCASW | mnemonic::SCASD | mnemonic::SCASQ => 3,
        _ => 4,
    };
    let mut flags: u8 = 0;
    if i.has_any_rep() {
        flags = flags + 1;
    }
    if i.repe {
        flags = flags + 2;
    }
    if i.repne {
        flags = flags + 4;
    }
    Some(StringCall { op, size, flags, ip: i.ip, next_ip: i.next_ip })
}

impl StringCall {
    /// An instruction with the same prefixes at the same address.
    pub open spec fn instr(self) -> Instr {
        let none = Operand { kind: 0, reg: Reg::Absent, imm: 0 };
        Instr {
            ip: self.ip,
            next_ip: self.next_ip,
            len: 0,
            mnemonic: 0,
            code: 0,
            op_count: 0,
            op0: none,
            op1: none,
            op2: none,
            near_branch: 0,
            rep: self.flags % 2 == 1,
            repe: (self.flags / 2) % 2 == 1,
            repne: (self.flags / 4) % 2 == 1,
            base: Reg::Absent,
            index: Reg::Absent,
            scale: 0,
            disp: 0,
            mem_size: 0,
        }
    }

    /// The helper can carry it out.
    pub open spec fn wf(self) -> bool {
        &&& self.op <= 4
        &&& self.size == 1 || self.size == 2 || self.size == 4 || self.size == 8
        &&& self.op == 2 ==> self.size != 2
    }
}

/// What a string instruction does to the machine, whose instruction pointer is
/// that of the next instruction: one element, and the instruction pointer goes
/// back if there is more to do.
pub open spec fn string_effect(s: Machine, c: StringCall) -> Next {
    if c.op == 0 {
        after_stos(s, c.instr(), c.size as int)
    } else if c.op == 1 {
        after_movs(s, c.instr(), c.size as int)
    } else if c.op == 2 {
        after_lods(s, c.instr(), c.size as int)
    } else if c.op == 3 {
        after_scas(s, c.instr(), c.size as int)
    } else {
        after_compare_string(s, c.instr(), c.size as int)
    }
}

/// The helper does what the interpreter does.
pub proof fn string_call_is_string_instruction(s: Machine, i: Instr)
    requires
        string_bytes(i) is Some,
    ensures
        string_call(i).wf(),
        after_vector(s, i) == Some(string_effect(s, string_call(i))),
{
    let c = string_call(i);
    let j = c.instr();
    assert(j.repe == i.repe && j.repne == i.repne && j.ip == i.ip);
    assert(j.repeats() == i.repeats());
}

/// Carries out a string instruction: one element. Returns whether there is more to
/// do. The registers change even where an access fails.
pub fn run_string_op(mem: &mut GuestMemory, regs: &mut RegFile, c: &StringCall) -> (r: Result<
    bool,
    StepExecError,
>)
    requires
        old(mem).wf(),
        c.wf(),
        old(regs)@.rip == c.next_ip,
    ensures
        same_layout(*old(mem), *final(mem)),
        ({
            let want = string_effect(machine(*old(mem), old(regs)@), *c);
            &&& final(mem).bytes() == want.0.mem
            &&& final(regs)@ == want.0.regs
            &&& match want.1 {
                None => r == Ok::<bool, StepExecError>(
                    want.0.regs.rip == c.ip && c.ip != c.next_ip,
                ),
                Some(f) => r matches Err(e) && e.fault() == f,
            }
        }),
{
    let none = Operand { kind: 0, reg: Reg::Absent, imm: 0 };
    let i = Instr {
        ip: c.ip,
        next_ip: c.next_ip,
        len: 0,
        mnemonic: 0,
        code: 0,
        op_count: 0,
        op0: none,
        op1: none,
        op2: none,
        near_branch: 0,
        rep: c.flags % 2 == 1,
        repe: (c.flags / 2) % 2 == 1,
        repne: (c.flags / 4) % 2 == 1,
        base: Reg::Absent,
        index: Reg::Absent,
        scale: 0,
        disp: 0,
        mem_size: 0,
    };
    assert(i == c.instr());
    let size: usize = c.size as usize;
    let done = match c.op {
        0 => exec_stos(mem, regs, &i, size),
        1 => exec_movs(mem, regs, &i, size),
        2 => exec_lods(mem, regs, &i, size),
        3 => exec_scas(mem, regs, &i, size),
        _ => exec_compare_string(mem, regs, &i, size),
    };
    match done {
        Ok(()) => Ok(regs.rip() == c.ip && c.ip != c.next_ip),
        Err(e) => Err(e),
    }
}

} // verus!
