//! Conditions, and the instructions that move the instruction pointer.

use vstd::prelude::*;
use vstd::string::StringExecFns;

use crate::error::CpuError;
use crate::exec::access::{after_pop, after_push, pop_n, popped, push_n};
use crate::exec::model::{
    gives, machine, reaches, same_layout, Fault, Machine, Next, StepExecError,
};
use crate::exec::operand::{operand_value, read_op, read_register, register_value};
use crate::insn::decode::{iced_op_kind_name, op_kind_name};
use crate::insn::instr::Instr;
use crate::insn::{kind, mnemonic};
use crate::mem::guest::GuestMemory;
use crate::regs::{RegFile, Regs, CF, OF, PF, RSP, SF, ZF};

verus! {

/// A condition on the flags.
#[derive(Debug, Clone, Copy, PartialEq, Eq, Structural)]
pub enum Cond {
    /// The zero flag is set.
    Equal,
    /// The zero flag is clear.
    NotEqual,
    /// Unsigned above.
    Above,
    /// Unsigned above or equal.
    AboveEqual,
    /// Unsigned below.
    Below,
    /// Unsigned below or equal.
    BelowEqual,
    /// Signed greater.
    Greater,
    /// Signed greater or equal.
    GreaterEqual,
    /// Signed less.
    Less,
    /// Signed less or equal.
    LessEqual,
    /// The overflow flag is set.
    Overflow,
    /// The overflow flag is clear.
    NoOverflow,
    /// The sign flag is set.
    Sign,
    /// The sign flag is clear.
    NoSign,
    /// The parity flag is set.
    Parity,
    /// The parity flag is clear.
    NoParity,
}

/// Whether a condition holds.
pub open spec fn holds(c: Cond, regs: Regs) -> bool {
    let cf = regs.flag(CF);
    let zf = regs.flag(ZF);
    let sf = regs.flag(SF);
    let of = regs.flag(OF);
    let pf = regs.flag(PF);
    match c {
        Cond::Equal => zf,
        Cond::NotEqual => !zf,
        Cond::Above => !cf && !zf,
        Cond::AboveEqual => !cf,
        Cond::Below => cf,
        Cond::BelowEqual => cf || zf,
        Cond::Greater => !zf && sf == of,
        Cond::GreaterEqual => sf == of,
        Cond::Less => sf != of,
        Cond::LessEqual => zf || sf != of,
        Cond::Overflow => of,
        Cond::NoOverflow => !of,
        Cond::Sign => sf,
        Cond::NoSign => !sf,
        Cond::Parity => pf,
        Cond::NoParity => !pf,
    }
}

/// The condition that holds exactly if the given one does not.
pub open spec fn opposite(c: Cond) -> Cond {
    match c {
        Cond::Equal => Cond::NotEqual,
        Cond::NotEqual => Cond::Equal,
        Cond::Above => Cond::BelowEqual,
        Cond::AboveEqual => Cond::Below,
        Cond::Below => Cond::AboveEqual,
        Cond::BelowEqual => Cond::Above,
        Cond::Greater => Cond::LessEqual,
        Cond::GreaterEqual => Cond::Less,
        Cond::Less => Cond::GreaterEqual,
        Cond::LessEqual => Cond::Greater,
        Cond::Overflow => Cond::NoOverflow,
        Cond::NoOverflow => Cond::Overflow,
        Cond::Sign => Cond::NoSign,
        Cond::NoSign => Cond::Sign,
        Cond::Parity => Cond::NoParity,
        Cond::NoParity => Cond::Parity,
    }
}

/// Of a condition and its opposite exactly one holds.
pub proof fn conditions_come_in_pairs(c: Cond, regs: Regs)
    ensures
        holds(opposite(c), regs) == !holds(c, regs),
        opposite(opposite(c)) == c,
{
}

/// Whether a condition holds.
pub fn condition(c: Cond, regs: &RegFile) -> (r: bool)
    ensures
        r == holds(c, regs@),
{
    match c {
        Cond::Equal => regs.flag(ZF),
        Cond::NotEqual => !regs.flag(ZF),
        Cond::Above => !regs.flag(CF) && !regs.flag(ZF),
        Cond::AboveEqual => !regs.flag(CF),
        Cond::Below => regs.flag(CF),
        Cond::BelowEqual => regs.flag(CF) || regs.flag(ZF),
        Cond::Greater => !regs.flag(ZF) && regs.flag(SF) == regs.flag(OF),
        Cond::GreaterEqual => regs.flag(SF) == regs.flag(OF),
        Cond::Less => regs.flag(SF) != regs.flag(OF),
        Cond::LessEqual => regs.flag(ZF) || regs.flag(SF) != regs.flag(OF),
        Cond::Overflow => regs.flag(OF),
        Cond::NoOverflow => !regs.flag(OF),
        Cond::Sign => regs.flag(SF),
        Cond::NoSign => !regs.flag(SF),
        Cond::Parity => regs.flag(PF),
        Cond::NoParity => !regs.flag(PF),
    }
}

/// The condition of a conditional jump.
pub open spec fn jcc_cond(m: u16) -> Option<Cond> {
    match m {
        mnemonic::JE => Some(Cond::Equal),
        mnemonic::JNE => Some(Cond::NotEqual),
        mnemonic::JA => Some(Cond::Above),
        mnemonic::JAE => Some(Cond::AboveEqual),
        mnemonic::JB => Some(Cond::Below),
        mnemonic::JBE => Some(Cond::BelowEqual),
        mnemonic::JG => Some(Cond::Greater),
        mnemonic::JGE => Some(Cond::GreaterEqual),
        mnemonic::JL => Some(Cond::Less),
        mnemonic::JLE => Some(Cond::LessEqual),
        mnemonic::JO => Some(Cond::Overflow),
        mnemonic::JNO => Some(Cond::NoOverflow),
        mnemonic::JS => Some(Cond::Sign),
        mnemonic::JNS => Some(Cond::NoSign),
        mnemonic::JP => Some(Cond::Parity),
        mnemonic::JNP => Some(Cond::NoParity),
        _ => None,
    }
}

/// The condition of a conditional jump; `None` for any other instruction.
pub fn jcc_condition(m: u16) -> (c: Option<Cond>)
    ensures
        c == jcc_cond(m),
{
    match m {
        mnemonic::JE => Some(Cond::Equal),
        mnemonic::JNE => Some(Cond::NotEqual),
        mnemonic::JA => Some(Cond::Above),
        mnemonic::JAE => Some(Cond::AboveEqual),
        mnemonic::JB => Some(Cond::Below),
        mnemonic::JBE => Some(Cond::BelowEqual),
        mnemonic::JG => Some(Cond::Greater),
        mnemonic::JGE => Some(Cond::GreaterEqual),
        mnemonic::JL => Some(Cond::Less),
        mnemonic::JLE => Some(Cond::LessEqual),
        mnemonic::JO => Some(Cond::Overflow),
        mnemonic::JNO => Some(Cond::NoOverflow),
        mnemonic::JS => Some(Cond::Sign),
        mnemonic::JNS => Some(Cond::NoSign),
        mnemonic::JP => Some(Cond::Parity),
        mnemonic::JNP => Some(Cond::NoParity),
        _ => None,
    }
}

/// Whether the condition of a conditional jump holds; false for any other instruction.
pub fn cond_from_jcc(m: u16, regs: &RegFile) -> (r: bool)
    ensures
        r == match jcc_cond(m) {
            Some(c) => holds(c, regs@),
            None => false,
        },
{
    match jcc_condition(m) {
        Some(c) => condition(c, regs),
        None => false,
    }
}

/// The condition of a conditional move.
pub open spec fn cmov_cond(m: u16) -> Option<Cond> {
    match m {
        mnemonic::CMOVE => Some(Cond::Equal),
        mnemonic::CMOVNE => Some(Cond::NotEqual),
        mnemonic::CMOVA => Some(Cond::Above),
        mnemonic::CMOVAE => Some(Cond::AboveEqual),
        mnemonic::CMOVB => Some(Cond::Below),
        mnemonic::CMOVBE => Some(Cond::BelowEqual),
        mnemonic::CMOVG => Some(Cond::Greater),
        mnemonic::CMOVGE => Some(Cond::GreaterEqual),
        mnemonic::CMOVL => Some(Cond::Less),
        mnemonic::CMOVLE => Some(Cond::LessEqual),
        mnemonic::CMOVO => Some(Cond::Overflow),
        mnemonic::CMOVNO => Some(Cond::NoOverflow),
        mnemonic::CMOVS => Some(Cond::Sign),
        mnemonic::CMOVNS => Some(Cond::NoSign),
        mnemonic::CMOVP => Some(Cond::Parity),
        mnemonic::CMOVNP => Some(Cond::NoParity),
        _ => None,
    }
}

/// The condition of a conditional move; `None` for any other instruction.
pub fn cmov_condition(m: u16) -> (c: Option<Cond>)
    ensures
        c == cmov_cond(m),
{
    match m {
        mnemonic::CMOVE => Some(Cond::Equal),
        mnemonic::CMOVNE => Some(Cond::NotEqual),
        mnemonic::CMOVA => Some(Cond::Above),
        mnemonic::CMOVAE => Some(Cond::AboveEqual),
        mnemonic::CMOVB => Some(Cond::Below),
        mnemonic::CMOVBE => Some(Cond::BelowEqual),
        mnemonic::CMOVG => Some(Cond::Greater),
        mnemonic::CMOVGE => Some(Cond::GreaterEqual),
        mnemonic::CMOVL => Some(Cond::Less),
        mnemonic::CMOVLE => Some(Cond::LessEqual),
        mnemonic::CMOVO => Some(Cond::Overflow),
        mnemonic::CMOVNO => Some(Cond::NoOverflow),
        mnemonic::CMOVS => Some(Cond::Sign),
        mnemonic::CMOVNS => Some(Cond::NoSign),
        mnemonic::CMOVP => Some(Cond::Parity),
        mnemonic::CMOVNP => Some(Cond::NoParity),
        _ => None,
    }
}

/// Whether the condition of a conditional move holds; false for any other instruction.
pub fn cond_from_cmov(m: u16, regs: &RegFile) -> (r: bool)
    ensures
        r == match cmov_cond(m) {
            Some(c) => holds(c, regs@),
            None => false,
        },
{
    match cmov_condition(m) {
        Some(c) => condition(c, regs),
        None => false,
    }
}

/// The condition of a conditional set.
pub open spec fn setcc_cond(m: u16) -> Option<Cond> {
    match m {
        mnemonic::SETE => Some(Cond::Equal),
        mnemonic::SETNE => Some(Cond::NotEqual),
        mnemonic::SETA => Some(Cond::Above),
        mnemonic::SETAE => Some(Cond::AboveEqual),
        mnemonic::SETB => Some(Cond::Below),
        mnemonic::SETBE => Some(Cond::BelowEqual),
        mnemonic::SETG => Some(Cond::Greater),
        mnemonic::SETGE => Some(Cond::GreaterEqual),
        mnemonic::SETL => Some(Cond::Less),
        mnemonic::SETLE => Some(Cond::LessEqual),
        mnemonic::SETO => Some(Cond::Overflow),
        mnemonic::SETNO => Some(Cond::NoOverflow),
        mnemonic::SETS => Some(Cond::Sign),
        mnemonic::SETNS => Some(Cond::NoSign),
        mnemonic::SETP => Some(Cond::Parity),
        mnemonic::SETNP => Some(Cond::NoParity),
        _ => None,
    }
}

/// The condition of a conditional set; `None` for any other instruction.
pub fn setcc_condition(m: u16) -> (c: Option<Cond>)
    ensures
        c == setcc_cond(m),
{
    match m {
        mnemonic::SETE => Some(Cond::Equal),
        mnemonic::SETNE => Some(Cond::NotEqual),
        mnemonic::SETA => Some(Cond::Above),
        mnemonic::SETAE => Some(Cond::AboveEqual),
        mnemonic::SETB => Some(Cond::Below),
        mnemonic::SETBE => Some(Cond::BelowEqual),
        mnemonic::SETG => Some(Cond::Greater),
        mnemonic::SETGE => Some(Cond::GreaterEqual),
        mnemonic::SETL => Some(Cond::Less),
        mnemonic::SETLE => Some(Cond::LessEqual),
        mnemonic::SETO => Some(Cond::Overflow),
        mnemonic::SETNO => Some(Cond::NoOverflow),
        mnemonic::SETS => Some(Cond::Sign),
        mnemonic::SETNS => Some(Cond::NoSign),
        mnemonic::SETP => Some(Cond::Parity),
        mnemonic::SETNP => Some(Cond::NoParity),
        _ => None,
    }
}

/// Whether the condition of a conditional set holds; false for any other instruction.
pub fn cond_from_setcc(m: u16, regs: &RegFile) -> (r: bool)
    ensures
        r == match setcc_cond(m) {
            Some(c) => holds(c, regs@),
            None => false,
        },
{
    match setcc_condition(m) {
        Some(c) => condition(c, regs),
        None => false,
    }
}

/// The target of a jump or call.
pub open spec fn target_of(s: Machine, i: Instr) -> Result<u64, Fault> {
    if kind::near_branch(i.op0.kind) {
        Ok(i.near_branch)
    } else if i.op0.kind == kind::REGISTER {
        register_value(s.regs, i.op0.reg)
    } else if i.op0.kind == kind::MEMORY {
        operand_value(s, i, 0)
    } else {
        Err(Fault::Cpu("unsupported branch op kind "@ + iced_op_kind_name(i.op0.kind)))
    }
}

/// The target of a jump or call.
fn branch_target(mem: &GuestMemory, regs: &RegFile, i: &Instr) -> (r: Result<u64, StepExecError>)
    requires
        mem.wf(),
        i.wf(),
    ensures
        gives(target_of(machine(*mem, regs@), *i), r),
{
    match i.op0.kind {
        kind::NEAR_BRANCH16 | kind::NEAR_BRANCH32 | kind::NEAR_BRANCH64 => Ok(i.near_branch),
        kind::REGISTER => read_register(regs, i.op0.reg),
        kind::MEMORY => read_op(mem, regs, i, 0),
        other => {
            let name = op_kind_name(other);
            let mut m = "unsupported branch op kind ".to_owned();
            m.append(name.as_str());
            Err(StepExecError::Cpu(CpuError::Message(m)))
        },
    }
}

/// `jmp`.
pub open spec fn after_jmp(s: Machine, i: Instr) -> Next {
    match target_of(s, i) {
        Err(f) => s.failed(f),
        Ok(t) => s.with_regs(s.regs.at(t)).done(),
    }
}

/// `jmp`.
pub fn exec_jmp(mem: &GuestMemory, regs: &mut RegFile, i: &Instr) -> (r: Result<(), StepExecError>)
    requires
        mem.wf(),
        i.wf(),
    ensures
        reaches(after_jmp(machine(*mem, old(regs)@), *i), *mem, final(regs)@, r),
{
    match branch_target(mem, regs, i) {
        Ok(t) => {
            regs.set_rip(t);
            Ok(())
        },
        Err(e) => Err(e),
    }
}

/// A conditional jump.
pub open spec fn after_jcc(s: Machine, i: Instr, taken: bool) -> Next {
    if taken {
        s.with_regs(s.regs.at(i.near_branch)).done()
    } else {
        s.done()
    }
}

/// A conditional jump.
pub fn exec_jcc(regs: &mut RegFile, i: &Instr, taken: bool)
    ensures
        final(regs)@ == if taken {
            old(regs)@.at(i.near_branch)
        } else {
            old(regs)@
        },
{
    if taken {
        regs.set_rip(i.near_branch);
    }
}

/// `call`: the target is read with the stack pointer as it was before the return
/// address is pushed.
pub open spec fn after_call(s: Machine, i: Instr, return_ip: u64) -> Next {
    match target_of(s, i) {
        Err(f) => s.failed(f),
        Ok(t) => match after_push(s, return_ip, 8) {
            (u, Some(f)) => u.failed(f),
            (u, None) => u.with_regs(u.regs.at(t)).done(),
        },
    }
}

/// `call`.
pub fn exec_call(mem: &mut GuestMemory, regs: &mut RegFile, i: &Instr, return_ip: u64) -> (r:
    Result<(), StepExecError>)
    requires
        old(mem).wf(),
        i.wf(),
    ensures
        same_layout(*old(mem), *final(mem)),
        reaches(
            after_call(machine(*old(mem), old(regs)@), *i, return_ip),
            *final(mem),
            final(regs)@,
            r,
        ),
{
    let target: u64 = match branch_target(mem, regs, i) {
        Ok(t) => t,
        Err(e) => {
            return Err(e);
        },
    };
    match push_n(mem, regs, return_ip, 8) {
        Ok(()) => {
            regs.set_rip(target);
            Ok(())
        },
        Err(e) => Err(e),
    }
}

/// `ret`: pops the return address, then drops as many bytes of the stack as the
/// operand says.
pub open spec fn after_ret(s: Machine, i: Instr) -> Next {
    match popped(s, 8) {
        Err(f) => s.failed(f),
        Ok(t) => {
            let regs = after_pop(s, 8).regs;
            let dropped = if i.op_count >= 1 && i.op0.kind == kind::IMMEDIATE16 {
                regs.set(RSP as int, regs.gpr[RSP as int].wrapping_add(i.op0.imm))
            } else {
                regs
            };
            s.with_regs(dropped.at(t)).done()
        },
    }
}

/// `ret`.
pub fn exec_ret(mem: &GuestMemory, regs: &mut RegFile, i: &Instr) -> (r: Result<(), StepExecError>)
    requires
        mem.wf(),
        i.wf(),
    ensures
        reaches(after_ret(machine(*mem, old(regs)@), *i), *mem, final(regs)@, r),
{
    let target: u64 = match pop_n(mem, regs, 8) {
        Ok(v) => v,
        Err(e) => {
            return Err(e);
        },
    };
    if i.op_count >= 1 && i.op0.kind == kind::IMMEDIATE16 {
        let rsp: u64 = regs.gpr(RSP).wrapping_add(i.op0.imm);
        regs.set_gpr(RSP, rsp);
    }
    regs.set_rip(target);
    Ok(())
}

/// A return after a call comes back to the instruction behind the call, with the
/// stack pointer where it was.
pub proof fn return_after_call(s: Machine, call: Instr, return_ip: u64, ret: Instr)
    requires
        s.regs.gpr.len() == 16,
        after_call(s, call, return_ip).1 is None,
        ret.op_count == 0,
    ensures
        ({
            let t = after_call(s, call, return_ip).0;
            let u = after_ret(t, ret);
            &&& u.1 is None
            &&& u.0.regs.rip == return_ip
            &&& u.0.regs.gpr == s.regs.gpr
            &&& u.0.mem == t.mem
        }),
{
    crate::exec::access::pop_after_push(s, return_ip, 8);
    crate::endian::lemma_pow256();
    let t = after_call(s, call, return_ip).0;
    let p = after_push(s, return_ip, 8).0;
    assert(t.mem == p.mem);
    assert(t.regs.gpr == p.regs.gpr);
    assert(popped(t, 8) == popped(p, 8));
    assert(after_pop(t, 8).regs.gpr =~= s.regs.gpr);
}

} // verus!
