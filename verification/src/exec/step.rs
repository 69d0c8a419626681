//! One instruction: fetch, decode, execute.

use vstd::prelude::*;
use vstd::string::StringExecFns;

use crate::error::CpuError;
use crate::exec::access::{after_pop, after_push, pop_n, popped, push_n};
use crate::exec::alu::{
    after_arith, after_lea, after_mov, after_movx, after_pop_op, after_push_op, exec_arith,
    exec_lea, exec_mov, exec_movzx, exec_pop, exec_push, lemma_trunc_narrow, sign_extend,
    sign_extended, ArithOp,
};
use crate::exec::branch::{
    after_call, after_jcc, after_jmp, after_ret, cmov_cond, cond_from_cmov, cond_from_jcc,
    cond_from_setcc, exec_call, exec_jcc, exec_jmp, exec_ret, holds, jcc_cond, setcc_cond,
};
use crate::exec::hook::{stopped, HookWindow};
use crate::exec::logic::{
    after_bit, after_bswap, after_cmov, after_compare_exchange, after_inc_dec, after_neg,
    after_not, after_setcc, after_test, after_xchg, exec_bit, exec_bswap, exec_cmov,
    exec_compare_exchange, exec_inc_dec, exec_neg, exec_not, exec_setcc, exec_test, exec_xchg,
    BitOp,
};
use crate::exec::model::{
    machine, reaches, same_layout, Fault, InvalidMem, Machine, Next, StepExecError, ACCESS_FETCH,
};
use crate::exec::muldiv::{
    after_div, after_imul, after_mul, exec_div, exec_imul, exec_mul,
};
use crate::exec::shift::{after_shift, exec_shift, ShiftKind};
use crate::exec::sse::{
    after_sse_mov, after_sse_movd, after_sse_movq, after_sse_xor, exec_sse_mov, exec_sse_movd,
    exec_sse_movq, exec_sse_xor, is_sse_movsd, vector_movsd,
};
use crate::exec::string::{
    after_compare_string, after_lods, after_movs, after_scas, after_stos, exec_compare_string,
    exec_lods, exec_movs, exec_scas, exec_stos,
};
use crate::insn::decode::{decode, decoded, iced_mnemonic_name, mnemonic_name};
use crate::insn::instr::Instr;
use crate::insn::mnemonic;
use crate::mem::backend::MAX_FETCH;
use crate::mem::guest::{fetched, GuestMemory};
use crate::regs::{
    sign_set, signed, trunc, truncate, Reg, RegFile, ALWAYS1, CF, DF, RAX, RBP, RBX, RCX, RDX, RSP,
};
use crate::text;

verus! {

/// The instructions that only convert, set flags or stand for hardware that a
/// user program does not see. `tsc` is the time stamp.
pub open spec fn after_simple(s: Machine, i: Instr, tsc: u64) -> Next {
    let rax = s.regs.gpr[RAX as int] as int;
    let after = match i.mnemonic {
        mnemonic::CDQE => s.regs.set(RAX as int, sign_extended(rax, 4)),
        mnemonic::CWDE => s.regs.set_reg(Reg::Dword(0), trunc(signed(rax, 2), 4) as u64)->0,
        mnemonic::CBW => s.regs.set_reg(Reg::Word(0), trunc(signed(rax, 1), 2) as u64)->0,
        mnemonic::CDQ => s.regs.set(
            RDX as int,
            if signed(rax, 4) < 0 {
                0xffff_ffff
            } else {
                0
            },
        ),
        mnemonic::CWD => s.regs.set_reg(
            Reg::Word(2),
            if signed(rax, 2) < 0 {
                0xffff
            } else {
                0
            },
        )->0,
        mnemonic::CQO => s.regs.set(
            RDX as int,
            if signed(rax, 8) < 0 {
                u64::MAX
            } else {
                0
            },
        ),
        mnemonic::CLD => s.regs.flag_set(DF, false),
        mnemonic::STD => s.regs.flag_set(DF, true),
        mnemonic::CLC => s.regs.flag_set(CF, false),
        mnemonic::STC => s.regs.flag_set(CF, true),
        mnemonic::CMC => s.regs.flag_set(CF, !s.regs.flag(CF)),
        mnemonic::CPUID => s.regs.set(RAX as int, 0).set(RBX as int, 0).set(RCX as int, 0).set(
            RDX as int,
            0,
        ),
        mnemonic::RDTSC => s.regs.set(RAX as int, (tsc % 0x1_0000_0000) as u64).set(
            RDX as int,
            (tsc / 0x1_0000_0000) as u64,
        ),
        mnemonic::IN => s.regs.set(RAX as int, 0),
        mnemonic::INSB => if i.rep {
            s.regs.set(RCX as int, 0)
        } else {
            s.regs
        },
        mnemonic::INSW => if i.rep {
            s.regs.set(RCX as int, 0)
        } else {
            s.regs
        },
        mnemonic::INSD => if i.rep {
            s.regs.set(RCX as int, 0)
        } else {
            s.regs
        },
        _ => s.regs,
    };
    s.with_regs(after).done()
}

/// Whether an instruction is one of [`after_simple`].
pub open spec fn is_simple(m: u16) -> bool {
    match m {
        mnemonic::NOP => true,
        mnemonic::FNCLEX => true,
        mnemonic::FNINIT => true,
        mnemonic::FINIT => true,
        mnemonic::ENDBR64 => true,
        mnemonic::ENDBR32 => true,
        mnemonic::OUT => true,
        mnemonic::OUTSB => true,
        mnemonic::OUTSW => true,
        mnemonic::OUTSD => true,
        mnemonic::CDQE => true,
        mnemonic::CWDE => true,
        mnemonic::CBW => true,
        mnemonic::CDQ => true,
        mnemonic::CWD => true,
        mnemonic::CQO => true,
        mnemonic::CLD => true,
        mnemonic::STD => true,
        mnemonic::CLC => true,
        mnemonic::STC => true,
        mnemonic::CMC => true,
        mnemonic::CPUID => true,
        mnemonic::RDTSC => true,
        mnemonic::IN => true,
        mnemonic::INSB => true,
        mnemonic::INSW => true,
        mnemonic::INSD => true,
        _ => false,
    }
}

/// `popfq`: the reserved bit stays set.
pub open spec fn after_popfq(s: Machine) -> Next {
    match popped(s, 8) {
        Err(f) => s.failed(f),
        Ok(v) => s.with_regs(after_pop(s, 8).regs.flags(v | ALWAYS1)).done(),
    }
}

/// `leave`: the stack pointer takes the value of the frame pointer, which is then
/// popped.
pub open spec fn after_leave(s: Machine) -> Next {
    let t = s.with_regs(s.regs.set(RSP as int, s.regs.gpr[RBP as int]));
    match popped(t, 8) {
        Err(f) => t.failed(f),
        Ok(v) => t.with_regs(after_pop(t, 8).regs.set(RBP as int, v)).done(),
    }
}

/// The string and vector instructions.
pub open spec fn after_vector(s: Machine, i: Instr) -> Option<Next> {
    match i.mnemonic {
        mnemonic::STOSB => Some(after_stos(s, i, 1)),
        mnemonic::STOSW => Some(after_stos(s, i, 2)),
        mnemonic::STOSD => Some(after_stos(s, i, 4)),
        mnemonic::STOSQ => Some(after_stos(s, i, 8)),
        mnemonic::MOVSB => Some(after_movs(s, i, 1)),
        mnemonic::MOVSW => Some(after_movs(s, i, 2)),
        mnemonic::MOVSD => if vector_movsd(i) {
            Some(after_sse_mov(s, i, 8, true))
        } else {
            Some(after_movs(s, i, 4))
        },
        mnemonic::MOVSQ => Some(after_movs(s, i, 8)),
        mnemonic::LODSB => Some(after_lods(s, i, 1)),
        mnemonic::LODSD => Some(after_lods(s, i, 4)),
        mnemonic::LODSQ => Some(after_lods(s, i, 8)),
        mnemonic::SCASB => Some(after_scas(s, i, 1)),
        mnemonic::SCASW => Some(after_scas(s, i, 2)),
        mnemonic::SCASD => Some(after_scas(s, i, 4)),
        mnemonic::SCASQ => Some(after_scas(s, i, 8)),
        mnemonic::CMPSB => Some(after_compare_string(s, i, 1)),
        mnemonic::CMPSW => Some(after_compare_string(s, i, 2)),
        mnemonic::CMPSD => Some(after_compare_string(s, i, 4)),
        mnemonic::CMPSQ => Some(after_compare_string(s, i, 8)),
        mnemonic::MOVSS => Some(after_sse_mov(s, i, 4, true)),
        mnemonic::MOVAPS => Some(after_sse_mov(s, i, 16, false)),
        mnemonic::MOVUPS => Some(after_sse_mov(s, i, 16, false)),
        mnemonic::MOVDQA => Some(after_sse_mov(s, i, 16, false)),
        mnemonic::MOVDQU => Some(after_sse_mov(s, i, 16, false)),
        mnemonic::MOVQ => Some(after_sse_movq(s, i)),
        mnemonic::XORPS => Some(after_sse_xor(s, i)),
        mnemonic::XORPD => Some(after_sse_xor(s, i)),
        mnemonic::PXOR => Some(after_sse_xor(s, i)),
        mnemonic::MOVD => Some(after_sse_movd(s, i)),
        _ => None,
    }
}

/// The integer and stack instructions, with the address of the next instruction.
pub open spec fn after_integer(s: Machine, i: Instr, next_ip: u64) -> Option<Next> {
    match i.mnemonic {
        mnemonic::MOV => Some(after_mov(s, i)),
        mnemonic::MOVZX => Some(after_movx(s, i, false)),
        mnemonic::MOVSX => Some(after_movx(s, i, true)),
        mnemonic::MOVSXD => Some(after_movx(s, i, true)),
        mnemonic::LEA => Some(after_lea(s, i)),
        mnemonic::PUSH => Some(after_push_op(s, i)),
        mnemonic::POP => Some(after_pop_op(s, i)),
        mnemonic::ADD => Some(after_arith(s, i, ArithOp::Add)),
        mnemonic::ADC => Some(after_arith(s, i, ArithOp::Adc)),
        mnemonic::SUB => Some(after_arith(s, i, ArithOp::Sub)),
        mnemonic::SBB => Some(after_arith(s, i, ArithOp::Sbb)),
        mnemonic::XOR => Some(after_arith(s, i, ArithOp::Xor)),
        mnemonic::OR => Some(after_arith(s, i, ArithOp::Or)),
        mnemonic::AND => Some(after_arith(s, i, ArithOp::And)),
        mnemonic::CMP => Some(after_arith(s, i, ArithOp::Compare)),
        mnemonic::TEST => Some(after_test(s, i)),
        mnemonic::INC => Some(after_inc_dec(s, i, true)),
        mnemonic::DEC => Some(after_inc_dec(s, i, false)),
        mnemonic::NEG => Some(after_neg(s, i)),
        mnemonic::NOT => Some(after_not(s, i)),
        mnemonic::IMUL => Some(after_imul(s, i)),
        mnemonic::MUL => Some(after_mul(s, i)),
        mnemonic::DIV => Some(after_div(s, i, false)),
        mnemonic::IDIV => Some(after_div(s, i, true)),
        mnemonic::SHL => Some(after_shift(s, i, ShiftKind::Shl)),
        mnemonic::SAL => Some(after_shift(s, i, ShiftKind::Shl)),
        mnemonic::SHR => Some(after_shift(s, i, ShiftKind::Shr)),
        mnemonic::SAR => Some(after_shift(s, i, ShiftKind::Sar)),
        mnemonic::ROL => Some(after_shift(s, i, ShiftKind::Rol)),
        mnemonic::ROR => Some(after_shift(s, i, ShiftKind::Ror)),
        mnemonic::JMP => Some(after_jmp(s, i)),
        mnemonic::CALL => Some(after_call(s, i, next_ip)),
        mnemonic::RET => Some(after_ret(s, i)),
        mnemonic::XCHG => Some(after_xchg(s, i)),
        mnemonic::CMPXCHG => Some(after_compare_exchange(s, i)),
        mnemonic::BSWAP => Some(after_bswap(s, i)),
        mnemonic::BT => Some(after_bit(s, i, BitOp::Bt)),
        mnemonic::BTS => Some(after_bit(s, i, BitOp::Bts)),
        mnemonic::BTR => Some(after_bit(s, i, BitOp::Btr)),
        mnemonic::BTC => Some(after_bit(s, i, BitOp::Btc)),
        mnemonic::PUSHFQ => Some(after_push(s, s.regs.rflags, 8)),
        mnemonic::POPFQ => Some(after_popfq(s)),
        mnemonic::LEAVE => Some(after_leave(s)),
        _ => None,
    }
}

/// What the instruction `i` does to the machine `s`, with the address of the next
/// instruction and the time stamp that `rdtsc` reads. The instruction pointer
/// moves to the next instruction first; branches then move it elsewhere.
pub open spec fn executed(s: Machine, i: Instr, next_ip: u64, tsc: u64) -> Next {
    let t = s.with_regs(s.regs.at(next_ip));
    if is_simple(i.mnemonic) {
        after_simple(t, i, tsc)
    } else if jcc_cond(i.mnemonic) is Some {
        after_jcc(t, i, holds(jcc_cond(i.mnemonic)->0, t.regs))
    } else if cmov_cond(i.mnemonic) is Some {
        after_cmov(t, i, holds(cmov_cond(i.mnemonic)->0, t.regs))
    } else if setcc_cond(i.mnemonic) is Some {
        after_setcc(t, i, holds(setcc_cond(i.mnemonic)->0, t.regs))
    } else if after_integer(t, i, next_ip) is Some {
        after_integer(t, i, next_ip)->0
    } else if after_vector(t, i) is Some {
        after_vector(t, i)->0
    } else {
        t.failed(
            Fault::Cpu(
                "unimplemented mnemonic "@ + iced_mnemonic_name(i.mnemonic) + " at "@ + text::hex(
                    i.ip as nat,
                ),
            ),
        )
    }
}

/// Executes an instruction of [`after_simple`].
fn execute_simple(regs: &mut RegFile, i: &Instr, tsc: u64, Ghost(s): Ghost<Machine>)
    requires
        is_simple(i.mnemonic),
        s.regs == old(regs)@,
    ensures
        after_simple(s, *i, tsc) == s.with_regs(final(regs)@).done(),
{
    let rax: u64 = regs.gpr(RAX);
    match i.mnemonic {
        mnemonic::CDQE => {
            regs.set_gpr(RAX, sign_extend(rax, 4));
        },
        mnemonic::CWDE => {
            proof {
                lemma_trunc_narrow(signed(rax as int, 2), 4);
            }
            let _ = regs.write_reg(Reg::Dword(0), truncate(sign_extend(rax, 2), 4));
        },
        mnemonic::CBW => {
            proof {
                lemma_trunc_narrow(signed(rax as int, 1), 2);
            }
            let _ = regs.write_reg(Reg::Word(0), truncate(sign_extend(rax, 1), 2));
        },
        mnemonic::CDQ => {
            let fill: u64 = if sign_set(rax, 4) {
                0xffff_ffff
            } else {
                0
            };
            regs.set_gpr(RDX, fill);
        },
        mnemonic::CWD => {
            let fill: u64 = if sign_set(rax, 2) {
                0xffff
            } else {
                0
            };
            let _ = regs.write_reg(Reg::Word(2), fill);
        },
        mnemonic::CQO => {
            let fill: u64 = if sign_set(rax, 8) {
                0xffff_ffff_ffff_ffff
            } else {
                0
            };
            regs.set_gpr(RDX, fill);
        },
        mnemonic::CLD => {
            regs.set_flag(DF, false);
        },
        mnemonic::STD => {
            regs.set_flag(DF, true);
        },
        mnemonic::CLC => {
            regs.set_flag(CF, false);
        },
        mnemonic::STC => {
            regs.set_flag(CF, true);
        },
        mnemonic::CMC => {
            let carry: bool = regs.flag(CF);
            regs.set_flag(CF, !carry);
        },
        mnemonic::CPUID => {
            regs.set_gpr(RAX, 0);
            regs.set_gpr(RBX, 0);
            regs.set_gpr(RCX, 0);
            regs.set_gpr(RDX, 0);
        },
        mnemonic::RDTSC => {
            regs.set_gpr(RAX, tsc % 0x1_0000_0000);
            regs.set_gpr(RDX, tsc / 0x1_0000_0000);
        },
        mnemonic::IN => {
            regs.set_gpr(RAX, 0);
        },
        mnemonic::INSB | mnemonic::INSW | mnemonic::INSD => {
            if i.rep {
                regs.set_gpr(RCX, 0);
            }
        },
        _ => {},
    }
}

/// Whether an instruction is one of [`after_simple`].
fn simple(m: u16) -> (r: bool)
    ensures
        r == is_simple(m),
{
    matches!(
        m,
        mnemonic::NOP | mnemonic::FNCLEX | mnemonic::FNINIT | mnemonic::FINIT | mnemonic::ENDBR64
            | mnemonic::ENDBR32 | mnemonic::OUT | mnemonic::OUTSB | mnemonic::OUTSW
            | mnemonic::OUTSD | mnemonic::CDQE | mnemonic::CWDE | mnemonic::CBW | mnemonic::CDQ
            | mnemonic::CWD | mnemonic::CQO | mnemonic::CLD | mnemonic::STD | mnemonic::CLC
            | mnemonic::STC | mnemonic::CMC | mnemonic::CPUID | mnemonic::RDTSC | mnemonic::IN
            | mnemonic::INSB | mnemonic::INSW | mnemonic::INSD
    )
}

/// Executes a string or vector instruction; `None` if it is neither.
fn execute_vector(mem: &mut GuestMemory, regs: &mut RegFile, i: &Instr) -> (r: Option<
    Result<(), StepExecError>,
>)
    requires
        old(mem).wf(),
        i.wf(),
    ensures
        same_layout(*old(mem), *final(mem)),
        match after_vector(machine(*old(mem), old(regs)@), *i) {
            Some(want) => r matches Some(got) && reaches(want, *final(mem), final(regs)@, got),
            None => r is None && final(mem).bytes() == old(mem).bytes() && final(regs)@ == old(regs)@,
        },
{
    match i.mnemonic {
        mnemonic::STOSB => Some(exec_stos(mem, regs, i, 1)),
        mnemonic::STOSW => Some(exec_stos(mem, regs, i, 2)),
        mnemonic::STOSD => Some(exec_stos(mem, regs, i, 4)),
        mnemonic::STOSQ => Some(exec_stos(mem, regs, i, 8)),
        mnemonic::MOVSB => Some(exec_movs(mem, regs, i, 1)),
        mnemonic::MOVSW => Some(exec_movs(mem, regs, i, 2)),
        mnemonic::MOVSD => {
            if is_sse_movsd(i) {
                Some(exec_sse_mov(mem, regs, i, 8, true))
            } else {
                Some(exec_movs(mem, regs, i, 4))
            }
        },
        mnemonic::MOVSQ => Some(exec_movs(mem, regs, i, 8)),
        mnemonic::LODSB => Some(exec_lods(mem, regs, i, 1)),
        mnemonic::LODSD => Some(exec_lods(mem, regs, i, 4)),
        mnemonic::LODSQ => Some(exec_lods(mem, regs, i, 8)),
        mnemonic::SCASB => Some(exec_scas(mem, regs, i, 1)),
        mnemonic::SCASW => Some(exec_scas(mem, regs, i, 2)),
        mnemonic::SCASD => Some(exec_scas(mem, regs, i, 4)),
        mnemonic::SCASQ => Some(exec_scas(mem, regs, i, 8)),
        mnemonic::CMPSB => Some(exec_compare_string(mem, regs, i, 1)),
        mnemonic::CMPSW => Some(exec_compare_string(mem, regs, i, 2)),
        mnemonic::CMPSD => Some(exec_compare_string(mem, regs, i, 4)),
        mnemonic::CMPSQ => Some(exec_compare_string(mem, regs, i, 8)),
        mnemonic::MOVSS => Some(exec_sse_mov(mem, regs, i, 4, true)),
        mnemonic::MOVAPS | mnemonic::MOVUPS | mnemonic::MOVDQA | mnemonic::MOVDQU => Some(
            exec_sse_mov(mem, regs, i, 16, false),
        ),
        mnemonic::MOVQ => Some(exec_sse_movq(mem, regs, i)),
        mnemonic::XORPS | mnemonic::XORPD | mnemonic::PXOR => Some(exec_sse_xor(mem, regs, i)),
        mnemonic::MOVD => Some(exec_sse_movd(mem, regs, i)),
        _ => None,
    }
}

/// `popfq`.
fn exec_popfq(mem: &GuestMemory, regs: &mut RegFile) -> (r: Result<(), StepExecError>)
    requires
        mem.wf(),
    ensures
        reaches(after_popfq(machine(*mem, old(regs)@)), *mem, final(regs)@, r),
{
    match pop_n(mem, regs, 8) {
        Ok(v) => {
            regs.set_rflags(v | ALWAYS1);
            Ok(())
        },
        Err(e) => Err(e),
    }
}

/// `leave`.
fn exec_leave(mem: &GuestMemory, regs: &mut RegFile) -> (r: Result<(), StepExecError>)
    requires
        mem.wf(),
    ensures
        reaches(after_leave(machine(*mem, old(regs)@)), *mem, final(regs)@, r),
{
    let rbp: u64 = regs.gpr(RBP);
    regs.set_gpr(RSP, rbp);
    match pop_n(mem, regs, 8) {
        Ok(v) => {
            regs.set_gpr(RBP, v);
            Ok(())
        },
        Err(e) => Err(e),
    }
}

/// Executes an integer or stack instruction; `None` if it is neither.
fn execute_integer(mem: &mut GuestMemory, regs: &mut RegFile, i: &Instr, next_ip: u64) -> (r:
    Option<Result<(), StepExecError>>)
    requires
        old(mem).wf(),
        i.wf(),
    ensures
        same_layout(*old(mem), *final(mem)),
        match after_integer(machine(*old(mem), old(regs)@), *i, next_ip) {
            Some(want) => r matches Some(got) && reaches(want, *final(mem), final(regs)@, got),
            None => r is None && final(mem).bytes() == old(mem).bytes() && final(regs)@ == old(regs)@,
        },
{
    match i.mnemonic {
        mnemonic::MOV => Some(exec_mov(mem, regs, i)),
        mnemonic::MOVZX => Some(exec_movzx(mem, regs, i, false)),
        mnemonic::MOVSX | mnemonic::MOVSXD => Some(exec_movzx(mem, regs, i, true)),
        mnemonic::LEA => Some(exec_lea(mem, regs, i)),
        mnemonic::PUSH => Some(exec_push(mem, regs, i)),
        mnemonic::POP => Some(exec_pop(mem, regs, i)),
        mnemonic::ADD => Some(exec_arith(mem, regs, i, ArithOp::Add)),
        mnemonic::ADC => Some(exec_arith(mem, regs, i, ArithOp::Adc)),
        mnemonic::SUB => Some(exec_arith(mem, regs, i, ArithOp::Sub)),
        mnemonic::SBB => Some(exec_arith(mem, regs, i, ArithOp::Sbb)),
        mnemonic::XOR => Some(exec_arith(mem, regs, i, ArithOp::Xor)),
        mnemonic::OR => Some(exec_arith(mem, regs, i, ArithOp::Or)),
        mnemonic::AND => Some(exec_arith(mem, regs, i, ArithOp::And)),
        mnemonic::CMP => Some(exec_arith(mem, regs, i, ArithOp::Compare)),
        mnemonic::TEST => Some(exec_test(mem, regs, i)),
        mnemonic::INC => Some(exec_inc_dec(mem, regs, i, true)),
        mnemonic::DEC => Some(exec_inc_dec(mem, regs, i, false)),
        mnemonic::NEG => Some(exec_neg(mem, regs, i)),
        mnemonic::NOT => Some(exec_not(mem, regs, i)),
        mnemonic::IMUL => Some(exec_imul(mem, regs, i)),
        mnemonic::MUL => Some(exec_mul(mem, regs, i)),
        mnemonic::DIV => Some(exec_div(mem, regs, i, false)),
        mnemonic::IDIV => Some(exec_div(mem, regs, i, true)),
        mnemonic::SHL | mnemonic::SAL => Some(exec_shift(mem, regs, i, ShiftKind::Shl)),
        mnemonic::SHR => Some(exec_shift(mem, regs, i, ShiftKind::Shr)),
        mnemonic::SAR => Some(exec_shift(mem, regs, i, ShiftKind::Sar)),
        mnemonic::ROL => Some(exec_shift(mem, regs, i, ShiftKind::Rol)),
        mnemonic::ROR => Some(exec_shift(mem, regs, i, ShiftKind::Ror)),
        mnemonic::JMP => Some(exec_jmp(mem, regs, i)),
        mnemonic::CALL => Some(exec_call(mem, regs, i, next_ip)),
        mnemonic::RET => Some(exec_ret(mem, regs, i)),
        mnemonic::XCHG => Some(exec_xchg(mem, regs, i)),
        mnemonic::CMPXCHG => Some(exec_compare_exchange(mem, regs, i)),
        mnemonic::BSWAP => Some(exec_bswap(mem, regs, i)),
        mnemonic::BT => Some(exec_bit(mem, regs, i, BitOp::Bt)),
        mnemonic::BTS => Some(exec_bit(mem, regs, i, BitOp::Bts)),
        mnemonic::BTR => Some(exec_bit(mem, regs, i, BitOp::Btr)),
        mnemonic::BTC => Some(exec_bit(mem, regs, i, BitOp::Btc)),
        mnemonic::PUSHFQ => {
            let rflags: u64 = regs.rflags();
            Some(push_n(mem, regs, rflags, 8))
        },
        mnemonic::POPFQ => Some(exec_popfq(mem, regs)),
        mnemonic::LEAVE => Some(exec_leave(mem, regs)),
        _ => None,
    }
}

/// Executes one instruction. `tsc` is the time stamp for `rdtsc`.
pub fn execute_one(
    mem: &mut GuestMemory,
    regs: &mut RegFile,
    i: &Instr,
    next_ip: u64,
    tsc: u64,
) -> (r: Result<(), StepExecError>)
    requires
        old(mem).wf(),
        i.wf(),
    ensures
        same_layout(*old(mem), *final(mem)),
        reaches(
            executed(machine(*old(mem), old(regs)@), *i, next_ip, tsc),
            *final(mem),
            final(regs)@,
            r,
        ),
{
    regs.set_rip(next_ip);
    let ghost s = machine(*mem, regs@);
    if simple(i.mnemonic) {
        execute_simple(regs, i, tsc, Ghost(s));
        return Ok(());
    }
    if crate::exec::branch::jcc_condition(i.mnemonic).is_some() {
        let taken: bool = cond_from_jcc(i.mnemonic, regs);
        exec_jcc(regs, i, taken);
        return Ok(());
    }
    if crate::exec::branch::cmov_condition(i.mnemonic).is_some() {
        let taken: bool = cond_from_cmov(i.mnemonic, regs);
        return exec_cmov(mem, regs, i, taken);
    }
    if crate::exec::branch::setcc_condition(i.mnemonic).is_some() {
        let taken: bool = cond_from_setcc(i.mnemonic, regs);
        return exec_setcc(mem, regs, i, taken);
    }
    match execute_integer(mem, regs, i, next_ip) {
        Some(r) => {
            return r;
        },
        None => {},
    }
    match execute_vector(mem, regs, i) {
        Some(r) => {
            return r;
        },
        None => {},
    }
    let name = mnemonic_name(i.mnemonic);
    let mut m = "unimplemented mnemonic ".to_owned();
    m.append(name.as_str());
    m.append(" at ");
    text::push_hex(&mut m, i.ip);
    Err(StepExecError::Cpu(CpuError::Message(m)))
}

/// What a step came to.
#[derive(Debug, Clone, Copy)]
pub enum StepResult {
    /// The instruction completed.
    Continue,
    /// The host takes over at this address; nothing was executed.
    HostStop {
        /// Where.
        address: u64,
        /// Length of the instruction there, or one.
        size: u32,
    },
    /// The instruction touched unmapped memory.
    InvalidMemory(InvalidMem),
}

/// What a step came to, as a mathematical value.
pub enum Stepped {
    /// The instruction completed.
    Continue,
    /// The host takes over.
    HostStop(u64, u32),
    /// The instruction touched unmapped memory.
    Invalid(InvalidMem),
    /// The instruction cannot be executed, for the reason given.
    Failed(Seq<char>),
}

/// The outcome of a step as a mathematical value.
pub open spec fn stepped(r: Result<StepResult, CpuError>) -> Stepped {
    match r {
        Ok(StepResult::Continue) => Stepped::Continue,
        Ok(StepResult::HostStop { address, size }) => Stepped::HostStop(address, size),
        Ok(StepResult::InvalidMemory(inv)) => Stepped::Invalid(inv),
        Err(e) => Stepped::Failed(e.text()),
    }
}

/// The instruction at `rip`, if its bytes are mapped and hold one.
pub open spec fn instruction_at(s: Machine, rip: u64) -> Option<Instr> {
    match fetched(s.mem, rip, MAX_FETCH as nat) {
        None => None,
        Some(bytes) => decoded(bytes, rip),
    }
}

/// The length of the instruction at `rip`, or one if there is none.
pub open spec fn length_at(s: Machine, rip: u64) -> u32 {
    match instruction_at(s, rip) {
        Some(i) => if i.len <= u32::MAX {
            i.len as u32
        } else {
            1
        },
        None => 1,
    }
}

/// What one step does: the machine afterwards and what the step came to. `tsc` is
/// the time stamp that `rdtsc` reads. An instruction that does not complete
/// leaves the instruction pointer where it was.
pub open spec fn step_of(s: Machine, hook: Option<&HookWindow>, tsc: u64) -> (Machine, Stepped) {
    let rip = s.regs.rip;
    if stopped(hook, rip) {
        (s, Stepped::HostStop(rip, length_at(s, rip)))
    } else if fetched(s.mem, rip, MAX_FETCH as nat) is None {
        (
            s,
            Stepped::Invalid(
                InvalidMem { access_type: ACCESS_FETCH, address: rip, size: 1, value: 0 },
            ),
        )
    } else {
        match instruction_at(s, rip) {
            None => (s, Stepped::Failed("invalid instruction at "@ + text::hex(rip as nat))),
            Some(i) => {
                let (t, fault) = executed(s, i, i.next_ip, tsc);
                match fault {
                    None => (t, Stepped::Continue),
                    Some(Fault::Memory(inv)) => (
                        t.with_regs(t.regs.at(rip)),
                        Stepped::Invalid(inv),
                    ),
                    Some(Fault::Cpu(m)) => (t.with_regs(t.regs.at(rip)), Stepped::Failed(m)),
                }
            },
        }
    }
}

/// A step that does not complete leaves the instruction pointer where it was.
pub proof fn incomplete_step_keeps_rip(s: Machine, hook: Option<&HookWindow>, tsc: u64)
    ensures
        step_of(s, hook, tsc).1 !is Continue ==> step_of(s, hook, tsc).0.regs.rip == s.regs.rip,
{
}

/// The time stamp matters to `rdtsc` alone.
pub proof fn only_rdtsc_reads_the_clock(s: Machine, hook: Option<&HookWindow>, a: u64, b: u64)
    requires
        instruction_at(s, s.regs.rip) matches Some(i) ==> i.mnemonic != mnemonic::RDTSC,
    ensures
        step_of(s, hook, a) == step_of(s, hook, b),
{
}

/// The host's clock in nanoseconds since the Unix epoch, by
/// `std::time::SystemTime::now`; zero if the clock stands before the epoch.
/// Nothing is claimed of the value.
#[verifier::external_body]
fn clock_nanos() -> (t: u64) {
    std::time::SystemTime::now().duration_since(std::time::UNIX_EPOCH).map_or(
        0,
        |d| d.as_nanos() as u64,
    )
}

/// The length of the instruction at `rip`, or one if there is none.
fn peek_insn_len(mem: &GuestMemory, rip: u64, Ghost(s): Ghost<Machine>) -> (n: u32)
    requires
        mem.wf(),
        s.mem == mem.bytes(),
    ensures
        n == length_at(s, rip),
{
    match mem.fetch(rip, MAX_FETCH) {
        Ok(bytes) => match decode(bytes.as_slice(), rip) {
            Some(i) => if i.len <= 0xffff_ffff {
                i.len as u32
            } else {
                1
            },
            None => 1,
        },
        Err(_) => 1,
    }
}

/// Decodes and executes the instruction at the instruction pointer, unless the
/// host takes over there.
pub fn step(mem: &mut GuestMemory, regs: &mut RegFile, hook: Option<&HookWindow>) -> (r: Result<
    StepResult,
    CpuError,
>)
    requires
        old(mem).wf(),
    ensures
        same_layout(*old(mem), *final(mem)),
        exists|tsc: u64|
            (#[trigger] step_of(machine(*old(mem), old(regs)@), hook, tsc)) == (
                machine(*final(mem), final(regs)@),
                stepped(r),
            ),
{
    let rip: u64 = regs.rip();
    let ghost s = machine(*mem, regs@);
    match hook {
        Some(h) => {
            if h.should_host_stop(rip) {
                let size: u32 = peek_insn_len(mem, rip, Ghost(s));
                assert(step_of(s, hook, 0) == (s, Stepped::HostStop(rip, size)));
                return Ok(StepResult::HostStop { address: rip, size });
            }
        },
        None => {},
    }
    let bytes: Vec<u8> = match mem.fetch(rip, MAX_FETCH) {
        Ok(b) => b,
        Err(_) => {
            let inv = InvalidMem { access_type: ACCESS_FETCH, address: rip, size: 1, value: 0 };
            assert(step_of(s, hook, 0) == (s, Stepped::Invalid(inv)));
            return Ok(StepResult::InvalidMemory(inv));
        },
    };
    let i: Instr = match decode(bytes.as_slice(), rip) {
        Some(i) => i,
        None => {
            let m = text::with_hex("invalid instruction at ", rip);
            assert(step_of(s, hook, 0) == (s, Stepped::Failed(m@)));
            return Err(CpuError::Message(m));
        },
    };
    let tsc: u64 = if i.mnemonic == mnemonic::RDTSC {
        clock_nanos()
    } else {
        0
    };
    let outcome = execute_one(mem, regs, &i, i.next_ip, tsc);
    let ghost t = executed(s, i, i.next_ip, tsc);
    assert(t.0 == machine(*mem, regs@));
    match outcome {
        Ok(()) => {
            assert(step_of(s, hook, tsc) == (t.0, Stepped::Continue));
            Ok(StepResult::Continue)
        },
        Err(StepExecError::InvalidMemory(inv)) => {
            regs.set_rip(rip);
            assert(step_of(s, hook, tsc) == (machine(*mem, regs@), Stepped::Invalid(inv)));
            Ok(StepResult::InvalidMemory(inv))
        },
        Err(StepExecError::Cpu(e)) => {
            regs.set_rip(rip);
            assert(step_of(s, hook, tsc) == (machine(*mem, regs@), Stepped::Failed(e.text())));
            Err(e)
        },
    }
}

} // verus!
