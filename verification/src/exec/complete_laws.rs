//! When instructions complete: where their operands are there.

use vstd::prelude::*;

use crate::exec::access::{after_push, loaded, stored};
use crate::exec::alu::ArithOp;
use crate::exec::branch::{cmov_cond, holds, setcc_cond};
use crate::exec::laws::operand_size;
use crate::exec::logic::BitOp;
use crate::exec::model::{Fault, Machine};
use crate::exec::operand::{after_operand, after_operand_sized, operand_bytes, operand_value};
use crate::exec::operand_laws::{operands_that_can_be_written, writable};
use crate::exec::shift::ShiftKind;
use crate::exec::step::executed;
use crate::exec::string_laws::{is_string, repeated};
use crate::insn::instr::Instr;
use crate::insn::{kind, mnemonic};
use crate::jit::laws::lemma_reads_frame;
use crate::mem::model::lemma_mapped_run;

verus! {

/// The first operand has `n` bytes, and can be read and written.
pub open spec fn there(s: Machine, i: Instr, n: int) -> bool {
    &&& operand_size(n)
    &&& operand_bytes(i, 0) == Ok::<int, Fault>(n)
    &&& operand_value(s, i, 0) is Ok
    &&& writable(i, 0)
}

/// Where an operand is there, it can be written whatever the flags are.
proof fn lemma_there(s: Machine, i: Instr, n: int, ip: u64, f: u64, v: u64)
    requires
        there(s, i, n),
    ensures
        after_operand(s.with_regs(s.regs.at(ip).flags(f)), i, 0, v).1 is None,
        after_operand(s.with_regs(s.regs.at(ip)), i, 0, v).1 is None,
        after_operand_sized(s.with_regs(s.regs.at(ip)), i, 0, v, n).1 is None,
{
    let t = s.with_regs(s.regs.at(ip).flags(f));
    let u = s.with_regs(s.regs.at(ip));
    assert(operand_value(t, i, 0) == operand_value(s, i, 0));
    assert(operand_value(u, i, 0) == operand_value(s, i, 0));
    operands_that_can_be_written(t, i, 0, v, n);
    operands_that_can_be_written(u, i, 0, v, n);
}

/// Arithmetic on two operands completes wherever both are there.
pub proof fn arithmetic_completes(s: Machine, i: Instr, ip: u64, tsc: u64, n: int)
    requires
        there(s, i, n),
        operand_value(s, i, 1) is Ok,
        i.mnemonic == mnemonic::ADD || i.mnemonic == mnemonic::ADC || i.mnemonic == mnemonic::SUB
            || i.mnemonic == mnemonic::SBB || i.mnemonic == mnemonic::AND || i.mnemonic
            == mnemonic::OR || i.mnemonic == mnemonic::XOR || i.mnemonic == mnemonic::CMP,
    ensures
        executed(s, i, ip, tsc).1 is None,
{
    let op = if i.mnemonic == mnemonic::ADD {
        ArithOp::Add
    } else if i.mnemonic == mnemonic::ADC {
        ArithOp::Adc
    } else if i.mnemonic == mnemonic::SUB {
        ArithOp::Sub
    } else if i.mnemonic == mnemonic::SBB {
        ArithOp::Sbb
    } else if i.mnemonic == mnemonic::AND {
        ArithOp::And
    } else if i.mnemonic == mnemonic::OR {
        ArithOp::Or
    } else if i.mnemonic == mnemonic::XOR {
        ArithOp::Xor
    } else {
        ArithOp::Compare
    };
    let u = s.with_regs(s.regs.at(ip));
    lemma_reads_frame(s, i, 0, ip);
    lemma_reads_frame(s, i, 1, ip);
    assert(executed(s, i, ip, tsc) == crate::exec::alu::after_arith(u, i, op));
    assert forall|f: u64, v: u64| #[trigger]
        after_operand(u.with_regs(u.regs.flags(f)), i, 0, v).1 is None by {
        lemma_there(s, i, n, ip, f, v);
    }
}

/// Counting, negation and complement complete wherever their operand is there.
pub proof fn counting_completes(s: Machine, i: Instr, ip: u64, tsc: u64, n: int)
    requires
        there(s, i, n),
        i.mnemonic == mnemonic::INC || i.mnemonic == mnemonic::DEC || i.mnemonic == mnemonic::NEG
            || i.mnemonic == mnemonic::NOT,
    ensures
        executed(s, i, ip, tsc).1 is None,
{
    let u = s.with_regs(s.regs.at(ip));
    lemma_reads_frame(s, i, 0, ip);
    lemma_reads_frame(s, i, 1, ip);
    lemma_reads_frame(s, i, 2, ip);
    assert forall|f: u64, v: u64| #[trigger]
        after_operand(u.with_regs(u.regs.flags(f)), i, 0, v).1 is None by {
        lemma_there(s, i, n, ip, f, v);
    }
    assert forall|v: u64| #[trigger] after_operand(u, i, 0, v).1 is None by {
        lemma_there(s, i, n, ip, 0, v);
    }
    let e = executed(s, i, ip, tsc);
    if i.mnemonic == mnemonic::INC {
        assert(e == crate::exec::logic::after_inc_dec(u, i, true));
    } else if i.mnemonic == mnemonic::DEC {
        assert(e == crate::exec::logic::after_inc_dec(u, i, false));
    } else if i.mnemonic == mnemonic::NEG {
        assert(e == crate::exec::logic::after_neg(u, i));
    } else {
        assert(e == crate::exec::logic::after_not(u, i));
    }
}

/// Multiplication in all its forms completes wherever its operands are there.
pub proof fn multiplication_completes(s: Machine, i: Instr, ip: u64, tsc: u64, n: int)
    requires
        there(s, i, n),
        i.mnemonic == mnemonic::MUL || (i.mnemonic == mnemonic::IMUL && (i.op_count == 1 || (
        i.op_count == 2 && operand_value(s, i, 1) is Ok) || (i.op_count == 3 && operand_value(
            s,
            i,
            1,
        ) is Ok && operand_value(s, i, 2) is Ok))),
    ensures
        executed(s, i, ip, tsc).1 is None,
{
    let u = s.with_regs(s.regs.at(ip));
    lemma_reads_frame(s, i, 0, ip);
    lemma_reads_frame(s, i, 1, ip);
    lemma_reads_frame(s, i, 2, ip);
    assert forall|v: u64| #[trigger] after_operand(u, i, 0, v).1 is None by {
        lemma_there(s, i, n, ip, 0, v);
    }
    let e = executed(s, i, ip, tsc);
    if i.mnemonic == mnemonic::MUL {
        assert(e == crate::exec::muldiv::after_mul(u, i));
    } else {
        assert(e == crate::exec::muldiv::after_imul(u, i));
    }
}

/// Moves and tests complete wherever their operands are there.
pub proof fn moves_complete(s: Machine, i: Instr, ip: u64, tsc: u64, n: int)
    requires
        there(s, i, n),
        operand_value(s, i, 1) is Ok,
        i.mnemonic == mnemonic::TEST || i.mnemonic == mnemonic::MOV,
    ensures
        executed(s, i, ip, tsc).1 is None,
{
    let u = s.with_regs(s.regs.at(ip));
    lemma_reads_frame(s, i, 0, ip);
    lemma_reads_frame(s, i, 1, ip);
    lemma_reads_frame(s, i, 2, ip);
    assert forall|v: u64| #[trigger] after_operand(u, i, 0, v).1 is None by {
        lemma_there(s, i, n, ip, 0, v);
    }
    let e = executed(s, i, ip, tsc);
    if i.mnemonic == mnemonic::TEST {
        assert(e == crate::exec::logic::after_test(u, i));
    } else {
        assert(e == crate::exec::alu::after_mov(u, i));
    }
}

/// Extending moves complete wherever their operands are there.
pub proof fn extensions_complete(s: Machine, i: Instr, ip: u64, tsc: u64, n: int)
    requires
        there(s, i, n),
        operand_value(s, i, 1) is Ok,
        operand_bytes(i, 1) is Ok,
        i.mnemonic == mnemonic::MOVZX || i.mnemonic == mnemonic::MOVSX || i.mnemonic
            == mnemonic::MOVSXD,
    ensures
        executed(s, i, ip, tsc).1 is None,
{
    let u = s.with_regs(s.regs.at(ip));
    lemma_reads_frame(s, i, 0, ip);
    lemma_reads_frame(s, i, 1, ip);
    lemma_reads_frame(s, i, 2, ip);
    assert forall|v: u64| #[trigger] after_operand_sized(u, i, 0, v, n).1 is None by {
        lemma_there(s, i, n, ip, 0, v);
    }
    let e = executed(s, i, ip, tsc);
    if i.mnemonic == mnemonic::MOVZX {
        assert(e == crate::exec::alu::after_movx(u, i, false));
    } else {
        assert(e == crate::exec::alu::after_movx(u, i, true));
    }
}

/// Conditional moves and settings of a byte complete wherever their operands are there.
pub proof fn conditional_instructions_complete(s: Machine, i: Instr, ip: u64, tsc: u64, n: int)
    requires
        there(s, i, n),
        setcc_cond(i.mnemonic) is Some || (cmov_cond(i.mnemonic) is Some && operand_value(s, i, 1)
            is Ok),
    ensures
        executed(s, i, ip, tsc).1 is None,
{
    let u = s.with_regs(s.regs.at(ip));
    lemma_reads_frame(s, i, 0, ip);
    lemma_reads_frame(s, i, 1, ip);
    lemma_reads_frame(s, i, 2, ip);
    assert forall|v: u64| #[trigger] after_operand(u, i, 0, v).1 is None by {
        lemma_there(s, i, n, ip, 0, v);
    }
    let e = executed(s, i, ip, tsc);
    if cmov_cond(i.mnemonic) is Some {
        let c = holds(cmov_cond(i.mnemonic)->0, u.regs);
        assert(e == crate::exec::logic::after_cmov(u, i, c));
    } else {
        let c = holds(setcc_cond(i.mnemonic)->0, u.regs);
        assert(e == crate::exec::logic::after_setcc(u, i, c));
    }
}

/// Shifts and rotates complete wherever their operands are there.
pub proof fn shifts_complete(s: Machine, i: Instr, ip: u64, tsc: u64, n: int)
    requires
        there(s, i, n),
        operand_value(s, i, 1) is Ok,
        i.mnemonic == mnemonic::SHL || i.mnemonic == mnemonic::SAL || i.mnemonic == mnemonic::SHR
            || i.mnemonic == mnemonic::SAR || i.mnemonic == mnemonic::ROL || i.mnemonic
            == mnemonic::ROR,
    ensures
        executed(s, i, ip, tsc).1 is None,
{
    let u = s.with_regs(s.regs.at(ip));
    lemma_reads_frame(s, i, 0, ip);
    lemma_reads_frame(s, i, 1, ip);
    lemma_reads_frame(s, i, 2, ip);
    assert forall|f: u64, v: u64| #[trigger]
        after_operand(u.with_regs(u.regs.flags(f)), i, 0, v).1 is None by {
        lemma_there(s, i, n, ip, f, v);
    }
    let kind = if i.mnemonic == mnemonic::SHL || i.mnemonic == mnemonic::SAL {
        ShiftKind::Shl
    } else if i.mnemonic == mnemonic::SHR {
        ShiftKind::Shr
    } else if i.mnemonic == mnemonic::SAR {
        ShiftKind::Sar
    } else if i.mnemonic == mnemonic::ROL {
        ShiftKind::Rol
    } else {
        ShiftKind::Ror
    };
    assert(executed(s, i, ip, tsc) == crate::exec::shift::after_shift(u, i, kind));
}

/// Instructions on single bits of a register complete wherever their operands are there.
pub proof fn bit_instructions_complete(s: Machine, i: Instr, ip: u64, tsc: u64, n: int)
    requires
        there(s, i, n),
        operand_value(s, i, 1) is Ok,
        i.op0.kind == kind::REGISTER,
        i.mnemonic == mnemonic::BT || i.mnemonic == mnemonic::BTS || i.mnemonic == mnemonic::BTR
            || i.mnemonic == mnemonic::BTC,
    ensures
        executed(s, i, ip, tsc).1 is None,
{
    let u = s.with_regs(s.regs.at(ip));
    lemma_reads_frame(s, i, 0, ip);
    lemma_reads_frame(s, i, 1, ip);
    lemma_reads_frame(s, i, 2, ip);
    assert forall|f: u64, v: u64| #[trigger]
        after_operand(u.with_regs(u.regs.flags(f)), i, 0, v).1 is None by {
        lemma_there(s, i, n, ip, f, v);
    }
    let op = if i.mnemonic == mnemonic::BT {
        BitOp::Bt
    } else if i.mnemonic == mnemonic::BTS {
        BitOp::Bts
    } else if i.mnemonic == mnemonic::BTR {
        BitOp::Btr
    } else {
        BitOp::Btc
    };
    assert(executed(s, i, ip, tsc) == crate::exec::logic::after_bit(u, i, op));
    if op != BitOp::Bt {
        lemma_bit(u, i, op);
    }
}

/// Compare and exchange completes wherever its operands are there.
pub proof fn compare_and_exchange_completes(s: Machine, i: Instr, ip: u64, tsc: u64, n: int)
    requires
        there(s, i, n),
        operand_value(s, i, 1) is Ok,
        i.mnemonic == mnemonic::CMPXCHG,
    ensures
        executed(s, i, ip, tsc).1 is None,
{
    let u = s.with_regs(s.regs.at(ip));
    lemma_reads_frame(s, i, 0, ip);
    lemma_reads_frame(s, i, 1, ip);
    lemma_reads_frame(s, i, 2, ip);
    assert forall|f: u64, v: u64| #[trigger]
        after_operand(u.with_regs(u.regs.flags(f)), i, 0, v).1 is None by {
        lemma_there(s, i, n, ip, f, v);
    }
    assert(executed(s, i, ip, tsc) == crate::exec::logic::after_compare_exchange(u, i));
}

/// Changing a bit of a register writes it with the flags replaced.
proof fn lemma_bit(u: Machine, i: Instr, op: BitOp)
    requires
        i.op0.kind == kind::REGISTER,
        operand_value(u, i, 0) is Ok,
        operand_value(u, i, 1) is Ok,
        op != BitOp::Bt,
    ensures
        exists|f: u64, v: u64|
            crate::exec::logic::after_bit(u, i, op) == #[trigger] after_operand(
                u.with_regs(u.regs.flags(f)),
                i,
                0,
                v,
            ),
{
    let x = operand_value(u, i, 0)->Ok_0;
    let y = operand_value(u, i, 1)->Ok_0;
    let k = (y as int % (8 * i.op0.reg.bytes())) as nat;
    let g = u.regs.flag_set(crate::regs::CF, crate::exec::logic::bit_at(x, k));
    assert(g == u.regs.flags(g.rflags));
    let v = crate::exec::logic::bit_changed(op, x, k);
    assert(crate::exec::logic::after_bit(u, i, op) == after_operand(
        u.with_regs(u.regs.flags(g.rflags)),
        i,
        0,
        v,
    ));
}

/// Where bytes can be loaded they can be stored.
proof fn lemma_stores(m: crate::mem::model::Bytes, a: u64, v: u64, n: int)
    requires
        operand_size(n),
    ensures
        stored(m, a, v, n).1 is None == loaded(m, a, n) is Ok,
{
    lemma_mapped_run(m, a as int, n as nat);
}

/// Stack instructions complete exactly where the part of the stack that they use is there.
pub proof fn stack_instructions_complete(s: Machine, i: Instr, ip: u64, tsc: u64)
    requires
        s.regs.gpr.len() == 16,
    ensures
        i.mnemonic == mnemonic::PUSH && operand_value(s, i, 0) is Ok && !(i.op0.reg is Other) ==> (
        executed(s, i, ip, tsc).1 is None <==> loaded(
            s.mem,
            s.regs.gpr[4].wrapping_sub(crate::exec::move_laws::slot(i) as u64),
            crate::exec::move_laws::slot(i),
        ) is Ok),
        i.mnemonic == mnemonic::PUSHFQ ==> (executed(s, i, ip, tsc).1 is None <==> loaded(
            s.mem,
            s.regs.gpr[4].wrapping_sub(8),
            8,
        ) is Ok),
        i.mnemonic == mnemonic::CALL && kind::near_branch(i.op0.kind) ==> (executed(
            s,
            i,
            ip,
            tsc,
        ).1 is None <==> loaded(s.mem, s.regs.gpr[4].wrapping_sub(8), 8) is Ok),
        i.mnemonic == mnemonic::RET || i.mnemonic == mnemonic::POPFQ ==> (executed(
            s,
            i,
            ip,
            tsc,
        ).1 is None <==> loaded(s.mem, s.regs.gpr[4], 8) is Ok),
        i.mnemonic == mnemonic::LEAVE ==> (executed(s, i, ip, tsc).1 is None <==> loaded(
            s.mem,
            s.regs.gpr[5],
            8,
        ) is Ok),
        i.mnemonic == mnemonic::JMP && (kind::near_branch(i.op0.kind) || ((i.op0.kind
            == kind::REGISTER || i.op0.kind == kind::MEMORY) && operand_value(s, i, 0) is Ok))
            ==> executed(s, i, ip, tsc).1 is None,
{
    let u = s.with_regs(s.regs.at(ip));
    lemma_reads_frame(s, i, 0, ip);
    let top = s.regs.gpr[4].wrapping_sub(8);
    let e = executed(s, i, ip, tsc);
    if i.mnemonic == mnemonic::PUSH {
        if operand_value(s, i, 0) is Ok && !(i.op0.reg is Other) {
            let n = crate::exec::move_laws::slot(i);
            let v = operand_value(s, i, 0)->Ok_0;
            assert(crate::exec::alu::stack_bytes(i) == n);
            assert(e == after_push(u, v, n));
            lemma_stores(s.mem, s.regs.gpr[4].wrapping_sub(n as u64), v, n);
        }
    } else if i.mnemonic == mnemonic::PUSHFQ {
        assert(e == after_push(u, s.regs.rflags, 8));
        lemma_stores(s.mem, top, s.regs.rflags, 8);
    } else if i.mnemonic == mnemonic::CALL {
        assert(e == crate::exec::branch::after_call(u, i, ip));
        lemma_stores(s.mem, top, ip, 8);
    } else if i.mnemonic == mnemonic::RET {
        assert(e == crate::exec::branch::after_ret(u, i));
    } else if i.mnemonic == mnemonic::POPFQ {
        assert(e == crate::exec::step::after_popfq(u));
    } else if i.mnemonic == mnemonic::LEAVE {
        assert(e == crate::exec::step::after_leave(u));
    } else if i.mnemonic == mnemonic::JMP {
        assert(e == crate::exec::branch::after_jmp(u, i));
    }
}

/// Filling and copying strings completes exactly where the elements are there.
pub proof fn string_instructions_complete(s: Machine, i: Instr, ip: u64, tsc: u64, n: int)
    requires
        s.regs.gpr.len() == 16,
        !repeated(i) || s.regs.gpr[1] != 0,
    ensures
        is_string(i, 0, n) ==> (executed(s, i, ip, tsc).1 is None <==> loaded(
            s.mem,
            s.regs.gpr[7],
            n,
        ) is Ok),
        is_string(i, 1, n) ==> (executed(s, i, ip, tsc).1 is None <==> loaded(
            s.mem,
            s.regs.gpr[6],
            n,
        ) is Ok && loaded(s.mem, s.regs.gpr[7], n) is Ok),
{
    let u = s.with_regs(s.regs.at(ip));
    let e = executed(s, i, ip, tsc);
    if is_string(i, 0, n) {
        assert(e == crate::exec::string::after_stos(u, i, n));
        let v = crate::regs::trunc(s.regs.gpr[0] as int, n) as u64;
        lemma_stores(s.mem, s.regs.gpr[7], v, n);
    } else if is_string(i, 1, n) {
        assert(e == crate::exec::string::after_movs(u, i, n));
        if loaded(s.mem, s.regs.gpr[6], n) is Ok {
            lemma_stores(s.mem, s.regs.gpr[7], loaded(s.mem, s.regs.gpr[6], n)->Ok_0, n);
        }
    }
}

} // verus!
