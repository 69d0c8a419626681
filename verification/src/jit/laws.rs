//! Compiled code and the interpreter agree.

use vstd::prelude::*;

use crate::exec::branch::{cmov_cond, holds};
use crate::exec::model::{Machine, Next};
use crate::exec::operand::{address_of, operand_bytes, operand_value};
use crate::exec::shift::shift_count;
use crate::exec::step::executed;
use crate::insn::instr::Instr;
use crate::insn::mnemonic;
use crate::jit::block::{does_nothing, string_bytes, terminator, BlockTerm};
use crate::jit::compile::term_effect;
use crate::jit::lower::{
    accepted, compiled, compiled_move, compiled_pair, compiled_unary, in_moves, in_pairs, in_unary,
    shift_kind,
};
use crate::jit::shifts::half_of_more;
use crate::jit::strings::{string_call, string_call_is_string_instruction, string_effect};
use crate::regs::Reg;

verus! {

/// The integer instructions that are compiled.
pub open spec fn integer_instruction(m: u16) -> bool {
    in_moves(m) || in_unary(m) || in_pairs(m)
}

/// The inputs on which compiled code does not do exactly what the instruction does are
/// excluded: a conditional move from memory that cannot be read while its condition
/// does not hold, and a shift by zero of the low half of a register whose high half is
/// not zero.
pub open spec fn exact_on(s: Machine, i: Instr) -> bool {
    &&& cmov_cond(i.mnemonic) is Some ==> operand_value(s, i, 1) is Ok || holds(
        cmov_cond(i.mnemonic)->0,
        s.regs,
    )
    &&& shift_kind(i.mnemonic) is Some ==> (operand_bytes(i, 0) matches Ok(size) ==> (
    operand_value(s, i, 1) matches Ok(count) ==> shift_count(count, size) != 0 || !half_of_more(
        s,
        i,
    )))
}

/// A compiled integer instruction does what the interpreter does.
#[verifier::rlimit(40)]
pub proof fn compiled_integer_instruction_matches_interpreter(
    s: Machine,
    i: Instr,
    next_ip: u64,
    tsc: u64,
    fp: spec_fn(u8, bool, u64, u64) -> u64,
)
    requires
        i.wf(),
        s.regs.gpr.len() == 16,
        integer_instruction(i.mnemonic),
        accepted(i),
        exact_on(s.with_regs(s.regs.at(next_ip)), i),
    ensures
        executed(s, i, next_ip, tsc) == compiled(
            s.with_regs(s.regs.at(next_ip)),
            i,
            fp,
        ),
{
    let t = s.with_regs(s.regs.at(next_ip));
    if in_moves(i.mnemonic) {
        assert(executed(s, i, next_ip, tsc) == compiled_move(t, i));
    } else if in_unary(i.mnemonic) {
        assert(executed(s, i, next_ip, tsc) == compiled_unary(t, i));
    } else {
        if shift_kind(i.mnemonic) is Some {
            crate::jit::shifts::eager_shift_is_shift(t, i, shift_kind(i.mnemonic)->0);
        }
        assert(executed(s, i, next_ip, tsc) == compiled_pair(t, i));
    }
}

/// The branch at the end of a compiled block does what the interpreter does.
pub proof fn compiled_branch_matches_interpreter(
    s: Machine,
    i: Instr,
    term: BlockTerm,
    tsc: u64,
)
    requires
        terminator(i) == Some(term),
    ensures
        executed(s, i, i.next_ip, tsc) == term_effect(
            s.with_regs(s.regs.at(i.next_ip)),
            term,
        ),
{
}

/// A string instruction at the end of a compiled block does what the interpreter
/// does.
pub proof fn compiled_string_matches_interpreter(s: Machine, i: Instr, tsc: u64)
    requires
        string_bytes(i) is Some,
    ensures
        executed(s, i, i.next_ip, tsc) == string_effect(
            s.with_regs(s.regs.at(i.next_ip)),
            string_call(i),
        ),
{
    string_call_is_string_instruction(s.with_regs(s.regs.at(i.next_ip)), i);
}

/// The outcome of an instruction with another instruction pointer.
pub open spec fn moved_to(n: Next, rip: u64) -> Next {
    (n.0.with_regs(n.0.regs.at(rip)), n.1)
}

/// Reading an operand does not depend on the instruction pointer.
pub proof fn lemma_reads_frame(s: Machine, i: Instr, op: int, rip: u64)
    ensures
        operand_value(s.with_regs(s.regs.at(rip)), i, op) == operand_value(s, i, op),
        address_of(s.regs.at(rip), i) == address_of(s.regs, i),
{
}

/// Writing an operand does not depend on the instruction pointer.
proof fn lemma_writes_frame(s: Machine, i: Instr, op: int, v: u64, n: int, rip: u64)
    ensures
        crate::exec::operand::after_operand_sized(s.with_regs(s.regs.at(rip)), i, op, v, n)
            == moved_to(crate::exec::operand::after_operand_sized(s, i, op, v, n), rip),
        crate::exec::operand::after_operand(s.with_regs(s.regs.at(rip)), i, op, v) == moved_to(
            crate::exec::operand::after_operand(s, i, op, v),
            rip,
        ),
        forall|reg: Reg| #[trigger]
            crate::exec::operand::after_register(s.with_regs(s.regs.at(rip)), reg, v)
                == moved_to(crate::exec::operand::after_register(s, reg, v), rip),
{
    lemma_reads_frame(s, i, op, rip);
    let t = s.with_regs(s.regs.at(rip));
    assert forall|reg: Reg| #[trigger]
        crate::exec::operand::after_register(t, reg, v) == moved_to(
            crate::exec::operand::after_register(s, reg, v),
            rip,
        ) by {
        match (t.regs.set_reg(reg, v), s.regs.set_reg(reg, v)) {
            (Some(a), Some(b)) => {
                assert(a =~= b.at(rip));
            },
            _ => {},
        }
    }
}

/// A compiled move does not depend on the instruction pointer.
#[verifier::rlimit(40)]
pub proof fn lemma_move_frame(s: Machine, i: Instr, rip: u64)
    requires
        in_moves(i.mnemonic),
    ensures
        compiled_move(s.with_regs(s.regs.at(rip)), i) == moved_to(compiled_move(s, i), rip),
{
    let t = s.with_regs(s.regs.at(rip));
    lemma_reads_frame(s, i, 0, rip);
    lemma_reads_frame(s, i, 1, rip);
    if i.mnemonic == mnemonic::XCHG {
        match (operand_value(s, i, 0), operand_value(s, i, 1)) {
            (Ok(a), Ok(b)) => {
                lemma_writes_frame(s, i, 0, b, 0, rip);
                let (u, x) = crate::exec::operand::after_operand(s, i, 0, b);
                lemma_writes_frame(u, i, 1, a, 0, rip);
            },
            _ => {},
        }
    } else if i.mnemonic == mnemonic::POP {
        let n = crate::exec::alu::stack_bytes(i);
        assert(crate::exec::access::popped(t, n) == crate::exec::access::popped(s, n));
        let u = crate::exec::access::after_pop(s, n);
        assert(crate::exec::access::after_pop(t, n) =~= u.with_regs(u.regs.at(rip)));
        match crate::exec::access::popped(s, n) {
            Ok(v) => {
                lemma_writes_frame(u, i, 0, v, 0, rip);
            },
            Err(_) => {},
        }
    } else if i.mnemonic == mnemonic::LEA {
        match address_of(s.regs, i) {
            Ok(a) => {
                lemma_writes_frame(s, i, 0, a, 0, rip);
            },
            Err(_) => {},
        }
    } else if i.mnemonic == mnemonic::MOV {
        match operand_value(s, i, 1) {
            Ok(v) => {
                lemma_writes_frame(s, i, 0, v, 0, rip);
            },
            Err(_) => {},
        }
    } else if i.mnemonic == mnemonic::PUSH {
        match operand_value(s, i, 0) {
            Ok(v) => {
                let n = crate::exec::alu::stack_bytes(i);
                let a = crate::exec::access::after_push(t, v, n);
                let b = crate::exec::access::after_push(s, v, n);
                assert(a.0 =~= moved_to(b, rip).0);
            },
            Err(_) => {},
        }
    } else if !does_nothing(i.mnemonic) {
        match (operand_bytes(i, 1), operand_bytes(i, 0), operand_value(s, i, 1)) {
            (Ok(from), Ok(to), Ok(v)) => {
                let w = if i.mnemonic != mnemonic::MOVZX {
                    crate::exec::alu::sign_extended(v as int, from)
                } else {
                    crate::regs::trunc(v as int, from) as u64
                };
                lemma_writes_frame(s, i, 0, w, to, rip);
            },
            _ => {},
        }
    }
}

/// Compiled arithmetic on one operand does not depend on the instruction pointer.
#[verifier::rlimit(40)]
pub proof fn lemma_unary_frame(s: Machine, i: Instr, rip: u64)
    requires
        in_unary(i.mnemonic),
    ensures
        compiled_unary(s.with_regs(s.regs.at(rip)), i) == moved_to(compiled_unary(s, i), rip),
{
    let t = s.with_regs(s.regs.at(rip));
    lemma_reads_frame(s, i, 0, rip);
    lemma_reads_frame(s, i, 1, rip);
    lemma_reads_frame(s, i, 2, rip);
    assert forall|f: u64, v: u64|
        crate::exec::operand::after_operand(
            #[trigger] t.with_regs(t.regs.flags(f)),
            i,
            0,
            v,
        ) == moved_to(
            #[trigger] crate::exec::operand::after_operand(
                s.with_regs(s.regs.flags(f)),
                i,
                0,
                v,
            ),
            rip,
        ) by {
        lemma_writes_frame(s.with_regs(s.regs.flags(f)), i, 0, v, 0, rip);
    }
    assert forall|v: u64| #[trigger]
        crate::exec::operand::after_operand(t, i, 0, v) == moved_to(
            crate::exec::operand::after_operand(s, i, 0, v),
            rip,
        ) by {
        lemma_writes_frame(s, i, 0, v, 0, rip);
    }
}

/// Compiled arithmetic on two operands does not depend on the instruction
/// pointer.
#[verifier::rlimit(40)]
pub proof fn lemma_pair_frame(s: Machine, i: Instr, rip: u64)
    requires
        in_pairs(i.mnemonic),
    ensures
        compiled_pair(s.with_regs(s.regs.at(rip)), i) == moved_to(compiled_pair(s, i), rip),
{
    let t = s.with_regs(s.regs.at(rip));
    lemma_reads_frame(s, i, 0, rip);
    lemma_reads_frame(s, i, 1, rip);
    assert forall|f: u64, v: u64|
        crate::exec::operand::after_operand(
            #[trigger] t.with_regs(t.regs.flags(f)),
            i,
            0,
            v,
        ) == moved_to(
            #[trigger] crate::exec::operand::after_operand(
                s.with_regs(s.regs.flags(f)),
                i,
                0,
                v,
            ),
            rip,
        ) by {
        lemma_writes_frame(s.with_regs(s.regs.flags(f)), i, 0, v, 0, rip);
    }
    assert forall|v: u64| #[trigger]
        crate::exec::operand::after_operand(t, i, 0, v) == moved_to(
            crate::exec::operand::after_operand(s, i, 0, v),
            rip,
        ) by {
        lemma_writes_frame(s, i, 0, v, 0, rip);
    }
}

/// Which inputs are excluded does not depend on the instruction pointer.
pub proof fn lemma_exact_frame(s: Machine, i: Instr, rip: u64)
    requires
        exact_on(s, i),
    ensures
        exact_on(s.with_regs(s.regs.at(rip)), i),
{
    lemma_reads_frame(s, i, 1, rip);
}

} // verus!
