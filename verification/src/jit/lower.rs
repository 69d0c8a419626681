//! Compiling one instruction.

use vstd::prelude::*;

use crate::exec::alu::{
    after_arith, after_lea, after_mov, after_movx, after_pop_op, after_push_op, ArithOp,
};
use crate::exec::branch::{cmov_cond, cmov_condition, holds, setcc_cond, setcc_condition};
use crate::exec::logic::{
    after_inc_dec, after_neg, after_not, after_setcc, after_test, after_xchg,
};
use crate::exec::model::{Fault, Machine, Next};
use crate::exec::muldiv::after_imul;
use crate::exec::shift::ShiftKind;
use crate::exec::sse::{is_sse_movsd, vector_movsd};
use crate::insn::instr::Instr;
use crate::insn::{kind, mnemonic};
use crate::jit::access::{
    addressable, is_memory_regular, memory_regular, readable, usable_reg, writable,
};
use crate::jit::arith::is_place;
use crate::jit::block::{does_nothing, moves_vector, sse_bit, sse_fp, vector_bit, vector_fp};
use crate::jit::cond::{
    after_cmov_eager, is_setcc_regular, is_xchg_regular, setcc_regular, xchg_regular,
};
use crate::jit::imul::{imul_regular, is_imul_regular};
use crate::jit::ir::Entry;
use crate::jit::liveness::{covers, lemma_covers};
use crate::jit::moves::{is_pair_regular, is_stack_regular, pair_regular, stack_regular};
use crate::jit::shifts::after_shift_eager;
use crate::jit::state::{completes, follows, settles, Lower, NotLowerable};
use crate::jit::vector::{
    after_transfer, after_vector_bit, after_vector_fp, after_vector_move, vector_index,
    vector_readable,
};
use crate::jit::vector_ops::{transfer_readable, transfer_writable};
use crate::regs::Reg;

verus! {

/// The most operations that one instruction is compiled to.
pub const MAX_OPS: usize = 20;

/// The shift or rotate that an instruction performs.
pub open spec fn shift_kind(m: u16) -> Option<ShiftKind> {
    match m {
        mnemonic::SHL => Some(ShiftKind::Shl),
        mnemonic::SAL => Some(ShiftKind::Shl),
        mnemonic::SHR => Some(ShiftKind::Shr),
        mnemonic::SAR => Some(ShiftKind::Sar),
        mnemonic::ROL => Some(ShiftKind::Rol),
        mnemonic::ROR => Some(ShiftKind::Ror),
        _ => None,
    }
}

/// The shift or rotate that an instruction performs.
fn shift_of(m: u16) -> (r: Option<ShiftKind>)
    ensures
        r == shift_kind(m),
{
    match m {
        mnemonic::SHL | mnemonic::SAL => Some(ShiftKind::Shl),
        mnemonic::SHR => Some(ShiftKind::Shr),
        mnemonic::SAR => Some(ShiftKind::Sar),
        mnemonic::ROL => Some(ShiftKind::Rol),
        mnemonic::ROR => Some(ShiftKind::Ror),
        _ => None,
    }
}

/// The arithmetic on two operands that an instruction performs.
pub open spec fn arith_op(m: u16) -> Option<ArithOp> {
    match m {
        mnemonic::ADD => Some(ArithOp::Add),
        mnemonic::ADC => Some(ArithOp::Adc),
        mnemonic::SUB => Some(ArithOp::Sub),
        mnemonic::SBB => Some(ArithOp::Sbb),
        mnemonic::XOR => Some(ArithOp::Xor),
        mnemonic::AND => Some(ArithOp::And),
        mnemonic::OR => Some(ArithOp::Or),
        _ => None,
    }
}

/// The arithmetic on two operands that an instruction performs.
fn arith_of(m: u16) -> (r: Option<ArithOp>)
    ensures
        r == arith_op(m),
{
    match m {
        mnemonic::ADD => Some(ArithOp::Add),
        mnemonic::ADC => Some(ArithOp::Adc),
        mnemonic::SUB => Some(ArithOp::Sub),
        mnemonic::SBB => Some(ArithOp::Sbb),
        mnemonic::XOR => Some(ArithOp::Xor),
        mnemonic::AND => Some(ArithOp::And),
        mnemonic::OR => Some(ArithOp::Or),
        _ => None,
    }
}

/// How many bytes a vector move moves, and whether the rest of a register stays.
pub open spec fn vector_move(i: Instr) -> Option<(u8, bool)> {
    if moves_vector(i.mnemonic) {
        Some((16u8, false))
    } else if i.mnemonic == mnemonic::MOVSS {
        Some((4u8, true))
    } else if i.mnemonic == mnemonic::MOVSD && vector_movsd(i) {
        Some((8u8, true))
    } else {
        None
    }
}

/// How many bytes a vector move moves, and whether the rest of a register stays.
fn vector_move_of(i: &Instr) -> (r: Option<(u8, bool)>)
    ensures
        r == vector_move(*i),
{
    match i.mnemonic {
        mnemonic::MOVAPS | mnemonic::MOVUPS | mnemonic::MOVDQA | mnemonic::MOVDQU
        | mnemonic::MOVAPD | mnemonic::MOVUPD => Some((16, false)),
        mnemonic::MOVSS => Some((4, true)),
        mnemonic::MOVSD => if is_sse_movsd(i) {
            Some((8, true))
        } else {
            None
        },
        _ => None,
    }
}

/// Two operands of arithmetic that compiled code can read, the first of which it
/// can write.
pub open spec fn pair_accepted(i: Instr) -> bool {
    is_place(i.op0.kind) && readable(i, i.op0) && readable(i, i.op1) && writable(i, i.op0)
}

/// An operand that compiled code can read and write.
pub open spec fn single_accepted(i: Instr) -> bool {
    is_place(i.op0.kind) && readable(i, i.op0) && writable(i, i.op0)
}

/// The two operands of `xchg`.
pub open spec fn xchg_accepted(i: Instr) -> bool {
    ||| i.op0.kind == kind::REGISTER && i.op1.kind == kind::REGISTER && usable_reg(i.op0.reg)
        && usable_reg(i.op1.reg)
    ||| i.op0.kind == kind::MEMORY && i.op1.kind == kind::REGISTER && addressable(i)
        && usable_reg(i.op1.reg)
}

/// Moves, stack instructions and instructions that do nothing.
pub open spec fn in_moves(m: u16) -> bool {
    does_nothing(m) || m == mnemonic::MOV || m == mnemonic::MOVZX || m == mnemonic::MOVSX || m
        == mnemonic::MOVSXD || m == mnemonic::LEA || m == mnemonic::PUSH || m == mnemonic::POP || m
        == mnemonic::XCHG
}

/// Arithmetic on one operand, comparisons and multiplication.
pub open spec fn in_unary(m: u16) -> bool {
    m == mnemonic::NOT || m == mnemonic::NEG || m == mnemonic::INC || m == mnemonic::DEC || m
        == mnemonic::CMP || m == mnemonic::TEST || m == mnemonic::IMUL
}

/// Arithmetic on two operands, shifts and conditional instructions.
pub open spec fn in_pairs(m: u16) -> bool {
    arith_op(m) is Some || shift_kind(m) is Some || cmov_cond(m) is Some || setcc_cond(m) is Some
}

/// The moves that are compiled.
pub open spec fn accepted_move(i: Instr) -> bool {
    if does_nothing(i.mnemonic) {
        true
    } else if i.mnemonic == mnemonic::MOV {
        readable(i, i.op1) && readable(i, i.op0) && writable(i, i.op0)
    } else if i.mnemonic == mnemonic::LEA {
        i.op0.kind == kind::REGISTER && addressable(i) && usable_reg(i.op0.reg)
    } else if i.mnemonic == mnemonic::PUSH {
        readable(i, i.op0)
    } else if i.mnemonic == mnemonic::POP {
        readable(i, i.op0) && writable(i, i.op0)
    } else if i.mnemonic == mnemonic::XCHG {
        xchg_accepted(i)
    } else {
        i.op0.kind == kind::REGISTER && usable_reg(i.op0.reg) && readable(i, i.op1)
            && !kind::immediate(i.op1.kind)
    }
}

/// The arithmetic on one operand, comparisons and multiplications that are
/// compiled.
pub open spec fn accepted_unary(i: Instr) -> bool {
    if i.mnemonic == mnemonic::CMP || i.mnemonic == mnemonic::TEST {
        is_place(i.op0.kind) && readable(i, i.op0) && readable(i, i.op1)
    } else if i.mnemonic == mnemonic::IMUL {
        i.op0.kind == kind::REGISTER && usable_reg(i.op0.reg) && readable(i, i.op1) && (
        i.op_count == 2 || (i.op_count == 3 && readable(i, i.op2)))
    } else {
        single_accepted(i)
    }
}

/// The arithmetic on two operands, shifts and conditional instructions that are
/// compiled.
pub open spec fn accepted_pair(i: Instr) -> bool {
    if arith_op(i.mnemonic) is Some || shift_kind(i.mnemonic) is Some {
        pair_accepted(i)
    } else if cmov_cond(i.mnemonic) is Some {
        i.op0.kind == kind::REGISTER && usable_reg(i.op0.reg) && readable(i, i.op1)
    } else {
        writable(i, i.op0)
    }
}

/// The vector instructions that are compiled.
pub open spec fn accepted_vector(i: Instr) -> bool {
    if vector_move(i) is Some {
        vector_readable(i, i.op1) && vector_readable(i, i.op0)
    } else if i.mnemonic == mnemonic::MOVQ || i.mnemonic == mnemonic::MOVD {
        transfer_readable(i, i.op1) && transfer_writable(i, i.op0)
    } else {
        (vector_bit(i.mnemonic) is Some || vector_fp(i.mnemonic) is Some) && i.op0.kind
            == kind::REGISTER && vector_index(i.op0.reg) is Some && vector_readable(i, i.op1)
    }
}

/// The operands of an instruction have sizes that go together, as a decoder gives
/// them.
pub open spec fn regular(i: Instr) -> bool {
    if does_nothing(i.mnemonic) {
        true
    } else if i.mnemonic == mnemonic::PUSH || i.mnemonic == mnemonic::POP {
        stack_regular(i)
    } else if i.mnemonic == mnemonic::XCHG {
        xchg_regular(i)
    } else if i.mnemonic == mnemonic::IMUL {
        imul_regular(i)
    } else if setcc_cond(i.mnemonic) is Some {
        setcc_regular(i)
    } else if i.mnemonic == mnemonic::MOV || i.mnemonic == mnemonic::CMP || i.mnemonic
        == mnemonic::TEST || arith_op(i.mnemonic) is Some || cmov_cond(i.mnemonic) is Some {
        pair_regular(i)
    } else {
        memory_regular(i)
    }
}

/// Whether the operands of an instruction have sizes that go together.
fn is_regular(i: &Instr) -> (r: bool)
    ensures
        r == regular(*i),
{
    match i.mnemonic {
        mnemonic::NOP | mnemonic::ENDBR64 | mnemonic::ENDBR32 => true,
        mnemonic::PUSH | mnemonic::POP => is_stack_regular(i),
        mnemonic::XCHG => is_xchg_regular(i),
        mnemonic::IMUL => is_imul_regular(i),
        mnemonic::MOV | mnemonic::CMP | mnemonic::TEST => is_pair_regular(i),
        m => {
            if setcc_condition(m).is_some() {
                is_setcc_regular(i)
            } else if arith_of(m).is_some() || cmov_condition(m).is_some() {
                is_pair_regular(i)
            } else {
                is_memory_regular(i)
            }
        },
    }
}

/// The instructions that are compiled. The others are left to the interpreter, and
/// so is a block that they stand in.
pub open spec fn accepted(i: Instr) -> bool {
    regular(i) && if in_moves(i.mnemonic) {
        accepted_move(i)
    } else if in_unary(i.mnemonic) {
        accepted_unary(i)
    } else if in_pairs(i.mnemonic) {
        accepted_pair(i)
    } else {
        accepted_vector(i)
    }
}

/// What a compiled move does.
pub open spec fn compiled_move(s: Machine, i: Instr) -> Next {
    if does_nothing(i.mnemonic) {
        s.done()
    } else if i.mnemonic == mnemonic::MOV {
        after_mov(s, i)
    } else if i.mnemonic == mnemonic::LEA {
        after_lea(s, i)
    } else if i.mnemonic == mnemonic::PUSH {
        after_push_op(s, i)
    } else if i.mnemonic == mnemonic::POP {
        after_pop_op(s, i)
    } else if i.mnemonic == mnemonic::XCHG {
        after_xchg(s, i)
    } else {
        after_movx(s, i, i.mnemonic != mnemonic::MOVZX)
    }
}

/// What compiled arithmetic on one operand, a comparison or a multiplication does.
pub open spec fn compiled_unary(s: Machine, i: Instr) -> Next {
    if i.mnemonic == mnemonic::NOT {
        after_not(s, i)
    } else if i.mnemonic == mnemonic::NEG {
        after_neg(s, i)
    } else if i.mnemonic == mnemonic::CMP {
        after_arith(s, i, ArithOp::Compare)
    } else if i.mnemonic == mnemonic::TEST {
        after_test(s, i)
    } else if i.mnemonic == mnemonic::IMUL {
        after_imul(s, i)
    } else {
        after_inc_dec(s, i, i.mnemonic == mnemonic::INC)
    }
}

/// What compiled arithmetic on two operands, a shift or a conditional instruction
/// does.
pub open spec fn compiled_pair(s: Machine, i: Instr) -> Next {
    if arith_op(i.mnemonic) is Some {
        after_arith(s, i, arith_op(i.mnemonic)->0)
    } else if shift_kind(i.mnemonic) is Some {
        after_shift_eager(s, i, shift_kind(i.mnemonic)->0)
    } else if cmov_cond(i.mnemonic) is Some {
        after_cmov_eager(s, i, holds(cmov_cond(i.mnemonic)->0, s.regs))
    } else {
        after_setcc(s, i, holds(setcc_cond(i.mnemonic)->0, s.regs))
    }
}

/// What a compiled vector instruction does.
pub open spec fn compiled_vector(
    s: Machine,
    i: Instr,
    fp: spec_fn(u8, bool, u64, u64) -> u64,
) -> Next {
    if vector_move(i) is Some {
        let (n, merge) = vector_move(i).unwrap();
        after_vector_move(s, i, n as int, merge)
    } else if i.mnemonic == mnemonic::MOVQ {
        after_transfer(s, i, 8)
    } else if i.mnemonic == mnemonic::MOVD {
        after_transfer(s, i, 4)
    } else if vector_bit(i.mnemonic) is Some {
        after_vector_bit(s, i, vector_bit(i.mnemonic)->0)
    } else if vector_fp(i.mnemonic) is Some {
        after_vector_fp(s, i, vector_fp(i.mnemonic)->0, fp)
    } else {
        s.failed(Fault::Cpu("not lowerable"@))
    }
}

/// What the compiled instruction does to the machine. Where compiled code takes an
/// instruction for another one, that one is meant.
pub open spec fn compiled(s: Machine, i: Instr, fp: spec_fn(u8, bool, u64, u64) -> u64) -> Next {
    if in_moves(i.mnemonic) {
        compiled_move(s, i)
    } else if in_unary(i.mnemonic) {
        compiled_unary(s, i)
    } else if in_pairs(i.mnemonic) {
        compiled_pair(s, i)
    } else {
        compiled_vector(s, i, fp)
    }
}

/// An instruction whose flags are computed at once.
pub open spec fn at_once(i: Instr) -> bool {
    i.mnemonic == mnemonic::ADC || i.mnemonic == mnemonic::SBB || i.mnemonic == mnemonic::IMUL
}

/// An instruction before which pending flags are computed.
pub open spec fn flags_first(i: Instr) -> bool {
    ||| at_once(i)
    ||| i.mnemonic == mnemonic::INC || i.mnemonic == mnemonic::DEC || i.mnemonic == mnemonic::TEST
    ||| i.mnemonic == mnemonic::XOR || i.mnemonic == mnemonic::AND || i.mnemonic == mnemonic::OR
    ||| shift_kind(i.mnemonic) is Some
    ||| cmov_cond(i.mnemonic) is Some
    ||| setcc_cond(i.mnemonic) is Some
}

/// A run does what is wanted of `i`, with pending flags computed when it needs them.
pub open spec fn performs(before: Lower, after: Lower, e: Entry, want: Next, i: Instr) -> bool {
    if at_once(i) {
        completes(before, after, e, want, i.ip)
    } else if flags_first(i) {
        settles(before, after, e, want, i.ip)
    } else {
        follows(before, after, e, want, i.ip)
    }
}

/// Compiling `i` brought `before` to `after`.
pub open spec fn lowers(before: Lower, after: Lower, i: Instr) -> bool {
    &&& after.wf()
    &&& after.code.live == before.code.live
    &&& after.code.n() <= before.code.n() + MAX_OPS
}

impl Lower {
    /// Compiles a move, a stack instruction or one that does nothing.
    fn lower_move_group(&mut self, i: &Instr) -> (r: Result<(), NotLowerable>)
        requires
            old(self).wf(),
            old(self).room(MAX_OPS as int),
            i.wf(),
            covers(old(self).code.live, *i),
            in_moves(i.mnemonic),
            regular(*i),
        ensures
            r is Ok == accepted_move(*i),
            r is Ok ==> lowers(*old(self), *final(self), *i),
            r is Ok ==> forall|e: Entry|
                #![trigger final(self).code.trap(e)]
                performs(*old(self), *final(self), e, compiled_move(old(self).machine(e), *i), *i),
    {
        proof {
            lemma_covers(self.code.live, *i);
        }
        match i.mnemonic {
            mnemonic::MOV => self.lower_mov(i),
            mnemonic::MOVZX => self.lower_movx(i, false),
            mnemonic::MOVSX | mnemonic::MOVSXD => self.lower_movx(i, true),
            mnemonic::LEA => {
                if i.op0.kind != kind::REGISTER {
                    return Err(NotLowerable);
                }
                self.lower_lea(i)
            },
            mnemonic::PUSH => self.lower_push(i),
            mnemonic::POP => self.lower_pop(i),
            mnemonic::XCHG => self.lower_xchg(i),
            _ => Ok(()),
        }
    }

    /// Compiles arithmetic on one operand, a comparison or a multiplication.
    fn lower_unary_group(&mut self, i: &Instr) -> (r: Result<(), NotLowerable>)
        requires
            old(self).wf(),
            old(self).room(MAX_OPS as int),
            i.wf(),
            covers(old(self).code.live, *i),
            in_unary(i.mnemonic),
            regular(*i),
        ensures
            r is Ok == accepted_unary(*i),
            r is Ok ==> lowers(*old(self), *final(self), *i),
            r is Ok ==> forall|e: Entry|
                #![trigger final(self).code.trap(e)]
                performs(*old(self), *final(self), e, compiled_unary(old(self).machine(e), *i), *i),
    {
        proof {
            lemma_covers(self.code.live, *i);
        }
        match i.mnemonic {
            mnemonic::NOT => self.lower_not(i),
            mnemonic::NEG => self.lower_neg_lazy(i),
            mnemonic::INC => self.lower_inc_dec_lazy(i, true),
            mnemonic::DEC => self.lower_inc_dec_lazy(i, false),
            mnemonic::CMP => self.lower_compare_lazy(i, true),
            mnemonic::TEST => self.lower_compare_lazy(i, false),
            _ => {
                if i.op0.kind != kind::REGISTER || i.op0.reg.index().is_none() || matches!(
                    i.op0.reg,
                    Reg::High8(_)
                ) {
                    return Err(NotLowerable);
                }
                self.lower_imul(i)
            },
        }
    }

    /// Compiles arithmetic on two operands, a shift or a conditional instruction.
    fn lower_pair_group(&mut self, i: &Instr) -> (r: Result<(), NotLowerable>)
        requires
            old(self).wf(),
            old(self).room(MAX_OPS as int),
            i.wf(),
            covers(old(self).code.live, *i),
            in_pairs(i.mnemonic),
            !in_moves(i.mnemonic),
            !in_unary(i.mnemonic),
            regular(*i),
        ensures
            r is Ok == accepted_pair(*i),
            r is Ok ==> lowers(*old(self), *final(self), *i),
            r is Ok ==> forall|e: Entry|
                #![trigger final(self).code.trap(e)]
                performs(*old(self), *final(self), e, compiled_pair(old(self).machine(e), *i), *i),
    {
        proof {
            lemma_covers(self.code.live, *i);
        }
        match arith_of(i.mnemonic) {
            Some(op) => {
                if op == ArithOp::Adc || op == ArithOp::Sbb {
                    return self.lower_arith(i, op);
                }
                return self.lower_arith_lazy(i, op);
            },
            None => {},
        }
        match shift_of(i.mnemonic) {
            Some(kind) => {
                return self.lower_shift_lazy(i, kind);
            },
            None => {},
        }
        match cmov_condition(i.mnemonic) {
            Some(c) => {
                return self.lower_cmov(i, c);
            },
            None => {},
        }
        match setcc_condition(i.mnemonic) {
            Some(c) => self.lower_setcc(i, c),
            None => Err(NotLowerable),
        }
    }

    /// Compiles a vector instruction.
    fn lower_vector_group(&mut self, i: &Instr) -> (r: Result<(), NotLowerable>)
        requires
            old(self).wf(),
            old(self).room(MAX_OPS as int),
            i.wf(),
            covers(old(self).code.live, *i),
            !in_moves(i.mnemonic),
            !in_unary(i.mnemonic),
            !in_pairs(i.mnemonic),
            regular(*i),
        ensures
            r is Ok == accepted_vector(*i),
            r is Ok ==> lowers(*old(self), *final(self), *i),
            r is Ok ==> forall|e: Entry|
                #![trigger final(self).code.trap(e)]
                performs(*old(self), *final(self), e, compiled_vector(old(self).machine(e), *i, e.fp), *i),
    {
        proof {
            lemma_covers(self.code.live, *i);
        }
        match vector_move_of(i) {
            Some((n, merge)) => {
                return self.lower_sse_mov(i, n, merge);
            },
            None => {},
        }
        if i.mnemonic == mnemonic::MOVQ {
            return self.lower_transfer(i, 8);
        }
        if i.mnemonic == mnemonic::MOVD {
            return self.lower_transfer(i, 4);
        }
        if i.op0.kind != kind::REGISTER {
            return Err(NotLowerable);
        }
        match sse_bit(i.mnemonic) {
            Some(op) => {
                return self.lower_sse_bitwise(i, op);
            },
            None => {},
        }
        match sse_fp(i.mnemonic) {
            Some(f) => self.lower_sse_fp(i, f),
            None => Err(NotLowerable),
        }
    }

    /// Compiles one instruction: compiled code does what [`compiled`] says, or
    /// leaves the block where an access fails.
    pub fn lower_insn(&mut self, i: &Instr) -> (r: Result<(), NotLowerable>)
        requires
            old(self).wf(),
            old(self).room(MAX_OPS as int),
            i.wf(),
            covers(old(self).code.live, *i),
        ensures
            r is Ok == accepted(*i),
            r is Ok ==> lowers(*old(self), *final(self), *i),
            r is Ok ==> forall|e: Entry|
                #![trigger final(self).code.trap(e)]
                performs(
                    *old(self),
                    *final(self),
                    e,
                    compiled(old(self).machine(e), *i, e.fp),
                    *i,
                ),
    {
        if !is_regular(i) {
            return Err(NotLowerable);
        }
        match i.mnemonic {
            mnemonic::NOP | mnemonic::ENDBR64 | mnemonic::ENDBR32 | mnemonic::MOV
            | mnemonic::MOVZX | mnemonic::MOVSX | mnemonic::MOVSXD | mnemonic::LEA
            | mnemonic::PUSH | mnemonic::POP | mnemonic::XCHG => self.lower_move_group(i),
            mnemonic::NOT | mnemonic::NEG | mnemonic::INC | mnemonic::DEC | mnemonic::CMP
            | mnemonic::TEST | mnemonic::IMUL => self.lower_unary_group(i),
            m => {
                if arith_of(m).is_some() || shift_of(m).is_some() || cmov_condition(m).is_some()
                    || setcc_condition(m).is_some() {
                    self.lower_pair_group(i)
                } else {
                    self.lower_vector_group(i)
                }
            },
        }
    }
}

} // verus!
