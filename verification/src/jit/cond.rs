//! Compiling conditions, conditional instructions and exchanges.

use vstd::prelude::*;

use crate::exec::branch::{holds, Cond};
use crate::exec::logic::{after_cmov, after_setcc, after_xchg};
use crate::exec::model::{Machine, Next};
use crate::exec::operand::{after_operand, operand_value};
use crate::insn::instr::Instr;
use crate::insn::kind;
use crate::jit::access::{
    addressable, lemma_store_after_load, lemma_stored_low, loads_operand, loads_reg,
    is_memory_regular, memory_regular, operand_width, readable, usable_reg, writable,
};
use crate::jit::block::{memory_width, width_of_memory};
use crate::jit::flags::flag_set;
use crate::jit::ir::{bin, iconst, select, truth, value, BinOp, Entry, Expr, Live};
use crate::jit::moves::{lemma_gpr_bytes, lemma_set_reg_low, lemma_trunc_steps, pair_regular};
use crate::jit::state::{follows, settles, Lower, NotLowerable};
use crate::regs::{flag_of, Reg, Regs, CF, OF, PF, SF, ZF};

verus! {

/// Conditions on flags as bits.
proof fn lemma_truths(a: u64, b: u64)
    by (bit_vector)
    requires
        a == 0 || a == 1,
        b == 0 || b == 1,
    ensures
        (a & b != 0) == (a != 0 && b != 0),
        (a | b != 0) == (a != 0 || b != 0),
{
}

/// One if the flag `bit` is clear, else zero.
fn flag_clear(flags: usize, bit: u64) -> (r: Expr)
    ensures
        forall|vals: Seq<u64>|
            #[trigger] r.eval(vals) == truth(!flag_of(vals[flags as int], bit)),
        forall|n: int, l: Live| #[trigger] r.uses(n, l) == (flags < n && l.allows(flags as int)),
{
    bin(BinOp::Equal, bin(BinOp::And, value(flags), iconst(bit)), iconst(0))
}

/// Not zero exactly if both conditions hold.
pub fn both(a: Expr, b: Expr) -> (r: Expr)
    requires
        forall|vals: Seq<u64>| #[trigger] a.eval(vals) <= 1,
        forall|vals: Seq<u64>| #[trigger] b.eval(vals) <= 1,
    ensures
        forall|vals: Seq<u64>|
            (#[trigger] r.eval(vals) != 0) == (a.eval(vals) != 0 && b.eval(vals) != 0),
        forall|n: int, l: Live| #[trigger] r.uses(n, l) == (a.uses(n, l) && b.uses(n, l)),
{
    let ghost a0 = a;
    let ghost b0 = b;
    let r = bin(BinOp::And, a, b);
    proof {
        assert forall|vals: Seq<u64>|
            (#[trigger] r.eval(vals) != 0) == (a0.eval(vals) != 0 && b0.eval(vals) != 0) by {
            lemma_truths(a0.eval(vals), b0.eval(vals));
        }
    }
    r
}

/// Not zero exactly if one of the conditions holds.
pub fn either(a: Expr, b: Expr) -> (r: Expr)
    requires
        forall|vals: Seq<u64>| #[trigger] a.eval(vals) <= 1,
        forall|vals: Seq<u64>| #[trigger] b.eval(vals) <= 1,
    ensures
        forall|vals: Seq<u64>|
            (#[trigger] r.eval(vals) != 0) == (a.eval(vals) != 0 || b.eval(vals) != 0),
        forall|n: int, l: Live| #[trigger] r.uses(n, l) == (a.uses(n, l) && b.uses(n, l)),
{
    let ghost a0 = a;
    let ghost b0 = b;
    let r = bin(BinOp::Or, a, b);
    proof {
        assert forall|vals: Seq<u64>|
            (#[trigger] r.eval(vals) != 0) == (a0.eval(vals) != 0 || b0.eval(vals) != 0) by {
            lemma_truths(a0.eval(vals), b0.eval(vals));
        }
    }
    r
}

/// Not zero exactly if a condition on the flags holds, which the value `flags`
/// holds.
pub fn flag_cond(flags: usize, c: Cond) -> (r: Expr)
    ensures
        forall|vals: Seq<u64>, regs: Regs|
            #![trigger r.eval(vals), holds(c, regs)]
            regs.rflags == vals[flags as int] ==> (r.eval(vals) != 0) == holds(c, regs),
        forall|n: int, l: Live| #[trigger] r.uses(n, l) == (flags < n && l.allows(flags as int)),
{
    match c {
        Cond::Equal => flag_set(value(flags), ZF),
        Cond::NotEqual => flag_clear(flags, ZF),
        Cond::Above => both(flag_clear(flags, CF), flag_clear(flags, ZF)),
        Cond::AboveEqual => flag_clear(flags, CF),
        Cond::Below => flag_set(value(flags), CF),
        Cond::BelowEqual => either(flag_set(value(flags), CF), flag_set(value(flags), ZF)),
        Cond::Greater => both(
            flag_clear(flags, ZF),
            bin(BinOp::Equal, flag_set(value(flags), SF), flag_set(value(flags), OF)),
        ),
        Cond::GreaterEqual => bin(
            BinOp::Equal,
            flag_set(value(flags), SF),
            flag_set(value(flags), OF),
        ),
        Cond::Less => bin(BinOp::Differ, flag_set(value(flags), SF), flag_set(value(flags), OF)),
        Cond::LessEqual => either(
            flag_set(value(flags), ZF),
            bin(BinOp::Differ, flag_set(value(flags), SF), flag_set(value(flags), OF)),
        ),
        Cond::Overflow => flag_set(value(flags), OF),
        Cond::NoOverflow => flag_clear(flags, OF),
        Cond::Sign => flag_set(value(flags), SF),
        Cond::NoSign => flag_clear(flags, SF),
        Cond::Parity => flag_set(value(flags), PF),
        Cond::NoParity => flag_clear(flags, PF),
    }
}

/// A conditional move as compiled code does it: the second operand is read
/// whether or not the condition holds.
pub open spec fn after_cmov_eager(s: Machine, i: Instr, taken: bool) -> Next {
    match operand_value(s, i, 1) {
        Err(f) => s.failed(f),
        Ok(v) => if taken {
            after_operand(s, i, 0, v)
        } else {
            s.done()
        },
    }
}

/// Where its operand can be read, a compiled conditional move does what the
/// instruction does.
pub proof fn eager_cmov_is_cmov(s: Machine, i: Instr, taken: bool)
    requires
        operand_value(s, i, 1) is Ok,
    ensures
        after_cmov_eager(s, i, taken) == after_cmov(s, i, taken),
{
}

/// The operands of an exchange have the same width, and memory comes first.
pub open spec fn xchg_regular(i: Instr) -> bool {
    &&& memory_regular(i)
    &&& i.op0.kind == kind::REGISTER ==> i.op1.kind == kind::REGISTER && i.op0.reg.bytes()
        == i.op1.reg.bytes()
    &&& i.op0.kind == kind::MEMORY ==> memory_width(i) == Some(i.op1.reg.bytes())
}

/// Whether the operands of an exchange have the same width.
pub fn is_xchg_regular(i: &Instr) -> (r: bool)
    ensures
        r == xchg_regular(*i),
{
    if !is_memory_regular(i) {
        return false;
    }
    match i.op0.kind {
        kind::REGISTER => i.op1.kind == kind::REGISTER && i.op0.reg.size() == i.op1.reg.size(),
        kind::MEMORY => match width_of_memory(i) {
            Some(n) => n == i.op1.reg.size(),
            None => false,
        },
        _ => true,
    }
}

/// `setcc` writes one byte.
pub open spec fn setcc_regular(i: Instr) -> bool {
    memory_regular(i) && (i.op0.kind == kind::MEMORY ==> memory_width(i) == Some(1int))
}

/// Whether the operand of `setcc` is a byte if it is in memory.
pub fn is_setcc_regular(i: &Instr) -> (r: bool)
    ensures
        r == setcc_regular(*i),
{
    is_memory_regular(i) && (i.op0.kind != kind::MEMORY || matches!(width_of_memory(i), Some(1)))
}

impl Lower {
    /// Not zero exactly if a condition on the flags holds. No flags are pending.
    pub fn bind_cond(&mut self, c: Cond) -> (v: usize)
        requires
            old(self).wf(),
            old(self).room(1),
            old(self).pending is Nothing,
            old(self).code.live.flags,
        ensures
            final(self).wf(),
            old(self).computes(*final(self)),
            final(self).code.n() == old(self).code.n() + 1,
            final(self).code.has(v),
            forall|e: Entry| #[trigger] final(self).regs(e) == old(self).regs(e),
            forall|e: Entry| #[trigger] final(self).machine(e) == old(self).machine(e),
            forall|e: Entry|
                (#[trigger] final(self).code.vals(e)[v as int] != 0) == holds(
                    c,
                    old(self).regs(e),
                ),
    {
        let ghost before = *self;
        let x = flag_cond(self.rflags, c);
        let ghost x0 = x;
        let v: usize = self.bind(x);
        proof {
            assert forall|e: Entry|
                (#[trigger] self.code.vals(e)[v as int] != 0) == holds(c, before.regs(e)) by {
                assert(self.code.vals(e)[v as int] == x0.eval(before.code.vals(e)));
            }
        }
        v
    }

    /// `cmovcc`.
    pub(crate) fn lower_cmov(&mut self, i: &Instr, c: Cond) -> (r: Result<(), NotLowerable>)
        requires
            old(self).wf(),
            old(self).room(8),
            i.wf(),
            pair_regular(*i),
            loads_operand(old(self).code.live, *i, i.op0),
            loads_operand(old(self).code.live, *i, i.op1),
            old(self).code.live.flags,
        ensures
            r is Ok == (i.op0.kind == kind::REGISTER && usable_reg(i.op0.reg) && readable(
                *i,
                i.op1,
            )),
            r is Ok ==> {
                &&& final(self).wf()
                &&& final(self).code.live == old(self).code.live
                &&& final(self).code.n() <= old(self).code.n() + 8
                &&& forall|e: Entry|
                    #![trigger final(self).code.trap(e)]
                    settles(
                        *old(self),
                        *final(self),
                        e,
                        after_cmov_eager(
                            old(self).machine(e),
                            *i,
                            holds(c, old(self).regs(e)),
                        ),
                        i.ip,
                    )
            },
    {
        if i.op0.kind != kind::REGISTER {
            return Err(NotLowerable);
        }
        let ghost before = *self;
        self.flush_pending();
        let ghost flushed = *self;
        let cond: usize = self.bind_cond(c);
        let ghost with_cond = *self;
        let v: usize = match self.read_op_mem(i, 1) {
            Ok(v) => v,
            Err(e) => {
                return Err(e);
            },
        };
        let ghost middle = *self;
        let k: usize = match i.op0.reg.index() {
            Some(k) => k,
            None => {
                return Err(NotLowerable);
            },
        };
        assert(self.code.has(self.gpr@[k as int]));
        let held: usize = self.gpr[k];
        match self.write_gpr(i.op0.reg, v) {
            Ok(()) => {},
            Err(e) => {
                return Err(e);
            },
        }
        let ghost written = *self;
        assert(self.code.has(self.gpr@[k as int]));
        let new: usize = self.gpr[k];
        let chosen: usize = self.bind(select(value(cond), value(new), value(held)));
        let ghost bound = *self;
        let r = self.write_gpr(Reg::Qword(k as u8), chosen);
        assert(r is Ok);
        proof {
            assert forall|e: Entry|
                #![trigger self.code.trap(e)]
                settles(
                    before,
                    *self,
                    e,
                    after_cmov_eager(before.machine(e), *i, holds(c, before.regs(e))),
                    i.ip,
                ) by {
                let s = before.machine(e);
                assert(flushed.machine(e) == s && flushed.regs(e) == before.regs(e));
                assert(with_cond.machine(e) == s && with_cond.regs(e) == before.regs(e));
                assert(flushed.code.trap(e) == before.code.trap(e));
                assert(flushed.code.mem(e) == before.code.mem(e));
                assert(flushed.code.xmm(e) == before.code.xmm(e));
                assert(with_cond.code.trap(e) == flushed.code.trap(e));
                assert(with_cond.code.mem(e) == flushed.code.mem(e));
                assert(with_cond.code.xmm(e) == flushed.code.xmm(e));
                assert(middle.code.trap(e) == middle.code.trap(e));
                assert(middle.regs(e) == before.regs(e));
                assert(written.code.trap(e) == middle.code.trap(e));
                assert(written.code.mem(e) == middle.code.mem(e));
                assert(written.code.xmm(e) == middle.code.xmm(e));
                assert(bound.code.trap(e) == written.code.trap(e));
                assert(bound.code.mem(e) == written.code.mem(e));
                assert(bound.code.xmm(e) == written.code.xmm(e));
                assert(self.code.mem(e) == bound.code.mem(e));
                assert(self.code.xmm(e) == bound.code.xmm(e));
                assert(bound.regs(e) == written.regs(e));
                let taken = holds(c, before.regs(e));
                assert((with_cond.code.vals(e)[cond as int] != 0) == taken);
                assert(written.code.vals(e)[cond as int] == with_cond.code.vals(e)[cond as int])
                    by {
                    assert(middle.code.vals(e)[cond as int] == with_cond.code.vals(
                        e,
                    )[cond as int]);
                }
                assert(written.code.vals(e)[held as int] == middle.code.vals(e)[held as int]);
                assert(middle.regs(e).gpr[k as int] == middle.code.vals(e)[held as int]);
                let raw = middle.code.v(e, v);
                assert(Some(written.regs(e)) == middle.regs(e).set_reg(i.op0.reg, raw));
                assert(written.regs(e).gpr[k as int] == written.code.vals(e)[new as int]);
                assert(bound.code.vals(e)[chosen as int] == if taken {
                    written.code.vals(e)[new as int]
                } else {
                    written.code.vals(e)[held as int]
                });
                assert(Some(self.regs(e)) == bound.regs(e).set_reg(
                    Reg::Qword(k as u8),
                    bound.code.v(e, chosen),
                ));
                if before.code.trap(e) is None && middle.code.trap(e) is None {
                    let x = operand_value(s, *i, 1)->Ok_0;
                    lemma_gpr_bytes(i.op0.reg);
                    if i.op1.kind == kind::REGISTER {
                        lemma_gpr_bytes(i.op1.reg);
                    }
                    lemma_trunc_steps(raw as int, operand_width(i.op1), i.op0.reg.bytes());
                    lemma_set_reg_low(before.regs(e), i.op0.reg, raw, x);
                    assert(self.regs(e).gpr =~= if taken {
                        written.regs(e).gpr
                    } else {
                        before.regs(e).gpr
                    });
                }
            }
        }
        r
    }

    /// `setcc`.
    pub(crate) fn lower_setcc(&mut self, i: &Instr, c: Cond) -> (r: Result<(), NotLowerable>)
        requires
            old(self).wf(),
            old(self).room(6),
            i.wf(),
            setcc_regular(*i),
            loads_operand(old(self).code.live, *i, i.op0),
            old(self).code.live.flags,
        ensures
            r is Ok == writable(*i, i.op0),
            r is Ok ==> {
                &&& final(self).wf()
                &&& final(self).code.live == old(self).code.live
                &&& final(self).code.n() <= old(self).code.n() + 6
                &&& forall|e: Entry|
                    #![trigger final(self).code.trap(e)]
                    settles(
                        *old(self),
                        *final(self),
                        e,
                        after_setcc(old(self).machine(e), *i, holds(c, old(self).regs(e))),
                        i.ip,
                    )
            },
    {
        let ghost before = *self;
        self.flush_pending();
        let ghost flushed = *self;
        let cond: usize = self.bind_cond(c);
        let ghost with_cond = *self;
        let v: usize = self.bind(select(value(cond), iconst(1), iconst(0)));
        let ghost bound = *self;
        let r = self.write_op_mem(i, 0, v, 1);
        proof {
            if r is Ok {
                assert forall|e: Entry|
                    #![trigger self.code.trap(e)]
                    settles(
                        before,
                        *self,
                        e,
                        after_setcc(before.machine(e), *i, holds(c, before.regs(e))),
                        i.ip,
                    ) by {
                    let s = before.machine(e);
                    assert(flushed.machine(e) == s && flushed.regs(e) == before.regs(e));
                    assert(with_cond.machine(e) == s && bound.machine(e) == s);
                    assert(flushed.code.trap(e) == before.code.trap(e));
                    assert(flushed.code.mem(e) == before.code.mem(e));
                    assert(flushed.code.xmm(e) == before.code.xmm(e));
                    assert(with_cond.code.trap(e) == flushed.code.trap(e));
                    assert(with_cond.code.mem(e) == flushed.code.mem(e));
                    assert(with_cond.code.xmm(e) == flushed.code.xmm(e));
                    assert(bound.code.trap(e) == with_cond.code.trap(e));
                    assert(bound.code.mem(e) == with_cond.code.mem(e));
                    assert(bound.code.xmm(e) == with_cond.code.xmm(e));
                    let taken = holds(c, before.regs(e));
                    assert((with_cond.code.vals(e)[cond as int] != 0) == taken);
                    assert(bound.code.vals(e)[v as int] == truth(taken));
                }
            }
        }
        r
    }

    /// `xchg`.
    pub(crate) fn lower_xchg(&mut self, i: &Instr) -> (r: Result<(), NotLowerable>)
        requires
            old(self).wf(),
            old(self).room(4),
            i.wf(),
            xchg_regular(*i),
            loads_operand(old(self).code.live, *i, i.op0),
            loads_operand(old(self).code.live, *i, i.op1),
        ensures
            r is Ok ==> {
                &&& final(self).wf()
                &&& final(self).code.live == old(self).code.live
                &&& final(self).code.n() <= old(self).code.n() + 4
                &&& forall|e: Entry|
                    #![trigger final(self).code.trap(e)]
                    follows(
                        *old(self),
                        *final(self),
                        e,
                        after_xchg(old(self).machine(e), *i),
                        i.ip,
                    )
            },
            r is Ok == ((i.op0.kind == kind::REGISTER && i.op1.kind == kind::REGISTER
                && usable_reg(i.op0.reg) && usable_reg(i.op1.reg)) || (i.op0.kind == kind::MEMORY
                && i.op1.kind == kind::REGISTER && addressable(*i) && usable_reg(i.op1.reg))),
    {
        match (i.op0.kind, i.op1.kind) {
            (kind::REGISTER, kind::REGISTER) => self.lower_xchg_registers(i),
            (kind::MEMORY, kind::REGISTER) => self.lower_xchg_memory(i),
            _ => Err(NotLowerable),
        }
    }

    /// `xchg` of two registers.
    fn lower_xchg_registers(&mut self, i: &Instr) -> (r: Result<(), NotLowerable>)
        requires
            old(self).wf(),
            old(self).room(2),
            i.wf(),
            i.op0.kind == kind::REGISTER,
            i.op1.kind == kind::REGISTER,
            i.op0.reg.bytes() == i.op1.reg.bytes(),
            loads_reg(old(self).code.live, i.op0.reg),
            loads_reg(old(self).code.live, i.op1.reg),
        ensures
            r is Ok == (usable_reg(i.op0.reg) && usable_reg(i.op1.reg)),
            r is Ok ==> {
                &&& final(self).wf()
                &&& final(self).code.live == old(self).code.live
                &&& final(self).code.n() <= old(self).code.n() + 2
                &&& forall|e: Entry|
                    #![trigger final(self).code.trap(e)]
                    follows(
                        *old(self),
                        *final(self),
                        e,
                        after_xchg(old(self).machine(e), *i),
                        i.ip,
                    )
            },
    {
        let ghost before = *self;
        let (k0, k1) = match (i.op0.reg.index(), i.op1.reg.index()) {
            (Some(k0), Some(k1)) => (k0, k1),
            _ => {
                return Err(NotLowerable);
            },
        };
        assert(self.code.has(self.gpr@[k0 as int]) && self.code.has(self.gpr@[k1 as int]));
        let v0: usize = self.gpr[k0];
        let v1: usize = self.gpr[k1];
        match self.write_gpr(i.op0.reg, v1) {
            Ok(()) => {},
            Err(e) => {
                return Err(e);
            },
        }
        let ghost middle = *self;
        let r = self.write_gpr(i.op1.reg, v0);
        proof {
            if r is Ok && i.op0.reg.bytes() == i.op1.reg.bytes() {
                assert forall|e: Entry|
                    #![trigger self.code.trap(e)]
                    follows(before, *self, e, after_xchg(before.machine(e), *i), i.ip) by {
                    let regs = before.regs(e);
                    let a = before.code.v(e, v0);
                    let b = before.code.v(e, v1);
                    assert(regs.gpr[k0 as int] == a && regs.gpr[k1 as int] == b);
                    assert(middle.code.trap(e) == before.code.trap(e));
                    assert(middle.code.mem(e) == before.code.mem(e));
                    assert(middle.code.xmm(e) == before.code.xmm(e));
                    assert(self.code.mem(e) == middle.code.mem(e));
                    assert(self.code.xmm(e) == middle.code.xmm(e));
                    assert(middle.code.v(e, v0) == a);
                    assert(Some(middle.regs(e)) == regs.set_reg(i.op0.reg, b));
                    assert(Some(self.regs(e)) == middle.regs(e).set_reg(i.op1.reg, a));
                    let n = i.op0.reg.bytes();
                    lemma_gpr_bytes(i.op0.reg);
                    lemma_trunc_steps(a as int, n, n);
                    lemma_trunc_steps(b as int, n, n);
                    let x = regs.reg(i.op0.reg)->0;
                    let y = regs.reg(i.op1.reg)->0;
                    lemma_set_reg_low(regs, i.op0.reg, b, y);
                    lemma_set_reg_low(middle.regs(e), i.op1.reg, a, x);
                }
            }
        }
        r
    }

    /// `xchg` of memory and a register.
    fn lower_xchg_memory(&mut self, i: &Instr) -> (r: Result<(), NotLowerable>)
        requires
            old(self).wf(),
            old(self).room(4),
            i.wf(),
            xchg_regular(*i),
            i.op0.kind == kind::MEMORY,
            i.op1.kind == kind::REGISTER,
            loads_reg(old(self).code.live, i.op1.reg),
            crate::jit::access::loads_address(old(self).code.live, *i),
        ensures
            r is Ok == (addressable(*i) && usable_reg(i.op1.reg)),
            r is Ok ==> {
                &&& final(self).wf()
                &&& final(self).code.live == old(self).code.live
                &&& final(self).code.n() <= old(self).code.n() + 4
                &&& forall|e: Entry|
                    #![trigger final(self).code.trap(e)]
                    follows(
                        *old(self),
                        *final(self),
                        e,
                        after_xchg(old(self).machine(e), *i),
                        i.ip,
                    )
            },
    {
        let ghost before = *self;
        let k: usize = match i.op1.reg.index() {
            Some(k) => k,
            None => {
                return Err(NotLowerable);
            },
        };
        let size: u8 = match i.op1.reg.size() {
            1 => 1,
            2 => 2,
            4 => 4,
            _ => 8,
        };
        let x = match self.effective_addr(i) {
            Ok(x) => x,
            Err(e) => {
                return Err(e);
            },
        };
        let ghost x0 = x;
        let addr: usize = self.bind(x);
        let ghost bound = *self;
        let v: usize = self.call_load(addr, size, i.ip);
        let ghost middle = *self;
        assert(self.code.has(self.gpr@[k as int]));
        let held: usize = self.gpr[k];
        match self.write_gpr(i.op1.reg, v) {
            Ok(()) => {},
            Err(e) => {
                return Err(e);
            },
        }
        let ghost written = *self;
        self.call_store(addr, size, held, i.ip);
        proof {
            assert forall|e: Entry|
                #![trigger self.code.trap(e)]
                follows(before, *self, e, after_xchg(before.machine(e), *i), i.ip) by {
                let s = before.machine(e);
                let regs = before.regs(e);
                let a = x0.eval(before.code.vals(e));
                let n = i.op1.reg.bytes();
                assert(bound.code.trap(e) == before.code.trap(e));
                assert(bound.code.mem(e) == before.code.mem(e));
                assert(bound.code.xmm(e) == before.code.xmm(e));
                assert(bound.regs(e) == regs);
                assert(middle.regs(e) == regs);
                assert(middle.code.trap(e) == middle.code.trap(e));
                assert(bound.code.v(e, addr) == a);
                assert(operand_value(s, *i, 0) == crate::exec::access::loaded(
                    s.mem,
                    a,
                    n,
                ));
                assert(written.code.trap(e) == middle.code.trap(e));
                assert(written.code.mem(e) == middle.code.mem(e));
                assert(written.code.xmm(e) == middle.code.xmm(e));
                assert(self.regs(e) == written.regs(e));
                assert(written.code.v(e, addr) == a) by {
                    assert(middle.code.vals(e)[addr as int] == bound.code.vals(
                        e,
                    )[addr as int]);
                }
                assert(written.code.v(e, held) == regs.gpr[k as int]) by {
                    assert(middle.code.vals(e)[held as int] == regs.gpr[k as int]);
                }
                if before.code.trap(e) is None && middle.code.trap(e) is None {
                    let raw = regs.gpr[k as int];
                    let y = regs.reg(i.op1.reg)->0;
                    let w = middle.code.v(e, v);
                    lemma_gpr_bytes(i.op1.reg);
                    lemma_trunc_steps(raw as int, n, n);
                    lemma_stored_low(s.mem, a, raw, y, n);
                    lemma_stored_low(s.mem, a, y, raw, n);
                    lemma_store_after_load(s.mem, a, raw, n);
                    assert(Some(written.regs(e)) == regs.set_reg(i.op1.reg, w));
                }
            }
        }
        Ok(())
    }
}

} // verus!
