//! Compiling arithmetic on one operand.

use vstd::prelude::*;

use crate::exec::alu::lemma_trunc_narrow;
use crate::exec::logic::{after_inc_dec, after_neg, after_not};
use crate::exec::model::Fault;
use crate::exec::operand::{after_operand_sized, operand_bytes};
use crate::insn::instr::Instr;
use crate::insn::kind;
use crate::jit::access::{loads_operand, memory_regular, readable, writable};
use crate::jit::arith::{is_place, lemma_carry_same, reads_single};
use crate::jit::block::integer_width;
use crate::jit::flags::mask_width;
use crate::jit::ir::{bin, iconst, un, value, BinOp, Entry, UnOp};
use crate::jit::pending::lemma_overwritten;
use crate::jit::state::{follows, is_size, settles, Lower, NotLowerable, Pending};
use crate::regs::{modulus, sub_flags, trunc, with_alu_flags, with_flag, CF};

verus! {

/// Reading, computing and writing make up an increment or decrement.
proof fn lemma_inc_done(
    before: Lower,
    bound: Lower,
    after: Lower,
    e: Entry,
    i: Instr,
    inc: bool,
    a: usize,
    res: usize,
    size: u8,
)
    requires
        is_size(size),
        operand_bytes(i, 0) == Ok::<int, Fault>(size as int),
        reads_single(before, bound, e, i, a, size as int),
        bound.regs(e) == before.regs(e),
        bound.stored(e) == before.stored(e),
        bound.pending is Nothing,
        bound.code.v(e, res) == trunc(
            if inc {
                bound.code.v(e, a) + 1
            } else {
                bound.code.v(e, a) - 1
            },
            size as int,
        ),
        follows(
            bound,
            after,
            e,
            after_operand_sized(
                bound.machine(e).with_regs(
                    bound.regs(e).flags(
                        (if inc {
                            Pending::Inc { a, res, size }
                        } else {
                            Pending::Dec { a, res, size }
                        }).flushed(bound.code.vals(e)[bound.rflags as int], bound.code.vals(e)),
                    ),
                ),
                i,
                0,
                bound.code.v(e, res),
                size as int,
            ),
            i.ip,
        ),
    ensures
        follows(before, after, e, after_inc_dec(before.machine(e), i, inc), i.ip),
{
}

/// Reading, computing and writing make up a negation.
proof fn lemma_neg_done(
    before: Lower,
    bound: Lower,
    after: Lower,
    e: Entry,
    i: Instr,
    zero: usize,
    a: usize,
    res: usize,
    size: u8,
)
    requires
        is_size(size),
        operand_bytes(i, 0) == Ok::<int, Fault>(size as int),
        reads_single(before, bound, e, i, a, size as int),
        bound.regs(e) == before.regs(e),
        bound.stored(e) == before.stored(e),
        bound.code.v(e, zero) == 0,
        bound.code.v(e, res) == trunc(0 - bound.code.v(e, a), size as int),
        follows(
            bound,
            after,
            e,
            after_operand_sized(
                bound.machine(e).with_regs(
                    bound.regs(e).flags(
                        (Pending::Sub { a: zero, b: a, res, size }).flushed(
                            bound.code.vals(e)[bound.rflags as int],
                            bound.code.vals(e),
                        ),
                    ),
                ),
                i,
                0,
                bound.code.v(e, res),
                size as int,
            ),
            i.ip,
        ),
    ensures
        follows(before, after, e, after_neg(before.machine(e), i), i.ip),
{
    let vals = bound.code.vals(e);
    let d = vals[a as int] as int;
    let x = sub_flags(0, d, size as int);
    let rf = before.regs(e).rflags;
    lemma_overwritten(bound.pending, vals[bound.rflags as int], vals, x);
    lemma_carry_same(rf, x.cf, x.pf, x.af, x.zf, x.sf, x.of);
    assert(with_flag(with_alu_flags(rf, x), CF, x.cf) == with_alu_flags(rf, x));
}

impl Lower {
    /// `inc` and `dec`.
    pub(crate) fn lower_inc_dec_lazy(&mut self, i: &Instr, inc: bool) -> (r: Result<(), NotLowerable>)
        requires
            old(self).wf(),
            old(self).room(8),
            i.wf(),
            memory_regular(*i),
            loads_operand(old(self).code.live, *i, i.op0),
            old(self).code.live.flags,
        ensures
            r is Ok == (is_place(i.op0.kind) && readable(*i, i.op0) && writable(*i, i.op0)),
            r is Ok ==> {
                &&& final(self).wf()
                &&& final(self).code.live == old(self).code.live
                &&& final(self).code.n() <= old(self).code.n() + 8
                &&& forall|e: Entry|
                    #![trigger final(self).code.trap(e)]
                    settles(
                        *old(self),
                        *final(self),
                        e,
                        after_inc_dec(old(self).machine(e), *i, inc),
                        i.ip,
                    )
            },
    {
        let ghost before = *self;
        self.flush_pending();
        let ghost ready = *self;
        let (a, size): (usize, u8) = match self.read_single(i) {
            Ok(r) => r,
            Err(e) => {
                return Err(e);
            },
        };
        let ghost middle = *self;
        let op = if inc {
            BinOp::Add
        } else {
            BinOp::Sub
        };
        let x = mask_width(bin(op, value(a), iconst(1)), size);
        let ghost x0 = x;
        let res: usize = self.bind(x);
        let ghost bound = *self;
        let p = if inc {
            Pending::Inc { a, res, size }
        } else {
            Pending::Dec { a, res, size }
        };
        proof {
            assert forall|e: Entry| p.fits(#[trigger] bound.code.vals(e)) by {
                let d = middle.code.vals(e)[a as int];
                assert(bound.code.vals(e)[res as int] == x0.eval(middle.code.vals(e)));
                assert(bound.code.vals(e)[a as int] == d);
                lemma_trunc_narrow(d + 1, size as int);
                lemma_trunc_narrow(d - 1, size as int);
            }
        }
        let r = self.finish(i, res, size, p);
        proof {
            if r is Ok {
                assert forall|e: Entry|
                    #![trigger self.code.trap(e)]
                    settles(
                        before,
                        *self,
                        e,
                        after_inc_dec(before.machine(e), *i, inc),
                        i.ip,
                    ) by {
                    assert(ready.machine(e) == before.machine(e));
                    assert(ready.code.trap(e) == before.code.trap(e));
                    assert(ready.code.mem(e) == before.code.mem(e));
                    assert(ready.code.xmm(e) == before.code.xmm(e));
                    assert(middle.code.trap(e) == middle.code.trap(e));
                    assert(middle.regs(e) == ready.regs(e));
                    assert(bound.code.trap(e) == middle.code.trap(e));
                    assert(bound.code.mem(e) == middle.code.mem(e));
                    assert(bound.code.xmm(e) == middle.code.xmm(e));
                    assert(bound.regs(e) == middle.regs(e));
                    assert(bound.code.vals(e)[a as int] == middle.code.vals(e)[a as int]);
                    assert(p.fits(bound.code.vals(e)));
                    lemma_inc_done(ready, bound, *self, e, *i, inc, a, res, size);
                }
            }
        }
        r
    }

    /// `neg`.
    pub(crate) fn lower_neg_lazy(&mut self, i: &Instr) -> (r: Result<(), NotLowerable>)
        requires
            old(self).wf(),
            old(self).room(8),
            i.wf(),
            memory_regular(*i),
            loads_operand(old(self).code.live, *i, i.op0),
            old(self).code.live.flags,
        ensures
            r is Ok == (is_place(i.op0.kind) && readable(*i, i.op0) && writable(*i, i.op0)),
            r is Ok ==> {
                &&& final(self).wf()
                &&& final(self).code.live == old(self).code.live
                &&& final(self).code.n() <= old(self).code.n() + 8
                &&& forall|e: Entry|
                    #![trigger final(self).code.trap(e)]
                    follows(
                        *old(self),
                        *final(self),
                        e,
                        after_neg(old(self).machine(e), *i),
                        i.ip,
                    )
            },
    {
        let ghost before = *self;
        let (a, size): (usize, u8) = match self.read_single(i) {
            Ok(r) => r,
            Err(e) => {
                return Err(e);
            },
        };
        let ghost middle = *self;
        let zero: usize = self.bind(iconst(0));
        let ghost with_zero = *self;
        let x = mask_width(bin(BinOp::Sub, value(zero), value(a)), size);
        let ghost x0 = x;
        let res: usize = self.bind(x);
        let ghost bound = *self;
        let p = Pending::Sub { a: zero, b: a, res, size };
        proof {
            assert forall|e: Entry| p.fits(#[trigger] bound.code.vals(e)) by {
                let d = middle.code.vals(e)[a as int];
                assert(with_zero.code.vals(e)[a as int] == d);
                assert(with_zero.code.vals(e)[zero as int] == 0);
                assert(bound.code.vals(e)[res as int] == x0.eval(with_zero.code.vals(e)));
                assert(bound.code.vals(e)[a as int] == d);
                assert(bound.code.vals(e)[zero as int] == 0);
                lemma_trunc_narrow(0 - d, size as int);
            }
        }
        let r = self.finish(i, res, size, p);
        proof {
            if r is Ok {
                assert forall|e: Entry|
                    #![trigger self.code.trap(e)]
                    follows(before, *self, e, after_neg(before.machine(e), *i), i.ip) by {
                    assert(middle.code.trap(e) == middle.code.trap(e));
                    assert(middle.regs(e) == before.regs(e));
                    assert(with_zero.code.trap(e) == middle.code.trap(e));
                    assert(with_zero.code.mem(e) == middle.code.mem(e));
                    assert(with_zero.code.xmm(e) == middle.code.xmm(e));
                    assert(with_zero.regs(e) == middle.regs(e));
                    assert(bound.code.trap(e) == with_zero.code.trap(e));
                    assert(bound.code.mem(e) == with_zero.code.mem(e));
                    assert(bound.code.xmm(e) == with_zero.code.xmm(e));
                    assert(bound.regs(e) == with_zero.regs(e));
                    assert(with_zero.code.vals(e)[a as int] == middle.code.vals(e)[a as int]);
                    assert(bound.code.vals(e)[a as int] == with_zero.code.vals(e)[a as int]);
                    assert(with_zero.code.vals(e)[zero as int] == 0);
                    assert(bound.code.vals(e)[zero as int] == 0);
                    assert(p.fits(bound.code.vals(e)));
                    lemma_neg_done(before, bound, *self, e, *i, zero, a, res, size);
                }
            }
        }
        r
    }

    /// `not`.
    pub(crate) fn lower_not(&mut self, i: &Instr) -> (r: Result<(), NotLowerable>)
        requires
            old(self).wf(),
            old(self).room(6),
            i.wf(),
            memory_regular(*i),
            loads_operand(old(self).code.live, *i, i.op0),
        ensures
            r is Ok == (is_place(i.op0.kind) && readable(*i, i.op0) && writable(*i, i.op0)),
            r is Ok ==> {
                &&& final(self).wf()
                &&& final(self).code.live == old(self).code.live
                &&& final(self).code.n() <= old(self).code.n() + 6
                &&& forall|e: Entry|
                    #![trigger final(self).code.trap(e)]
                    follows(
                        *old(self),
                        *final(self),
                        e,
                        after_not(old(self).machine(e), *i),
                        i.ip,
                    )
            },
    {
        let ghost before = *self;
        let (a, size): (usize, u8) = match self.read_single(i) {
            Ok(r) => r,
            Err(e) => {
                return Err(e);
            },
        };
        let ghost middle = *self;
        let x = mask_width(un(UnOp::Not, value(a)), size);
        let ghost x0 = x;
        let res: usize = self.bind(x);
        let ghost bound = *self;
        let r = self.write_op_mem(i, 0, res, size);
        proof {
            if r is Ok {
                assert forall|e: Entry|
                    #![trigger self.code.trap(e)]
                    follows(before, *self, e, after_not(before.machine(e), *i), i.ip) by {
                    assert(middle.code.trap(e) == middle.code.trap(e));
                    assert(middle.regs(e) == before.regs(e));
                    assert(bound.code.trap(e) == middle.code.trap(e));
                    assert(bound.code.mem(e) == middle.code.mem(e));
                    assert(bound.code.xmm(e) == middle.code.xmm(e));
                    assert(bound.regs(e) == middle.regs(e));
                    let d = middle.code.vals(e)[a as int];
                    assert(d < modulus(size as int));
                    assert(bound.code.vals(e)[res as int] == x0.eval(middle.code.vals(e)));
                    lemma_flip(d as int, size as int);
                }
            }
        }
        r
    }
}

/// Flipping all bits and cutting down.
proof fn lemma_flip(d: int, size: int)
    requires
        integer_width(size),
        0 <= d < modulus(size),
    ensures
        trunc(u64::MAX - d, size) == modulus(size) - 1 - d,
{
    let m = modulus(size);
    let k = 0x1_0000_0000_0000_0000int / m - 1;
    assert(u64::MAX - d == m * k + (m - 1 - d));
    vstd::arithmetic::div_mod::lemma_mod_multiples_vanish(k, m - 1 - d, m);
    vstd::arithmetic::div_mod::lemma_small_mod((m - 1 - d) as nat, m as nat);
}

} // verus!
