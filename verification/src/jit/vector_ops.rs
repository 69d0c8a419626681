//! Compiling transfers to and from vector registers, and operations on them.

use vstd::prelude::*;

use crate::exec::access::after_store;
use crate::exec::model::{Machine, Next};
use crate::exec::operand::{address_of, after_register};
use crate::insn::instr::{Instr, Operand};
use crate::insn::kind;
use crate::jit::access::{addressable, usable_reg};
use crate::jit::block::{address_ok, SseBit, SseFp};
use crate::jit::carry::lemma_computes_chain;
use crate::jit::flags::lemma_masks;
use crate::jit::ir::{bin, iconst, un, value, BinOp, Entry, UnOp};
use crate::jit::shift_flags::lemma_trunc_fits;
use crate::jit::state::{follows, lemma_computes, reads, Lower, NotLowerable};
use crate::jit::vector::{
    after_transfer, after_vector_bit, after_vector_fp, bit_op, float_lanes, float_result,
    loads_vector, merge_low, transfer_source, vector_index, vector_readable, with_vector, xmm_high,
    xmm_index, xmm_low,
};
use crate::regs::trunc;

verus! {

/// A source of `movq` or `movd` that compiled code can read.
pub open spec fn transfer_readable(i: Instr, o: Operand) -> bool {
    if o.kind == kind::REGISTER {
        vector_index(o.reg) is Some || o.reg.gpr_index() is Some
    } else {
        o.kind == kind::MEMORY && addressable(i)
    }
}

/// A destination of `movq` or `movd` that compiled code can write.
pub open spec fn transfer_writable(i: Instr, o: Operand) -> bool {
    if o.kind == kind::REGISTER {
        vector_index(o.reg) is Some || usable_reg(o.reg)
    } else {
        o.kind == kind::MEMORY && addressable(i)
    }
}

impl Lower {
    /// Reads the source of `movq` (`n` is 8) or `movd` (`n` is 4).
    fn read_transfer(&mut self, i: &Instr, n: u8) -> (r: Result<usize, NotLowerable>)
        requires
            old(self).wf(),
            old(self).room(2),
            i.wf(),
            address_ok(*i),
            loads_vector(old(self).code.live, *i, i.op1),
            n == 4 || n == 8,
        ensures
            r is Ok == transfer_readable(*i, i.op1),
            r matches Ok(v) ==> {
                &&& final(self).wf()
                &&& old(self).same_maps(*final(self))
                &&& old(self).code.grows(final(self).code)
                &&& final(self).code.n() <= old(self).code.n() + 2
                &&& final(self).code.has(v)
                &&& forall|e: Entry| #[trigger] final(self).regs(e) == old(self).regs(e)
                &&& forall|e: Entry|
                    #![trigger final(self).code.trap(e)]
                    reads(
                        *old(self),
                        *final(self),
                        e,
                        transfer_source(old(self).machine(e), *i, n as int),
                        v,
                        8,
                        i.ip,
                    )
            },
    {
        let ghost before = *self;
        match i.op1.kind {
            kind::REGISTER => match xmm_index(i.op1.reg) {
                Some(k) => {
                    let (low, _high): (usize, usize) = self.read_xmm_pair(k);
                    proof {
                        assert forall|e: Entry|
                            #![trigger self.code.trap(e)]
                            reads(
                                before,
                                *self,
                                e,
                                transfer_source(before.machine(e), *i, n as int),
                                low,
                                8,
                                i.ip,
                            ) by {
                            assert(self.code.vals(e) == self.code.vals(e));
                        }
                    }
                    Ok(low)
                },
                None => match i.op1.reg.index() {
                    Some(k) => {
                        assert(self.code.has(self.gpr@[k as int]));
                        let v: usize = self.gpr[k];
                        proof {
                            assert forall|e: Entry|
                                #![trigger self.code.trap(e)]
                                reads(
                                    before,
                                    *self,
                                    e,
                                    transfer_source(before.machine(e), *i, n as int),
                                    v,
                                    8,
                                    i.ip,
                                ) by {
                                let x = self.code.v(e, v);
                                assert(before.machine(e).regs.gpr[k as int] == x);
                                assert(transfer_source(before.machine(e), *i, n as int)
                                    is Ok);
                                assert(transfer_source(before.machine(e), *i, n as int)->Ok_0 == x);
                                assert(trunc(x as int, 8) == x);
                            }
                        }
                        Ok(v)
                    },
                    None => Err(NotLowerable),
                },
            },
            kind::MEMORY => {
                let x = match self.effective_addr(i) {
                    Ok(x) => x,
                    Err(e) => {
                        return Err(e);
                    },
                };
                let ghost x0 = x;
                let addr: usize = self.bind(x);
                let ghost middle = *self;
                let v: usize = self.call_load(addr, n, i.ip);
                proof {
                    assert forall|e: Entry, v: int| 0 <= v < before.code.n() implies #[trigger] self.code.vals(
                        e,
                    )[v] == before.code.vals(e)[v] by {
                        assert(middle.code.vals(e)[v] == before.code.vals(e)[v]);
                    }
                    assert forall|e: Entry| #[trigger] self.regs(e) == before.regs(e) by {
                        assert(middle.regs(e) == before.regs(e));
                    }
                    assert forall|e: Entry|
                        #![trigger self.code.trap(e)]
                        reads(
                            before,
                            *self,
                            e,
                            transfer_source(before.machine(e), *i, n as int),
                            v,
                            8,
                            i.ip,
                        ) by {
                        assert(x0.eval(before.code.vals(e)) == middle.code.v(e, addr));
                        assert(middle.code.trap(e) == before.code.trap(e));
                        assert(middle.code.mem(e) == before.code.mem(e));
                        assert(middle.code.xmm(e) == before.code.xmm(e));
                        assert(middle.regs(e) == before.regs(e));
                    }
                }
                Ok(v)
            },
            _ => Err(NotLowerable),
        }
    }

    /// Writes the value `low` to the destination of `movq` or `movd`.
    fn write_transfer(&mut self, i: &Instr, low: usize, n: u8) -> (r: Result<(), NotLowerable>)
        requires
            old(self).wf(),
            old(self).room(3),
            i.wf(),
            address_ok(*i),
            loads_vector(old(self).code.live, *i, i.op0),
            n == 4 || n == 8,
            old(self).code.has(low),
        ensures
            r is Ok == transfer_writable(*i, i.op0),
            r is Ok ==> {
                &&& final(self).wf()
                &&& final(self).code.live == old(self).code.live
                &&& final(self).code.n() <= old(self).code.n() + 3
                &&& forall|e: Entry|
                    #![trigger final(self).code.trap(e)]
                    follows(
                        *old(self),
                        *final(self),
                        e,
                        transferred(
                            old(self).machine(e),
                            *i,
                            old(self).code.v(e, low),
                            n as int,
                        ),
                        i.ip,
                    )
            },
    {
        let ghost before = *self;
        match i.op0.kind {
            kind::REGISTER => match xmm_index(i.op0.reg) {
                Some(k) => {
                    let (_old_low, old_high): (usize, usize) = self.read_xmm_pair(k);
                    let high: usize = if n == 4 {
                        self.bind(iconst(0))
                    } else {
                        old_high
                    };
                    let ghost bound = *self;
                    self.store_xmm_pair(k, low, high);
                    proof {
                        assert forall|e: Entry|
                            #![trigger self.code.trap(e)]
                            follows(
                                before,
                                *self,
                                e,
                                transferred(
                                    before.machine(e),
                                    *i,
                                    before.code.v(e, low),
                                    n as int,
                                ),
                                i.ip,
                            ) by {
                            assert(before.code.vals(e)[old_high as int] == xmm_high(
                                before.regs(e).xmm[k as int],
                            ));
                            assert(bound.code.trap(e) == before.code.trap(e));
                            assert(bound.code.mem(e) == before.code.mem(e));
                            assert(bound.code.xmm(e) == before.code.xmm(e));
                            assert(bound.machine(e) == before.machine(e));
                            assert(bound.code.vals(e)[low as int] == before.code.vals(
                                e,
                            )[low as int]);
                            assert(self.code.mem(e) == bound.code.mem(e));
                            assert(self.code.xmm(e) == self.code.xmm(e));
                            assert(bound.code.vals(e)[high as int] == if n == 4 {
                                0
                            } else {
                                xmm_high(before.regs(e).xmm[k as int])
                            });
                            assert(self.machine(e) == with_vector(
                                bound.machine(e),
                                k as int,
                                bound.code.v(e, low),
                                bound.code.v(e, high),
                            ));
                        }
                    }
                    Ok(())
                },
                None => {
                    let r = self.write_gpr(i.op0.reg, low);
                    proof {
                        if r is Ok {
                            assert forall|e: Entry|
                                #![trigger self.code.trap(e)]
                                follows(
                                    before,
                                    *self,
                                    e,
                                    transferred(
                                        before.machine(e),
                                        *i,
                                        before.code.v(e, low),
                                        n as int,
                                    ),
                                    i.ip,
                                ) by {
                                assert(Some(self.regs(e)) == before.regs(e).set_reg(
                                    i.op0.reg,
                                    before.code.v(e, low),
                                ));
                                assert(self.code.mem(e) == before.code.mem(e));
                                assert(self.code.xmm(e) == before.code.xmm(e));
                            }
                        }
                    }
                    r
                },
            },
            kind::MEMORY => {
                let x = match self.effective_addr(i) {
                    Ok(x) => x,
                    Err(e) => {
                        return Err(e);
                    },
                };
                let ghost x0 = x;
                let addr: usize = self.bind(x);
                let ghost middle = *self;
                self.call_store(addr, n, low, i.ip);
                proof {
                    assert forall|e: Entry|
                        #![trigger self.code.trap(e)]
                        follows(
                            before,
                            *self,
                            e,
                            transferred(
                                before.machine(e),
                                *i,
                                before.code.v(e, low),
                                n as int,
                            ),
                            i.ip,
                        ) by {
                        assert(x0.eval(before.code.vals(e)) == middle.code.v(e, addr));
                        assert(middle.code.v(e, low) == before.code.v(e, low));
                        assert(middle.code.trap(e) == before.code.trap(e));
                        assert(middle.code.mem(e) == before.code.mem(e));
                        assert(middle.code.xmm(e) == before.code.xmm(e));
                        assert(middle.machine(e) == before.machine(e));
                    }
                }
                Ok(())
            },
            _ => Err(NotLowerable),
        }
    }

    /// `movq` (`n` is 8) and `movd` (`n` is 4).
    pub(crate) fn lower_transfer(&mut self, i: &Instr, n: u8) -> (r: Result<(), NotLowerable>)
        requires
            old(self).wf(),
            old(self).room(6),
            i.wf(),
            address_ok(*i),
            loads_vector(old(self).code.live, *i, i.op0),
            loads_vector(old(self).code.live, *i, i.op1),
            n == 4 || n == 8,
        ensures
            r is Ok == (transfer_readable(*i, i.op1) && transfer_writable(*i, i.op0)),
            r is Ok ==> {
                &&& final(self).wf()
                &&& final(self).code.live == old(self).code.live
                &&& final(self).code.n() <= old(self).code.n() + 6
                &&& forall|e: Entry|
                    #![trigger final(self).code.trap(e)]
                    follows(
                        *old(self),
                        *final(self),
                        e,
                        after_transfer(old(self).machine(e), *i, n as int),
                        i.ip,
                    )
            },
    {
        let ghost before = *self;
        let v: usize = match self.read_transfer(i, n) {
            Ok(v) => v,
            Err(e) => {
                return Err(e);
            },
        };
        let ghost middle = *self;
        let low: usize = if n == 4 {
            self.bind(bin(BinOp::And, value(v), iconst(0xffff_ffff)))
        } else {
            v
        };
        let ghost bound = *self;
        let r = self.write_transfer(i, low, n);
        proof {
            if r is Ok {
                assert forall|e: Entry|
                    #![trigger self.code.trap(e)]
                    follows(
                        before,
                        *self,
                        e,
                        after_transfer(before.machine(e), *i, n as int),
                        i.ip,
                    ) by {
                    assert(middle.code.trap(e) == middle.code.trap(e));
                    assert(middle.regs(e) == before.regs(e));
                    assert(bound.code.trap(e) == middle.code.trap(e));
                    assert(bound.code.mem(e) == middle.code.mem(e));
                    assert(bound.code.xmm(e) == middle.code.xmm(e));
                    assert(bound.regs(e) == middle.regs(e));
                    lemma_masks(middle.code.v(e, v));
                    assert(bound.code.v(e, low) == if n == 4 {
                        (middle.code.v(e, v) % 0x1_0000_0000) as u64
                    } else {
                        middle.code.v(e, v)
                    });
                    assert(trunc(middle.code.v(e, v) as int, 8) == middle.code.v(e, v));
                }
            }
        }
        r
    }

    /// Binds a bitwise operation on two values.
    fn bind_bit_op(&mut self, op: SseBit, a: usize, b: usize) -> (v: usize)
        requires
            old(self).wf(),
            old(self).room(1),
            old(self).code.has(a),
            old(self).code.has(b),
        ensures
            final(self).wf(),
            old(self).computes(*final(self)),
            final(self).code.n() == old(self).code.n() + 1,
            final(self).code.has(v),
            forall|e: Entry| #[trigger] final(self).regs(e) == old(self).regs(e),
            forall|e: Entry| #[trigger] final(self).machine(e) == old(self).machine(e),
            forall|e: Entry| #[trigger]
                final(self).code.vals(e)[v as int] == bit_op(
                    op,
                    old(self).code.vals(e)[a as int],
                    old(self).code.vals(e)[b as int],
                ),
    {
        let x = match op {
            SseBit::Xor => bin(BinOp::Xor, value(a), value(b)),
            SseBit::And => bin(BinOp::And, value(a), value(b)),
            SseBit::Or => bin(BinOp::Or, value(a), value(b)),
            SseBit::Andn => bin(BinOp::And, un(UnOp::Not, value(a)), value(b)),
        };
        self.bind(x)
    }

    /// Bitwise vector operations.
    pub(crate) fn lower_sse_bitwise(&mut self, i: &Instr, op: SseBit) -> (r: Result<(), NotLowerable>)
        requires
            old(self).wf(),
            old(self).room(8),
            i.wf(),
            address_ok(*i),
            i.op0.kind == kind::REGISTER,
            loads_vector(old(self).code.live, *i, i.op0),
            loads_vector(old(self).code.live, *i, i.op1),
        ensures
            r is Ok == (vector_index(i.op0.reg) is Some && vector_readable(*i, i.op1)),
            r is Ok ==> {
                &&& final(self).wf()
                &&& final(self).code.live == old(self).code.live
                &&& final(self).code.n() <= old(self).code.n() + 8
                &&& forall|e: Entry|
                    #![trigger final(self).code.trap(e)]
                    follows(
                        *old(self),
                        *final(self),
                        e,
                        after_vector_bit(old(self).machine(e), *i, op),
                        i.ip,
                    )
            },
    {
        let ghost before = *self;
        let k: usize = match xmm_index(i.op0.reg) {
            Some(k) => k,
            None => {
                return Err(NotLowerable);
            },
        };
        let (b_low, b_high): (usize, usize) = match self.read_vector(i, 1, 16) {
            Ok(r) => r,
            Err(e) => {
                return Err(e);
            },
        };
        let ghost middle = *self;
        let (a_low, a_high): (usize, usize) = self.read_xmm_pair(k);
        let low: usize = self.bind_bit_op(op, a_low, b_low);
        let ghost s1 = *self;
        let high: usize = self.bind_bit_op(op, a_high, b_high);
        let ghost bound = *self;
        self.store_xmm_pair(k, low, high);
        proof {
            assert forall|e: Entry|
                #![trigger self.code.trap(e)]
                follows(
                    before,
                    *self,
                    e,
                    after_vector_bit(before.machine(e), *i, op),
                    i.ip,
                ) by {
                let was = before.regs(e).xmm[k as int];
                assert(middle.code.trap(e) == middle.code.trap(e));
                assert(middle.regs(e) == before.regs(e));
                lemma_computes_chain(middle, s1, bound);
                assert(bound.code.trap(e) == middle.code.trap(e));
                assert(bound.code.mem(e) == middle.code.mem(e));
                assert(bound.code.xmm(e) == middle.code.xmm(e));
                assert(s1.regs(e) == middle.regs(e));
                assert(bound.regs(e) == s1.regs(e));
                assert(middle.code.vals(e)[a_low as int] == xmm_low(was));
                assert(middle.code.vals(e)[a_high as int] == xmm_high(was));
                assert(s1.code.vals(e)[a_high as int] == xmm_high(was));
                assert(s1.code.vals(e)[b_high as int] == middle.code.vals(e)[b_high as int]);
                assert(s1.code.vals(e)[low as int] == bit_op(
                    op,
                    xmm_low(was),
                    middle.code.vals(e)[b_low as int],
                ));
                assert(bound.code.vals(e)[low as int] == s1.code.vals(e)[low as int]);
                assert(bound.code.vals(e)[high as int] == bit_op(
                    op,
                    xmm_high(was),
                    middle.code.vals(e)[b_high as int],
                ));
                assert(self.code.mem(e) == bound.code.mem(e));
                assert(self.code.xmm(e) == self.code.xmm(e));
                assert(self.machine(e) == with_vector(
                    bound.machine(e),
                    k as int,
                    bound.code.v(e, low),
                    bound.code.v(e, high),
                ));
            }
        }
        Ok(())
    }

    /// A floating-point operation on two values.
    fn float(&mut self, op: u8, double: bool, a: usize, b: usize) -> (v: usize)
        requires
            old(self).wf(),
            old(self).room(1),
            op < 4,
            old(self).code.has(a),
            old(self).code.has(b),
        ensures
            final(self).wf(),
            old(self).computes(*final(self)),
            final(self).code.n() == old(self).code.n() + 1,
            final(self).code.has(v),
            forall|e: Entry| #[trigger] final(self).regs(e) == old(self).regs(e),
            forall|e: Entry| #[trigger]
                final(self).code.vals(e)[v as int] == (e.fp)(
                    op,
                    double,
                    old(self).code.vals(e)[a as int],
                    old(self).code.vals(e)[b as int],
                ),
    {
        let ghost before = *self;
        let v: usize = self.code.float(op, double, a, b);
        proof {
            lemma_computes(before, *self);
            assert forall|e: Entry| #[trigger] self.code.vals(e)[v as int] == (e.fp)(
                op,
                double,
                before.code.vals(e)[a as int],
                before.code.vals(e)[b as int],
            ) by {
                assert(self.code.v(e, v) == (e.fp)(
                    op,
                    double,
                    before.code.v(e, a),
                    before.code.v(e, b),
                ));
            }
        }
        v
    }

    /// A floating-point operation on the two single-precision lanes of two
    /// halves.
    fn float_pair(&mut self, op: u8, a: usize, b: usize) -> (v: usize)
        requires
            old(self).wf(),
            old(self).room(7),
            op < 4,
            old(self).code.has(a),
            old(self).code.has(b),
        ensures
            final(self).wf(),
            old(self).computes(*final(self)),
            final(self).code.n() <= old(self).code.n() + 7,
            final(self).code.has(v),
            forall|e: Entry| #[trigger] final(self).regs(e) == old(self).regs(e),
            forall|e: Entry| #[trigger]
                final(self).code.vals(e)[v as int] == float_lanes(
                    e.fp,
                    op,
                    old(self).code.vals(e)[a as int],
                    old(self).code.vals(e)[b as int],
                ),
    {
        let ghost before = *self;
        let a0: usize = self.bind(bin(BinOp::And, value(a), iconst(0xffff_ffff)));
        let ghost s1 = *self;
        let b0: usize = self.bind(bin(BinOp::And, value(b), iconst(0xffff_ffff)));
        let ghost s2 = *self;
        let a1: usize = self.bind(bin(BinOp::Ushr, value(a), iconst(32)));
        let ghost s3 = *self;
        let b1: usize = self.bind(bin(BinOp::Ushr, value(b), iconst(32)));
        let ghost s4 = *self;
        let r0: usize = self.float(op, false, a0, b0);
        let ghost s5 = *self;
        let r1: usize = self.float(op, false, a1, b1);
        let ghost s6 = *self;
        let low = bin(BinOp::And, value(r0), iconst(0xffff_ffff));
        let high = bin(
            BinOp::Shl,
            bin(BinOp::And, value(r1), iconst(0xffff_ffff)),
            iconst(32),
        );
        let x = bin(BinOp::Add, low, high);
        let ghost x0 = x;
        let v: usize = self.bind(x);
        proof {
            lemma_computes_chain(before, s1, s2);
            lemma_computes_chain(before, s2, s3);
            lemma_computes_chain(before, s3, s4);
            lemma_computes_chain(before, s4, s5);
            lemma_computes_chain(before, s5, s6);
            lemma_computes_chain(before, s6, *self);
            assert forall|e: Entry| #[trigger] self.regs(e) == before.regs(e) by {
                assert(s6.regs(e) == s5.regs(e));
                assert(s5.regs(e) == s4.regs(e));
                assert(s4.regs(e) == s3.regs(e));
                assert(s3.regs(e) == s2.regs(e));
                assert(s2.regs(e) == s1.regs(e));
                assert(s1.regs(e) == before.regs(e));
            }
            assert forall|e: Entry| #[trigger] self.code.vals(e)[v as int] == float_lanes(
                e.fp,
                op,
                before.code.vals(e)[a as int],
                before.code.vals(e)[b as int],
            ) by {
                let xa = before.code.vals(e)[a as int];
                let xb = before.code.vals(e)[b as int];
                lemma_masks(xa);
                lemma_masks(xb);
                vstd::arithmetic::power2::lemma2_to64();
                assert(crate::exec::shift::p2(32) == 0x1_0000_0000);
                assert(s1.code.vals(e)[a0 as int] == xa % 0x1_0000_0000);
                assert(s1.code.vals(e)[b as int] == xb);
                assert(s2.code.vals(e)[b0 as int] == xb % 0x1_0000_0000);
                assert(s2.code.vals(e)[a as int] == xa);
                assert(s3.code.vals(e)[a1 as int] == xa / 0x1_0000_0000);
                assert(s3.code.vals(e)[b as int] == xb);
                assert(s4.code.vals(e)[b1 as int] == xb / 0x1_0000_0000);
                assert(s4.code.vals(e)[a0 as int] == xa % 0x1_0000_0000) by {
                    assert(s2.code.vals(e)[a0 as int] == s1.code.vals(e)[a0 as int]);
                    assert(s3.code.vals(e)[a0 as int] == s2.code.vals(e)[a0 as int]);
                }
                assert(s4.code.vals(e)[b0 as int] == xb % 0x1_0000_0000) by {
                    assert(s3.code.vals(e)[b0 as int] == s2.code.vals(e)[b0 as int]);
                }
                assert(s5.code.vals(e)[a1 as int] == xa / 0x1_0000_0000) by {
                    assert(s4.code.vals(e)[a1 as int] == s3.code.vals(e)[a1 as int]);
                }
                assert(s5.code.vals(e)[b1 as int] == s4.code.vals(e)[b1 as int]);
                let f0 = (e.fp)(
                    op,
                    false,
                    (xa % 0x1_0000_0000) as u64,
                    (xb % 0x1_0000_0000) as u64,
                );
                let f1 = (e.fp)(
                    op,
                    false,
                    (xa / 0x1_0000_0000) as u64,
                    (xb / 0x1_0000_0000) as u64,
                );
                assert(s5.code.vals(e)[r0 as int] == f0);
                assert(s6.code.vals(e)[r0 as int] == f0);
                assert(s6.code.vals(e)[r1 as int] == f1);
                lemma_masks(f0);
                lemma_masks(f1);
                assert(self.code.vals(e)[v as int] == x0.eval(s6.code.vals(e)));
                let y0 = f0 as int % 0x1_0000_0000;
                let y1 = f1 as int % 0x1_0000_0000;
                lemma_trunc_fits(y1 * 0x1_0000_0000, 8);
                lemma_trunc_fits(y0 + y1 * 0x1_0000_0000, 8);
                assert((32u64 as int) % 64 == 32);
            }
        }
        v
    }

    /// Computes the halves of the result of a floating-point operation.
    fn float_halves(
        &mut self,
        f: SseFp,
        a: (usize, usize),
        b: (usize, usize),
    ) -> (r: (usize, usize))
        requires
            old(self).wf(),
            old(self).room(14),
            f.op < 4,
            old(self).code.has(a.0),
            old(self).code.has(a.1),
            old(self).code.has(b.0),
            old(self).code.has(b.1),
        ensures
            final(self).wf(),
            old(self).computes(*final(self)),
            final(self).code.n() <= old(self).code.n() + 14,
            final(self).code.has(r.0),
            final(self).code.has(r.1),
            forall|e: Entry| #[trigger] final(self).regs(e) == old(self).regs(e),
            forall|e: Entry|
                #![trigger final(self).code.vals(e)]
                (final(self).code.vals(e)[r.0 as int], final(self).code.vals(e)[r.1 as int])
                    == float_result(
                    e.fp,
                    f,
                    (old(self).code.vals(e)[a.0 as int], old(self).code.vals(e)[a.1 as int]),
                    (old(self).code.vals(e)[b.0 as int], old(self).code.vals(e)[b.1 as int]),
                ),
    {
        let ghost before = *self;
        if f.packed {
            let low: usize = if f.double {
                self.float(f.op, true, a.0, b.0)
            } else {
                self.float_pair(f.op, a.0, b.0)
            };
            let ghost s1 = *self;
            let high: usize = if f.double {
                self.float(f.op, true, a.1, b.1)
            } else {
                self.float_pair(f.op, a.1, b.1)
            };
            proof {
                lemma_computes_chain(before, s1, *self);
                assert forall|e: Entry| #[trigger] self.regs(e) == before.regs(e) by {
                    assert(s1.regs(e) == before.regs(e));
                }
                assert forall|e: Entry|
                    #![trigger self.code.vals(e)]
                    (self.code.vals(e)[low as int], self.code.vals(e)[high as int])
                        == float_result(
                        e.fp,
                        f,
                        (before.code.vals(e)[a.0 as int], before.code.vals(e)[a.1 as int]),
                        (before.code.vals(e)[b.0 as int], before.code.vals(e)[b.1 as int]),
                    ) by {
                    assert(s1.code.vals(e)[a.1 as int] == before.code.vals(e)[a.1 as int]);
                    assert(s1.code.vals(e)[b.1 as int] == before.code.vals(e)[b.1 as int]);
                    assert(self.code.vals(e)[low as int] == s1.code.vals(e)[low as int]);
                    assert(self.code.vals(e)[high as int] == self.code.vals(e)[high as int]);
                }
            }
            (low, high)
        } else if f.double {
            let low: usize = self.float(f.op, true, a.0, b.0);
            (low, a.1)
        } else {
            let raw: usize = self.float(f.op, false, a.0, b.0);
            let ghost s1 = *self;
            let low: usize = self.bind(merge_low(a.0, raw));
            proof {
                lemma_computes_chain(before, s1, *self);
                assert forall|e: Entry| #[trigger] self.regs(e) == before.regs(e) by {
                    assert(s1.regs(e) == before.regs(e));
                }
                assert forall|e: Entry|
                    #![trigger self.code.vals(e)]
                    (self.code.vals(e)[low as int], self.code.vals(e)[a.1 as int])
                        == float_result(
                        e.fp,
                        f,
                        (before.code.vals(e)[a.0 as int], before.code.vals(e)[a.1 as int]),
                        (before.code.vals(e)[b.0 as int], before.code.vals(e)[b.1 as int]),
                    ) by {
                    assert(s1.code.vals(e)[a.0 as int] == before.code.vals(e)[a.0 as int]);
                    assert(self.code.vals(e)[a.1 as int] == before.code.vals(e)[a.1 as int]);
                    assert(self.code.vals(e)[low as int] == self.code.vals(e)[low as int]);
                    assert(s1.code.vals(e)[raw as int] == s1.code.vals(e)[raw as int]);
                }
            }
            (low, a.1)
        }
    }

    /// Scalar and packed floating-point operations.
    pub(crate) fn lower_sse_fp(&mut self, i: &Instr, f: SseFp) -> (r: Result<(), NotLowerable>)
        requires
            old(self).wf(),
            old(self).room(20),
            i.wf(),
            address_ok(*i),
            f.op < 4,
            i.op0.kind == kind::REGISTER,
            loads_vector(old(self).code.live, *i, i.op0),
            loads_vector(old(self).code.live, *i, i.op1),
        ensures
            r is Ok == (vector_index(i.op0.reg) is Some && vector_readable(*i, i.op1)),
            r is Ok ==> {
                &&& final(self).wf()
                &&& final(self).code.live == old(self).code.live
                &&& final(self).code.n() <= old(self).code.n() + 20
                &&& forall|e: Entry|
                    #![trigger final(self).code.trap(e)]
                    follows(
                        *old(self),
                        *final(self),
                        e,
                        after_vector_fp(old(self).machine(e), *i, f, e.fp),
                        i.ip,
                    )
            },
    {
        let ghost before = *self;
        let k: usize = match xmm_index(i.op0.reg) {
            Some(k) => k,
            None => {
                return Err(NotLowerable);
            },
        };
        let n: u8 = if f.packed {
            16
        } else if f.double {
            8
        } else {
            4
        };
        let b: (usize, usize) = match self.read_vector(i, 1, n) {
            Ok(r) => r,
            Err(e) => {
                return Err(e);
            },
        };
        let ghost middle = *self;
        let a: (usize, usize) = self.read_xmm_pair(k);
        let (low, high): (usize, usize) = self.float_halves(f, a, b);
        let ghost bound = *self;
        self.store_xmm_pair(k, low, high);
        proof {
            assert forall|e: Entry|
                #![trigger self.code.trap(e)]
                follows(
                    before,
                    *self,
                    e,
                    after_vector_fp(before.machine(e), *i, f, e.fp),
                    i.ip,
                ) by {
                let was = before.regs(e).xmm[k as int];
                assert(middle.code.trap(e) == middle.code.trap(e));
                assert(middle.regs(e) == before.regs(e));
                assert(bound.code.trap(e) == middle.code.trap(e));
                assert(bound.code.mem(e) == middle.code.mem(e));
                assert(bound.code.xmm(e) == middle.code.xmm(e));
                assert(bound.regs(e) == middle.regs(e));
                assert(middle.code.vals(e)[a.0 as int] == xmm_low(was));
                assert(middle.code.vals(e)[a.1 as int] == xmm_high(was));
                assert(bound.code.vals(e) == bound.code.vals(e));
                assert(self.code.mem(e) == bound.code.mem(e));
                assert(self.code.xmm(e) == self.code.xmm(e));
                assert(self.machine(e) == with_vector(
                    bound.machine(e),
                    k as int,
                    bound.code.v(e, low),
                    bound.code.v(e, high),
                ));
            }
        }
        Ok(())
    }
}

/// The machine after `low` was written to the first operand of `movq` or `movd`.
pub open spec fn transferred(s: Machine, i: Instr, low: u64, n: int) -> Next {
    if i.op0.kind == kind::MEMORY {
        match address_of(s.regs, i) {
            Err(f) => s.failed(f),
            Ok(a) => after_store(s, a, low, n),
        }
    } else {
        match vector_index(i.op0.reg) {
            Some(k) => with_vector(
                s,
                k,
                low,
                if n == 4 {
                    0
                } else {
                    xmm_high(s.regs.xmm[k])
                },
            ).done(),
            None => after_register(s, i.op0.reg, low),
        }
    }
}

} // verus!
