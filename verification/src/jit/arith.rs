//! Compiling integer arithmetic.

use vstd::prelude::*;

use crate::exec::alu::{
    after_arith, arith_rflags, arith_result, lemma_bitwise_bound, lemma_trunc_narrow, ArithOp,
};
use crate::exec::logic::after_test;
use crate::exec::model::{Fault, Machine};
use crate::exec::operand::{
    address_of, after_operand_sized, operand_bytes, operand_value,
};
use crate::insn::instr::Instr;
use crate::insn::kind;
use crate::jit::access::{loads_operand, memory_regular, operand_width, readable, writable};
use crate::jit::block::{address_ok, integer_width};
use crate::jit::flags::mask_width;
use crate::jit::ir::{bin, value, BinOp, Entry};
use crate::jit::moves::{dst_bytes, lemma_gpr_bytes, lemma_trunc_steps, pair_regular};
use crate::jit::pending::lemma_overwritten;
use crate::jit::state::{
    follows, is_size, lemma_pending_stays, settles, trapped, Lower, NotLowerable, Pending,
};
use crate::regs::{add_flags, modulus, sub_flags, trunc, with_flag, CF, OF};

verus! {

/// An operand that is a register or in memory.
pub open spec fn is_place(kind: u8) -> bool {
    kind == kind::REGISTER || kind == kind::MEMORY
}

/// The values `a` and `b` are the two operands of an instruction, cut down to the
/// size of the first.
pub open spec fn reads_pair(
    before: Lower,
    after: Lower,
    e: Entry,
    i: Instr,
    a: usize,
    b: usize,
    size: int,
) -> bool {
    let s = before.machine(e);
    &&& after.code.mem(e) == before.code.mem(e)
    &&& after.code.xmm(e) == before.code.xmm(e)
    &&& if before.code.trap(e) is Some {
        after.code.trap(e) == before.code.trap(e)
    } else {
        match operand_value(s, i, 0) {
            Err(Fault::Memory(inv)) => trapped(
                after.code.trap(e),
                inv,
                i.ip,
                s.regs.gpr,
                before.stored(e),
            ),
            Err(Fault::Cpu(_)) => false,
            Ok(x) => match operand_value(s, i, 1) {
                Err(Fault::Memory(inv)) => trapped(
                after.code.trap(e),
                inv,
                i.ip,
                s.regs.gpr,
                before.stored(e),
            ),
                Err(Fault::Cpu(_)) => false,
                Ok(y) => after.code.trap(e) is None && after.code.v(e, a) == trunc(
                    x as int,
                    size,
                ) && after.code.v(e, b) == trunc(y as int, size),
            },
        }
    }
}

/// The value `a` is the first operand of an instruction, cut down to its size.
pub open spec fn reads_single(
    before: Lower,
    after: Lower,
    e: Entry,
    i: Instr,
    a: usize,
    size: int,
) -> bool {
    let s = before.machine(e);
    &&& after.code.mem(e) == before.code.mem(e)
    &&& after.code.xmm(e) == before.code.xmm(e)
    &&& if before.code.trap(e) is Some {
        after.code.trap(e) == before.code.trap(e)
    } else {
        match operand_value(s, i, 0) {
            Err(Fault::Memory(inv)) => trapped(
                after.code.trap(e),
                inv,
                i.ip,
                s.regs.gpr,
                before.stored(e),
            ),
            Err(Fault::Cpu(_)) => false,
            Ok(x) => after.code.trap(e) is None && after.code.v(e, a) == trunc(x as int, size),
        }
    }
}

/// What is written does not depend on the flags.
pub proof fn lemma_flags_frame(s: Machine, i: Instr, op: int, v: u64, n: int, f: u64)
    ensures
        ({
            let (m, x) = after_operand_sized(s, i, op, v, n);
            after_operand_sized(s.with_regs(s.regs.flags(f)), i, op, v, n) == (
                m.with_regs(m.regs.flags(f)),
                x,
            )
        }),
{
    let t = s.with_regs(s.regs.flags(f));
    assert(address_of(t.regs, i) == address_of(s.regs, i));
    let o = i.operand(op);
    if o.kind == kind::REGISTER {
        match (s.regs.set_reg(o.reg, v), t.regs.set_reg(o.reg, v)) {
            (Some(a), Some(b)) => {
                assert(b =~= a.flags(f));
            },
            _ => {},
        }
    }
}

/// Cutting down a bitwise and.
proof fn lemma_and_low(x: u64, y: u64)
    by (bit_vector)
    ensures
        (x & y) % 0x100 == (x % 0x100) & (y % 0x100),
        (x & y) % 0x1_0000 == (x % 0x1_0000) & (y % 0x1_0000),
        (x & y) % 0x1_0000_0000 == (x % 0x1_0000_0000) & (y % 0x1_0000_0000),
{
}

/// Replacing the carry flag by itself.
pub proof fn lemma_carry_same(f: u64, c: bool, p: bool, a: bool, z: bool, s: bool, o: bool)
    by (bit_vector)
    ensures
        ({
            let g = with_flag(
                with_flag(
                    with_flag(with_flag(with_flag(with_flag(f, CF, c), crate::regs::PF, p), crate::regs::AF, a), crate::regs::ZF, z),
                    crate::regs::SF,
                    s,
                ),
                OF,
                o,
            );
            with_flag(g, CF, c) == g
        }),
{
}

impl Lower {
    /// Reads the first operand, cut down to its size.
    pub(crate) fn read_single(&mut self, i: &Instr) -> (r: Result<(usize, u8), NotLowerable>)
        requires
            old(self).wf(),
            old(self).room(3),
            i.wf(),
            memory_regular(*i),
            loads_operand(old(self).code.live, *i, i.op0),
        ensures
            r is Ok == (is_place(i.op0.kind) && readable(*i, i.op0)),
            r matches Ok((a, size)) ==> {
                &&& final(self).wf()
                &&& old(self).same_maps(*final(self))
                &&& old(self).code.grows(final(self).code)
                &&& final(self).code.n() <= old(self).code.n() + 3
                &&& final(self).code.has(a)
                &&& is_size(size)
                &&& size == dst_bytes(*i)
                &&& forall|e: Entry|
                    #[trigger] final(self).code.vals(e)[a as int] < modulus(size as int)
                &&& forall|e: Entry| #[trigger] final(self).regs(e) == old(self).regs(e)
                &&& operand_bytes(*i, 0) == Ok::<int, Fault>(
                    size as int,
                ) && forall|e: Entry|
                    #![trigger final(self).code.trap(e)]
                    reads_single(*old(self), *final(self), e, *i, a, size as int)
            },
    {
        let ghost before = *self;
        if i.op0.kind != kind::REGISTER && i.op0.kind != kind::MEMORY {
            return Err(NotLowerable);
        }
        let size: u8 = match self.op_size(i) {
            Ok(n) => n,
            Err(e) => {
                return Err(e);
            },
        };
        let raw: usize = match self.read_op_mem(i, 0) {
            Ok(v) => v,
            Err(e) => {
                return Err(e);
            },
        };
        let ghost middle = *self;
        let x = mask_width(value(raw), size);
        let ghost x0 = x;
        let a: usize = self.bind(x);
        proof {
            assert forall|e: Entry| #[trigger] self.regs(e) == before.regs(e) by {
                assert(middle.regs(e) == before.regs(e));
            }
            assert forall|e: Entry| #[trigger] self.code.vals(e)[a as int] < modulus(size as int) by {
                assert(self.code.vals(e)[a as int] == x0.eval(middle.code.vals(e)));
            }
            assert forall|e: Entry, v: int| 0 <= v < before.code.n() implies #[trigger] self.code.vals(
                e,
            )[v] == before.code.vals(e)[v] by {
                assert(middle.code.vals(e)[v] == before.code.vals(e)[v]);
            }
            assert forall|e: Entry|
                #![trigger self.code.trap(e)]
                reads_single(before, *self, e, *i, a, size as int) by {
                assert(middle.code.trap(e) == middle.code.trap(e));
                assert(self.code.mem(e) == middle.code.mem(e));
                assert(self.code.xmm(e) == middle.code.xmm(e));
                assert(self.code.vals(e)[a as int] == x0.eval(middle.code.vals(e)));
                if i.op0.kind == kind::REGISTER {
                    lemma_gpr_bytes(i.op0.reg);
                }
                lemma_trunc_steps(
                    middle.code.v(e, raw) as int,
                    operand_width(i.op0),
                    size as int,
                );
            }
        }
        Ok((a, size))
    }

    /// Reads two operands, cut down to the size of the first.
    pub(crate) fn read_pair(&mut self, i: &Instr) -> (r: Result<(usize, usize, u8), NotLowerable>)
        requires
            old(self).wf(),
            old(self).room(6),
            i.wf(),
            pair_regular(*i),
            loads_operand(old(self).code.live, *i, i.op0),
            loads_operand(old(self).code.live, *i, i.op1),
        ensures
            r is Ok == (is_place(i.op0.kind) && readable(*i, i.op0) && readable(*i, i.op1)),
            r matches Ok((a, b, size)) ==> {
                &&& final(self).wf()
                &&& old(self).same_maps(*final(self))
                &&& old(self).code.grows(final(self).code)
                &&& final(self).code.n() <= old(self).code.n() + 6
                &&& final(self).code.has(a)
                &&& final(self).code.has(b)
                &&& is_size(size)
                &&& size == dst_bytes(*i)
                &&& forall|e: Entry|
                    #[trigger] final(self).code.vals(e)[a as int] < modulus(size as int)
                &&& forall|e: Entry|
                    #[trigger] final(self).code.vals(e)[b as int] < modulus(size as int)
                &&& forall|e: Entry| #[trigger] final(self).regs(e) == old(self).regs(e)
                &&& operand_bytes(*i, 0) == Ok::<int, Fault>(
                    size as int,
                ) && forall|e: Entry|
                    #![trigger final(self).code.trap(e)]
                    reads_pair(*old(self), *final(self), e, *i, a, b, size as int)
            },
    {
        let ghost before = *self;
        let (a, size): (usize, u8) = match self.read_single(i) {
            Ok(r) => r,
            Err(e) => {
                return Err(e);
            },
        };
        let ghost first = *self;
        let raw: usize = match self.read_op_mem(i, 1) {
            Ok(v) => v,
            Err(e) => {
                return Err(e);
            },
        };
        let ghost second = *self;
        let x = mask_width(value(raw), size);
        let ghost x0 = x;
        let b: usize = self.bind(x);
        proof {
            assert forall|e: Entry| #[trigger] self.regs(e) == before.regs(e) by {
                assert(second.regs(e) == first.regs(e));
                assert(first.regs(e) == before.regs(e));
            }
            assert forall|e: Entry, v: int| 0 <= v < first.code.n() implies #[trigger] self.code.vals(
                e,
            )[v] == first.code.vals(e)[v] by {
                assert(second.code.vals(e)[v] == first.code.vals(e)[v]);
            }
            assert forall|e: Entry, v: int| 0 <= v < before.code.n() implies #[trigger] self.code.vals(
                e,
            )[v] == before.code.vals(e)[v] by {
                assert(first.code.vals(e)[v] == before.code.vals(e)[v]);
            }
            assert forall|e: Entry| #[trigger] self.code.vals(e)[a as int] < modulus(size as int) by {
                assert(first.code.vals(e)[a as int] < modulus(size as int));
            }
            assert forall|e: Entry| #[trigger] self.code.vals(e)[b as int] < modulus(size as int) by {
                assert(self.code.vals(e)[b as int] == x0.eval(second.code.vals(e)));
            }
            assert forall|e: Entry|
                #![trigger self.code.trap(e)]
                reads_pair(before, *self, e, *i, a, b, size as int) by {
                assert(first.code.trap(e) == first.code.trap(e));
                assert(second.code.trap(e) == second.code.trap(e));
                assert(first.regs(e) == before.regs(e));
                assert(self.code.mem(e) == second.code.mem(e));
                assert(self.code.xmm(e) == second.code.xmm(e));
                assert(self.code.vals(e)[b as int] == x0.eval(second.code.vals(e)));
                assert(self.code.vals(e)[a as int] == first.code.vals(e)[a as int]);
                assert(first.machine(e) == before.machine(e));
                if i.op1.kind == kind::REGISTER {
                    lemma_gpr_bytes(i.op1.reg);
                }
                lemma_trunc_steps(
                    second.code.v(e, raw) as int,
                    operand_width(i.op1),
                    size as int,
                );
            }
        }
        Ok((a, b, size))
    }

    /// Leaves flags to be computed later.
    pub fn set_pending(&mut self, p: Pending)
        requires
            old(self).wf(),
            old(self).code.live.flags,
            p.uses(old(self).code),
            forall|e: Entry| p.fits(#[trigger] old(self).code.vals(e)),
        ensures
            final(self).wf(),
            final(self).code == old(self).code,
            final(self).gpr == old(self).gpr,
            final(self).rflags == old(self).rflags,
            final(self).xmm == old(self).xmm,
            final(self).pending == p,
            forall|e: Entry| #[trigger]
                final(self).machine(e) == old(self).machine(e).with_regs(
                    old(self).regs(e).flags(
                        p.flushed(
                            old(self).code.vals(e)[old(self).rflags as int],
                            old(self).code.vals(e),
                        ),
                    ),
                ),
    {
        let ghost before = *self;
        self.pending = p;
        proof {
            assert forall|e: Entry| #[trigger]
                self.machine(e) == before.machine(e).with_regs(
                    before.regs(e).flags(
                        p.flushed(before.code.vals(e)[before.rflags as int], before.code.vals(e)),
                    ),
                ) by {
                assert(self.regs(e).gpr =~= before.regs(e).gpr);
                assert(self.regs(e).xmm =~= before.regs(e).xmm);
            }
        }
    }

    /// Takes the value `v` for the flags. No flags are pending.
    pub fn set_rflags(&mut self, v: usize)
        requires
            old(self).wf(),
            old(self).code.live.flags,
            old(self).pending is Nothing,
            old(self).code.has(v),
        ensures
            final(self).wf(),
            final(self).code == old(self).code,
            final(self).gpr == old(self).gpr,
            final(self).rflags == v,
            final(self).xmm == old(self).xmm,
            final(self).pending is Nothing,
            forall|e: Entry| #[trigger]
                final(self).machine(e) == old(self).machine(e).with_regs(
                    old(self).regs(e).flags(old(self).code.vals(e)[v as int]),
                ),
    {
        let ghost before = *self;
        self.rflags = v;
        proof {
            assert forall|e: Entry| #[trigger]
                self.machine(e) == before.machine(e).with_regs(
                    before.regs(e).flags(before.code.vals(e)[v as int]),
                ) by {
                assert(self.regs(e).gpr =~= before.regs(e).gpr);
                assert(self.regs(e).xmm =~= before.regs(e).xmm);
            }
        }
    }

    /// Writes the result `res` to the first operand, and leaves the flags `p` to
    /// be computed later.
    pub(crate) fn finish(&mut self, i: &Instr, res: usize, size: u8, p: Pending) -> (r: Result<
        (),
        NotLowerable,
    >)
        requires
            old(self).wf(),
            old(self).room(2),
            i.wf(),
            i.op0.kind == kind::MEMORY ==> address_ok(*i),
            loads_operand(old(self).code.live, *i, i.op0),
            old(self).code.live.flags,
            old(self).code.has(res),
            is_size(size),
            p.uses(old(self).code),
            forall|e: Entry| p.fits(#[trigger] old(self).code.vals(e)),
        ensures
            r is Ok == writable(*i, i.op0),
            r is Ok ==> {
                &&& final(self).wf()
                &&& final(self).code.live == old(self).code.live
                &&& final(self).code.n() <= old(self).code.n() + 2
                &&& forall|e: Entry|
                    #![trigger final(self).code.trap(e)]
                    follows(
                        *old(self),
                        *final(self),
                        e,
                        after_operand_sized(
                            old(self).machine(e).with_regs(
                                old(self).regs(e).flags(
                                    p.flushed(
                                        old(self).code.vals(e)[old(self).rflags as int],
                                        old(self).code.vals(e),
                                    ),
                                ),
                            ),
                            *i,
                            0,
                            old(self).code.v(e, res),
                            size as int,
                        ),
                        i.ip,
                    )
            },
    {
        let ghost before = *self;
        match self.write_op_mem(i, 0, res, size) {
            Ok(()) => {},
            Err(e) => {
                return Err(e);
            },
        }
        let ghost written = *self;
        proof {
            lemma_pending_stays(p, before.code, written.code, arbitrary());
            assert forall|e: Entry| p.fits(#[trigger] written.code.vals(e)) by {
                assert(p.fits(before.code.vals(e)));
                lemma_pending_stays(p, before.code, written.code, e);
            }
        }
        self.set_pending(p);
        proof {
            assert forall|e: Entry|
                #![trigger self.code.trap(e)]
                follows(
                    before,
                    *self,
                    e,
                    after_operand_sized(
                        before.machine(e).with_regs(
                            before.regs(e).flags(
                                p.flushed(
                                    before.code.vals(e)[before.rflags as int],
                                    before.code.vals(e),
                                ),
                            ),
                        ),
                        *i,
                        0,
                        before.code.v(e, res),
                        size as int,
                    ),
                    i.ip,
                ) by {
                let s = before.machine(e);
                let f = p.flushed(
                    before.code.vals(e)[before.rflags as int],
                    before.code.vals(e),
                );
                assert(written.code.trap(e) == self.code.trap(e));
                lemma_pending_stays(p, before.code, written.code, e);
                assert(written.code.vals(e)[before.rflags as int] == before.code.vals(
                    e,
                )[before.rflags as int]);
                lemma_flags_frame(
                    s,
                    *i,
                    0,
                    before.code.v(e, res),
                    size as int,
                    f,
                );
                assert(self.machine(e) == written.machine(e).with_regs(
                    written.regs(e).flags(f),
                ));
            }
        }
        Ok(())
    }

    /// Reads two operands and computes `op` of them, without flags.
    fn compute_pair(&mut self, i: &Instr, op: ArithOp) -> (r: Result<
        (usize, usize, usize, u8),
        NotLowerable,
    >)
        requires
            old(self).wf(),
            old(self).room(7),
            i.wf(),
            pair_regular(*i),
            loads_operand(old(self).code.live, *i, i.op0),
            loads_operand(old(self).code.live, *i, i.op1),
            lazy_op(op),
        ensures
            r is Ok == (is_place(i.op0.kind) && readable(*i, i.op0) && readable(*i, i.op1)),
            r matches Ok((a, b, res, size)) ==> {
                &&& final(self).wf()
                &&& old(self).same_maps(*final(self))
                &&& old(self).code.grows(final(self).code)
                &&& final(self).code.n() <= old(self).code.n() + 7
                &&& final(self).code.has(a)
                &&& final(self).code.has(b)
                &&& final(self).code.has(res)
                &&& is_size(size)
                &&& size == dst_bytes(*i)
                &&& forall|e: Entry| #[trigger] final(self).regs(e) == old(self).regs(e)
                &&& forall|e: Entry|
                    computed(#[trigger] final(self).code.vals(e), op, a, b, res, size as int)
                &&& operand_bytes(*i, 0) == Ok::<int, Fault>(
                    size as int,
                ) && forall|e: Entry|
                    #![trigger final(self).code.trap(e)]
                    reads_pair(*old(self), *final(self), e, *i, a, b, size as int)
            },
    {
        let ghost before = *self;
        let (a, b, size): (usize, usize, u8) = match self.read_pair(i) {
            Ok(r) => r,
            Err(e) => {
                return Err(e);
            },
        };
        let ghost middle = *self;
        let x = match op {
            ArithOp::Add => mask_width(bin(BinOp::Add, value(a), value(b)), size),
            ArithOp::Xor => bin(BinOp::Xor, value(a), value(b)),
            ArithOp::And => bin(BinOp::And, value(a), value(b)),
            ArithOp::Or => bin(BinOp::Or, value(a), value(b)),
            _ => mask_width(bin(BinOp::Sub, value(a), value(b)), size),
        };
        let ghost x0 = x;
        let res: usize = self.bind(x);
        proof {
            assert forall|e: Entry| computed(
                #[trigger] self.code.vals(e),
                op,
                a,
                b,
                res,
                size as int,
            ) by {
                let d = middle.code.vals(e)[a as int];
                let s = middle.code.vals(e)[b as int];
                assert(self.code.vals(e)[res as int] == x0.eval(middle.code.vals(e)));
                assert(self.code.vals(e)[a as int] == d);
                assert(self.code.vals(e)[b as int] == s);
                lemma_trunc_narrow(d + s, size as int);
                lemma_trunc_narrow(d - s, size as int);
                lemma_bitwise_bound(d, s, size as int);
            }
            assert forall|e: Entry| #[trigger] self.regs(e) == before.regs(e) by {
                assert(middle.regs(e) == before.regs(e));
            }
            assert forall|e: Entry, v: int| 0 <= v < before.code.n() implies #[trigger] self.code.vals(
                e,
            )[v] == before.code.vals(e)[v] by {
                assert(middle.code.vals(e)[v] == before.code.vals(e)[v]);
            }
            assert forall|e: Entry|
                #![trigger self.code.trap(e)]
                reads_pair(before, *self, e, *i, a, b, size as int) by {
                assert(middle.code.trap(e) == middle.code.trap(e));
                assert(self.code.mem(e) == middle.code.mem(e));
                assert(self.code.xmm(e) == middle.code.xmm(e));
                assert(self.code.vals(e)[a as int] == middle.code.vals(e)[a as int]);
                assert(self.code.vals(e)[b as int] == middle.code.vals(e)[b as int]);
            }
        }
        Ok((a, b, res, size))
    }

    /// Computes pending flags that flags of `op` do not replace.
    fn flush_for(&mut self, op: ArithOp)
        requires
            old(self).wf(),
            old(self).room(2),
        ensures
            final(self).wf(),
            bitwise(op) ==> final(self).pending is Nothing,
            !bitwise(op) ==> *final(self) == *old(self),
            old(self).code.computes(final(self).code),
            final(self).code.n() <= old(self).code.n() + 2,
            forall|e: Entry| #[trigger] final(self).regs(e) == old(self).regs(e),
            forall|e: Entry| #[trigger] final(self).machine(e) == old(self).machine(e),
    {
        if matches!(op, ArithOp::Xor | ArithOp::And | ArithOp::Or) {
            self.flush_pending();
        }
    }

    /// Sums, differences and bitwise operations. Their flags are computed only if
    /// they are needed.
    pub(crate) fn lower_arith_lazy(&mut self, i: &Instr, op: ArithOp) -> (r: Result<(), NotLowerable>)
        requires
            old(self).wf(),
            old(self).room(11),
            i.wf(),
            pair_regular(*i),
            loads_operand(old(self).code.live, *i, i.op0),
            loads_operand(old(self).code.live, *i, i.op1),
            old(self).code.live.flags,
            lazy_op(op),
            op != ArithOp::Compare,
        ensures
            r is Ok == (is_place(i.op0.kind) && readable(*i, i.op0) && readable(*i, i.op1)
                && writable(*i, i.op0)),
            r is Ok ==> {
                &&& final(self).wf()
                &&& final(self).code.live == old(self).code.live
                &&& final(self).code.n() <= old(self).code.n() + 11
                &&& forall|e: Entry|
                    #![trigger final(self).code.trap(e)]
                    ({
                        let want = after_arith(old(self).machine(e), *i, op);
                        if bitwise(op) {
                            settles(*old(self), *final(self), e, want, i.ip)
                        } else {
                            follows(*old(self), *final(self), e, want, i.ip)
                        }
                    })
            },
    {
        let ghost before = *self;
        self.flush_for(op);
        let ghost ready = *self;
        let (a, b, res, size): (usize, usize, usize, u8) = match self.compute_pair(i, op) {
            Ok(r) => r,
            Err(e) => {
                return Err(e);
            },
        };
        let ghost bound = *self;
        let p = pending_of(op, a, b, res, size);
        proof {
            assert forall|e: Entry| p.fits(#[trigger] bound.code.vals(e)) by {
                assert(computed(bound.code.vals(e), op, a, b, res, size as int));
            }
        }
        let r = self.finish(i, res, size, p);
        proof {
            if r is Ok {
                assert forall|e: Entry|
                    #![trigger self.code.trap(e)]
                    ({
                        let want = after_arith(before.machine(e), *i, op);
                        if bitwise(op) {
                            settles(before, *self, e, want, i.ip)
                        } else {
                            follows(before, *self, e, want, i.ip)
                        }
                    }) by {
                    assert(ready.machine(e) == before.machine(e));
                    assert(ready.code.trap(e) == before.code.trap(e));
                    assert(ready.code.mem(e) == before.code.mem(e));
                    assert(ready.code.xmm(e) == before.code.xmm(e));
                    assert(bound.code.trap(e) == bound.code.trap(e));
                    assert(bound.regs(e) == ready.regs(e));
                    assert(bound.stored(e) == ready.stored(e));
                    assert(computed(bound.code.vals(e), op, a, b, res, size as int));
                    lemma_arith_done(ready, bound, *self, e, *i, op, a, b, res, size, p);
                }
            }
        }
        r
    }

    /// `cmp` and `test`: only flags, which are computed only if they are needed.
    pub(crate) fn lower_compare_lazy(&mut self, i: &Instr, difference: bool) -> (r: Result<
        (),
        NotLowerable,
    >)
        requires
            old(self).wf(),
            old(self).room(9),
            i.wf(),
            pair_regular(*i),
            loads_operand(old(self).code.live, *i, i.op0),
            loads_operand(old(self).code.live, *i, i.op1),
            old(self).code.live.flags,
        ensures
            r is Ok == (is_place(i.op0.kind) && readable(*i, i.op0) && readable(*i, i.op1)),
            r is Ok ==> {
                &&& final(self).wf()
                &&& final(self).code.live == old(self).code.live
                &&& final(self).code.n() <= old(self).code.n() + 9
                &&& forall|e: Entry|
                    #![trigger final(self).code.trap(e)]
                    ({
                        let s = old(self).machine(e);
                        if difference {
                            let want = after_arith(s, *i, ArithOp::Compare);
                            follows(*old(self), *final(self), e, want, i.ip)
                        } else {
                            settles(*old(self), *final(self), e, after_test(s, *i), i.ip)
                        }
                    })
            },
    {
        let ghost before = *self;
        let op = if difference {
            ArithOp::Compare
        } else {
            ArithOp::And
        };
        self.flush_for(op);
        let ghost ready = *self;
        let (a, b, res, size): (usize, usize, usize, u8) = match self.compute_pair(i, op) {
            Ok(r) => r,
            Err(e) => {
                return Err(e);
            },
        };
        let ghost bound = *self;
        let p = pending_of(op, a, b, res, size);
        proof {
            assert forall|e: Entry| p.fits(#[trigger] bound.code.vals(e)) by {
                assert(computed(bound.code.vals(e), op, a, b, res, size as int));
            }
        }
        self.set_pending(p);
        proof {
            assert forall|e: Entry|
                #![trigger self.code.trap(e)]
                ({
                    let s = before.machine(e);
                    if difference {
                        let want = after_arith(s, *i, ArithOp::Compare);
                        follows(before, *self, e, want, i.ip)
                    } else {
                        settles(before, *self, e, after_test(s, *i), i.ip)
                    }
                }) by {
                assert(ready.machine(e) == before.machine(e));
                assert(ready.code.trap(e) == before.code.trap(e));
                assert(ready.code.mem(e) == before.code.mem(e));
                assert(ready.code.xmm(e) == before.code.xmm(e));
                assert(bound.code.trap(e) == bound.code.trap(e));
                assert(bound.regs(e) == ready.regs(e));
                assert(bound.stored(e) == ready.stored(e));
                assert(computed(bound.code.vals(e), op, a, b, res, size as int));
                assert(self.machine(e) == bound.machine(e).with_regs(
                    bound.regs(e).flags(
                        p.flushed(
                            bound.code.vals(e)[bound.rflags as int],
                            bound.code.vals(e),
                        ),
                    ),
                ));
                lemma_compare_done(ready, bound, *self, e, *i, op, a, b, res, size, p);
            }
        }
        Ok(())
    }
}

/// The operations whose flags can wait.
pub open spec fn lazy_op(op: ArithOp) -> bool {
    op != ArithOp::Adc && op != ArithOp::Sbb
}

/// The bitwise operations.
pub open spec fn bitwise(op: ArithOp) -> bool {
    op == ArithOp::Xor || op == ArithOp::And || op == ArithOp::Or
}

/// The value `res` is `op` of the values `a` and `b`, which fit the size.
pub open spec fn computed(
    vals: Seq<u64>,
    op: ArithOp,
    a: usize,
    b: usize,
    res: usize,
    size: int,
) -> bool {
    &&& vals[a as int] < modulus(size)
    &&& vals[b as int] < modulus(size)
    &&& vals[res as int] < modulus(size)
    &&& vals[res as int] == arith_result(op, vals[a as int], vals[b as int], 0, size)
}

/// The flags that an operation leaves to be computed.
fn pending_of(op: ArithOp, a: usize, b: usize, res: usize, size: u8) -> (p: Pending)
    requires
        lazy_op(op),
    ensures
        p == (if bitwise(op) {
            Pending::Logic { res, size }
        } else if op == ArithOp::Add {
            Pending::Add { a, b, res, size }
        } else {
            Pending::Sub { a, b, res, size }
        }),
{
    match op {
        ArithOp::Add => Pending::Add { a, b, res, size },
        ArithOp::Xor | ArithOp::And | ArithOp::Or => Pending::Logic { res, size },
        _ => Pending::Sub { a, b, res, size },
    }
}

/// The flags that an operation leaves to be computed are those of the operation.
proof fn lemma_pending_of(
    was: Pending,
    rf: u64,
    vals: Seq<u64>,
    op: ArithOp,
    a: usize,
    b: usize,
    res: usize,
    size: u8,
    p: Pending,
    c: int,
)
    requires
        lazy_op(op),
        computed(vals, op, a, b, res, size as int),
        bitwise(op) ==> was is Nothing,
        p == (if bitwise(op) {
            Pending::Logic { res, size }
        } else if op == ArithOp::Add {
            Pending::Add { a, b, res, size }
        } else {
            Pending::Sub { a, b, res, size }
        }),
    ensures
        p.flushed(rf, vals) == arith_rflags(
            op,
            was.flushed(rf, vals),
            vals[a as int],
            vals[b as int],
            c,
            size as int,
        ),
{
    let d = vals[a as int] as int;
    let v = vals[b as int] as int;
    match op {
        ArithOp::Add => {
            lemma_overwritten(was, rf, vals, add_flags(d, v, size as int));
        },
        ArithOp::Sub => {
            lemma_overwritten(was, rf, vals, sub_flags(d, v, size as int));
        },
        ArithOp::Compare => {
            lemma_overwritten(was, rf, vals, sub_flags(d, v, size as int));
        },
        _ => {},
    }
}

/// Reading, computing and writing make up the instruction.
proof fn lemma_arith_done(
    before: Lower,
    bound: Lower,
    after: Lower,
    e: Entry,
    i: Instr,
    op: ArithOp,
    a: usize,
    b: usize,
    res: usize,
    size: u8,
    p: Pending,
)
    requires
        lazy_op(op),
        op != ArithOp::Compare,
        is_size(size),
        operand_bytes(i, 0) == Ok::<int, Fault>(size as int),
        reads_pair(before, bound, e, i, a, b, size as int),
        bound.regs(e) == before.regs(e),
        bound.stored(e) == before.stored(e),
        computed(bound.code.vals(e), op, a, b, res, size as int),
        bitwise(op) ==> bound.pending is Nothing,
        p == (if bitwise(op) {
            Pending::Logic { res, size }
        } else if op == ArithOp::Add {
            Pending::Add { a, b, res, size }
        } else {
            Pending::Sub { a, b, res, size }
        }),
        follows(
            bound,
            after,
            e,
            after_operand_sized(
                bound.machine(e).with_regs(
                    bound.regs(e).flags(
                        p.flushed(
                            bound.code.vals(e)[bound.rflags as int],
                            bound.code.vals(e),
                        ),
                    ),
                ),
                i,
                0,
                bound.code.v(e, res),
                size as int,
            ),
            i.ip,
        ),
    ensures
        follows(before, after, e, after_arith(before.machine(e), i, op), i.ip),
{
    let s = before.machine(e);
    let vals = bound.code.vals(e);
    let c = if s.regs.flag(CF) {
        1int
    } else {
        0
    };
    lemma_pending_of(
        bound.pending,
        vals[bound.rflags as int],
        vals,
        op,
        a,
        b,
        res,
        size,
        p,
        c,
    );
}

/// Reading and computing make up a comparison.
proof fn lemma_compare_done(
    before: Lower,
    bound: Lower,
    after: Lower,
    e: Entry,
    i: Instr,
    op: ArithOp,
    a: usize,
    b: usize,
    res: usize,
    size: u8,
    p: Pending,
)
    requires
        op == ArithOp::Compare || op == ArithOp::And,
        is_size(size),
        operand_bytes(i, 0) == Ok::<int, Fault>(size as int),
        reads_pair(before, bound, e, i, a, b, size as int),
        bound.regs(e) == before.regs(e),
        bound.stored(e) == before.stored(e),
        computed(bound.code.vals(e), op, a, b, res, size as int),
        bitwise(op) ==> bound.pending is Nothing,
        p == (if bitwise(op) {
            Pending::Logic { res, size }
        } else {
            Pending::Sub { a, b, res, size }
        }),
        after.code == bound.code,
        after.rflags == bound.rflags,
        after.machine(e) == bound.machine(e).with_regs(
            bound.regs(e).flags(
                p.flushed(bound.code.vals(e)[bound.rflags as int], bound.code.vals(e)),
            ),
        ),
    ensures
        follows(
            before,
            after,
            e,
            if op == ArithOp::Compare {
                after_arith(before.machine(e), i, ArithOp::Compare)
            } else {
                after_test(before.machine(e), i)
            },
            i.ip,
        ),
{
    let s = before.machine(e);
    let vals = bound.code.vals(e);
    let c = if s.regs.flag(CF) {
        1int
    } else {
        0
    };
    lemma_pending_of(
        bound.pending,
        vals[bound.rflags as int],
        vals,
        op,
        a,
        b,
        res,
        size,
        p,
        c,
    );
    if op == ArithOp::And && bound.code.trap(e) is None && before.code.trap(e) is None {
        let x = operand_value(s, i, 0)->Ok_0;
        let y = operand_value(s, i, 1)->Ok_0;
        lemma_trunc_and(x, y, size as int);
        assert(vals[res as int] == trunc((x & y) as int, size as int));
        assert(after.machine(e) == after_test(s, i).0);
    }
}

/// Cutting down a bitwise and.
proof fn lemma_trunc_and(x: u64, y: u64, size: int)
    requires
        integer_width(size),
    ensures
        trunc((x & y) as int, size) == (trunc(x as int, size) as u64) & (trunc(y as int, size)
            as u64),
{
    lemma_and_low(x, y);
}

} // verus!
