//! Compiling signed multiplication.

use vstd::prelude::*;

use crate::exec::alu::{lemma_trunc_narrow, sign_extended};
use crate::exec::model::Fault;
use crate::exec::muldiv::{after_imul, after_imul_pair, signed_overflow};
use crate::exec::operand::{after_operand_sized, operand_bytes, operand_value};
use crate::insn::instr::Instr;
use crate::insn::kind;
use crate::jit::access::{
    is_memory_regular, loads_operand, memory_regular, operand_width, readable, width_of_operand,
    writable,
};
use crate::jit::arith::{is_place, lemma_flags_frame};
use crate::jit::block::integer_width;
use crate::jit::carry::lemma_computes_chain;
use crate::jit::flags::{mask_width, set_flag};
use crate::jit::ir::{bin, iconst, value, BinOp, Entry};
use crate::jit::moves::{dst_bytes, dst_size, lemma_gpr_bytes, lemma_trunc_steps};
use crate::jit::shift_flags::{lemma_trunc_fits, sext_to_i64};
use crate::jit::state::{completes, is_size, trapped, Lower, NotLowerable};
use crate::regs::{modulus, signed, trunc, with_flag, CF, OF};

verus! {

/// The product of two numbers, each known modulo `2^64`.
proof fn lemma_product(x: int, y: int)
    ensures
        trunc(trunc(x, 8) * trunc(y, 8), 8) == trunc(x * y, 8),
{
    vstd::arithmetic::div_mod::lemma_mul_mod_noop(x, y, 0x1_0000_0000_0000_0000);
}

/// A product of small numbers fits 64 bits.
proof fn lemma_small_product(x: int, y: int, h: int)
    requires
        0 < h <= 0x8000_0000,
        -h <= x < h,
        -h <= y < h,
    ensures
        -0x4000_0000_0000_0000 <= x * y <= 0x4000_0000_0000_0000,
{
    assert(-(h * h) <= x * y <= h * h) by (nonlinear_arith)
        requires
            -h <= x < h,
            -h <= y < h,
            0 < h,
    ;
    assert(h * h <= 0x4000_0000_0000_0000) by (nonlinear_arith)
        requires
            0 < h <= 0x8000_0000,
    ;
}

/// A signed reading lies between minus half and half the modulus.
proof fn lemma_signed_bounds(x: int, size: int)
    requires
        integer_width(size),
    ensures
        -modulus(size) <= 2 * signed(x, size) < modulus(size),
        trunc(signed(x, size), size) == trunc(x, size),
{
    let t = trunc(x, size);
    let m = modulus(size);
    if 2 * t >= m {
        vstd::arithmetic::div_mod::lemma_mod_multiples_vanish(-1, t, m);
        assert(m * (-1) + t == t - m);
        lemma_trunc_fits(t, size);
    } else {
        lemma_trunc_fits(t, size);
    }
}

/// A product fits its operands' size exactly if it is the signed reading of its
/// low bytes.
proof fn lemma_overflow_narrow(p: int, size: int)
    requires
        size == 1 || size == 2 || size == 4,
        -0x4000_0000_0000_0000 <= p <= 0x4000_0000_0000_0000,
    ensures
        (trunc(p, 8) != sign_extended(trunc(p, size), size)) == signed_overflow(p, size),
{
    let m = modulus(size);
    lemma_signed_bounds(p, size);
    let s = signed(p, size);
    crate::exec::alu::lemma_trunc_sum(p, 0, 0, size);
    assert(signed(trunc(p, size), size) == s);
    assert(sign_extended(trunc(p, size), size) == trunc(s, 8));
    let big = 0x1_0000_0000_0000_0000int;
    assert(trunc(p, 8) == if p < 0 {
        p + big
    } else {
        p
    }) by {
        if p < 0 {
            vstd::arithmetic::div_mod::lemma_mod_multiples_vanish(1, p, big);
            lemma_trunc_fits(p + big, 8);
        } else {
            lemma_trunc_fits(p, 8);
        }
    }
    assert(trunc(s, 8) == if s < 0 {
        s + big
    } else {
        s
    }) by {
        if s < 0 {
            vstd::arithmetic::div_mod::lemma_mod_multiples_vanish(1, s, big);
            lemma_trunc_fits(s + big, 8);
        } else {
            lemma_trunc_fits(s, 8);
        }
    }
    assert((trunc(p, 8) != trunc(s, 8)) == (p != s));
    if !signed_overflow(p, size) {
        // The low bytes determine a number that fits.
        if p < 0 {
            vstd::arithmetic::div_mod::lemma_mod_multiples_vanish(1, p, m);
            lemma_trunc_fits(p + m, size);
        } else {
            lemma_trunc_fits(p, size);
        }
    }
}

/// A product of 64-bit numbers fits 64 bits exactly if its high half only repeats
/// the sign of its low half.
proof fn lemma_overflow_wide(p: int)
    requires
        -0x4000_0000_0000_0000_0000_0000_0000_0000int <= p
            <= 0x4000_0000_0000_0000_0000_0000_0000_0000int,
    ensures
        ({
            let lo = trunc(p, 8);
            let hi = trunc(p / 0x1_0000_0000_0000_0000, 8);
            (hi != trunc(signed(lo, 8) / 0x8000_0000_0000_0000, 8)) == signed_overflow(p, 8)
        }),
{
    let big = 0x1_0000_0000_0000_0000int;
    let lo = trunc(p, 8);
    let h = p / big;
    vstd::arithmetic::div_mod::lemma_fundamental_div_mod(p, big);
    assert(p == big * h + lo);
    assert(-0x4000_0000_0000_0000 <= h <= 0x4000_0000_0000_0000);
    lemma_trunc_fits(lo, 8);
    let s = signed(lo, 8);
    let q = s / 0x8000_0000_0000_0000;
    assert(q == if lo >= 0x8000_0000_0000_0000 {
        -1int
    } else {
        0
    });
    assert(trunc(h, 8) == if h < 0 {
        h + big
    } else {
        h
    }) by {
        if h < 0 {
            vstd::arithmetic::div_mod::lemma_mod_multiples_vanish(1, h, big);
            lemma_trunc_fits(h + big, 8);
        } else {
            lemma_trunc_fits(h, 8);
        }
    }
    assert(trunc(-1, 8) == big - 1) by {
        vstd::arithmetic::div_mod::lemma_mod_multiples_vanish(1, -1, big);
        lemma_trunc_fits(big - 1, 8);
    }
    lemma_trunc_fits(0, 8);
}

/// The operands `p` and `q` were read, cut down to `size` bytes.
pub open spec fn reads_factors(
    before: Lower,
    after: Lower,
    e: Entry,
    i: Instr,
    p: int,
    q: int,
    a: usize,
    b: usize,
    size: int,
) -> bool {
    let s = before.machine(e);
    &&& after.code.mem(e) == before.code.mem(e)
    &&& after.code.xmm(e) == before.code.xmm(e)
    &&& if before.code.trap(e) is Some {
        after.code.trap(e) == before.code.trap(e)
    } else {
        match operand_value(s, i, p) {
            Err(Fault::Memory(inv)) => trapped(
                after.code.trap(e),
                inv,
                i.ip,
                s.regs.gpr,
                before.stored(e),
            ),
            Err(Fault::Cpu(_)) => false,
            Ok(x) => match operand_value(s, i, q) {
                Err(Fault::Memory(inv)) => trapped(
                after.code.trap(e),
                inv,
                i.ip,
                s.regs.gpr,
                before.stored(e),
            ),
                Err(Fault::Cpu(_)) => false,
                Ok(y) => after.code.trap(e) is None && after.code.v(e, a) == trunc(
                    x as int,
                    size,
                ) && after.code.v(e, b) == trunc(y as int, size),
            },
        }
    }
}

/// The value `res` is the product of the values `a` and `b` cut down, and `over`
/// says that it does not fit.
spec fn multiplied(
    vals: Seq<u64>,
    a: usize,
    b: usize,
    res: usize,
    over: bool,
    size: int,
) -> bool {
    let product = signed(vals[a as int] as int, size) * signed(vals[b as int] as int, size);
    vals[res as int] == trunc(product, size) && over == signed_overflow(product, size)
}

/// Reading, computing and writing make up a multiplication.
proof fn lemma_imul_done(
    before: Lower,
    bound: Lower,
    after: Lower,
    e: Entry,
    i: Instr,
    p: int,
    q: int,
    a: usize,
    b: usize,
    res: usize,
    size: u8,
    f: u64,
)
    requires
        is_size(size),
        operand_bytes(i, 0) == Ok::<int, Fault>(size as int),
        reads_factors(before, bound, e, i, p, q, a, b, size as int),
        bound.regs(e) == before.regs(e),
        before.stored(e) == before.regs(e).rflags,
        ({
            let over = signed_overflow(
                signed(bound.code.v(e, a) as int, size as int) * signed(
                    bound.code.v(e, b) as int,
                    size as int,
                ),
                size as int,
            );
            &&& multiplied(bound.code.vals(e), a, b, res, over, size as int)
            &&& f == with_flag(with_flag(before.regs(e).rflags, CF, over), OF, over)
        }),
        completes(
            bound,
            after,
            e,
            after_operand_sized(
                bound.machine(e).with_regs(bound.regs(e).flags(f)),
                i,
                0,
                bound.code.v(e, res),
                size as int,
            ),
            i.ip,
        ),
    ensures
        completes(before, after, e, after_imul_pair(before.machine(e), i, p, q), i.ip),
{
    let s = before.machine(e);
    let v = bound.code.v(e, res);
    lemma_flags_frame(s, i, 0, v, size as int, f);
    if before.code.trap(e) is None && bound.code.trap(e) is None {
        let x = operand_value(s, i, p)->Ok_0;
        let y = operand_value(s, i, q)->Ok_0;
        crate::exec::alu::lemma_trunc_sum(x as int, 0, 0, size as int);
        crate::exec::alu::lemma_trunc_sum(y as int, 0, 0, size as int);
        let (t, fault) = after_operand_sized(s, i, 0, v, size as int);
        assert(t.regs.rflags == s.regs.rflags);
    }
}

impl Lower {
    /// Reads the operands `p` and `q`, cut down to the size of the first operand.
    fn read_factors(&mut self, i: &Instr, p: u32, q: u32) -> (r: Result<
        (usize, usize, u8),
        NotLowerable,
    >)
        requires
            old(self).wf(),
            old(self).room(6),
            i.wf(),
            imul_regular(*i),
            is_place(i.op0.kind),
            readable(*i, i.op0),
            (i.op_count == 2 && p == 0 && q == 1) || (i.op_count == 3 && p == 1 && q == 2),
            p < 3,
            q < 3,
            loads_operand(old(self).code.live, *i, i.operand(p as int)),
            loads_operand(old(self).code.live, *i, i.operand(q as int)),
        ensures
            is_place(i.op0.kind) && readable(*i, i.op0) ==> r is Ok == (readable(
                *i,
                i.operand(p as int),
            ) && readable(*i, i.operand(q as int))),
            r is Ok ==> readable(*i, i.operand(p as int)) && readable(*i, i.operand(q as int)) && (
            i.op0.kind == kind::MEMORY ==> integer_width(dst_bytes(*i))),
            r matches Ok((a, b, size)) ==> {
                &&& final(self).wf()
                &&& old(self).same_maps(*final(self))
                &&& final(self).code.live == old(self).code.live
                &&& final(self).code.n() <= old(self).code.n() + 6
                &&& final(self).code.has(a)
                &&& final(self).code.has(b)
                &&& is_size(size)
                &&& size == dst_bytes(*i)
                &&& forall|e: Entry|
                    #[trigger] final(self).code.vals(e)[a as int] < modulus(size as int)
                &&& forall|e: Entry|
                    #[trigger] final(self).code.vals(e)[b as int] < modulus(size as int)
                &&& forall|e: Entry| #[trigger] final(self).regs(e) == old(self).regs(e)
                &&& forall|e: Entry|
                    #![trigger final(self).code.trap(e)]
                    reads_factors(
                        *old(self),
                        *final(self),
                        e,
                        *i,
                        p as int,
                        q as int,
                        a,
                        b,
                        size as int,
                    )
            },
    {
        let ghost before = *self;
        let size: u8 = match self.op_size(i) {
            Ok(n) => n,
            Err(e) => {
                return Err(e);
            },
        };
        let raw0: usize = match self.read_op_mem(i, p) {
            Ok(v) => v,
            Err(e) => {
                return Err(e);
            },
        };
        let ghost s1 = *self;
        let x = mask_width(value(raw0), size);
        let ghost x0 = x;
        let a: usize = self.bind(x);
        let ghost s2 = *self;
        let raw1: usize = match self.read_op_mem(i, q) {
            Ok(v) => v,
            Err(e) => {
                return Err(e);
            },
        };
        let ghost s3 = *self;
        let y = mask_width(value(raw1), size);
        let ghost y0 = y;
        let b: usize = self.bind(y);
        proof {
            assert forall|e: Entry| #[trigger] self.regs(e) == before.regs(e) by {
                assert(s3.regs(e) == s2.regs(e));
                assert(s2.regs(e) == s1.regs(e));
                assert(s1.regs(e) == before.regs(e));
            }
            assert forall|e: Entry| #[trigger] self.code.vals(e)[a as int] < modulus(size as int) by {
                assert(s3.code.vals(e)[a as int] == s2.code.vals(e)[a as int]);
                assert(s2.code.vals(e)[a as int] == x0.eval(s1.code.vals(e)));
            }
            assert forall|e: Entry| #[trigger] self.code.vals(e)[b as int] < modulus(size as int) by {
                assert(self.code.vals(e)[b as int] == y0.eval(s3.code.vals(e)));
            }
            let o0 = i.operand(p as int);
            let o1 = i.operand(q as int);
            assert forall|e: Entry|
                #![trigger self.code.trap(e)]
                reads_factors(
                    before,
                    *self,
                    e,
                    *i,
                    p as int,
                    q as int,
                    a,
                    b,
                    size as int,
                ) by {
                assert(s1.code.trap(e) == s1.code.trap(e));
                assert(s2.code.trap(e) == s1.code.trap(e));
                assert(s2.code.mem(e) == s1.code.mem(e));
                assert(s2.code.xmm(e) == s1.code.xmm(e));
                assert(s3.code.trap(e) == s3.code.trap(e));
                assert(s1.regs(e) == before.regs(e));
                assert(s2.regs(e) == s1.regs(e));
                assert(self.code.mem(e) == s3.code.mem(e));
                assert(self.code.xmm(e) == s3.code.xmm(e));
                assert(s2.machine(e) == before.machine(e));
                assert(self.code.vals(e)[b as int] == y0.eval(s3.code.vals(e)));
                assert(self.code.vals(e)[a as int] == s3.code.vals(e)[a as int]);
                assert(s3.code.vals(e)[a as int] == s2.code.vals(e)[a as int]);
                assert(s2.code.vals(e)[a as int] == x0.eval(s1.code.vals(e)));
                if o0.kind == kind::REGISTER {
                    lemma_gpr_bytes(o0.reg);
                }
                if o1.kind == kind::REGISTER {
                    lemma_gpr_bytes(o1.reg);
                }
                lemma_trunc_steps(s1.code.v(e, raw0) as int, operand_width(o0), size as int);
                lemma_trunc_steps(s3.code.v(e, raw1) as int, operand_width(o1), size as int);
            }
        }
        Ok((a, b, size))
    }

    /// Computes the product of the values `a` and `b`, and whether it fits.
    fn multiply(&mut self, a: usize, b: usize, size: u8) -> (r: (usize, usize))
        requires
            old(self).wf(),
            old(self).room(4),
            old(self).code.has(a),
            old(self).code.has(b),
            is_size(size),
            forall|e: Entry| #[trigger] old(self).code.vals(e)[a as int] < modulus(size as int),
            forall|e: Entry| #[trigger] old(self).code.vals(e)[b as int] < modulus(size as int),
        ensures
            final(self).wf(),
            old(self).computes(*final(self)),
            final(self).code.n() <= old(self).code.n() + 4,
            final(self).code.has(r.0),
            final(self).code.has(r.1),
            forall|e: Entry| #[trigger] final(self).regs(e) == old(self).regs(e),
            forall|e: Entry|
                #![trigger final(self).code.vals(e)]
                multiplied(
                    final(self).code.vals(e),
                    a,
                    b,
                    r.0,
                    final(self).code.vals(e)[r.1 as int] != 0,
                    size as int,
                ),
    {
        let ghost before = *self;
        if size >= 8 {
            let lo: usize = self.bind(bin(BinOp::Mul, value(a), value(b)));
            let ghost s1 = *self;
            let hi = bin(BinOp::SmulHi, value(a), value(b));
            let sign = bin(BinOp::Sshr, value(lo), iconst(63));
            let x = bin(BinOp::Differ, hi, sign);
            let ghost x0 = x;
            let over: usize = self.bind(x);
            proof {
                lemma_computes_chain(before, s1, *self);
                assert forall|e: Entry| #[trigger] self.regs(e) == before.regs(e) by {
                    assert(s1.regs(e) == before.regs(e));
                }
                assert forall|e: Entry|
                    #![trigger self.code.vals(e)]
                    multiplied(
                        self.code.vals(e),
                        a,
                        b,
                        lo,
                        self.code.vals(e)[over as int] != 0,
                        size as int,
                    ) by {
                    let d = before.code.vals(e)[a as int];
                    let s = before.code.vals(e)[b as int];
                    assert(s1.code.vals(e)[a as int] == d && s1.code.vals(e)[b as int] == s);
                    assert(self.code.vals(e)[a as int] == d && self.code.vals(e)[b as int] == s);
                    assert(s1.code.vals(e)[lo as int] == trunc(d * s, 8));
                    assert(self.code.vals(e)[lo as int] == s1.code.vals(e)[lo as int]);
                    assert(self.code.vals(e)[over as int] == x0.eval(s1.code.vals(e)));
                    let sd = signed(d as int, 8);
                    let ss = signed(s as int, 8);
                    lemma_signed_bounds(d as int, 8);
                    lemma_signed_bounds(s as int, 8);
                    lemma_trunc_fits(d as int, 8);
                    lemma_trunc_fits(s as int, 8);
                    lemma_product(sd, ss);
                    assert(trunc(d * s, 8) == trunc(sd * ss, 8));
                    lemma_wide_bound(sd, ss);
                    lemma_overflow_wide(sd * ss);
                    vstd::arithmetic::power2::lemma2_to64_rest();
                    assert(crate::exec::shift::p2(63) == 0x8000_0000_0000_0000);
                }
            }
            (lo, over)
        } else {
            let product: usize = self.bind(
                bin(BinOp::Mul, sext_to_i64(a, size), sext_to_i64(b, size)),
            );
            let ghost s1 = *self;
            let x = mask_width(value(product), size);
            let ghost x0 = x;
            let lo: usize = self.bind(x);
            let ghost s2 = *self;
            let y = bin(BinOp::Differ, value(product), sext_to_i64(lo, size));
            let ghost y0 = y;
            let over: usize = self.bind(y);
            proof {
                lemma_computes_chain(before, s1, s2);
                lemma_computes_chain(before, s2, *self);
                assert forall|e: Entry| #[trigger] self.regs(e) == before.regs(e) by {
                    assert(s2.regs(e) == s1.regs(e));
                    assert(s1.regs(e) == before.regs(e));
                }
                assert forall|e: Entry|
                    #![trigger self.code.vals(e)]
                    multiplied(
                        self.code.vals(e),
                        a,
                        b,
                        lo,
                        self.code.vals(e)[over as int] != 0,
                        size as int,
                    ) by {
                    let d = before.code.vals(e)[a as int];
                    let s = before.code.vals(e)[b as int];
                    assert(self.code.vals(e)[a as int] == d && self.code.vals(e)[b as int] == s);
                    let sd = signed(d as int, size as int);
                    let ss = signed(s as int, size as int);
                    let p = sd * ss;
                    assert(s1.code.vals(e)[product as int] == trunc(
                        trunc(sd, 8) * trunc(ss, 8),
                        8,
                    ));
                    lemma_product(sd, ss);
                    assert(s2.code.vals(e)[lo as int] == x0.eval(s1.code.vals(e)));
                    assert(s2.code.vals(e)[product as int] == s1.code.vals(e)[product as int]);
                    assert(self.code.vals(e)[lo as int] == s2.code.vals(e)[lo as int]);
                    assert(self.code.vals(e)[over as int] == y0.eval(s2.code.vals(e)));
                    lemma_signed_bounds(d as int, size as int);
                    lemma_signed_bounds(s as int, size as int);
                    lemma_small_product(sd, ss, modulus(size as int) / 2);
                    lemma_trunc_narrow(p, size as int);
                    lemma_overflow_narrow(p, size as int);
                }
            }
            (lo, over)
        }
    }

    /// `imul` with two or three operands.
    pub(crate) fn lower_imul(&mut self, i: &Instr) -> (r: Result<(), NotLowerable>)
        requires
            old(self).wf(),
            old(self).room(16),
            i.wf(),
            imul_regular(*i),
            is_place(i.op0.kind),
            readable(*i, i.op0),
            loads_operand(old(self).code.live, *i, i.op0),
            loads_operand(old(self).code.live, *i, i.op1),
            loads_operand(old(self).code.live, *i, i.op2),
            old(self).code.live.flags,
        ensures
            r is Ok == (writable(*i, i.op0) && ((i.op_count == 2 && readable(*i, i.op1)) || (
            i.op_count == 3 && readable(*i, i.op1) && readable(*i, i.op2)))),
            r is Ok ==> {
                &&& final(self).wf()
                &&& final(self).code.live == old(self).code.live
                &&& final(self).code.n() <= old(self).code.n() + 16
                &&& forall|e: Entry|
                    #![trigger final(self).code.trap(e)]
                    completes(
                        *old(self),
                        *final(self),
                        e,
                        after_imul(old(self).machine(e), *i),
                        i.ip,
                    )
            },
    {
        let (p, q): (u32, u32) = match i.op_count {
            2 => (0, 1),
            3 => (1, 2),
            _ => {
                return Err(NotLowerable);
            },
        };
        let ghost before = *self;
        self.flush_pending();
        let ghost ready = *self;
        let (a, b, size): (usize, usize, u8) = match self.read_factors(i, p, q) {
            Ok(r) => r,
            Err(e) => {
                return Err(e);
            },
        };
        let ghost middle = *self;
        let (res, over): (usize, usize) = self.multiply(a, b, size);
        let ghost done = *self;
        let f = set_flag(value(self.rflags), CF, value(over));
        let f = set_flag(f, OF, value(over));
        let ghost f0 = f;
        let flags: usize = self.bind(f);
        let ghost bound = *self;
        let r = self.finish_eager(i, res, size, flags);
        proof {
            if r is Ok {
                assert(operand_bytes(*i, 0) == Ok::<int, Fault>(size as int));
                assert forall|e: Entry|
                    #![trigger self.code.trap(e)]
                    completes(before, *self, e, after_imul(before.machine(e), *i), i.ip) by {
                    assert(ready.machine(e) == before.machine(e));
                    assert(ready.code.trap(e) == before.code.trap(e));
                    assert(ready.code.mem(e) == before.code.mem(e));
                    assert(ready.code.xmm(e) == before.code.xmm(e));
                    assert(middle.code.trap(e) == middle.code.trap(e));
                    assert(middle.regs(e) == ready.regs(e));
                    assert(done.code.trap(e) == middle.code.trap(e));
                    assert(done.code.mem(e) == middle.code.mem(e));
                    assert(done.code.xmm(e) == middle.code.xmm(e));
                    assert(done.regs(e) == middle.regs(e));
                    assert(bound.code.trap(e) == done.code.trap(e));
                    assert(bound.code.mem(e) == done.code.mem(e));
                    assert(bound.code.xmm(e) == done.code.xmm(e));
                    assert(bound.regs(e) == done.regs(e));
                    let v = done.code.vals(e);
                    let w = bound.code.vals(e);
                    assert(multiplied(v, a, b, res, v[over as int] != 0, size as int));
                    assert(v[a as int] == middle.code.vals(e)[a as int]);
                    assert(v[b as int] == middle.code.vals(e)[b as int]);
                    assert(w[a as int] == v[a as int] && w[b as int] == v[b as int] && w[res
                        as int] == v[res as int]);
                    assert(w[flags as int] == f0.eval(v));
                    assert(ready.regs(e).rflags == v[done.rflags as int]) by {
                        assert(done.regs(e).rflags == v[done.rflags as int]);
                    }
                    lemma_imul_done(
                        ready,
                        bound,
                        *self,
                        e,
                        *i,
                        p as int,
                        q as int,
                        a,
                        b,
                        res,
                        size,
                        bound.code.v(e, flags),
                    );
                }
            }
        }
        r
    }
}

/// A product of two 64-bit numbers fits 127 bits.
proof fn lemma_wide_bound(x: int, y: int)
    requires
        -0x8000_0000_0000_0000 <= x < 0x8000_0000_0000_0000,
        -0x8000_0000_0000_0000 <= y < 0x8000_0000_0000_0000,
    ensures
        -0x4000_0000_0000_0000_0000_0000_0000_0000int <= x * y
            <= 0x4000_0000_0000_0000_0000_0000_0000_0000int,
{
    let h = 0x8000_0000_0000_0000int;
    assert(-(h * h) <= x * y <= h * h) by (nonlinear_arith)
        requires
            -h <= x < h,
            -h <= y < h,
            0 < h,
    ;
    assert(h * h == 0x4000_0000_0000_0000_0000_0000_0000_0000int);
}

/// Registers that are multiplied are no smaller than the first operand.
pub open spec fn imul_regular(i: Instr) -> bool {
    &&& memory_regular(i)
    &&& operand_width(i.op1) >= dst_bytes(i)
    &&& i.op_count == 2 ==> operand_width(i.op0) >= dst_bytes(i)
    &&& i.op_count == 3 ==> operand_width(i.op2) >= dst_bytes(i)
}

/// Whether registers that are multiplied are no smaller than the first operand.
pub fn is_imul_regular(i: &Instr) -> (r: bool)
    ensures
        r == imul_regular(*i),
{
    if !is_memory_regular(i) {
        return false;
    }
    let n: usize = dst_size(i);
    width_of_operand(i.op1) >= n && (i.op_count != 2 || width_of_operand(i.op0) >= n) && (i.op_count
        != 3 || width_of_operand(i.op2) >= n)
}

} // verus!
