//! Compiling arithmetic that reads or keeps flags.

use vstd::prelude::*;

use crate::exec::alu::{
    after_arith, arith_rflags, arith_result, lemma_trunc_narrow, lemma_trunc_sum, ArithOp,
};
use crate::exec::model::Fault;
use crate::exec::operand::{after_operand_sized, operand_bytes};
use crate::insn::instr::Instr;
use crate::insn::kind;
use crate::jit::access::{loads_operand, readable, writable};
use crate::jit::arith::{is_place, lemma_flags_frame, reads_pair};
use crate::jit::block::{address_ok, integer_width};
use crate::jit::cond::either;
use crate::jit::flags::{
    flag_bit, flags_add, flags_sub, is_difference, is_sum, lemma_masks, mask_width, set_flag,
};
use crate::jit::ir::{bin, iconst, select, value, BinOp, Entry, Expr, Live};
use crate::jit::moves::pair_regular;
use crate::jit::shift_flags::{lemma_powers, lemma_trunc_fits, width_bits};
use crate::jit::state::{completes, is_size, Lower, NotLowerable};
use crate::regs::{flag_of, modulus, trunc, CF};

verus! {

/// The carry flag as a number.
pub open spec fn carry_in(rflags: u64) -> int {
    if flag_of(rflags, CF) {
        1
    } else {
        0
    }
}

/// The condition for the carry flag of a sum with carry: the values `a` and `b`
/// of `size` bytes, their sum modulo `2^64`, and the carry that came in.
fn carry_out(a: usize, b: usize, ab: usize, c: usize, size: u8) -> (r: Expr)
    requires
        is_size(size),
    ensures
        forall|vals: Seq<u64>|
            #![trigger r.eval(vals)]
            vals[a as int] < modulus(size as int) && vals[b as int] < modulus(size as int)
                && vals[c as int] <= 1 && vals[ab as int] == trunc(
                vals[a as int] + vals[b as int],
                8,
            ) ==> (r.eval(vals) != 0) == (vals[a as int] + vals[b as int] + vals[c as int]
                >= modulus(size as int)),
        forall|n: int, l: Live|
            #[trigger] r.uses(n, l) <== (a < n && l.allows(a as int) && b < n && l.allows(b as int)
                && ab < n && l.allows(ab as int) && c < n && l.allows(c as int)),
{
    if size >= 8 {
        let first = bin(BinOp::Below, value(ab), value(a));
        let second = bin(BinOp::Below, bin(BinOp::Add, value(ab), value(c)), value(ab));
        either(first, second)
    } else {
        let sum = bin(BinOp::Add, value(ab), value(c));
        let w: u64 = width_bits(size);
        let r = bin(BinOp::Differ, bin(BinOp::Ushr, sum, iconst(w)), iconst(0));
        proof {
            assert forall|vals: Seq<u64>|
                #![trigger r.eval(vals)]
                vals[a as int] < modulus(size as int) && vals[b as int] < modulus(size as int)
                    && vals[c as int] <= 1 && vals[ab as int] == trunc(
                    vals[a as int] + vals[b as int],
                    8,
                ) implies (r.eval(vals) != 0) == (vals[a as int] + vals[b as int] + vals[c as int]
                >= modulus(size as int)) by {
                lemma_powers(size as int, 0);
                let sum = vals[a as int] + vals[b as int] + vals[c as int];
                lemma_trunc_fits(vals[a as int] + vals[b as int], 8);
                lemma_trunc_fits(sum, 8);
                lemma_quotient_zero(sum, modulus(size as int));
            }
        }
        r
    }
}

/// The condition for the carry flag of a difference with borrow.
fn borrow_out(a: usize, b: usize, c: usize) -> (r: Expr)
    ensures
        forall|vals: Seq<u64>|
            #![trigger r.eval(vals)]
            vals[c as int] <= 1 ==> (r.eval(vals) != 0) == (vals[a as int] < vals[b as int]
                + vals[c as int]),
        forall|n: int, l: Live|
            #[trigger] r.uses(n, l) <== (a < n && l.allows(a as int) && b < n && l.allows(b as int)
                && c < n && l.allows(c as int)),
{
    select(
        bin(BinOp::Equal, value(a), value(b)),
        value(c),
        bin(BinOp::Below, value(a), value(b)),
    )
}

/// A quotient is zero exactly if the number is smaller than the divisor.
proof fn lemma_quotient_zero(x: int, m: int)
    requires
        0 <= x <= u64::MAX,
        0 < m,
    ensures
        x / m == 0 <==> x < m,
        0 <= x / m <= u64::MAX,
{
    vstd::arithmetic::div_mod::lemma_fundamental_div_mod(x, m);
    let t = x / m;
    assert((t == 0 <==> x < m) && 0 <= t <= x) by (nonlinear_arith)
        requires
            x == m * t + x % m,
            0 <= x % m < m,
            0 <= x,
            0 < m,
    ;
}

/// Reading, computing and writing make up an addition or subtraction with carry.
proof fn lemma_carry_done(
    before: Lower,
    bound: Lower,
    after: Lower,
    e: Entry,
    i: Instr,
    op: ArithOp,
    a: usize,
    b: usize,
    res: usize,
    size: u8,
    f: u64,
)
    requires
        op == ArithOp::Adc || op == ArithOp::Sbb,
        is_size(size),
        operand_bytes(i, 0) == Ok::<int, Fault>(size as int),
        reads_pair(before, bound, e, i, a, b, size as int),
        bound.regs(e) == before.regs(e),
        before.stored(e) == before.regs(e).rflags,
        ({
            let c = carry_in(before.regs(e).rflags);
            let d = bound.code.v(e, a);
            let v = bound.code.v(e, b);
            &&& bound.code.v(e, res) == arith_result(op, d, v, c, size as int)
            &&& f == arith_rflags(op, before.regs(e).rflags, d, v, c, size as int)
        }),
        completes(
            bound,
            after,
            e,
            after_operand_sized(
                bound.machine(e).with_regs(bound.regs(e).flags(f)),
                i,
                0,
                bound.code.v(e, res),
                size as int,
            ),
            i.ip,
        ),
    ensures
        completes(before, after, e, after_arith(before.machine(e), i, op), i.ip),
{
}

impl Lower {
    /// Writes the result `res` to the first operand, and takes `flags` for the
    /// flags.
    pub(crate) fn finish_eager(&mut self, i: &Instr, res: usize, size: u8, flags: usize) -> (r: Result<
        (),
        NotLowerable,
    >)
        requires
            old(self).wf(),
            old(self).room(2),
            i.wf(),
            i.op0.kind == kind::MEMORY ==> address_ok(*i),
            loads_operand(old(self).code.live, *i, i.op0),
            old(self).code.live.flags,
            old(self).pending is Nothing,
            old(self).code.has(res),
            old(self).code.has(flags),
            is_size(size),
        ensures
            r is Ok == writable(*i, i.op0),
            r is Ok ==> {
                &&& final(self).wf()
                &&& final(self).code.live == old(self).code.live
                &&& final(self).code.n() <= old(self).code.n() + 2
                &&& forall|e: Entry|
                    #![trigger final(self).code.trap(e)]
                    completes(
                        *old(self),
                        *final(self),
                        e,
                        after_operand_sized(
                            old(self).machine(e).with_regs(
                                old(self).regs(e).flags(old(self).code.v(e, flags)),
                            ),
                            *i,
                            0,
                            old(self).code.v(e, res),
                            size as int,
                        ),
                        i.ip,
                    )
            },
    {
        let ghost before = *self;
        match self.write_op_mem(i, 0, res, size) {
            Ok(()) => {},
            Err(e) => {
                return Err(e);
            },
        }
        let ghost written = *self;
        self.set_rflags(flags);
        proof {
            assert forall|e: Entry|
                #![trigger self.code.trap(e)]
                completes(
                    before,
                    *self,
                    e,
                    after_operand_sized(
                        before.machine(e).with_regs(
                            before.regs(e).flags(before.code.v(e, flags)),
                        ),
                        *i,
                        0,
                        before.code.v(e, res),
                        size as int,
                    ),
                    i.ip,
                ) by {
                let s = before.machine(e);
                let f = before.code.v(e, flags);
                assert(written.code.trap(e) == self.code.trap(e));
                assert(written.code.vals(e)[flags as int] == f);
                lemma_flags_frame(s, *i, 0, before.code.v(e, res), size as int, f);
                assert(self.machine(e) == written.machine(e).with_regs(
                    written.regs(e).flags(f),
                ));
            }
        }
        Ok(())
    }

    /// The carry flag as a value. No flags are pending.
    fn bind_carry(&mut self) -> (c: usize)
        requires
            old(self).wf(),
            old(self).room(1),
            old(self).code.live.flags,
            old(self).pending is Nothing,
        ensures
            final(self).wf(),
            old(self).computes(*final(self)),
            final(self).code.n() == old(self).code.n() + 1,
            final(self).code.has(c),
            forall|e: Entry| #[trigger] final(self).regs(e) == old(self).regs(e),
            forall|e: Entry| #[trigger] final(self).machine(e) == old(self).machine(e),
            forall|e: Entry| #[trigger]
                final(self).code.vals(e)[c as int] == carry_in(
                    old(self).code.vals(e)[old(self).rflags as int],
                ),
    {
        let ghost before = *self;
        let x = flag_bit(value(self.rflags), CF);
        let ghost x0 = x;
        let c: usize = self.bind(x);
        proof {
            assert forall|e: Entry| #[trigger] self.code.vals(e)[c as int] == carry_in(
                before.code.vals(e)[before.rflags as int],
            ) by {
                assert(self.code.vals(e)[c as int] == x0.eval(before.code.vals(e)));
                lemma_masks(before.code.vals(e)[before.rflags as int]);
            }
        }
        c
    }

    /// Computes the result and the flags of an addition with carry of the values
    /// `a` and `b`.
    fn compute_adc(&mut self, a: usize, b: usize, size: u8) -> (r: (usize, usize))
        requires
            old(self).wf(),
            old(self).room(5),
            old(self).code.live.flags,
            old(self).pending is Nothing,
            old(self).code.has(a),
            old(self).code.has(b),
            is_size(size),
            forall|e: Entry| #[trigger] old(self).code.vals(e)[a as int] < modulus(size as int),
            forall|e: Entry| #[trigger] old(self).code.vals(e)[b as int] < modulus(size as int),
        ensures
            final(self).wf(),
            old(self).computes(*final(self)),
            final(self).code.n() <= old(self).code.n() + 5,
            final(self).code.has(r.0),
            final(self).code.has(r.1),
            forall|e: Entry| #[trigger] final(self).regs(e) == old(self).regs(e),
            forall|e: Entry|
                #![trigger final(self).code.vals(e)]
                carried(
                    ArithOp::Adc,
                    old(self).code.vals(e),
                    final(self).code.vals(e),
                    old(self).rflags,
                    a,
                    b,
                    r.0,
                    r.1,
                    size as int,
                ),
    {
        let ghost before = *self;
        let c: usize = self.bind_carry();
        let ghost s1 = *self;
        let ab: usize = self.bind(bin(BinOp::Add, value(a), value(b)));
        let ghost s2 = *self;
        let t: usize = self.bind(mask_width(bin(BinOp::Add, value(b), value(c)), size));
        let ghost s3 = *self;
        let res: usize = self.bind(mask_width(bin(BinOp::Add, value(ab), value(c)), size));
        let ghost s4 = *self;
        let f = flags_add(value(self.rflags), a, t, res, size);
        let f = set_flag(f, CF, carry_out(a, b, ab, c, size));
        let ghost f0 = f;
        let flags: usize = self.bind(f);
        proof {
            assert forall|e: Entry| #[trigger] self.regs(e) == before.regs(e) by {
                assert(s4.regs(e) == s3.regs(e));
                assert(s3.regs(e) == s2.regs(e));
                assert(s2.regs(e) == s1.regs(e));
                assert(s1.regs(e) == before.regs(e));
            }
            lemma_computes_chain(before, s1, s2);
            lemma_computes_chain(before, s2, s3);
            lemma_computes_chain(before, s3, s4);
            lemma_computes_chain(before, s4, *self);
            assert forall|e: Entry|
                #![trigger self.code.vals(e)]
                carried(
                    ArithOp::Adc,
                    before.code.vals(e),
                    self.code.vals(e),
                    before.rflags,
                    a,
                    b,
                    res,
                    flags,
                    size as int,
                ) by {
                let v = s4.code.vals(e);
                let d = before.code.vals(e)[a as int];
                let s = before.code.vals(e)[b as int];
                let rf = before.code.vals(e)[before.rflags as int];
                let cc = carry_in(rf);
                assert(v[a as int] == d && v[b as int] == s && v[before.rflags as int] == rf);
                assert(s1.code.vals(e)[c as int] == cc);
                assert(s2.code.vals(e)[c as int] == cc && s3.code.vals(e)[c as int] == cc && v[c
                    as int] == cc);
                assert(s1.code.vals(e)[a as int] == d && s1.code.vals(e)[b as int] == s);
                assert(s2.code.vals(e)[ab as int] == trunc(d + s, 8));
                assert(s3.code.vals(e)[ab as int] == trunc(d + s, 8) && v[ab as int] == trunc(
                    d + s,
                    8,
                ));
                assert(s2.code.vals(e)[b as int] == s);
                lemma_sums(d as int, s as int, cc, size as int);
                assert(s3.code.vals(e)[t as int] == trunc(s + cc, size as int));
                assert(v[t as int] == s3.code.vals(e)[t as int]);
                assert(v[res as int] == trunc(d + s + cc, size as int));
                assert(self.code.vals(e)[res as int] == v[res as int]);
                assert(self.code.vals(e)[flags as int] == f0.eval(v));
                assert(is_sum(v, a, t, res, size as int));
            }
        }
        (res, flags)
    }

    /// Computes the result and the flags of a subtraction with borrow of the
    /// values `a` and `b`.
    fn compute_sbb(&mut self, a: usize, b: usize, size: u8) -> (r: (usize, usize))
        requires
            old(self).wf(),
            old(self).room(5),
            old(self).code.live.flags,
            old(self).pending is Nothing,
            old(self).code.has(a),
            old(self).code.has(b),
            is_size(size),
            forall|e: Entry| #[trigger] old(self).code.vals(e)[a as int] < modulus(size as int),
            forall|e: Entry| #[trigger] old(self).code.vals(e)[b as int] < modulus(size as int),
        ensures
            final(self).wf(),
            old(self).computes(*final(self)),
            final(self).code.n() <= old(self).code.n() + 5,
            final(self).code.has(r.0),
            final(self).code.has(r.1),
            forall|e: Entry| #[trigger] final(self).regs(e) == old(self).regs(e),
            forall|e: Entry|
                #![trigger final(self).code.vals(e)]
                carried(
                    ArithOp::Sbb,
                    old(self).code.vals(e),
                    final(self).code.vals(e),
                    old(self).rflags,
                    a,
                    b,
                    r.0,
                    r.1,
                    size as int,
                ),
    {
        let ghost before = *self;
        let c: usize = self.bind_carry();
        let ghost s1 = *self;
        let ab: usize = self.bind(bin(BinOp::Sub, value(a), value(b)));
        let ghost s2 = *self;
        let t: usize = self.bind(mask_width(bin(BinOp::Add, value(b), value(c)), size));
        let ghost s3 = *self;
        let res: usize = self.bind(mask_width(bin(BinOp::Sub, value(ab), value(c)), size));
        let ghost s4 = *self;
        let f = flags_sub(value(self.rflags), a, t, res, size);
        let f = set_flag(f, CF, borrow_out(a, b, c));
        let ghost f0 = f;
        let flags: usize = self.bind(f);
        proof {
            assert forall|e: Entry| #[trigger] self.regs(e) == before.regs(e) by {
                assert(s4.regs(e) == s3.regs(e));
                assert(s3.regs(e) == s2.regs(e));
                assert(s2.regs(e) == s1.regs(e));
                assert(s1.regs(e) == before.regs(e));
            }
            lemma_computes_chain(before, s1, s2);
            lemma_computes_chain(before, s2, s3);
            lemma_computes_chain(before, s3, s4);
            lemma_computes_chain(before, s4, *self);
            assert forall|e: Entry|
                #![trigger self.code.vals(e)]
                carried(
                    ArithOp::Sbb,
                    before.code.vals(e),
                    self.code.vals(e),
                    before.rflags,
                    a,
                    b,
                    res,
                    flags,
                    size as int,
                ) by {
                let v = s4.code.vals(e);
                let d = before.code.vals(e)[a as int];
                let s = before.code.vals(e)[b as int];
                let rf = before.code.vals(e)[before.rflags as int];
                let cc = carry_in(rf);
                assert(v[a as int] == d && v[b as int] == s && v[before.rflags as int] == rf);
                assert(s1.code.vals(e)[c as int] == cc);
                assert(s2.code.vals(e)[c as int] == cc && s3.code.vals(e)[c as int] == cc && v[c
                    as int] == cc);
                assert(s1.code.vals(e)[a as int] == d && s1.code.vals(e)[b as int] == s);
                assert(s2.code.vals(e)[ab as int] == trunc(d - s, 8));
                assert(s3.code.vals(e)[ab as int] == trunc(d - s, 8));
                assert(s2.code.vals(e)[b as int] == s);
                lemma_sums(d as int, s as int, cc, size as int);
                assert(s3.code.vals(e)[t as int] == trunc(s + cc, size as int));
                assert(v[t as int] == s3.code.vals(e)[t as int]);
                assert(v[res as int] == trunc(d - s - cc, size as int));
                assert(self.code.vals(e)[res as int] == v[res as int]);
                assert(self.code.vals(e)[flags as int] == f0.eval(v));
                assert(is_difference(v, a, t, res, size as int));
            }
        }
        (res, flags)
    }

    /// `adc` and `sbb`.
    pub(crate) fn lower_arith(&mut self, i: &Instr, op: ArithOp) -> (r: Result<(), NotLowerable>)
        requires
            old(self).wf(),
            old(self).room(15),
            i.wf(),
            pair_regular(*i),
            loads_operand(old(self).code.live, *i, i.op0),
            loads_operand(old(self).code.live, *i, i.op1),
            old(self).code.live.flags,
            op == ArithOp::Adc || op == ArithOp::Sbb,
        ensures
            r is Ok == (is_place(i.op0.kind) && readable(*i, i.op0) && readable(*i, i.op1)
                && writable(*i, i.op0)),
            r is Ok ==> {
                &&& final(self).wf()
                &&& final(self).code.live == old(self).code.live
                &&& final(self).code.n() <= old(self).code.n() + 15
                &&& forall|e: Entry|
                    #![trigger final(self).code.trap(e)]
                    completes(
                        *old(self),
                        *final(self),
                        e,
                        after_arith(old(self).machine(e), *i, op),
                        i.ip,
                    )
            },
    {
        let ghost before = *self;
        self.flush_pending();
        let ghost ready = *self;
        let (a, b, size): (usize, usize, u8) = match self.read_pair(i) {
            Ok(r) => r,
            Err(e) => {
                return Err(e);
            },
        };
        let ghost middle = *self;
        let (res, flags): (usize, usize) = if op == ArithOp::Adc {
            self.compute_adc(a, b, size)
        } else {
            self.compute_sbb(a, b, size)
        };
        let ghost bound = *self;
        let r = self.finish_eager(i, res, size, flags);
        proof {
            if r is Ok {
                assert forall|e: Entry|
                    #![trigger self.code.trap(e)]
                    completes(before, *self, e, after_arith(before.machine(e), *i, op), i.ip) by {
                    assert(ready.machine(e) == before.machine(e));
                    assert(ready.code.trap(e) == before.code.trap(e));
                    assert(ready.code.mem(e) == before.code.mem(e));
                    assert(ready.code.xmm(e) == before.code.xmm(e));
                    assert(middle.code.trap(e) == middle.code.trap(e));
                    assert(middle.regs(e) == ready.regs(e));
                    assert(bound.code.trap(e) == middle.code.trap(e));
                    assert(bound.code.mem(e) == middle.code.mem(e));
                    assert(bound.code.xmm(e) == middle.code.xmm(e));
                    assert(bound.regs(e) == middle.regs(e));
                    assert(carried(
                        op,
                        middle.code.vals(e),
                        bound.code.vals(e),
                        middle.rflags,
                        a,
                        b,
                        res,
                        flags,
                        size as int,
                    ));
                    assert(bound.code.vals(e)[a as int] == middle.code.vals(e)[a as int]);
                    assert(bound.code.vals(e)[b as int] == middle.code.vals(e)[b as int]);
                    assert(ready.regs(e).rflags == middle.code.vals(e)[middle.rflags as int]);
                    lemma_carry_done(
                        ready,
                        bound,
                        *self,
                        e,
                        *i,
                        op,
                        a,
                        b,
                        res,
                        size,
                        bound.code.v(e, flags),
                    );
                }
            }
        }
        r
    }
}

/// The values `res` and `flags` are the result and the flags of `op` on `a` and
/// `b`.
pub open spec fn carried(
    op: ArithOp,
    before: Seq<u64>,
    after: Seq<u64>,
    rflags: usize,
    a: usize,
    b: usize,
    res: usize,
    flags: usize,
    size: int,
) -> bool {
    let rf = before[rflags as int];
    let d = before[a as int];
    let s = before[b as int];
    &&& after[res as int] == arith_result(op, d, s, carry_in(rf), size)
    &&& after[flags as int] == arith_rflags(op, rf, d, s, carry_in(rf), size)
}

/// Computing goes on.
pub proof fn lemma_computes_chain(a: Lower, b: Lower, c: Lower)
    requires
        a.computes(b),
        b.computes(c),
    ensures
        a.computes(c),
{
    assert forall|e: Entry, v: int| 0 <= v < a.code.n() implies #[trigger] c.code.vals(e)[v]
        == a.code.vals(e)[v] by {
        assert(b.code.vals(e)[v] == a.code.vals(e)[v]);
    }
    assert forall|e: Entry| #[trigger] c.code.mem(e) == a.code.mem(e) by {
        assert(b.code.mem(e) == a.code.mem(e));
    }
    assert forall|e: Entry| #[trigger] c.code.xmm(e) == a.code.xmm(e) by {
        assert(b.code.xmm(e) == a.code.xmm(e));
    }
    assert forall|e: Entry| #[trigger] c.code.trap(e) == a.code.trap(e) by {
        assert(b.code.trap(e) == a.code.trap(e));
    }
}

/// Sums and differences in steps.
proof fn lemma_sums(d: int, s: int, c: int, size: int)
    requires
        integer_width(size),
        0 <= d < modulus(size),
        0 <= s < modulus(size),
        0 <= c <= 1,
    ensures
        trunc(trunc(s + c, 8), size) == trunc(s + c, size),
        trunc(trunc(trunc(d + s, 8) + c, 8), size) == trunc(d + s + c, size),
        trunc(trunc(trunc(d - s, 8) - c, 8), size) == trunc(d - s - c, size),
        trunc(d + trunc(s + c, size), size) == trunc(d + s + c, size),
        trunc(d - trunc(s + c, size), size) == trunc(d - s - c, size),
{
    lemma_trunc_sum(d, s, c, size);
    lemma_trunc_narrow(s + c, size);
    lemma_trunc_narrow(trunc(d + s, 8) + c, size);
    lemma_trunc_narrow(trunc(d - s, 8) - c, size);
    lemma_trunc_sum(c, d, s, size);
    lemma_trunc_step(d + s, c, size);
    lemma_trunc_step(d - s, -c, size);
}

/// Cutting down to eight bytes before adding changes nothing.
proof fn lemma_trunc_step(x: int, c: int, size: int)
    requires
        integer_width(size),
    ensures
        trunc(trunc(x, 8) + c, size) == trunc(x + c, size),
{
    let m = modulus(size);
    let q = x / 0x1_0000_0000_0000_0000;
    let k = 0x1_0000_0000_0000_0000int / m;
    vstd::arithmetic::div_mod::lemma_fundamental_div_mod(x, 0x1_0000_0000_0000_0000);
    assert(k * m == 0x1_0000_0000_0000_0000);
    let t = trunc(x, 8);
    assert(x + c == m * (k * q) + (t + c)) by (nonlinear_arith)
        requires
            x == 0x1_0000_0000_0000_0000 * q + t,
            k * m == 0x1_0000_0000_0000_0000,
    ;
    vstd::arithmetic::div_mod::lemma_mod_multiples_vanish(k * q, t + c, m);
}

} // verus!
