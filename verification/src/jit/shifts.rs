//! Compiling shifts and rotates.

use vstd::prelude::*;

use crate::exec::alu::{lemma_trunc_narrow, sign_extended};
use crate::exec::model::{Fault, Machine, Next};
use crate::exec::operand::{
    address_of, after_operand, after_operand_sized, operand_bytes, operand_value,
};
use crate::exec::shift::{
    after_shift, lemma_rotate_bound, p2, shift_count, shift_rflags, shifted, width, ShiftKind,
};
use crate::insn::instr::Instr;
use crate::insn::kind;
use crate::jit::access::{
    loads_operand, memory_regular, operand_width, readable, writable,
};
use crate::jit::arith::is_place;
use crate::jit::block::integer_width;
use crate::jit::flags::{lemma_masks, mask_width};
use crate::jit::ir::{bin, iconst, select, value, BinOp, Entry, Expr, Live};
use crate::jit::moves::{dst_bytes, lemma_gpr_bytes};
use crate::jit::shift_flags::{
    lemma_powers, lemma_quotient_fits, lemma_shifted_fits, lemma_trunc_fits, sext_to_i64,
    width_bits,
};
use crate::jit::state::{follows, is_size, settles, trapped, Lower, NotLowerable, Pending};
use crate::regs::{modulus, signed, trunc, Reg};

verus! {

/// A shift as compiled code does it: with a count of zero the operand is still
/// written, which clears the high half of a 64-bit register if its low half is
/// shifted.
pub open spec fn after_shift_eager(s: Machine, i: Instr, kind: ShiftKind) -> Next {
    match operand_bytes(i, 0) {
        Err(f) => s.failed(f),
        Ok(size) => match operand_value(s, i, 0) {
            Err(f) => s.failed(f),
            Ok(v) => match operand_value(s, i, 1) {
                Err(f) => s.failed(f),
                Ok(count) => {
                    let d = trunc(v as int, size);
                    let c = shift_count(count, size);
                    if c == 0 {
                        after_operand(s, i, 0, d as u64)
                    } else {
                        after_operand(
                            s.with_regs(
                                s.regs.flags(shift_rflags(kind, s.regs.rflags, d, c, size)),
                            ),
                            i,
                            0,
                            shifted(kind, d, c, size) as u64,
                        )
                    }
                },
            },
        },
    }
}

/// The operand is the low half of a register whose high half is not zero.
pub open spec fn half_of_more(s: Machine, i: Instr) -> bool {
    i.op0.kind == kind::REGISTER && (i.op0.reg matches Reg::Dword(k) && s.regs.gpr[k as int]
        >= 0x1_0000_0000)
}

/// Writing back what the first of two operands holds changes nothing, unless that
/// clears the high half of a register.
pub proof fn written_back(s: Machine, i: Instr)
    requires
        i.wf(),
        s.regs.gpr.len() == 16,
        is_place(i.op0.kind),
        operand_bytes(i, 0) is Ok,
        operand_value(s, i, 0) is Ok,
        operand_value(s, i, 1) is Ok,
        !half_of_more(s, i),
    ensures
        after_operand(
            s,
            i,
            0,
            trunc(operand_value(s, i, 0)->Ok_0 as int, operand_bytes(i, 0)->Ok_0) as u64,
        ) == s.done(),
{
    let v = operand_value(s, i, 0)->Ok_0;
    let size = operand_bytes(i, 0)->Ok_0;
    let d = trunc(v as int, size) as u64;
    if i.op0.kind == kind::REGISTER {
        assert(i.op0.reg.wf());
        let regs = s.regs.set_reg(i.op0.reg, d)->0;
        assert(regs.gpr =~= s.regs.gpr);
        assert(s.with_regs(regs) =~= s);
    } else {
        let a = address_of(s.regs, i)->Ok_0;
        let bytes = crate::mem::model::load(s.mem, a as int, size as nat);
        assert(size == 1 || size == 2 || size == 4 || size == 8);
        crate::mem::model::lemma_mapped_run(s.mem, a as int, size as nat);
        crate::endian::lemma_pow256();
        crate::endian::lemma_le_value_bound(bytes);
        crate::endian::value_round_trip(bytes);
        assert(d == v);
        assert(bytes.take(size) =~= bytes);
        assert(crate::mem::model::store(s.mem, a as int, bytes) =~= s.mem) by {
            assert forall|va: int| a <= va < a + size && s.mem.contains_key(va) implies bytes[va
                - a] == s.mem[va] by {}
        }
        assert(after_operand(s, i, 0, d).0 =~= s);
    }
}

/// A compiled shift does what the instruction does, unless the count is zero and the
/// operand is half of a register whose other half is not zero.
pub proof fn eager_shift_is_shift(s: Machine, i: Instr, kind: ShiftKind)
    requires
        i.wf(),
        s.regs.gpr.len() == 16,
        is_place(i.op0.kind),
        operand_bytes(i, 0) matches Ok(size) ==> (operand_value(s, i, 1) matches Ok(count) ==> (
        shift_count(count, size) != 0 || !half_of_more(s, i))),
    ensures
        after_shift_eager(s, i, kind) == after_shift(s, i, kind),
{
    if operand_bytes(i, 0) is Ok && operand_value(s, i, 0) is Ok && operand_value(s, i, 1) is Ok
        && shift_count(operand_value(s, i, 1)->Ok_0, operand_bytes(i, 0)->Ok_0) == 0 {
        written_back(s, i);
    }
}

/// The result of moving the value `dst` by `count` places, without the cut.
fn moved(kind: ShiftKind, dst: usize, count: usize, size: u8) -> (r: Expr)
    requires
        is_size(size),
    ensures
        forall|vals: Seq<u64>|
            #![trigger r.eval(vals)]
            vals[dst as int] < modulus(size as int) && 0 < vals[count as int] < width(size as int)
                ==> trunc(r.eval(vals) as int, size as int) == shifted(
                kind,
                vals[dst as int] as int,
                vals[count as int] as int,
                size as int,
            ),
        forall|n: int, l: Live|
            #[trigger] r.uses(n, l) <== (dst < n && l.allows(dst as int) && count < n && l.allows(
                count as int,
            )),
{
    match kind {
        ShiftKind::Shl => {
            let r = bin(BinOp::Shl, value(dst), value(count));
            proof {
                assert forall|vals: Seq<u64>|
                    #![trigger r.eval(vals)]
                    vals[dst as int] < modulus(size as int) && 0 < vals[count as int] < width(
                        size as int,
                    ) implies trunc(r.eval(vals) as int, size as int) == shifted(
                    kind,
                    vals[dst as int] as int,
                    vals[count as int] as int,
                    size as int,
                ) by {
                    lemma_trunc_narrow(
                        vals[dst as int] * p2(vals[count as int] as int),
                        size as int,
                    );
                }
            }
            r
        },
        ShiftKind::Shr => {
            let r = bin(BinOp::Ushr, value(dst), value(count));
            proof {
                assert forall|vals: Seq<u64>|
                    #![trigger r.eval(vals)]
                    vals[dst as int] < modulus(size as int) && 0 < vals[count as int] < width(
                        size as int,
                    ) implies trunc(r.eval(vals) as int, size as int) == shifted(
                    kind,
                    vals[dst as int] as int,
                    vals[count as int] as int,
                    size as int,
                ) by {
                    let d = vals[dst as int] as int;
                    let c = vals[count as int] as int;
                    lemma_shifted_fits(kind, d, c, size as int);
                    lemma_trunc_fits(shifted(kind, d, c, size as int), size as int);
                }
            }
            r
        },
        ShiftKind::Sar => {
            let r = bin(BinOp::Sshr, sext_to_i64(dst, size), value(count));
            proof {
                assert forall|vals: Seq<u64>|
                    #![trigger r.eval(vals)]
                    vals[dst as int] < modulus(size as int) && 0 < vals[count as int] < width(
                        size as int,
                    ) implies trunc(r.eval(vals) as int, size as int) == shifted(
                    kind,
                    vals[dst as int] as int,
                    vals[count as int] as int,
                    size as int,
                ) by {
                    let d = vals[dst as int] as int;
                    let c = vals[count as int] as int;
                    lemma_signed_again(d, size as int);
                    lemma_trunc_narrow(signed(d, size as int) / p2(c), size as int);
                }
            }
            r
        },
        ShiftKind::Rol => {
            let rest = bin(BinOp::Sub, iconst(width_bits(size)), value(count));
            let r = bin(
                BinOp::Add,
                bin(BinOp::Shl, value(dst), value(count)),
                bin(BinOp::Ushr, value(dst), rest),
            );
            proof {
                assert forall|vals: Seq<u64>|
                    #![trigger r.eval(vals)]
                    vals[dst as int] < modulus(size as int) && 0 < vals[count as int] < width(
                        size as int,
                    ) implies trunc(r.eval(vals) as int, size as int) == shifted(
                    kind,
                    vals[dst as int] as int,
                    vals[count as int] as int,
                    size as int,
                ) by {
                    let d = vals[dst as int] as int;
                    let c = vals[count as int] as int;
                    lemma_trunc_fits(width(size as int) - c, 8);
                    lemma_rotated(d, c, size as int);
                }
            }
            r
        },
        ShiftKind::Ror => {
            let rest = bin(BinOp::Sub, iconst(width_bits(size)), value(count));
            let r = bin(
                BinOp::Add,
                bin(BinOp::Shl, value(dst), rest),
                bin(BinOp::Ushr, value(dst), value(count)),
            );
            proof {
                assert forall|vals: Seq<u64>|
                    #![trigger r.eval(vals)]
                    vals[dst as int] < modulus(size as int) && 0 < vals[count as int] < width(
                        size as int,
                    ) implies trunc(r.eval(vals) as int, size as int) == shifted(
                    kind,
                    vals[dst as int] as int,
                    vals[count as int] as int,
                    size as int,
                ) by {
                    let d = vals[dst as int] as int;
                    let c = vals[count as int] as int;
                    lemma_trunc_fits(width(size as int) - c, 8);
                    lemma_rotated(d, width(size as int) - c, size as int);
                }
            }
            r
        },
    }
}

/// The signed reading of a sign-extended number is that of the number.
pub proof fn lemma_signed_again(d: int, size: int)
    requires
        integer_width(size),
        0 <= d < modulus(size),
    ensures
        signed(sign_extended(d, size) as int, 8) == signed(d, size),
{
    lemma_trunc_fits(d, size);
    let x = signed(d, size);
    assert(-0x8000_0000_0000_0000 <= x < 0x8000_0000_0000_0000);
    let t = trunc(x, 8);
    if x < 0 {
        vstd::arithmetic::div_mod::lemma_mod_multiples_vanish(1, x, 0x1_0000_0000_0000_0000);
        lemma_trunc_fits(x + 0x1_0000_0000_0000_0000, 8);
        assert(t == x + 0x1_0000_0000_0000_0000);
    } else {
        lemma_trunc_fits(x, 8);
    }
    lemma_trunc_fits(t, 8);
}

/// The parts of a rotated operand, added up and cut down.
proof fn lemma_rotated(d: int, c: int, size: int)
    requires
        integer_width(size),
        0 <= d < modulus(size),
        0 < c < width(size),
    ensures
        ({
            let left = trunc(d * p2(c), 8);
            let right = d / p2(width(size) - c);
            &&& 0 <= right <= u64::MAX
            &&& trunc(trunc(left + right, 8), size) == trunc(d * p2(c), size) + right
        }),
{
    let left = trunc(d * p2(c), 8);
    let right = d / p2(width(size) - c);
    lemma_rotate_bound(d, size, c);
    lemma_powers(size, c);
    lemma_quotient_fits(d, p2(width(size) - c));
    lemma_trunc_narrow(left + right, size);
    let m = modulus(size);
    // Only the low bytes of the left part count.
    lemma_trunc_narrow(d * p2(c), size);
    assert(trunc(left, size) == trunc(d * p2(c), size));
    vstd::arithmetic::div_mod::lemma_add_mod_noop(left, right, m);
    vstd::arithmetic::div_mod::lemma_add_mod_noop(trunc(left, size), right, m);
    vstd::arithmetic::div_mod::lemma_mod_twice(left, m);
    lemma_trunc_fits(trunc(d * p2(c), size) + right, size);
}

/// How far a count moves an operand depends on its low byte only.
proof fn lemma_count_low(raw: int, n: int, size: int)
    requires
        integer_width(n),
        integer_width(size),
        0 <= raw,
    ensures
        (trunc(raw, n) % 64) % width(size) == (raw % 64) % width(size),
{
    if n == 1 {
        vstd::arithmetic::div_mod::lemma_mod_mod(raw, 64, 4);
    } else if n == 2 {
        vstd::arithmetic::div_mod::lemma_mod_mod(raw, 64, 0x400);
    } else if n == 4 {
        vstd::arithmetic::div_mod::lemma_mod_mod(raw, 64, 0x400_0000);
    } else {
        vstd::arithmetic::div_mod::lemma_mod_mod(raw, 64, 0x400_0000_0000_0000);
    }
}

/// The operand `dst` and the count of a shift were read.
spec fn reads_shift(
    before: Lower,
    after: Lower,
    e: Entry,
    i: Instr,
    dst: usize,
    count: usize,
    size: int,
) -> bool {
    let s = before.machine(e);
    &&& after.code.mem(e) == before.code.mem(e)
    &&& after.code.xmm(e) == before.code.xmm(e)
    &&& if before.code.trap(e) is Some {
        after.code.trap(e) == before.code.trap(e)
    } else {
        match operand_value(s, i, 0) {
            Err(Fault::Memory(inv)) => trapped(
                after.code.trap(e),
                inv,
                i.ip,
                s.regs.gpr,
                before.stored(e),
            ),
            Err(Fault::Cpu(_)) => false,
            Ok(x) => match operand_value(s, i, 1) {
                Err(Fault::Memory(inv)) => trapped(
                after.code.trap(e),
                inv,
                i.ip,
                s.regs.gpr,
                before.stored(e),
            ),
                Err(Fault::Cpu(_)) => false,
                Ok(y) => after.code.trap(e) is None && after.code.v(e, dst) == trunc(
                    x as int,
                    size,
                ) && after.code.v(e, count) == shift_count(y, size),
            },
        }
    }
}

/// Reading, computing and writing make up a shift.
proof fn lemma_shift_done(
    before: Lower,
    bound: Lower,
    after: Lower,
    e: Entry,
    i: Instr,
    kind: ShiftKind,
    dst: usize,
    count: usize,
    res: usize,
    out: usize,
    size: u8,
)
    requires
        is_size(size),
        operand_bytes(i, 0) == Ok::<int, Fault>(size as int),
        reads_shift(before, bound, e, i, dst, count, size as int),
        bound.regs(e) == before.regs(e),
        bound.stored(e) == before.stored(e),
        bound.pending is Nothing,
        (Pending::Shift { kind, dst, res, count, size }).fits(bound.code.vals(e)),
        bound.code.v(e, out) == if bound.code.v(e, count) == 0 {
            bound.code.v(e, dst)
        } else {
            bound.code.v(e, res)
        },
        follows(
            bound,
            after,
            e,
            after_operand_sized(
                bound.machine(e).with_regs(
                    bound.regs(e).flags(
                        (Pending::Shift { kind, dst, res, count, size }).flushed(
                            bound.code.vals(e)[bound.rflags as int],
                            bound.code.vals(e),
                        ),
                    ),
                ),
                i,
                0,
                bound.code.v(e, out),
                size as int,
            ),
            i.ip,
        ),
    ensures
        follows(before, after, e, after_shift_eager(before.machine(e), i, kind), i.ip),
{
    if bound.code.v(e, count) == 0 {
        assert(bound.regs(e).flags(bound.regs(e).rflags) =~= bound.regs(e));
    }
}

impl Lower {
    /// Reads the operand and the count of a shift.
    fn read_shift(&mut self, i: &Instr) -> (r: Result<(usize, usize, u8), NotLowerable>)
        requires
            old(self).wf(),
            old(self).room(6),
            i.wf(),
            memory_regular(*i),
            loads_operand(old(self).code.live, *i, i.op0),
            loads_operand(old(self).code.live, *i, i.op1),
        ensures
            r is Ok == (is_place(i.op0.kind) && readable(*i, i.op0) && readable(*i, i.op1)),
            r matches Ok((dst, count, size)) ==> {
                &&& final(self).wf()
                &&& old(self).same_maps(*final(self))
                &&& final(self).code.live == old(self).code.live
                &&& final(self).code.n() <= old(self).code.n() + 6
                &&& final(self).code.has(dst)
                &&& final(self).code.has(count)
                &&& is_size(size)
                &&& size == dst_bytes(*i)
                &&& forall|e: Entry| #[trigger] final(self).regs(e) == old(self).regs(e)
                &&& forall|e: Entry|
                    #[trigger] final(self).code.vals(e)[dst as int] < modulus(size as int)
                &&& forall|e: Entry|
                    #[trigger] final(self).code.vals(e)[count as int] < width(size as int)
                &&& operand_bytes(*i, 0) == Ok::<int, Fault>(
                    size as int,
                ) && forall|e: Entry|
                    #![trigger final(self).code.trap(e)]
                    reads_shift(*old(self), *final(self), e, *i, dst, count, size as int)
            },
    {
        let ghost before = *self;
        let (dst, size): (usize, u8) = match self.read_single(i) {
            Ok(r) => r,
            Err(e) => {
                return Err(e);
            },
        };
        let ghost first = *self;
        let raw: usize = match self.read_op_mem(i, 1) {
            Ok(v) => v,
            Err(e) => {
                return Err(e);
            },
        };
        let ghost second = *self;
        let masked = bin(BinOp::And, value(raw), iconst(0x3f));
        let x = if size >= 8 {
            masked
        } else {
            bin(BinOp::Urem, masked, iconst(width_bits(size)))
        };
        let ghost x0 = x;
        proof {
            assert forall|vals: Seq<u64>|
                #[trigger] x0.eval(vals) == (vals[raw as int] as int % 64) % width(size as int) by {
                lemma_masks(vals[raw as int]);
            }
        }
        let count: usize = self.bind(x);
        proof {
            assert forall|e: Entry| #[trigger] self.regs(e) == before.regs(e) by {
                assert(second.regs(e) == first.regs(e));
                assert(first.regs(e) == before.regs(e));
            }
            assert forall|e: Entry| #[trigger] self.code.vals(e)[dst as int] < modulus(
                size as int,
            ) by {
                assert(second.code.vals(e)[dst as int] == first.code.vals(e)[dst as int]);
            }
            assert forall|e: Entry| #[trigger] self.code.vals(e)[count as int] < width(
                size as int,
            ) by {
                assert(self.code.vals(e)[count as int] == x0.eval(second.code.vals(e)));
            }
            assert forall|e: Entry|
                #![trigger self.code.trap(e)]
                reads_shift(before, *self, e, *i, dst, count, size as int) by {
                assert(first.code.trap(e) == first.code.trap(e));
                assert(second.code.trap(e) == second.code.trap(e));
                assert(first.regs(e) == before.regs(e));
                assert(self.code.mem(e) == second.code.mem(e));
                assert(self.code.xmm(e) == second.code.xmm(e));
                assert(self.code.vals(e)[count as int] == x0.eval(second.code.vals(e)));
                assert(self.code.vals(e)[dst as int] == second.code.vals(e)[dst as int]);
                assert(second.code.vals(e)[dst as int] == first.code.vals(e)[dst as int]);
                assert(first.machine(e) == before.machine(e));
                if i.op1.kind == kind::REGISTER {
                    lemma_gpr_bytes(i.op1.reg);
                }
                lemma_count_low(
                    second.code.v(e, raw) as int,
                    operand_width(i.op1),
                    size as int,
                );
            }
        }
        Ok((dst, count, size))
    }

    /// Shifts and rotates. The flags are computed only if they are needed.
    pub(crate) fn lower_shift_lazy(&mut self, i: &Instr, kind: ShiftKind) -> (r: Result<
        (),
        NotLowerable,
    >)
        requires
            old(self).wf(),
            old(self).room(12),
            i.wf(),
            memory_regular(*i),
            loads_operand(old(self).code.live, *i, i.op0),
            loads_operand(old(self).code.live, *i, i.op1),
            old(self).code.live.flags,
        ensures
            r is Ok == (is_place(i.op0.kind) && readable(*i, i.op0) && readable(*i, i.op1)
                && writable(*i, i.op0)),
            r is Ok ==> {
                &&& final(self).wf()
                &&& final(self).code.live == old(self).code.live
                &&& final(self).code.n() <= old(self).code.n() + 12
                &&& forall|e: Entry|
                    #![trigger final(self).code.trap(e)]
                    settles(
                        *old(self),
                        *final(self),
                        e,
                        after_shift_eager(old(self).machine(e), *i, kind),
                        i.ip,
                    )
            },
    {
        let ghost before = *self;
        self.flush_pending();
        let ghost ready = *self;
        let (dst, count, size): (usize, usize, u8) = match self.read_shift(i) {
            Ok(r) => r,
            Err(e) => {
                return Err(e);
            },
        };
        let ghost middle = *self;
        let x = mask_width(moved(kind, dst, count, size), size);
        let ghost x0 = x;
        let res: usize = self.bind(x);
        let ghost with_res = *self;
        let zero = bin(BinOp::Equal, value(count), iconst(0));
        let y = select(zero, value(dst), value(res));
        let ghost y0 = y;
        let out: usize = self.bind(y);
        let ghost bound = *self;
        let p = Pending::Shift { kind, dst, res, count, size };
        proof {
            assert forall|e: Entry| p.fits(#[trigger] bound.code.vals(e)) by {
                let vals = middle.code.vals(e);
                assert(with_res.code.vals(e)[res as int] == x0.eval(vals));
                assert(with_res.code.vals(e)[dst as int] == vals[dst as int]);
                assert(with_res.code.vals(e)[count as int] == vals[count as int]);
                assert(bound.code.vals(e)[res as int] == with_res.code.vals(e)[res as int]);
                assert(bound.code.vals(e)[dst as int] == vals[dst as int]);
                assert(bound.code.vals(e)[count as int] == vals[count as int]);
                assert(vals[dst as int] < modulus(size as int));
                assert(vals[count as int] < width(size as int));
            }
        }
        let r = self.finish(i, out, size, p);
        proof {
            if r is Ok {
                assert forall|e: Entry|
                    #![trigger self.code.trap(e)]
                    settles(
                        before,
                        *self,
                        e,
                        after_shift_eager(before.machine(e), *i, kind),
                        i.ip,
                    ) by {
                    assert(ready.machine(e) == before.machine(e));
                    assert(ready.code.trap(e) == before.code.trap(e));
                    assert(ready.code.mem(e) == before.code.mem(e));
                    assert(ready.code.xmm(e) == before.code.xmm(e));
                    assert(middle.code.trap(e) == middle.code.trap(e));
                    assert(middle.regs(e) == ready.regs(e));
                    assert(with_res.code.trap(e) == middle.code.trap(e));
                    assert(with_res.code.mem(e) == middle.code.mem(e));
                    assert(with_res.code.xmm(e) == middle.code.xmm(e));
                    assert(with_res.regs(e) == middle.regs(e));
                    assert(bound.code.trap(e) == with_res.code.trap(e));
                    assert(bound.code.mem(e) == with_res.code.mem(e));
                    assert(bound.code.xmm(e) == with_res.code.xmm(e));
                    assert(bound.regs(e) == with_res.regs(e));
                    let vals = middle.code.vals(e);
                    assert(with_res.code.vals(e)[dst as int] == vals[dst as int]);
                    assert(with_res.code.vals(e)[count as int] == vals[count as int]);
                    assert(bound.code.vals(e)[res as int] == with_res.code.vals(e)[res as int]);
                    assert(bound.code.vals(e)[dst as int] == vals[dst as int]);
                    assert(bound.code.vals(e)[count as int] == vals[count as int]);
                    assert(bound.code.vals(e)[out as int] == y0.eval(with_res.code.vals(e)));
                    assert(p.fits(bound.code.vals(e)));
                    lemma_shift_done(
                        ready,
                        bound,
                        *self,
                        e,
                        *i,
                        kind,
                        dst,
                        count,
                        res,
                        out,
                        size,
                    );
                }
            }
        }
        r
    }
}

} // verus!
