//! Compiling vector moves, bitwise and floating-point vector operations.
//!
//! A vector register is two 64-bit values. Sixteen bytes in memory are loaded and
//! stored as two halves, so an access that fails names a half.

use vstd::prelude::*;

use crate::exec::access::{after_store, loaded};
use crate::exec::model::{Fault, Machine, Next};
use crate::exec::operand::{address_of, after_register};
use crate::exec::sse::no_xmm;
use crate::insn::instr::{Instr, Operand};
use crate::insn::kind;
use crate::jit::access::{addressable, loads_address, loads_reg};
use crate::jit::block::{address_ok, SseBit, SseFp};
use crate::jit::ir::{bin, iconst, value, BinOp, Entry, Expr, Live};
use crate::jit::state::{follows, lemma_pending_stays, trapped, xmm_join, Lower, NotLowerable};
use crate::regs::{Reg, Regs};

verus! {

/// The low half of a vector.
pub open spec fn xmm_low(x: u128) -> u64 {
    (x % 0x1_0000_0000_0000_0000) as u64
}

/// The high half of a vector.
pub open spec fn xmm_high(x: u128) -> u64 {
    (x / 0x1_0000_0000_0000_0000) as u64
}

/// Halves make up a vector.
pub proof fn lemma_halves(low: u64, high: u64)
    ensures
        xmm_low(xmm_join(low, high)) == low,
        xmm_high(xmm_join(low, high)) == high,
        xmm_join(low, high) == low + high * 0x1_0000_0000_0000_0000,
{
}

/// The number of a vector register that compiled code can use.
pub open spec fn vector_index(reg: Reg) -> Option<int> {
    match reg {
        Reg::Xmm(n) => if n < 16 {
            Some(n as int)
        } else {
            None
        },
        _ => None,
    }
}

/// The number of a vector register that compiled code can use.
pub fn xmm_index(reg: Reg) -> (r: Option<usize>)
    ensures
        match r {
            Some(n) => vector_index(reg) == Some(n as int) && n < 16,
            None => vector_index(reg) is None,
        },
{
    match reg {
        Reg::Xmm(n) => if n < 16 {
            Some(n as usize)
        } else {
            None
        },
        _ => None,
    }
}

/// The block loads a vector register.
pub open spec fn loads_xmm(live: Live, reg: Reg) -> bool {
    vector_index(reg) matches Some(n) ==> live.xmm@[n]
}

/// The block loads the registers of an operand of a vector instruction.
pub open spec fn loads_vector(live: Live, i: Instr, o: Operand) -> bool {
    &&& o.kind == kind::REGISTER ==> loads_xmm(live, o.reg) && loads_reg(live, o.reg)
    &&& o.kind == kind::MEMORY ==> loads_address(live, i)
}

/// Four, eight or sixteen bytes of memory as two halves.
pub open spec fn wide_load(m: crate::mem::model::Bytes, a: u64, n: int) -> Result<
    (u64, u64),
    Fault,
> {
    if n == 16 {
        match loaded(m, a, 8) {
            Err(f) => Err(f),
            Ok(low) => match loaded(m, a.wrapping_add(8), 8) {
                Err(f) => Err(f),
                Ok(high) => Ok((low, high)),
            },
        }
    } else {
        match loaded(m, a, n) {
            Err(f) => Err(f),
            Ok(low) => Ok((low, 0)),
        }
    }
}

/// The machine after four, eight or sixteen bytes were stored from two halves.
pub open spec fn after_wide_store(s: Machine, a: u64, low: u64, high: u64, n: int) -> Next {
    if n == 16 {
        match after_store(s, a, low, 8) {
            (t, Some(f)) => t.failed(f),
            (t, None) => after_store(t, a.wrapping_add(8), high, 8),
        }
    } else {
        after_store(s, a, low, n)
    }
}

/// The halves of an operand of a vector instruction that takes `n` bytes from
/// memory.
pub open spec fn vector_source(s: Machine, i: Instr, op: int, n: int) -> Result<(u64, u64), Fault> {
    let o = i.operand(op);
    if o.kind == kind::MEMORY {
        match address_of(s.regs, i) {
            Err(f) => Err(f),
            Ok(a) => wide_load(s.mem, a, n),
        }
    } else {
        match vector_index(o.reg) {
            Some(k) => Ok((xmm_low(s.regs.xmm[k]), xmm_high(s.regs.xmm[k]))),
            None => Err(no_xmm()),
        }
    }
}

/// An operand of a vector instruction that compiled code can read.
pub open spec fn vector_readable(i: Instr, o: Operand) -> bool {
    if o.kind == kind::REGISTER {
        vector_index(o.reg) is Some
    } else {
        o.kind == kind::MEMORY && addressable(i)
    }
}

/// With a vector register replaced.
pub open spec fn with_vector(s: Machine, k: int, low: u64, high: u64) -> Machine {
    s.with_regs(Regs { xmm: s.regs.xmm.update(k, xmm_join(low, high)), ..s.regs })
}

/// The halves of a vector register after `n` bytes were moved into it: the rest
/// stays, or reads zero.
pub open spec fn moved_into(old: u128, low: u64, high: u64, n: int, merge: bool) -> (u64, u64) {
    if n >= 16 {
        (low, high)
    } else if !merge {
        (low, 0)
    } else if n == 4 {
        (
            (xmm_low(old) - xmm_low(old) % 0x1_0000_0000 + low % 0x1_0000_0000) as u64,
            xmm_high(old),
        )
    } else {
        (low, xmm_high(old))
    }
}

/// A vector move of `n` bytes.
pub open spec fn after_vector_move(s: Machine, i: Instr, n: int, merge: bool) -> Next {
    match vector_source(s, i, 1, n) {
        Err(f) => s.failed(f),
        Ok((low, high)) => after_vector_operand(s, i, low, high, n, merge),
    }
}

/// The machine after `n` bytes were moved to the first operand.
pub open spec fn after_vector_operand(
    s: Machine,
    i: Instr,
    low: u64,
    high: u64,
    n: int,
    merge: bool,
) -> Next {
    if i.op0.kind == kind::MEMORY {
        match address_of(s.regs, i) {
            Err(f) => s.failed(f),
            Ok(a) => after_wide_store(s, a, low, high, n),
        }
    } else {
        match vector_index(i.op0.reg) {
            None => s.failed(no_xmm()),
            Some(k) => {
                let (l, h) = moved_into(s.regs.xmm[k], low, high, n, merge);
                with_vector(s, k, l, h).done()
            },
        }
    }
}

/// The eight (`movq`) or four (`movd`) low bytes of the second operand: of a
/// general register, a vector register or memory.
pub open spec fn transfer_source(s: Machine, i: Instr, n: int) -> Result<u64, Fault> {
    if i.op1.kind == kind::MEMORY {
        match address_of(s.regs, i) {
            Err(f) => Err(f),
            Ok(a) => loaded(s.mem, a, n),
        }
    } else {
        match vector_index(i.op1.reg) {
            Some(k) => Ok(xmm_low(s.regs.xmm[k])),
            None => match i.op1.reg.gpr_index() {
                Some(k) => Ok(s.regs.gpr[k]),
                None => Err(no_xmm()),
            },
        }
    }
}

/// `movq` and `movd` as compiled code does them: into a vector register, `movq`
/// keeps the high half and `movd` clears it and bits 32 to 63; out of one, the
/// eight or four low bytes are moved.
pub open spec fn after_transfer(s: Machine, i: Instr, n: int) -> Next {
    match transfer_source(s, i, n) {
        Err(f) => s.failed(f),
        Ok(v) => {
            let low = if n == 4 {
                (v % 0x1_0000_0000) as u64
            } else {
                v
            };
            if i.op0.kind == kind::MEMORY {
                match address_of(s.regs, i) {
                    Err(f) => s.failed(f),
                    Ok(a) => after_store(s, a, low, n),
                }
            } else {
                match vector_index(i.op0.reg) {
                    Some(k) => with_vector(
                        s,
                        k,
                        low,
                        if n == 4 {
                            0
                        } else {
                            xmm_high(s.regs.xmm[k])
                        },
                    ).done(),
                    None => after_register(s, i.op0.reg, low),
                }
            }
        },
    }
}

/// A bitwise operation on 64 bits.
pub open spec fn bit_op(op: SseBit, a: u64, b: u64) -> u64 {
    match op {
        SseBit::Xor => a ^ b,
        SseBit::And => a & b,
        SseBit::Or => a | b,
        SseBit::Andn => ((u64::MAX - a) as u64) & b,
    }
}

/// A bitwise operation on vectors.
pub open spec fn after_vector_bit(s: Machine, i: Instr, op: SseBit) -> Next {
    match vector_index(i.op0.reg) {
        None => s.failed(no_xmm()),
        Some(k) => match vector_source(s, i, 1, 16) {
            Err(f) => s.failed(f),
            Ok((low, high)) => with_vector(
                s,
                k,
                bit_op(op, xmm_low(s.regs.xmm[k]), low),
                bit_op(op, xmm_high(s.regs.xmm[k]), high),
            ).done(),
        },
    }
}

/// A floating-point operation on the two single-precision lanes of a half.
pub open spec fn float_lanes(fp: spec_fn(u8, bool, u64, u64) -> u64, op: u8, a: u64, b: u64) -> u64 {
    (fp(op, false, (a % 0x1_0000_0000) as u64, (b % 0x1_0000_0000) as u64) % 0x1_0000_0000 + (fp(
        op,
        false,
        (a / 0x1_0000_0000) as u64,
        (b / 0x1_0000_0000) as u64,
    ) % 0x1_0000_0000) * 0x1_0000_0000) as u64
}

/// The halves of the first operand after a floating-point operation. A scalar
/// operation changes only the lowest lane.
pub open spec fn float_result(
    fp: spec_fn(u8, bool, u64, u64) -> u64,
    f: SseFp,
    a: (u64, u64),
    b: (u64, u64),
) -> (u64, u64) {
    if f.packed {
        if f.double {
            (fp(f.op, true, a.0, b.0), fp(f.op, true, a.1, b.1))
        } else {
            (float_lanes(fp, f.op, a.0, b.0), float_lanes(fp, f.op, a.1, b.1))
        }
    } else if f.double {
        (fp(f.op, true, a.0, b.0), a.1)
    } else {
        (
            (a.0 - a.0 % 0x1_0000_0000 + fp(f.op, false, a.0, b.0) % 0x1_0000_0000) as u64,
            a.1,
        )
    }
}

/// How many bytes a floating-point operation takes from memory.
pub open spec fn float_bytes(f: SseFp) -> int {
    if f.packed {
        16
    } else if f.double {
        8
    } else {
        4
    }
}

/// A floating-point operation on vectors, with the floating-point unit `fp`.
pub open spec fn after_vector_fp(
    s: Machine,
    i: Instr,
    f: SseFp,
    fp: spec_fn(u8, bool, u64, u64) -> u64,
) -> Next {
    match vector_index(i.op0.reg) {
        None => s.failed(no_xmm()),
        Some(k) => match vector_source(s, i, 1, float_bytes(f)) {
            Err(e) => s.failed(e),
            Ok(b) => {
                let a = (xmm_low(s.regs.xmm[k]), xmm_high(s.regs.xmm[k]));
                let (low, high) = float_result(fp, f, a, b);
                with_vector(s, k, low, high).done()
            },
        },
    }
}

/// The values `low` and `high` were read by an instruction at `ip`.
pub open spec fn reads_vector(
    before: Lower,
    after: Lower,
    e: Entry,
    want: Result<(u64, u64), Fault>,
    low: usize,
    high: usize,
    ip: u64,
) -> bool {
    &&& after.code.mem(e) == before.code.mem(e)
    &&& after.code.xmm(e) == before.code.xmm(e)
    &&& if before.code.trap(e) is Some {
        after.code.trap(e) == before.code.trap(e)
    } else {
        match want {
            Ok(x) => after.code.trap(e) is None && after.code.v(e, low) == x.0 && after.code.v(
                e,
                high,
            ) == x.1,
            Err(Fault::Memory(inv)) => trapped(
                after.code.trap(e),
                inv,
                ip,
                before.regs(e).gpr,
                before.stored(e),
            ),
            Err(Fault::Cpu(_)) => false,
        }
    }
}

/// Replacing the low half of 64 bits.
proof fn lemma_merge_half(old: u64, v: u64)
    by (bit_vector)
    ensures
        ((old & 0xffff_ffff_0000_0000) | (v & 0xffff_ffff)) + old % 0x1_0000_0000 == old + v
            % 0x1_0000_0000,
{
}

/// The value `a` with its low 32 bits replaced by those of the value `b`.
pub fn merge_low(a: usize, b: usize) -> (r: Expr)
    ensures
        forall|vals: Seq<u64>|
            #[trigger] r.eval(vals) == vals[a as int] - vals[a as int] % 0x1_0000_0000 + vals[b
                as int] % 0x1_0000_0000,
        forall|n: int, l: Live|
            #[trigger] r.uses(n, l) == (a < n && l.allows(a as int) && b < n && l.allows(b as int)),
{
    let r = bin(
        BinOp::Or,
        bin(BinOp::And, value(a), iconst(0xffff_ffff_0000_0000)),
        bin(BinOp::And, value(b), iconst(0xffff_ffff)),
    );
    proof {
        assert forall|vals: Seq<u64>|
            #[trigger] r.eval(vals) == vals[a as int] - vals[a as int] % 0x1_0000_0000 + vals[b
                as int] % 0x1_0000_0000 by {
            lemma_merge_half(vals[a as int], vals[b as int]);
        }
    }
    r
}

impl Lower {
    /// The values that hold a vector register.
    pub fn read_xmm_pair(&self, k: usize) -> (r: (usize, usize))
        requires
            self.wf(),
            k < 16,
            self.code.live.xmm@[k as int],
        ensures
            self.code.has(r.0),
            self.code.has(r.1),
            forall|e: Entry|
                #![trigger self.code.vals(e)]
                self.code.vals(e)[r.0 as int] == xmm_low(self.regs(e).xmm[k as int])
                    && self.code.vals(e)[r.1 as int] == xmm_high(self.regs(e).xmm[k as int]),
    {
        proof {
            assert(self.code.has(self.xmm@[2 * k as int]));
            assert(self.code.has(self.xmm@[2 * k as int + 1]));
            assert forall|e: Entry|
                #![trigger self.code.vals(e)]
                self.code.vals(e)[self.xmm@[2 * k as int] as int] == xmm_low(
                    self.regs(e).xmm[k as int],
                ) && self.code.vals(e)[self.xmm@[2 * k as int + 1] as int] == xmm_high(
                    self.regs(e).xmm[k as int],
                ) by {
                lemma_halves(
                    self.code.vals(e)[self.xmm@[2 * k as int] as int],
                    self.code.vals(e)[self.xmm@[2 * k as int + 1] as int],
                );
            }
        }
        (self.xmm[2 * k], self.xmm[2 * k + 1])
    }

    /// Replaces a vector register, in the register file too.
    pub fn store_xmm_pair(&mut self, k: usize, low: usize, high: usize)
        requires
            old(self).wf(),
            old(self).room(2),
            k < 16,
            old(self).code.live.xmm@[k as int],
            old(self).code.has(low),
            old(self).code.has(high),
        ensures
            final(self).wf(),
            old(self).code.grows(final(self).code),
            final(self).code.n() == old(self).code.n() + 2,
            final(self).gpr == old(self).gpr,
            final(self).rflags == old(self).rflags,
            final(self).pending == old(self).pending,
            forall|e: Entry| #[trigger] final(self).code.mem(e) == old(self).code.mem(e),
            forall|e: Entry| #[trigger] final(self).code.trap(e) == old(self).code.trap(e),
            forall|e: Entry|
                old(self).code.trap(e) is Some ==> #[trigger] final(self).code.xmm(e) == old(self).code.xmm(e),
            forall|e: Entry| #[trigger]
                final(self).machine(e) == with_vector(
                    old(self).machine(e),
                    k as int,
                    old(self).code.v(e, low),
                    old(self).code.v(e, high),
                ),
    {
        let ghost before = *self;
        self.code.put_xmm((2 * k) as u8, low);
        let ghost c1 = self.code;
        self.code.put_xmm((2 * k + 1) as u8, high);
        self.xmm[2 * k] = low;
        self.xmm[2 * k + 1] = high;
        proof {
            assert forall|e: Entry, v: int| 0 <= v < before.code.n() implies #[trigger] self.code.vals(
                e,
            )[v] == before.code.vals(e)[v] by {
                assert(c1.vals(e)[v] == before.code.vals(e)[v]);
            }
            assert forall|e: Entry| #[trigger] self.code.mem(e) == before.code.mem(e) by {
                assert(c1.mem(e) == before.code.mem(e));
            }
            assert forall|e: Entry| #[trigger] self.code.trap(e) == before.code.trap(e) by {
                assert(c1.trap(e) == before.code.trap(e));
            }
            lemma_pending_stays(before.pending, before.code, self.code, arbitrary());
            assert forall|e: Entry| self.pending.fits(#[trigger] self.code.vals(e)) by {
                assert(before.pending.fits(before.code.vals(e)));
                lemma_pending_stays(before.pending, before.code, self.code, e);
            }
            assert forall|h: int| 0 <= h < 32 implies #[trigger] self.xmm@[h] == if h == 2 * k {
                low
            } else if h == 2 * k + 1 {
                high
            } else {
                before.xmm@[h]
            } by {}
            assert forall|h: int| 0 <= h < 32 implies before.xmm@[h] < before.code.n() by {}
            assert forall|e: Entry, h: int|
                0 <= h < 32 && self.code.trap(e) is None implies #[trigger] self.code.xmm(e)[h]
                == self.code.vals(e)[self.xmm@[h] as int] by {
                assert(before.code.trap(e) is None && c1.trap(e) is None);
                assert(before.code.xmm(e).len() == 32);
                assert(before.code.xmm(e)[h] == before.code.vals(e)[before.xmm@[h] as int]);
                assert(c1.xmm(e) == before.code.xmm(e).update(2 * k as int, before.code.v(e, low)));
                assert(c1.v(e, high) == before.code.v(e, high));
                assert(before.xmm@[h] < before.code.n());
            }
            assert forall|e: Entry| (#[trigger] self.code.xmm(e)).len() == 32 by {
                assert(before.code.xmm(e).len() == 32);
                assert(c1.xmm(e).len() == 32);
            }
            assert forall|e: Entry| #[trigger]
                self.machine(e) == with_vector(
                    before.machine(e),
                    k as int,
                    before.code.v(e, low),
                    before.code.v(e, high),
                ) by {
                lemma_pending_stays(before.pending, before.code, self.code, e);
                let want = with_vector(
                    before.machine(e),
                    k as int,
                    before.code.v(e, low),
                    before.code.v(e, high),
                );
                assert forall|j: int| 0 <= j < 16 implies self.code.vals(e)[self.gpr@[j] as int]
                    == before.code.vals(e)[before.gpr@[j] as int] by {
                    assert(before.gpr@[j] < before.code.n());
                }
                assert(self.regs(e).gpr =~= want.regs.gpr);
                assert forall|h: int| 0 <= h < 32 && h != 2 * k && h != 2 * k + 1 implies self.code.vals(
                    e,
                )[#[trigger] self.xmm@[h] as int] == before.code.vals(e)[before.xmm@[h] as int] by {
                    assert(before.xmm@[h] < before.code.n());
                }
                assert(self.regs(e).xmm =~= want.regs.xmm);
                assert(self.machine(e) =~= want);
            }
            assert forall|e: Entry|
                before.code.trap(e) is Some implies #[trigger] self.code.xmm(e) == before.code.xmm(e) by {
                assert(c1.trap(e) == before.code.trap(e));
                assert(c1.xmm(e) == before.code.xmm(e));
            }
        }
    }

    /// Loads four, eight or sixteen bytes for an instruction at `ip`.
    fn load_sse_mem(&mut self, addr: usize, n: u8, ip: u64) -> (r: (usize, usize))
        requires
            old(self).wf(),
            old(self).room(3),
            old(self).code.has(addr),
            n == 4 || n == 8 || n == 16,
        ensures
            final(self).wf(),
            old(self).same_maps(*final(self)),
            old(self).code.grows(final(self).code),
            final(self).code.n() <= old(self).code.n() + 3,
            final(self).code.has(r.0),
            final(self).code.has(r.1),
            forall|e: Entry| #[trigger] final(self).regs(e) == old(self).regs(e),
            forall|e: Entry|
                #![trigger final(self).code.trap(e)]
                reads_vector(
                    *old(self),
                    *final(self),
                    e,
                    wide_load(old(self).code.mem(e), old(self).code.v(e, addr), n as int),
                    r.0,
                    r.1,
                    ip,
                ),
    {
        let ghost before = *self;
        if n == 16 {
            let low: usize = self.call_load(addr, 8, ip);
            let ghost s1 = *self;
            let addr_hi: usize = self.bind(bin(BinOp::Add, value(addr), iconst(8)));
            let ghost s2 = *self;
            let high: usize = self.call_load(addr_hi, 8, ip);
            proof {
                assert forall|e: Entry, v: int| 0 <= v < s1.code.n() implies #[trigger] self.code.vals(
                    e,
                )[v] == s1.code.vals(e)[v] by {
                    assert(s2.code.vals(e)[v] == s1.code.vals(e)[v]);
                }
                assert forall|e: Entry, v: int| 0 <= v < before.code.n() implies #[trigger] self.code.vals(
                    e,
                )[v] == before.code.vals(e)[v] by {
                    assert(s1.code.vals(e)[v] == before.code.vals(e)[v]);
                }
                assert forall|e: Entry| #[trigger] self.regs(e) == before.regs(e) by {
                    assert(s2.regs(e) == s1.regs(e));
                    assert(s1.regs(e) == before.regs(e));
                }
                assert forall|e: Entry|
                    #![trigger self.code.trap(e)]
                    reads_vector(
                        before,
                        *self,
                        e,
                        wide_load(before.code.mem(e), before.code.v(e, addr), n as int),
                        low,
                        high,
                        ip,
                    ) by {
                    assert(s1.code.trap(e) == s1.code.trap(e));
                    assert(s2.code.trap(e) == s1.code.trap(e));
                    assert(s2.code.mem(e) == s1.code.mem(e));
                    assert(s2.code.xmm(e) == s1.code.xmm(e));
                    assert(s2.regs(e) == s1.regs(e));
                    assert(s1.regs(e) == before.regs(e));
                    assert(s1.code.v(e, addr) == before.code.v(e, addr));
                    assert(s2.code.vals(e)[addr_hi as int] == before.code.v(e, addr).wrapping_add(
                        8,
                    ));
                    assert(self.code.v(e, low) == s1.code.v(e, low));
                }
            }
            (low, high)
        } else {
            let low: usize = self.call_load(addr, n, ip);
            let ghost s1 = *self;
            let high: usize = self.bind(iconst(0));
            proof {
                assert forall|e: Entry, v: int| 0 <= v < before.code.n() implies #[trigger] self.code.vals(
                    e,
                )[v] == before.code.vals(e)[v] by {
                    assert(s1.code.vals(e)[v] == before.code.vals(e)[v]);
                }
                assert forall|e: Entry| #[trigger] self.regs(e) == before.regs(e) by {
                    assert(s1.regs(e) == before.regs(e));
                }
                assert forall|e: Entry|
                    #![trigger self.code.trap(e)]
                    reads_vector(
                        before,
                        *self,
                        e,
                        wide_load(before.code.mem(e), before.code.v(e, addr), n as int),
                        low,
                        high,
                        ip,
                    ) by {
                    assert(s1.code.trap(e) == s1.code.trap(e));
                    assert(self.code.mem(e) == s1.code.mem(e));
                    assert(self.code.xmm(e) == s1.code.xmm(e));
                    assert(self.code.vals(e)[high as int] == 0);
                    assert(self.code.vals(e)[low as int] == s1.code.vals(e)[low as int]);
                }
            }
            (low, high)
        }
    }

    /// Stores four, eight or sixteen bytes for an instruction at `ip`.
    fn store_sse_mem(&mut self, addr: usize, low: usize, high: usize, n: u8, ip: u64)
        requires
            old(self).wf(),
            old(self).room(3),
            old(self).code.has(addr),
            old(self).code.has(low),
            old(self).code.has(high),
            n == 4 || n == 8 || n == 16,
        ensures
            final(self).wf(),
            old(self).same_maps(*final(self)),
            old(self).code.grows(final(self).code),
            final(self).code.n() <= old(self).code.n() + 3,
            forall|e: Entry|
                #![trigger final(self).code.trap(e)]
                follows(
                    *old(self),
                    *final(self),
                    e,
                    after_wide_store(
                        old(self).machine(e),
                        old(self).code.v(e, addr),
                        old(self).code.v(e, low),
                        old(self).code.v(e, high),
                        n as int,
                    ),
                    ip,
                ),
    {
        let ghost before = *self;
        if n == 16 {
            self.call_store(addr, 8, low, ip);
            let ghost s1 = *self;
            let addr_hi: usize = self.bind(bin(BinOp::Add, value(addr), iconst(8)));
            let ghost s2 = *self;
            self.call_store(addr_hi, 8, high, ip);
            proof {
                assert forall|e: Entry, v: int| 0 <= v < before.code.n() implies #[trigger] self.code.vals(
                    e,
                )[v] == before.code.vals(e)[v] by {
                    assert(s2.code.vals(e)[v] == s1.code.vals(e)[v]);
                    assert(s1.code.vals(e)[v] == before.code.vals(e)[v]);
                }
                assert forall|e: Entry|
                    #![trigger self.code.trap(e)]
                    follows(
                        before,
                        *self,
                        e,
                        after_wide_store(
                            before.machine(e),
                            before.code.v(e, addr),
                            before.code.v(e, low),
                            before.code.v(e, high),
                            n as int,
                        ),
                        ip,
                    ) by {
                    assert(s1.code.trap(e) == s1.code.trap(e));
                    assert(s2.code.trap(e) == s1.code.trap(e));
                    assert(s2.code.mem(e) == s1.code.mem(e));
                    assert(s2.code.xmm(e) == s1.code.xmm(e));
                    assert(s2.machine(e) == s1.machine(e));
                    assert(s1.code.v(e, addr) == before.code.v(e, addr));
                    assert(s2.code.vals(e)[addr_hi as int] == before.code.v(e, addr).wrapping_add(
                        8,
                    ));
                    assert(s1.code.v(e, high) == before.code.v(e, high));
                    assert(s2.code.v(e, high) == s1.code.v(e, high));
                }
            }
        } else {
            self.call_store(addr, n, low, ip);
        }
    }

    /// Reads operand `op` of a vector instruction that takes `n` bytes from
    /// memory.
    pub(crate) fn read_vector(&mut self, i: &Instr, op: u32, n: u8) -> (r: Result<
        (usize, usize),
        NotLowerable,
    >)
        requires
            old(self).wf(),
            old(self).room(4),
            i.wf(),
            i.operand(op as int).kind == kind::MEMORY ==> address_ok(*i),
            op < 3,
            loads_vector(old(self).code.live, *i, i.operand(op as int)),
            n == 4 || n == 8 || n == 16,
        ensures
            r is Ok == vector_readable(*i, i.operand(op as int)),
            r matches Ok((low, high)) ==> {
                &&& final(self).wf()
                &&& old(self).same_maps(*final(self))
                &&& old(self).code.grows(final(self).code)
                &&& final(self).code.n() <= old(self).code.n() + 4
                &&& final(self).code.has(low)
                &&& final(self).code.has(high)
                &&& forall|e: Entry| #[trigger] final(self).regs(e) == old(self).regs(e)
                &&& forall|
                    e: Entry,
                |
                    #![trigger final(self).code.trap(e)]
                    reads_vector(
                        *old(self),
                        *final(self),
                        e,
                        vector_source(old(self).machine(e), *i, op as int, n as int),
                        low,
                        high,
                        i.ip,
                    )
            },
    {
        let o = i.op(op);
        let ghost before = *self;
        match o.kind {
            kind::REGISTER => match xmm_index(o.reg) {
                Some(k) => {
                    let r = self.read_xmm_pair(k);
                    proof {
                        assert forall|e: Entry|
                            #![trigger self.code.trap(e)]
                            reads_vector(
                                before,
                                *self,
                                e,
                                vector_source(before.machine(e), *i, op as int, n as int),
                                r.0,
                                r.1,
                                i.ip,
                            ) by {
                            assert(self.code.vals(e) == self.code.vals(e));
                            assert(i.operand(op as int).reg == o.reg);
                        }
                    }
                    Ok(r)
                },
                None => Err(NotLowerable),
            },
            kind::MEMORY => {
                let x = match self.effective_addr(i) {
                    Ok(x) => x,
                    Err(e) => {
                        return Err(e);
                    },
                };
                let ghost x0 = x;
                let addr: usize = self.bind(x);
                let ghost middle = *self;
                let r = self.load_sse_mem(addr, n, i.ip);
                proof {
                    assert forall|e: Entry, v: int| 0 <= v < before.code.n() implies #[trigger] self.code.vals(
                        e,
                    )[v] == before.code.vals(e)[v] by {
                        assert(middle.code.vals(e)[v] == before.code.vals(e)[v]);
                    }
                    assert forall|e: Entry| #[trigger] self.regs(e) == before.regs(e) by {
                        assert(middle.regs(e) == before.regs(e));
                    }
                    assert forall|e: Entry|
                        #![trigger self.code.trap(e)]
                        reads_vector(
                            before,
                            *self,
                            e,
                            vector_source(before.machine(e), *i, op as int, n as int),
                            r.0,
                            r.1,
                            i.ip,
                        ) by {
                        assert(x0.eval(before.code.vals(e)) == middle.code.v(e, addr));
                        assert(middle.code.trap(e) == before.code.trap(e));
                        assert(middle.code.mem(e) == before.code.mem(e));
                        assert(middle.code.xmm(e) == before.code.xmm(e));
                        assert(middle.regs(e) == before.regs(e));
                    }
                }
                Ok(r)
            },
            _ => Err(NotLowerable),
        }
    }

    /// Vector moves of `n` bytes.
    pub(crate) fn lower_sse_mov(&mut self, i: &Instr, n: u8, merge: bool) -> (r: Result<
        (),
        NotLowerable,
    >)
        requires
            old(self).wf(),
            old(self).room(8),
            i.wf(),
            address_ok(*i),
            loads_vector(old(self).code.live, *i, i.op0),
            loads_vector(old(self).code.live, *i, i.op1),
            n == 4 || n == 8 || n == 16,
        ensures
            r is Ok == (vector_readable(*i, i.op1) && vector_readable(*i, i.op0)),
            r is Ok ==> {
                &&& final(self).wf()
                &&& final(self).code.live == old(self).code.live
                &&& final(self).code.n() <= old(self).code.n() + 8
                &&& forall|e: Entry|
                    #![trigger final(self).code.trap(e)]
                    follows(
                        *old(self),
                        *final(self),
                        e,
                        after_vector_move(old(self).machine(e), *i, n as int, merge),
                        i.ip,
                    )
            },
    {
        let ghost before = *self;
        let (low, high): (usize, usize) = match self.read_vector(i, 1, n) {
            Ok(r) => r,
            Err(e) => {
                return Err(e);
            },
        };
        let ghost middle = *self;
        match i.op0.kind {
            kind::REGISTER => {
                let k: usize = match xmm_index(i.op0.reg) {
                    Some(k) => k,
                    None => {
                        return Err(NotLowerable);
                    },
                };
                let (old_low, old_high): (usize, usize) = self.read_xmm_pair(k);
                let (l, h): (usize, usize) = if n >= 16 {
                    (low, high)
                } else if !merge {
                    let zero: usize = self.bind(iconst(0));
                    (low, zero)
                } else if n == 4 {
                    let merged: usize = self.bind(merge_low(old_low, low));
                    (merged, old_high)
                } else {
                    (low, old_high)
                };
                let ghost bound = *self;
                self.store_xmm_pair(k, l, h);
                proof {
                    assert forall|e: Entry|
                        #![trigger self.code.trap(e)]
                        follows(
                            before,
                            *self,
                            e,
                            after_vector_move(before.machine(e), *i, n as int, merge),
                            i.ip,
                        ) by {
                        assert(middle.code.trap(e) == middle.code.trap(e));
                        assert(middle.regs(e) == before.regs(e));
                        assert(bound.code.trap(e) == middle.code.trap(e));
                        assert(bound.code.mem(e) == middle.code.mem(e));
                        assert(bound.code.xmm(e) == middle.code.xmm(e));
                        assert(bound.regs(e) == middle.regs(e));
                        assert(self.code.mem(e) == bound.code.mem(e));
                        assert(self.code.xmm(e) == self.code.xmm(e));
                        let was = before.regs(e).xmm[k as int];
                        assert(middle.code.vals(e)[old_low as int] == xmm_low(was));
                        assert(middle.code.vals(e)[old_high as int] == xmm_high(was));
                        assert(bound.code.vals(e)[low as int] == middle.code.vals(
                            e,
                        )[low as int]);
                        assert(bound.code.vals(e)[high as int] == middle.code.vals(
                            e,
                        )[high as int]);
                        assert(bound.code.vals(e)[old_high as int] == xmm_high(was));
                        assert((bound.code.v(e, l), bound.code.v(e, h)) == moved_into(
                            was,
                            middle.code.v(e, low),
                            middle.code.v(e, high),
                            n as int,
                            merge,
                        ));
                        assert(self.machine(e) == with_vector(
                            bound.machine(e),
                            k as int,
                            bound.code.v(e, l),
                            bound.code.v(e, h),
                        ));
                    }
                }
                Ok(())
            },
            kind::MEMORY => {
                let x = match self.effective_addr(i) {
                    Ok(x) => x,
                    Err(e) => {
                        return Err(e);
                    },
                };
                let ghost x0 = x;
                let addr: usize = self.bind(x);
                let ghost bound = *self;
                self.store_sse_mem(addr, low, high, n, i.ip);
                proof {
                    assert forall|e: Entry|
                        #![trigger self.code.trap(e)]
                        follows(
                            before,
                            *self,
                            e,
                            after_vector_move(before.machine(e), *i, n as int, merge),
                            i.ip,
                        ) by {
                        assert(middle.code.trap(e) == middle.code.trap(e));
                        assert(middle.regs(e) == before.regs(e));
                        assert(bound.code.trap(e) == middle.code.trap(e));
                        assert(bound.code.mem(e) == middle.code.mem(e));
                        assert(bound.code.xmm(e) == middle.code.xmm(e));
                        assert(bound.regs(e) == middle.regs(e));
                        assert(bound.machine(e) == middle.machine(e));
                        assert(x0.eval(middle.code.vals(e)) == bound.code.v(e, addr));
                        assert(bound.code.v(e, low) == middle.code.v(e, low));
                        assert(bound.code.v(e, high) == middle.code.v(e, high));
                    }
                }
                Ok(())
            },
            _ => Err(NotLowerable),
        }
    }
}

} // verus!
