//! How compiled code reads and writes operands.

use vstd::prelude::*;

use crate::exec::access::{after_store, loaded, stored};
use crate::exec::model::Fault;
use crate::exec::operand::{address_of, memory_bytes, operand_value};
use crate::insn::instr::{Instr, Operand};
use crate::insn::kind;
use crate::jit::block::{address_ok, integer_width, mem_ea_ok, mem_width_bytes, memory_width};
use crate::jit::ir::{bin, bin_value, iconst, un, value, BinOp, Entry, Expr, Live, UnOp};
use crate::jit::state::{
    follows, is_size, lemma_computes, lemma_pending_stays, lemma_same_regs, reads, Lower,
    NotLowerable,
};
use crate::regs::{modulus, trunc, Reg};

verus! {

/// The address of the memory operand is made of whole general registers. An address
/// of 32 bits is left to the interpreter.
pub open spec fn addressable(i: Instr) -> bool {
    i.base == Reg::Rip || i.base == Reg::Eip || ((i.base == Reg::Absent || i.base is Qword) && (
    i.index == Reg::Absent || i.index is Qword))
}

/// The block loads the general register that `reg` is a part of.
pub open spec fn loads_reg(live: Live, reg: Reg) -> bool {
    reg.gpr_index() matches Some(k) ==> live.gpr@[k]
}

/// The block loads the registers of the address.
pub open spec fn loads_address(live: Live, i: Instr) -> bool {
    loads_reg(live, i.base) && loads_reg(live, i.index)
}

/// The block loads the registers of an operand.
pub open spec fn loads_operand(live: Live, i: Instr, o: Operand) -> bool {
    &&& o.kind == kind::REGISTER ==> loads_reg(live, o.reg)
    &&& o.kind == kind::MEMORY ==> loads_address(live, i)
}

/// An operand that compiled code can read.
pub open spec fn readable(i: Instr, o: Operand) -> bool {
    if o.kind == kind::REGISTER {
        usable_reg(o.reg)
    } else if o.kind == kind::MEMORY {
        addressable(i) && (memory_width(i) matches Some(n) && integer_width(n))
    } else {
        kind::immediate(o.kind)
    }
}

/// A register that compiled code can read and write: the second byte of a register,
/// such as `AH`, is left to the interpreter.
pub open spec fn usable_reg(reg: Reg) -> bool {
    reg.gpr_index() is Some && !(reg is High8)
}

/// An operand that compiled code can write.
pub open spec fn writable(i: Instr, o: Operand) -> bool {
    if o.kind == kind::REGISTER {
        usable_reg(o.reg)
    } else {
        o.kind == kind::MEMORY && addressable(i)
    }
}

/// How many low bytes of the value of an operand count.
pub open spec fn operand_width(o: Operand) -> int {
    if o.kind == kind::REGISTER {
        o.reg.bytes()
    } else {
        8
    }
}

/// How many low bytes of the value of an operand count.
pub fn width_of_operand(o: Operand) -> (n: usize)
    ensures
        n == operand_width(o),
{
    if o.kind == kind::REGISTER {
        o.reg.size()
    } else {
        8
    }
}

/// The memory operand has one width, whether or not operands that are not there are
/// looked at, and the factor of an index is 1, 2, 4 or 8.
pub open spec fn memory_regular(i: Instr) -> bool {
    &&& address_ok(i)
    &&& memory_width(i) matches Some(n) ==> memory_bytes(i) == Ok::<int, Fault>(n)
}

/// Whether the memory operand has one width.
pub fn is_memory_regular(i: &Instr) -> (r: bool)
    ensures
        r == memory_regular(*i),
{
    if !mem_ea_ok(i) {
        return false;
    }
    if kind::integer_size(i.mem_size).is_some() {
        return true;
    }
    if i.op0.kind == kind::REGISTER {
        i.op_count > 0
    } else {
        i.op1.kind != kind::REGISTER || i.op_count > 1
    }
}

/// Replacing the low byte or word.
proof fn lemma_merges(old: u64, v: u64)
    by (bit_vector)
    ensures
        ((old & 0xffff_ffff_ffff_ff00) | (v & 0xff)) + old % 0x100 == old + v % 0x100,
        ((old & 0xffff_ffff_ffff_0000) | (v & 0xffff)) + old % 0x1_0000 == old + v % 0x1_0000,
{
}

/// What is stored depends on the low bytes of the value only.
pub proof fn lemma_stored_low(m: crate::mem::model::Bytes, a: u64, v: u64, w: u64, size: int)
    requires
        size == 1 || size == 2 || size == 4 || size == 8,
        trunc(v as int, size) == trunc(w as int, size),
    ensures
        stored(m, a, v, size).0 == stored(m, a, w, size).0,
        stored(m, a, v, size).1 is None == stored(m, a, w, size).1 is None,
        stored(m, a, v, size).1 matches Some(f) ==> (f matches Fault::Memory(inv) && inv.address
            == a && inv.size == size && inv.access_type == 1),
{
    let n = size as nat;
    crate::endian::lemma_pow256();
    crate::endian::bytes_round_trip(v as int, n);
    crate::endian::bytes_round_trip(w as int, n);
    crate::endian::lemma_le_bytes_len(v as int, n);
    crate::endian::lemma_le_bytes_len(w as int, n);
    crate::endian::value_round_trip(crate::endian::le_bytes(v as int, n));
    crate::endian::value_round_trip(crate::endian::le_bytes(w as int, n));
}

/// An integer that can be loaded can be stored.
pub proof fn lemma_store_after_load(m: crate::mem::model::Bytes, a: u64, v: u64, size: int)
    requires
        size == 1 || size == 2 || size == 4 || size == 8,
        loaded(m, a, size) is Ok,
    ensures
        stored(m, a, v, size).1 is None,
{
    crate::mem::model::lemma_mapped_run(m, a as int, size as nat);
}

/// A loaded integer fits its size; a failed load names the access.
pub proof fn lemma_loaded(m: crate::mem::model::Bytes, a: u64, size: int)
    requires
        size == 1 || size == 2 || size == 4 || size == 8,
    ensures
        loaded(m, a, size) matches Ok(v) ==> v < modulus(size),
        loaded(m, a, size) matches Err(f) ==> (f matches Fault::Memory(inv) && inv.address == a
            && inv.size == size && inv.access_type == 0),
{
    crate::endian::lemma_pow256();
    crate::endian::lemma_le_value_bound(crate::mem::model::load(m, a as int, size as nat));
}

/// Products and sums of addresses wrap.
proof fn lemma_wrapping(x: u64, y: u64)
    ensures
        bin_value(BinOp::Mul, x, y) == x.wrapping_mul(y),
        bin_value(BinOp::Add, x, y) == x.wrapping_add(y),
        x.wrapping_mul(1) == x,
{
}

impl Lower {
    /// Computes a value.
    pub fn bind(&mut self, x: Expr) -> (v: usize)
        requires
            old(self).wf(),
            old(self).room(1),
            x.uses(old(self).code.n(), old(self).code.live),
        ensures
            final(self).wf(),
            old(self).computes(*final(self)),
            v == old(self).code.n(),
            final(self).code.n() == old(self).code.n() + 1,
            final(self).code.has(v),
            forall|e: Entry| #[trigger]
                final(self).code.vals(e)[v as int] == x.eval(old(self).code.vals(e)),
            forall|e: Entry| #[trigger] final(self).regs(e) == old(self).regs(e),
            forall|e: Entry| #[trigger] final(self).machine(e) == old(self).machine(e),
    {
        let ghost before = *self;
        let v: usize = self.code.bind(x);
        proof {
            lemma_computes(before, *self);
            assert forall|e: Entry| #[trigger]
                self.code.vals(e)[v as int] == x.eval(before.code.vals(e)) by {
                assert(self.code.v(e, v) == x.eval(before.code.vals(e)));
            }
        }
        v
    }

    /// Loads an integer for an instruction at `ip`.
    pub fn call_load(&mut self, addr: usize, size: u8, ip: u64) -> (v: usize)
        requires
            old(self).wf(),
            old(self).room(1),
            old(self).code.has(addr),
            is_size(size),
        ensures
            final(self).wf(),
            old(self).same_maps(*final(self)),
            old(self).code.grows(final(self).code),
            final(self).code.n() == old(self).code.n() + 1,
            v == old(self).code.n(),
            final(self).code.has(v),
            forall|e: Entry| #[trigger] final(self).regs(e) == old(self).regs(e),
            forall|e: Entry| #[trigger] final(self).code.mem(e) == old(self).code.mem(e),
            forall|e: Entry|
                #![trigger final(self).code.trap(e)]
                reads(
                    *old(self),
                    *final(self),
                    e,
                    loaded(old(self).code.mem(e), old(self).code.v(e, addr), size as int),
                    v,
                    8,
                    ip,
                ),
    {
        let ghost before = *self;
        let at = self.snap();
        let v: usize = self.code.load(addr, size, ip, at);
        proof {
            assert forall|e: Entry| #[trigger] self.regs(e) == before.regs(e) by {
                lemma_same_regs(before, *self, e);
            }
            assert forall|e: Entry| self.pending.fits(#[trigger] self.code.vals(e)) by {
                assert(before.pending.fits(before.code.vals(e)));
                lemma_pending_stays(before.pending, before.code, self.code, e);
            }
            lemma_pending_stays(before.pending, before.code, self.code, arbitrary());
            assert forall|e: Entry, h: int|
                0 <= h < 32 && self.code.trap(e) is None implies #[trigger] self.code.xmm(e)[h]
                == self.code.vals(e)[self.xmm@[h] as int] by {
                assert(before.code.xmm(e)[h] == before.code.vals(e)[before.xmm@[h] as int]);
                assert(before.xmm@[h] < before.code.n());
            }
            assert forall|e: Entry|
                #![trigger self.code.trap(e)]
                reads(
                    before,
                    *self,
                    e,
                    loaded(before.code.mem(e), before.code.v(e, addr), size as int),
                    v,
                    8,
                    ip,
                ) by {
                lemma_loaded(before.code.mem(e), before.code.v(e, addr), size as int);
                assert(at.gprs(before.code.vals(e)) =~= before.regs(e).gpr);
                if self.code.trap(e) is None {
                    let x = self.code.v(e, v);
                }
            }
        }
        v
    }

    /// Stores an integer for an instruction at `ip`.
    pub fn call_store(&mut self, addr: usize, size: u8, v: usize, ip: u64)
        requires
            old(self).wf(),
            old(self).room(1),
            old(self).code.has(addr),
            old(self).code.has(v),
            is_size(size),
        ensures
            final(self).wf(),
            old(self).same_maps(*final(self)),
            old(self).code.grows(final(self).code),
            final(self).code.n() == old(self).code.n() + 1,
            forall|e: Entry| #[trigger] final(self).code.xmm(e) == old(self).code.xmm(e),
            forall|e: Entry| #[trigger] final(self).regs(e) == old(self).regs(e),
            forall|e: Entry|
                #![trigger final(self).code.trap(e)]
                follows(
                    *old(self),
                    *final(self),
                    e,
                    after_store(
                        old(self).machine(e),
                        old(self).code.v(e, addr),
                        old(self).code.v(e, v),
                        size as int,
                    ),
                    ip,
                ),
    {
        let ghost before = *self;
        let at = self.snap();
        self.code.store(addr, size, v, ip, at);
        proof {
            assert forall|e: Entry| #[trigger] self.regs(e) == before.regs(e) by {
                lemma_same_regs(before, *self, e);
            }
            assert forall|e: Entry| self.pending.fits(#[trigger] self.code.vals(e)) by {
                assert(before.pending.fits(before.code.vals(e)));
                lemma_pending_stays(before.pending, before.code, self.code, e);
            }
            lemma_pending_stays(before.pending, before.code, self.code, arbitrary());
            assert forall|e: Entry, h: int|
                0 <= h < 32 && self.code.trap(e) is None implies #[trigger] self.code.xmm(e)[h]
                == self.code.vals(e)[self.xmm@[h] as int] by {
                assert(before.code.xmm(e)[h] == before.code.vals(e)[before.xmm@[h] as int]);
                assert(before.xmm@[h] < before.code.n());
            }
            assert forall|e: Entry|
                #![trigger self.code.trap(e)]
                follows(
                    before,
                    *self,
                    e,
                    after_store(
                        before.machine(e),
                        before.code.v(e, addr),
                        before.code.v(e, v),
                        size as int,
                    ),
                    ip,
                ) by {
                let x = before.code.v(e, v);
                lemma_stored_low(
                    before.code.mem(e),
                    before.code.v(e, addr),
                    x,
                    x,
                    size as int,
                );
                assert(at.gprs(before.code.vals(e)) =~= before.regs(e).gpr);
                assert(self.regs(e) == before.regs(e));
                assert(self.code.mem(e) == self.code.mem(e));
            }
        }
    }

    /// The address of the memory operand.
    pub(crate) fn effective_addr(&self, i: &Instr) -> (r: Result<Expr, NotLowerable>)
        requires
            self.wf(),
            i.wf(),
            address_ok(*i),
            loads_address(self.code.live, *i),
        ensures
            r is Ok == addressable(*i),
            r matches Ok(x) ==> x.uses(self.code.n(), self.code.live),
            r matches Ok(x) ==> forall|e: Entry|
                address_of(self.regs(e), *i) == Ok::<u64, Fault>(
                    #[trigger] x.eval(self.code.vals(e)),
                ),
    {
        if i.base == Reg::Rip || i.base == Reg::Eip {
            return Ok(iconst(i.disp));
        }
        let mut address = iconst(i.disp);
        if i.base != Reg::Absent {
            match i.base {
                Reg::Qword(n) => {
                    let k: usize = n as usize;
                    assert(self.code.has(self.gpr@[k as int]));
                    address = bin(BinOp::Add, value(self.gpr[k]), address);
                },
                _ => {
                    return Err(NotLowerable);
                },
            }
        }
        let ghost with_base = address;
        assert forall|e: Entry| #[trigger] with_base.eval(self.code.vals(e)) == if i.base
            == Reg::Absent {
            i.disp
        } else {
            i.disp.wrapping_add(self.regs(e).gpr[i.base.gpr_index()->0])
        } by {}
        if i.index != Reg::Absent {
            match i.index {
                Reg::Qword(n) => {
                    let k: usize = n as usize;
                    assert(self.code.has(self.gpr@[k as int]));
                    let scaled = if i.scale <= 1 {
                        value(self.gpr[k])
                    } else {
                        bin(BinOp::Mul, value(self.gpr[k]), iconst(i.scale as u64))
                    };
                    address = bin(BinOp::Add, address, scaled);
                    proof {
                        assert forall|e: Entry| #[trigger]
                            address.eval(self.code.vals(e)) == with_base.eval(
                                self.code.vals(e),
                            ).wrapping_add(
                                self.regs(e).gpr[k as int].wrapping_mul(i.scale as u64),
                            ) by {
                            let x = self.code.vals(e)[self.gpr@[k as int] as int];
                            lemma_wrapping(x, i.scale as u64);
                            lemma_wrapping(
                                with_base.eval(self.code.vals(e)),
                                x.wrapping_mul(i.scale as u64),
                            );
                            assert(self.regs(e).gpr[k as int] == x);
                        }
                    }
                },
                _ => {
                    return Err(NotLowerable);
                },
            }
        }
        Ok(address)
    }

    /// Reads operand `op` of an instruction.
    pub(crate) fn read_op_mem(&mut self, i: &Instr, op: u32) -> (r: Result<usize, NotLowerable>)
        requires
            old(self).wf(),
            old(self).room(2),
            i.wf(),
            i.operand(op as int).kind == kind::MEMORY ==> memory_regular(*i),
            op < 3,
            loads_operand(old(self).code.live, *i, i.operand(op as int)),
        ensures
            r is Ok == readable(*i, i.operand(op as int)),
            r matches Ok(v) ==> {
                &&& final(self).wf()
                &&& old(self).same_maps(*final(self))
                &&& old(self).code.grows(final(self).code)
                &&& final(self).code.n() <= old(self).code.n() + 2
                &&& final(self).code.has(v)
                &&& forall|e: Entry| #[trigger] final(self).regs(e) == old(self).regs(e)
                &&& forall|
                    e: Entry,
                |
                    #![trigger final(self).code.trap(e)]
                    reads(
                        *old(self),
                        *final(self),
                        e,
                        operand_value(old(self).machine(e), *i, op as int),
                        v,
                        operand_width(i.operand(op as int)),
                        i.ip,
                    )
            },
    {
        let o = i.op(op);
        let ghost before = *self;
        match o.kind {
            kind::REGISTER => match o.reg.index() {
                Some(k) => {
                    if matches!(o.reg, Reg::High8(_)) {
                        return Err(NotLowerable);
                    }
                    let v: usize = self.gpr[k];
                    assert(self.code.has(self.gpr@[k as int]));
                    assert forall|e: Entry|
                        #![trigger self.code.trap(e)]
                        reads(
                            before,
                            *self,
                            e,
                            operand_value(before.machine(e), *i, op as int),
                            v,
                            operand_width(o),
                            i.ip,
                        ) by {
                        assert(before.machine(e).regs.gpr[k as int] == self.code.v(e, v));
                    }
                    Ok(v)
                },
                None => Err(NotLowerable),
            },
            kind::MEMORY => {
                let x = match self.effective_addr(i) {
                    Ok(x) => x,
                    Err(e) => {
                        return Err(e);
                    },
                };
                let size: u8 = match mem_width_bytes(i) {
                    Ok(n) => n as u8,
                    Err(_) => {
                        return Err(NotLowerable);
                    },
                };
                let ghost x0 = x;
                let addr: usize = self.bind(x);
                let ghost middle = *self;
                let v: usize = self.call_load(addr, size, i.ip);
                proof {
                    assert forall|e: Entry|
                        #![trigger self.code.trap(e)]
                        reads(
                            before,
                            *self,
                            e,
                            operand_value(before.machine(e), *i, op as int),
                            v,
                            operand_width(o),
                            i.ip,
                        ) by {
                        assert(x0.eval(before.code.vals(e)) == middle.code.v(e, addr));
                        assert(middle.code.trap(e) == before.code.trap(e));
                        assert(middle.code.mem(e) == before.code.mem(e));
                        assert(middle.code.xmm(e) == before.code.xmm(e));
                        assert(middle.regs(e) == before.regs(e));
                    }
                }
                Ok(v)
            },
            _ => {
                if kind::is_immediate(o.kind) {
                    Ok(self.bind(iconst(o.imm)))
                } else {
                    Err(NotLowerable)
                }
            },
        }
    }

    /// Writes a register that is part of a general register.
    pub fn write_gpr(&mut self, reg: Reg, v: usize) -> (r: Result<(), NotLowerable>)
        requires
            old(self).wf(),
            old(self).room(1),
            reg.wf(),
            loads_reg(old(self).code.live, reg),
            old(self).code.has(v),
        ensures
            r is Ok == usable_reg(reg),
            r is Ok ==> {
                &&& final(self).wf()
                &&& old(self).code.computes(final(self).code)
                &&& final(self).code.n() <= old(self).code.n() + 1
                &&& final(self).rflags == old(self).rflags
                &&& final(self).pending == old(self).pending
                &&& final(self).xmm == old(self).xmm
                &&& forall|e: Entry|
                    Some(#[trigger] final(self).regs(e)) == old(self).regs(e).set_reg(
                        reg,
                        old(self).code.v(e, v),
                    )
            },
    {
        let k: usize = match reg.index() {
            Some(k) => k,
            None => {
                return Err(NotLowerable);
            },
        };
        assert(self.code.has(self.gpr@[k as int]));
        let ghost before = *self;
        let held: usize = self.gpr[k];
        let new: usize = match reg {
            Reg::Qword(_) => v,
            Reg::Dword(_) => self.bind(un(UnOp::Zext32, value(v))),
            Reg::Word(_) => self.bind(
                bin(
                    BinOp::Or,
                    bin(BinOp::And, value(held), iconst(0xffff_ffff_ffff_0000)),
                    bin(BinOp::And, value(v), iconst(0xffff)),
                ),
            ),
            Reg::Low8(_) => self.bind(
                bin(
                    BinOp::Or,
                    bin(BinOp::And, value(held), iconst(0xffff_ffff_ffff_ff00)),
                    bin(BinOp::And, value(v), iconst(0xff)),
                ),
            ),
            _ => {
                return Err(NotLowerable);
            },
        };
        let ghost middle = *self;
        self.gpr[k] = new;
        proof {
            assert forall|j: int| 0 <= j < 16 implies #[trigger] self.gpr@[j] == if j == k {
                new
            } else {
                before.gpr@[j]
            } by {}
            assert forall|e: Entry|
                Some(#[trigger] self.regs(e)) == before.regs(e).set_reg(
                    reg,
                    before.code.v(e, v),
                ) by {
                let was = before.regs(e);
                let x = before.code.v(e, v);
                assert(middle.regs(e) == was);
                assert(was.gpr[k as int] == before.code.v(e, held));
                lemma_merges(before.code.v(e, held), x);
                assert(self.code.vals(e)[new as int] == was.set_reg(reg, x)->0.gpr[k as int]);
                assert(self.regs(e).gpr =~= was.set_reg(reg, x)->0.gpr) by {
                    assert forall|j: int| 0 <= j < 16 && j != k implies self.regs(e).gpr[j]
                        == was.gpr[j] by {
                        assert(self.gpr@[j] == before.gpr@[j]);
                        assert(middle.regs(e).gpr[j] == was.gpr[j]);
                    }
                }
                assert(self.regs(e).xmm =~= was.xmm) by {
                    assert(self.regs(e).xmm =~= middle.regs(e).xmm);
                }
            }
            assert(self.wf()) by {
                assert(self.code.vals(arbitrary()) == self.code.vals(arbitrary()));
            }
        }
        Ok(())
    }
}

} // verus!
