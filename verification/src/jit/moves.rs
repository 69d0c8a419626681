//! Compiling moves and stack instructions.

use vstd::prelude::*;

use crate::exec::access::{after_pop, after_push, popped, stored};
use crate::exec::alu::{after_lea, after_mov, after_movx, after_pop_op, after_push_op};
use crate::exec::model::{Fault, Machine};
use crate::exec::operand::{
    address_of, after_operand_sized, operand_bytes, operand_value,
};
use crate::insn::instr::Instr;
use crate::insn::kind;
use crate::jit::access::{
    addressable, is_memory_regular, lemma_stored_low, loads_address, loads_operand, loads_reg,
    memory_regular, operand_width, readable, usable_reg, width_of_operand, writable,
};
use crate::jit::block::{address_ok, integer_width, mem_width_bytes, memory_width, width_of_memory};
use crate::jit::flags::mask_width;
use crate::jit::ir::{bin, iconst, value, BinOp, Entry};
use crate::jit::shift_flags::sext_to_i64;
use crate::jit::state::{follows, is_size, trapped, Lower, NotLowerable};
use crate::regs::{trunc, Reg, Regs};

verus! {

/// The size in bytes of the first operand.
pub open spec fn dst_bytes(i: Instr) -> int {
    if i.op0.kind == kind::REGISTER {
        i.op0.reg.bytes()
    } else {
        match memory_width(i) {
            Some(n) => n,
            None => 0,
        }
    }
}

/// The size in bytes of the first operand.
pub fn dst_size(i: &Instr) -> (n: usize)
    ensures
        n == dst_bytes(*i),
{
    if i.op0.kind == kind::REGISTER {
        i.op0.reg.size()
    } else {
        match width_of_memory(i) {
            Some(n) => n,
            None => 0,
        }
    }
}

/// A register as the second operand is no smaller than the first operand.
pub open spec fn pair_regular(i: Instr) -> bool {
    &&& memory_regular(i)
    &&& operand_width(i.op1) >= dst_bytes(i)
}

/// Whether a register as the second operand is no smaller than the first operand.
pub fn is_pair_regular(i: &Instr) -> (r: bool)
    ensures
        r == pair_regular(*i),
{
    is_memory_regular(i) && width_of_operand(i.op1) >= dst_size(i)
}

/// `push` and `pop` move eight bytes.
pub open spec fn stack_regular(i: Instr) -> bool {
    &&& i.op0.kind == kind::MEMORY ==> memory_regular(i) && memory_width(i) == Some(8int)
    &&& i.op0.kind == kind::REGISTER ==> i.op0.reg.bytes() == 8
    &&& kind::immediate(i.op0.kind) ==> kind::immediate_bytes(i.op0.kind) == 8
}

/// Whether `push` or `pop` moves eight bytes.
pub fn is_stack_regular(i: &Instr) -> (r: bool)
    ensures
        r == stack_regular(*i),
{
    match i.op0.kind {
        kind::MEMORY => is_memory_regular(i) && matches!(width_of_memory(i), Some(8)),
        kind::REGISTER => i.op0.reg.size() == 8,
        kind::IMMEDIATE8 | kind::IMMEDIATE8_2ND | kind::IMMEDIATE16 | kind::IMMEDIATE8TO16
        | kind::IMMEDIATE32 | kind::IMMEDIATE8TO32 => false,
        _ => true,
    }
}

/// Cutting down in two steps.
pub proof fn lemma_trunc_steps(x: int, n: int, m: int)
    requires
        n == 1 || n == 2 || n == 4 || n == 8,
        m == 1 || m == 2 || m == 4 || m == 8,
        m <= n,
    ensures
        trunc(trunc(x, n), m) == trunc(x, m),
{
    if n != m {
        if n == 2 {
            vstd::arithmetic::div_mod::lemma_mod_mod(x, 0x100, 0x100);
        } else if n == 4 {
            if m == 1 {
                vstd::arithmetic::div_mod::lemma_mod_mod(x, 0x100, 0x100_0000);
            } else {
                vstd::arithmetic::div_mod::lemma_mod_mod(x, 0x1_0000, 0x1_0000);
            }
        } else {
            crate::exec::alu::lemma_trunc_narrow(x, m);
        }
    } else {
        crate::exec::alu::lemma_trunc_sum(x, 0, 0, n);
    }
}

/// A general register has one of the four integer sizes.
pub proof fn lemma_gpr_bytes(reg: Reg)
    requires
        reg.gpr_index() is Some,
    ensures
        integer_width(reg.bytes()),
{
}

/// Writing a register depends on the low bytes of the value only.
pub proof fn lemma_set_reg_low(regs: Regs, reg: Reg, v: u64, w: u64)
    requires
        trunc(v as int, reg.bytes()) == trunc(w as int, reg.bytes()),
    ensures
        regs.set_reg(reg, v) == regs.set_reg(reg, w),
{
}

/// Writing an operand depends on the low bytes of the value only.
pub proof fn lemma_write_low(
    before: Lower,
    after: Lower,
    e: Entry,
    s: Machine,
    i: Instr,
    op: int,
    v: u64,
    w: u64,
    size: int,
)
    requires
        integer_width(size),
        i.operand(op).kind == kind::REGISTER ==> trunc(v as int, i.operand(op).reg.bytes())
            == trunc(w as int, i.operand(op).reg.bytes()),
        i.operand(op).kind != kind::REGISTER ==> trunc(v as int, size) == trunc(w as int, size),
        follows(before, after, e, after_operand_sized(s, i, op, v, size), i.ip),
    ensures
        follows(before, after, e, after_operand_sized(s, i, op, w, size), i.ip),
{
    let o = i.operand(op);
    if o.kind == kind::REGISTER {
        lemma_set_reg_low(s.regs, o.reg, v, w);
    } else if o.kind == kind::MEMORY {
        if let Ok(a) = address_of(s.regs, i) {
            lemma_stored_low(s.mem, a, v, w, size);
            lemma_stored_low(s.mem, a, w, v, size);
        }
    }
}

impl Lower {
    /// Writes operand `op` of an instruction as `size` bytes.
    pub(crate) fn write_op_mem(&mut self, i: &Instr, op: u32, v: usize, size: u8) -> (r: Result<
        (),
        NotLowerable,
    >)
        requires
            old(self).wf(),
            old(self).room(2),
            i.wf(),
            i.operand(op as int).kind == kind::MEMORY ==> address_ok(*i),
            op < 3,
            loads_operand(old(self).code.live, *i, i.operand(op as int)),
            old(self).code.has(v),
            is_size(size),
        ensures
            r is Ok == writable(*i, i.operand(op as int)),
            r is Ok ==> {
                &&& final(self).wf()
                &&& old(self).code.grows(final(self).code)
                &&& final(self).code.n() <= old(self).code.n() + 2
                &&& final(self).rflags == old(self).rflags
                &&& final(self).pending == old(self).pending
                &&& final(self).xmm == old(self).xmm
                &&& forall|
                    e: Entry,
                |
                    #![trigger final(self).code.trap(e)]
                    follows(
                        *old(self),
                        *final(self),
                        e,
                        after_operand_sized(
                            old(self).machine(e),
                            *i,
                            op as int,
                            old(self).code.v(e, v),
                            size as int,
                        ),
                        i.ip,
                    )
            },
    {
        let o = i.op(op);
        let ghost before = *self;
        match o.kind {
            kind::REGISTER => {
                let r = self.write_gpr(o.reg, v);
                proof {
                    if r is Ok {
                        assert forall|e: Entry|
                            #![trigger self.code.trap(e)]
                            follows(
                                before,
                                *self,
                                e,
                                after_operand_sized(
                                    before.machine(e),
                                    *i,
                                    op as int,
                                    before.code.v(e, v),
                                    size as int,
                                ),
                                i.ip,
                            ) by {
                            assert(Some(self.regs(e)) == before.regs(e).set_reg(
                                o.reg,
                                before.code.v(e, v),
                            ));
                            assert(self.code.mem(e) == before.code.mem(e));
                            assert(self.code.xmm(e) == before.code.xmm(e));
                            assert(i.operand(op as int).reg == o.reg);
                        }
                    }
                }
                r
            },
            kind::MEMORY => {
                let x = match self.effective_addr(i) {
                    Ok(x) => x,
                    Err(e) => {
                        return Err(e);
                    },
                };
                let ghost x0 = x;
                let addr: usize = self.bind(x);
                let ghost middle = *self;
                self.call_store(addr, size, v, i.ip);
                proof {
                    assert forall|e: Entry|
                        #![trigger self.code.trap(e)]
                        follows(
                            before,
                            *self,
                            e,
                            after_operand_sized(
                                before.machine(e),
                                *i,
                                op as int,
                                before.code.v(e, v),
                                size as int,
                            ),
                            i.ip,
                        ) by {
                        assert(x0.eval(before.code.vals(e)) == middle.code.v(e, addr));
                        assert(middle.code.v(e, v) == before.code.v(e, v));
                        assert(middle.code.trap(e) == before.code.trap(e));
                        assert(middle.code.mem(e) == before.code.mem(e));
                        assert(middle.code.xmm(e) == before.code.xmm(e));
                        assert(middle.machine(e) == before.machine(e));
                    }
                }
                Ok(())
            },
            _ => Err(NotLowerable),
        }
    }

    /// The size in bytes of the first operand.
    pub fn op_size(&self, i: &Instr) -> (r: Result<u8, NotLowerable>)
        ensures
            r is Ok ==> is_size(r->Ok_0),
            (i.op0.kind == kind::REGISTER || i.op0.kind == kind::MEMORY) && readable(*i, i.op0)
                ==> r is Ok && r->Ok_0 == dst_bytes(*i),
            i.op0.kind == kind::REGISTER ==> r is Ok,
            i.op0.kind == kind::MEMORY && r is Ok ==> integer_width(dst_bytes(*i)),
    {
        match i.op0.kind {
            kind::REGISTER => match i.op0.reg.size() {
                1 => Ok(1),
                2 => Ok(2),
                4 => Ok(4),
                _ => Ok(8),
            },
            kind::MEMORY => match mem_width_bytes(i) {
                Ok(n) => Ok(n as u8),
                Err(_) => Err(NotLowerable),
            },
            _ => Ok(8),
        }
    }

    /// `mov`.
    pub(crate) fn lower_mov(&mut self, i: &Instr) -> (r: Result<(), NotLowerable>)
        requires
            old(self).wf(),
            old(self).room(4),
            i.wf(),
            pair_regular(*i),
            loads_operand(old(self).code.live, *i, i.op0),
            loads_operand(old(self).code.live, *i, i.op1),
        ensures
            r is Ok == (readable(*i, i.op1) && readable(*i, i.op0) && writable(*i, i.op0)),
            r is Ok ==> {
                &&& final(self).wf()
                &&& final(self).code.live == old(self).code.live
                &&& final(self).code.n() <= old(self).code.n() + 4
                &&& forall|e: Entry|
                    #![trigger final(self).code.trap(e)]
                    follows(
                        *old(self),
                        *final(self),
                        e,
                        after_mov(old(self).machine(e), *i),
                        i.ip,
                    )
            },
    {
        let ghost before = *self;
        let size: u8 = match self.op_size(i) {
            Ok(n) => n,
            Err(e) => {
                return Err(e);
            },
        };
        let v: usize = match self.read_op_mem(i, 1) {
            Ok(v) => v,
            Err(e) => {
                return Err(e);
            },
        };
        let ghost middle = *self;
        let r = self.write_op_mem(i, 0, v, size);
        proof {
            if r is Ok {
                assert(readable(*i, i.op0));
                assert forall|e: Entry|
                    #![trigger self.code.trap(e)]
                    follows(before, *self, e, after_mov(before.machine(e), *i), i.ip) by {
                    assert(middle.code.trap(e) == middle.code.trap(e));
                    assert(middle.regs(e) == before.regs(e));
                    assert(operand_bytes(*i, 0) == Ok::<int, Fault>(size as int)) by {
                    }
                    if middle.code.trap(e) is None {
                        let raw = middle.code.v(e, v);
                        let x = operand_value(before.machine(e), *i, 1)->Ok_0;
                        lemma_trunc_steps(
                            raw as int,
                            operand_width(i.op1),
                            dst_bytes(*i),
                        );
                        lemma_write_low(
                            middle,
                            *self,
                            e,
                            middle.machine(e),
                            *i,
                            0,
                            raw,
                            x,
                            size as int,
                        );
                    }
                }
            }
        }
        r
    }

    /// `movzx`, `movsx` and `movsxd`.
    pub(crate) fn lower_movx(&mut self, i: &Instr, sign: bool) -> (r: Result<(), NotLowerable>)
        requires
            old(self).wf(),
            old(self).room(5),
            i.wf(),
            memory_regular(*i),
            loads_operand(old(self).code.live, *i, i.op0),
            loads_operand(old(self).code.live, *i, i.op1),
        ensures
            r is Ok == (i.op0.kind == kind::REGISTER && usable_reg(i.op0.reg) && readable(
                *i,
                i.op1,
            ) && !kind::immediate(i.op1.kind)),
            r is Ok ==> {
                &&& final(self).wf()
                &&& final(self).code.live == old(self).code.live
                &&& final(self).code.n() <= old(self).code.n() + 5
                &&& forall|e: Entry|
                    #![trigger final(self).code.trap(e)]
                    follows(
                        *old(self),
                        *final(self),
                        e,
                        after_movx(old(self).machine(e), *i, sign),
                        i.ip,
                    )
            },
    {
        let ghost before = *self;
        if i.op0.kind != kind::REGISTER || kind::is_immediate(i.op1.kind) {
            return Err(NotLowerable);
        }
        let v: usize = match self.read_op_mem(i, 1) {
            Ok(v) => v,
            Err(e) => {
                return Err(e);
            },
        };
        let ghost middle = *self;
        let from: u8 = if i.op1.kind == kind::MEMORY {
            match mem_width_bytes(i) {
                Ok(n) => n as u8,
                Err(_) => {
                    return Err(NotLowerable);
                },
            }
        } else {
            proof {
                lemma_gpr_bytes(i.op1.reg);
            }
            i.op1.reg.size() as u8
        };
        let x = if sign {
            sext_to_i64(v, from)
        } else {
            mask_width(value(v), from)
        };
        let ghost x0 = x;
        let extended: usize = self.bind(x);
        let ghost bound = *self;
        let r = self.write_gpr(i.op0.reg, extended);
        proof {
            if r is Ok {
                assert forall|e: Entry|
                    #![trigger self.code.trap(e)]
                    follows(before, *self, e, after_movx(before.machine(e), *i, sign), i.ip) by {
                    let s = before.machine(e);
                    assert(middle.code.trap(e) == middle.code.trap(e));
                    assert(bound.code.trap(e) == middle.code.trap(e));
                    assert(bound.code.mem(e) == middle.code.mem(e));
                    assert(bound.code.xmm(e) == middle.code.xmm(e));
                    assert(self.code.mem(e) == bound.code.mem(e));
                    assert(self.code.xmm(e) == bound.code.xmm(e));
                    assert(bound.regs(e) == before.regs(e)) by {
                        assert(middle.regs(e) == before.regs(e));
                    }
                    assert(Some(self.regs(e)) == bound.regs(e).set_reg(
                        i.op0.reg,
                        bound.code.v(e, extended),
                    ));
                    assert(operand_bytes(*i, 1) == Ok::<int, Fault>(from as int)) by {
                    }
                    if middle.code.trap(e) is None {
                        let raw = middle.code.v(e, v);
                        let w = operand_value(s, *i, 1)->Ok_0;
                        lemma_trunc_steps(raw as int, operand_width(i.op1), from as int);
                        assert(trunc(w as int, from as int) == trunc(raw as int, from as int));
                        assert(bound.code.vals(e)[extended as int] == x0.eval(middle.code.vals(e)));
                    }
                }
            }
        }
        r
    }

    /// `lea`.
    pub(crate) fn lower_lea(&mut self, i: &Instr) -> (r: Result<(), NotLowerable>)
        requires
            old(self).wf(),
            old(self).room(2),
            i.wf(),
            address_ok(*i),
            loads_reg(old(self).code.live, i.op0.reg),
            loads_address(old(self).code.live, *i),
        ensures
            r is Ok == (addressable(*i) && usable_reg(i.op0.reg)),
            r is Ok ==> {
                &&& final(self).wf()
                &&& final(self).code.live == old(self).code.live
                &&& final(self).code.n() <= old(self).code.n() + 2
                &&& forall|e: Entry|
                    #![trigger final(self).code.trap(e)]
                    follows(
                        *old(self),
                        *final(self),
                        e,
                        after_lea(old(self).machine(e), *i),
                        i.ip,
                    )
            },
    {
        let ghost before = *self;
        let x = match self.effective_addr(i) {
            Ok(x) => x,
            Err(e) => {
                return Err(e);
            },
        };
        let ghost x0 = x;
        let v: usize = self.bind(x);
        let ghost bound = *self;
        let r = self.write_gpr(i.op0.reg, v);
        proof {
            if r is Ok {
                assert forall|e: Entry|
                    #![trigger self.code.trap(e)]
                    follows(before, *self, e, after_lea(before.machine(e), *i), i.ip) by {
                    assert(bound.code.trap(e) == before.code.trap(e));
                    assert(self.code.mem(e) == bound.code.mem(e));
                    assert(self.code.xmm(e) == bound.code.xmm(e));
                    assert(bound.regs(e) == before.regs(e));
                    assert(bound.code.vals(e)[v as int] == x0.eval(before.code.vals(e)));
                    assert(Some(self.regs(e)) == bound.regs(e).set_reg(
                        i.op0.reg,
                        bound.code.v(e, v),
                    ));
                }
            }
        }
        r
    }

    /// `push`: eight bytes.
    pub(crate) fn lower_push(&mut self, i: &Instr) -> (r: Result<(), NotLowerable>)
        requires
            old(self).wf(),
            old(self).room(5),
            i.wf(),
            stack_regular(*i),
            loads_operand(old(self).code.live, *i, i.op0),
            old(self).code.live.gpr@[4],
        ensures
            r is Ok == readable(*i, i.op0),
            r is Ok ==> {
                &&& final(self).wf()
                &&& final(self).code.live == old(self).code.live
                &&& final(self).code.n() <= old(self).code.n() + 5
                &&& forall|e: Entry|
                    #![trigger final(self).code.trap(e)]
                    follows(
                        *old(self),
                        *final(self),
                        e,
                        after_push_op(old(self).machine(e), *i),
                        i.ip,
                    )
            },
    {
        let ghost before = *self;
        let v: usize = match self.read_op_mem(i, 0) {
            Ok(v) => v,
            Err(e) => {
                return Err(e);
            },
        };
        let ghost middle = *self;
        self.push_value(v, i.ip);
        proof {
            assert forall|e: Entry|
                #![trigger self.code.trap(e)]
                follows(before, *self, e, after_push_op(before.machine(e), *i), i.ip) by {
                assert(middle.code.trap(e) == middle.code.trap(e));
                assert(middle.regs(e) == before.regs(e));
                assert(middle.code.mem(e) == before.code.mem(e));
                assert(middle.machine(e) == before.machine(e));
                assert(middle.code.v(e, v) <= u64::MAX);
            }
        }
        Ok(())
    }

    /// Pushes the value `v` as eight bytes.
    pub fn push_value(&mut self, v: usize, ip: u64)
        requires
            old(self).wf(),
            old(self).room(3),
            old(self).code.has(v),
            old(self).code.live.gpr@[4],
        ensures
            final(self).wf(),
            old(self).code.grows(final(self).code),
            final(self).code.n() <= old(self).code.n() + 3,
            final(self).rflags == old(self).rflags,
            final(self).pending == old(self).pending,
            forall|e: Entry|
                #![trigger final(self).code.trap(e)]
                follows(
                    *old(self),
                    *final(self),
                    e,
                    after_push(old(self).machine(e), old(self).code.v(e, v), 8),
                    ip,
                ),
    {
        let ghost before = *self;
        assert(self.code.has(self.gpr@[4]));
        let rsp: usize = self.bind(bin(BinOp::Sub, value(self.gpr[4]), iconst(8)));
        let ghost middle = *self;
        self.call_store(rsp, 8, v, ip);
        let ghost stored = *self;
        let r = self.write_gpr(Reg::Qword(4), rsp);
        assert(r is Ok);
        proof {
            assert forall|e: Entry|
                #![trigger self.code.trap(e)]
                follows(
                    before,
                    *self,
                    e,
                    after_push(before.machine(e), before.code.v(e, v), 8),
                    ip,
                ) by {
                assert(middle.code.trap(e) == before.code.trap(e));
                assert(middle.code.mem(e) == before.code.mem(e));
                assert(middle.code.xmm(e) == before.code.xmm(e));
                assert(middle.regs(e) == before.regs(e));
                assert(middle.machine(e) == before.machine(e));
                assert(stored.code.trap(e) == stored.code.trap(e));
                assert(stored.regs(e) == before.regs(e));
                assert(self.code.mem(e) == stored.code.mem(e));
                assert(self.code.xmm(e) == stored.code.xmm(e));
                assert(middle.code.v(e, v) == before.code.v(e, v));
                assert(stored.code.v(e, rsp) == middle.code.v(e, rsp));
                assert(before.regs(e).gpr[4] == before.code.vals(e)[before.gpr@[4] as int]);
                assert(middle.code.v(e, rsp) == before.regs(e).gpr[4].wrapping_sub(8));
                assert(Some(self.regs(e)) == stored.regs(e).set_reg(
                    Reg::Qword(4),
                    stored.code.v(e, rsp),
                ));
            }
        }
    }

    /// Pops eight bytes into a value.
    pub fn pop_value(&mut self, ip: u64) -> (v: usize)
        requires
            old(self).wf(),
            old(self).room(3),
            old(self).code.live.gpr@[4],
        ensures
            final(self).wf(),
            old(self).code.grows(final(self).code),
            final(self).code.n() <= old(self).code.n() + 3,
            final(self).code.has(v),
            final(self).rflags == old(self).rflags,
            final(self).pending == old(self).pending,
            forall|e: Entry|
                #![trigger final(self).code.trap(e)]
                ({
                    let s = old(self).machine(e);
                    &&& final(self).code.mem(e) == old(self).code.mem(e)
                    &&& final(self).code.xmm(e) == old(self).code.xmm(e)
                    &&& old(self).code.trap(e) is Some ==> final(self).code.trap(e) == old(self).code.trap(e)
                    &&& old(self).code.trap(e) is None ==> match popped(s, 8) {
                        Ok(x) => final(self).code.trap(e) is None && final(self).code.v(e, v) == x
                            && final(self).machine(e) =~= after_pop(s, 8),
                        Err(Fault::Memory(inv)) => trapped(
                            final(self).code.trap(e),
                            inv,
                            ip,
                            s.regs.gpr,
                            old(self).stored(e),
                        ),
                        Err(Fault::Cpu(_)) => false,
                    }
                }),
    {
        let ghost before = *self;
        assert(self.code.has(self.gpr@[4]));
        let v: usize = self.call_load(self.gpr[4], 8, ip);
        let ghost middle = *self;
        assert(self.code.has(self.gpr@[4]));
        let rsp: usize = self.bind(bin(BinOp::Add, value(self.gpr[4]), iconst(8)));
        let ghost bound = *self;
        let r = self.write_gpr(Reg::Qword(4), rsp);
        assert(r is Ok);
        proof {
            assert forall|e: Entry|
                #![trigger self.code.trap(e)]
                ({
                    let s = before.machine(e);
                    &&& self.code.mem(e) == before.code.mem(e)
                    &&& self.code.xmm(e) == before.code.xmm(e)
                    &&& before.code.trap(e) is Some ==> self.code.trap(e) == before.code.trap(e)
                    &&& before.code.trap(e) is None ==> match popped(s, 8) {
                        Ok(x) => self.code.trap(e) is None && self.code.v(e, v) == x
                            && self.machine(e) =~= after_pop(s, 8),
                        Err(Fault::Memory(inv)) => trapped(
                            self.code.trap(e),
                            inv,
                            ip,
                            s.regs.gpr,
                            before.stored(e),
                        ),
                        Err(Fault::Cpu(_)) => false,
                    }
                }) by {
                assert(middle.code.trap(e) == middle.code.trap(e));
                assert(middle.regs(e) == before.regs(e));
                assert(bound.code.trap(e) == middle.code.trap(e));
                assert(bound.code.mem(e) == middle.code.mem(e));
                assert(bound.code.xmm(e) == middle.code.xmm(e));
                assert(bound.regs(e) == before.regs(e));
                assert(self.code.mem(e) == bound.code.mem(e));
                assert(self.code.xmm(e) == bound.code.xmm(e));
                assert(before.regs(e).gpr[4] == before.code.vals(e)[before.gpr@[4] as int]);
                assert(middle.code.vals(e)[before.gpr@[4] as int] == before.code.vals(
                    e,
                )[before.gpr@[4] as int]);
                assert(bound.code.v(e, rsp) == before.regs(e).gpr[4].wrapping_add(8));
                assert(Some(self.regs(e)) == bound.regs(e).set_reg(
                    Reg::Qword(4),
                    bound.code.v(e, rsp),
                ));
                assert(self.code.v(e, v) == middle.code.v(e, v));
            }
        }
        v
    }

    /// `pop`: eight bytes.
    pub(crate) fn lower_pop(&mut self, i: &Instr) -> (r: Result<(), NotLowerable>)
        requires
            old(self).wf(),
            old(self).room(5),
            i.wf(),
            stack_regular(*i),
            loads_operand(old(self).code.live, *i, i.op0),
            old(self).code.live.gpr@[4],
        ensures
            r is Ok == (readable(*i, i.op0) && writable(*i, i.op0)),
            r is Ok ==> {
                &&& final(self).wf()
                &&& final(self).code.live == old(self).code.live
                &&& final(self).code.n() <= old(self).code.n() + 5
                &&& forall|e: Entry|
                    #![trigger final(self).code.trap(e)]
                    follows(
                        *old(self),
                        *final(self),
                        e,
                        after_pop_op(old(self).machine(e), *i),
                        i.ip,
                    )
            },
    {
        let ghost before = *self;
        let size: u8 = match self.op_size(i) {
            Ok(n) => n,
            Err(e) => {
                return Err(e);
            },
        };
        let v: usize = self.pop_value(i.ip);
        let ghost middle = *self;
        let r = self.write_op_mem(i, 0, v, size);
        proof {
            if r is Ok {
                assert forall|e: Entry|
                    #![trigger self.code.trap(e)]
                    follows(before, *self, e, after_pop_op(before.machine(e), *i), i.ip) by {
                    assert(middle.code.trap(e) == middle.code.trap(e));
                    assert(operand_bytes(*i, 0) == Ok::<int, Fault>(size as int)) by {
                    }
                    assert(self.code.mem(e) == self.code.mem(e));
                }
            }
        }
        r
    }
}

} // verus!
