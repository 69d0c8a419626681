//! Flags that are computed only when something needs them.

use vstd::prelude::*;

use crate::exec::shift::{shift_rflags, ShiftKind};
use crate::jit::flags::{flag_set, flags_add, flags_logic, flags_sub, set_flag};
use crate::jit::ir::{iconst, value, Entry, Expr};
use crate::jit::shift_flags::materialize_shift_flags;
use crate::jit::state::{Lower, Pending};
use crate::regs::{
    flag_of, with_alu_flags, with_flag, with_logic_flags, AluFlags, AF, CF, OF, PF, SF, ZF,
};

verus! {

/// The bits of the six flags that arithmetic sets.
pub const ALU_MASK: u64 = 0x8d5;

/// Replacing one arithmetic flag changes no other bits than those of arithmetic
/// flags.
proof fn lemma_flag_keeps(f: u64, on: bool)
    by (bit_vector)
    ensures
        with_flag(f, CF, on) & !ALU_MASK == f & !ALU_MASK,
        with_flag(f, PF, on) & !ALU_MASK == f & !ALU_MASK,
        with_flag(f, AF, on) & !ALU_MASK == f & !ALU_MASK,
        with_flag(f, ZF, on) & !ALU_MASK == f & !ALU_MASK,
        with_flag(f, SF, on) & !ALU_MASK == f & !ALU_MASK,
        with_flag(f, OF, on) & !ALU_MASK == f & !ALU_MASK,
{
}

/// Replacing all six flags forgets what they were.
proof fn lemma_alu_forgets(f: u64, g: u64, c: bool, p: bool, a: bool, z: bool, s: bool, o: bool)
    by (bit_vector)
    requires
        f & !ALU_MASK == g & !ALU_MASK,
    ensures
        with_flag(
            with_flag(
                with_flag(with_flag(with_flag(with_flag(f, CF, c), PF, p), AF, a), ZF, z),
                SF,
                s,
            ),
            OF,
            o,
        ) == with_flag(
            with_flag(
                with_flag(with_flag(with_flag(with_flag(g, CF, c), PF, p), AF, a), ZF, z),
                SF,
                s,
            ),
            OF,
            o,
        ),
{
}

/// Replacing all six flags changes no other bits.
proof fn lemma_alu_keeps(f: u64, a: AluFlags)
    ensures
        with_alu_flags(f, a) & !ALU_MASK == f & !ALU_MASK,
{
    let f1 = with_flag(f, CF, a.cf);
    let f2 = with_flag(f1, PF, a.pf);
    let f3 = with_flag(f2, AF, a.af);
    let f4 = with_flag(f3, ZF, a.zf);
    let f5 = with_flag(f4, SF, a.sf);
    lemma_flag_keeps(f, a.cf);
    lemma_flag_keeps(f1, a.pf);
    lemma_flag_keeps(f2, a.af);
    lemma_flag_keeps(f3, a.zf);
    lemma_flag_keeps(f4, a.sf);
    lemma_flag_keeps(f5, a.of);
}

/// The flags of a bitwise operation change no other bits.
proof fn lemma_logic_keeps(f: u64, r: int, size: int)
    ensures
        with_logic_flags(f, r, size) & !ALU_MASK == f & !ALU_MASK,
{
    let f1 = with_flag(f, CF, false);
    let f2 = with_flag(f1, PF, crate::regs::even_parity(r));
    let f3 = with_flag(f2, ZF, r == 0);
    let f4 = with_flag(f3, SF, 2 * r >= crate::regs::modulus(size));
    lemma_flag_keeps(f, false);
    lemma_flag_keeps(f1, crate::regs::even_parity(r));
    lemma_flag_keeps(f2, r == 0);
    lemma_flag_keeps(f3, 2 * r >= crate::regs::modulus(size));
    lemma_flag_keeps(f4, false);
}

/// The flags of a shift change no other bits.
proof fn lemma_shift_keeps(kind: ShiftKind, f: u64, d: int, c: int, size: int)
    ensures
        shift_rflags(kind, f, d, c, size) & !ALU_MASK == f & !ALU_MASK,
{
    let r = crate::exec::shift::shifted(kind, d, c, size);
    let carry = crate::exec::shift::shift_carry(kind, d, c, size);
    let f0 = with_flag(f, CF, carry);
    lemma_flag_keeps(f, carry);
    let z = r == 0;
    let s = 2 * r >= crate::regs::modulus(size);
    let p = crate::regs::even_parity(r);
    let fz = with_flag(f0, ZF, z);
    let fs = with_flag(fz, SF, s);
    let fp = with_flag(fs, PF, p);
    lemma_flag_keeps(f0, z);
    lemma_flag_keeps(fz, s);
    lemma_flag_keeps(fs, p);
    let o = crate::exec::shift::shift_overflow(kind, d, size);
    lemma_flag_keeps(f0, o);
    lemma_flag_keeps(fp, o);
}

/// Pending flags are arithmetic flags: replacing all six forgets them.
pub proof fn lemma_overwritten(p: Pending, rflags: u64, vals: Seq<u64>, a: AluFlags)
    ensures
        with_alu_flags(p.flushed(rflags, vals), a) == with_alu_flags(rflags, a),
{
    let f = p.flushed(rflags, vals);
    assert(f & !ALU_MASK == rflags & !ALU_MASK) by {
        match p {
            Pending::Nothing => {},
            Pending::Add { a, b, res, size } => {
                lemma_alu_keeps(
                    rflags,
                    crate::regs::add_flags(
                        vals[a as int] as int,
                        vals[b as int] as int,
                        size as int,
                    ),
                );
            },
            Pending::Sub { a, b, res, size } => {
                lemma_alu_keeps(
                    rflags,
                    crate::regs::sub_flags(
                        vals[a as int] as int,
                        vals[b as int] as int,
                        size as int,
                    ),
                );
            },
            Pending::Logic { res, size } => {
                lemma_logic_keeps(rflags, vals[res as int] as int, size as int);
            },
            Pending::Inc { a, res, size } => {
                let x = crate::regs::add_flags(vals[a as int] as int, 1, size as int);
                lemma_alu_keeps(rflags, x);
                lemma_flag_keeps(with_alu_flags(rflags, x), flag_of(rflags, CF));
            },
            Pending::Dec { a, res, size } => {
                let x = crate::regs::sub_flags(vals[a as int] as int, 1, size as int);
                lemma_alu_keeps(rflags, x);
                lemma_flag_keeps(with_alu_flags(rflags, x), flag_of(rflags, CF));
            },
            Pending::Shift { kind, dst, res, count, size } => {
                lemma_shift_keeps(
                    kind,
                    rflags,
                    vals[dst as int] as int,
                    vals[count as int] as int,
                    size as int,
                );
            },
        }
    }
    lemma_alu_forgets(f, rflags, a.cf, a.pf, a.af, a.zf, a.sf, a.of);
}

impl Lower {
    /// The flags with the pending ones, as an expression. `one` holds the
    /// constant one.
    fn pending_flags(&self, one: usize) -> (x: Expr)
        requires
            self.wf(),
            self.code.live.flags,
            self.code.has(one),
            forall|e: Entry| #[trigger] self.code.vals(e)[one as int] == 1,
        ensures
            x.uses(self.code.n(), self.code.live),
            forall|e: Entry| #[trigger]
                x.eval(self.code.vals(e)) == self.pending.flushed(
                    self.code.vals(e)[self.rflags as int],
                    self.code.vals(e),
                ),
    {
        proof {
            assert forall|e: Entry| self.pending.fits(#[trigger] self.code.vals(e)) by {}
        }
        match self.pending {
            Pending::Nothing => value(self.rflags),
            Pending::Add { a, b, res, size } => flags_add(value(self.rflags), a, b, res, size),
            Pending::Sub { a, b, res, size } => flags_sub(value(self.rflags), a, b, res, size),
            Pending::Logic { res, size } => flags_logic(value(self.rflags), res, size),
            Pending::Inc { a, res, size } => {
                let f = flags_add(value(self.rflags), a, one, res, size);
                set_flag(f, CF, flag_set(value(self.rflags), CF))
            },
            Pending::Dec { a, res, size } => {
                let f = flags_sub(value(self.rflags), a, one, res, size);
                set_flag(f, CF, flag_set(value(self.rflags), CF))
            },
            Pending::Shift { kind, dst, res, count, size } => materialize_shift_flags(
                self.rflags,
                kind,
                dst,
                res,
                count,
                size,
            ),
        }
    }

    /// Computes the pending flags.
    pub fn flush_pending(&mut self)
        requires
            old(self).wf(),
            old(self).room(2),
        ensures
            final(self).wf(),
            final(self).pending is Nothing,
            old(self).code.computes(final(self).code),
            final(self).code.n() <= old(self).code.n() + 2,
            final(self).gpr == old(self).gpr,
            final(self).xmm == old(self).xmm,
            forall|e: Entry| #[trigger] final(self).regs(e) == old(self).regs(e),
            forall|e: Entry| #[trigger] final(self).machine(e) == old(self).machine(e),
    {
        if matches!(self.pending, Pending::Nothing) {
            return;
        }
        let ghost before = *self;
        let one: usize = self.bind(iconst(1));
        let ghost middle = *self;
        let x = self.pending_flags(one);
        let ghost x0 = x;
        let flags: usize = self.bind(x);
        let ghost bound = *self;
        self.rflags = flags;
        self.pending = Pending::Nothing;
        proof {
            assert forall|e: Entry| #[trigger] self.regs(e) == before.regs(e) by {
                assert(bound.regs(e) == before.regs(e));
                assert(middle.regs(e) == before.regs(e));
                assert(self.code.vals(e)[flags as int] == x0.eval(middle.code.vals(e)));
                assert(self.regs(e).gpr =~= bound.regs(e).gpr);
                assert(self.regs(e).xmm =~= bound.regs(e).xmm);
            }
        }
    }
}

} // verus!
