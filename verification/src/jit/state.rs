//! A block that is being compiled: which value holds which register, and how
//! operands are read and written.

use vstd::prelude::*;

use crate::exec::model::{Fault, InvalidMem, Machine, Next};
use crate::exec::shift::{shift_rflags, shifted, width, ShiftKind};
use crate::insn::kind;
use crate::jit::flags::{is_difference, is_sum};
use crate::jit::ir::{Code, Entry, Snapshot, Trap, ENTRY_FLAGS};
use crate::regs::{
    add_flags, flag_of, modulus, sub_flags, trunc, with_alu_flags, with_flag, with_logic_flags,
    Regs, CF,
};

verus! {

/// An instruction that cannot be compiled.
#[derive(Debug, Clone, Copy, PartialEq, Eq, Structural)]
pub struct NotLowerable;

/// Flags that have not been computed yet: those of the last instruction that set
/// any. Operands and results are given by their values.
#[derive(Debug, Clone, Copy)]
pub enum Pending {
    /// All flags are computed.
    Nothing,
    /// A sum.
    Add {
        /// First operand.
        a: usize,
        /// Second operand.
        b: usize,
        /// Result.
        res: usize,
        /// Size in bytes.
        size: u8,
    },
    /// A difference.
    Sub {
        /// First operand.
        a: usize,
        /// Second operand.
        b: usize,
        /// Result.
        res: usize,
        /// Size in bytes.
        size: u8,
    },
    /// A bitwise operation.
    Logic {
        /// Result.
        res: usize,
        /// Size in bytes.
        size: u8,
    },
    /// An increment, which leaves the carry flag alone.
    Inc {
        /// Operand.
        a: usize,
        /// Result.
        res: usize,
        /// Size in bytes.
        size: u8,
    },
    /// A decrement, which leaves the carry flag alone.
    Dec {
        /// Operand.
        a: usize,
        /// Result.
        res: usize,
        /// Size in bytes.
        size: u8,
    },
    /// A shift or rotate.
    Shift {
        /// Which one.
        kind: ShiftKind,
        /// Operand.
        dst: usize,
        /// Result, for a count that is not zero.
        res: usize,
        /// How far it moves the operand.
        count: usize,
        /// Size in bytes.
        size: u8,
    },
}

/// Integers have 1, 2, 4 or 8 bytes.
pub open spec fn is_size(size: u8) -> bool {
    size == 1 || size == 2 || size == 4 || size == 8
}

impl Pending {
    /// The values may be used.
    pub open spec fn uses(self, c: Code) -> bool {
        match self {
            Pending::Nothing => true,
            Pending::Add { a, b, res, size } => is_size(size) && c.has(a) && c.has(b) && c.has(res),
            Pending::Sub { a, b, res, size } => is_size(size) && c.has(a) && c.has(b) && c.has(res),
            Pending::Logic { res, size } => is_size(size) && c.has(res),
            Pending::Inc { a, res, size } => is_size(size) && c.has(a) && c.has(res),
            Pending::Dec { a, res, size } => is_size(size) && c.has(a) && c.has(res),
            Pending::Shift { kind, dst, res, count, size } => is_size(size) && c.has(dst) && c.has(
                res,
            ) && c.has(count),
        }
    }

    /// The values are operands and results of that operation.
    pub open spec fn fits(self, vals: Seq<u64>) -> bool {
        match self {
            Pending::Nothing => true,
            Pending::Add { a, b, res, size } => is_sum(vals, a, b, res, size as int),
            Pending::Sub { a, b, res, size } => is_difference(vals, a, b, res, size as int),
            Pending::Logic { res, size } => vals[res as int] < modulus(size as int),
            Pending::Inc { a, res, size } => vals[a as int] < modulus(size as int) && vals[res
                as int] == trunc(vals[a as int] + 1, size as int),
            Pending::Dec { a, res, size } => vals[a as int] < modulus(size as int) && vals[res
                as int] == trunc(vals[a as int] - 1, size as int),
            Pending::Shift { kind, dst, res, count, size } => {
                &&& vals[dst as int] < modulus(size as int)
                &&& vals[count as int] < width(size as int)
                &&& vals[count as int] > 0 ==> vals[res as int] == shifted(
                    kind,
                    vals[dst as int] as int,
                    vals[count as int] as int,
                    size as int,
                )
            },
        }
    }

    /// The flags `rflags` once these flags are computed too.
    pub open spec fn flushed(self, rflags: u64, vals: Seq<u64>) -> u64 {
        match self {
            Pending::Nothing => rflags,
            Pending::Add { a, b, res, size } => with_alu_flags(
                rflags,
                add_flags(vals[a as int] as int, vals[b as int] as int, size as int),
            ),
            Pending::Sub { a, b, res, size } => with_alu_flags(
                rflags,
                sub_flags(vals[a as int] as int, vals[b as int] as int, size as int),
            ),
            Pending::Logic { res, size } => with_logic_flags(
                rflags,
                vals[res as int] as int,
                size as int,
            ),
            Pending::Inc { a, res, size } => with_flag(
                with_alu_flags(rflags, add_flags(vals[a as int] as int, 1, size as int)),
                CF,
                flag_of(rflags, CF),
            ),
            Pending::Dec { a, res, size } => with_flag(
                with_alu_flags(rflags, sub_flags(vals[a as int] as int, 1, size as int)),
                CF,
                flag_of(rflags, CF),
            ),
            Pending::Shift { kind, dst, res, count, size } => if vals[count as int] == 0 {
                rflags
            } else {
                shift_rflags(
                    kind,
                    rflags,
                    vals[dst as int] as int,
                    vals[count as int] as int,
                    size as int,
                )
            },
        }
    }
}

/// A vector register from its halves.
pub open spec fn xmm_join(low: u64, high: u64) -> u128 {
    (low + high * 0x1_0000_0000_0000_0000) as u128
}

/// A block that is being compiled.
pub struct Lower {
    /// The operations so far.
    pub code: Code,
    /// The values that hold the general registers.
    pub gpr: [usize; 16],
    /// The value that holds the flags, but for pending ones.
    pub rflags: usize,
    /// Flags that have not been computed yet.
    pub pending: Pending,
    /// The values that hold the halves of the vector registers.
    pub xmm: [usize; 32],
}

impl Lower {
    /// The values that hold registers are there; a register that is not loaded has
    /// the value it had at the entry.
    pub open spec fn wf(self) -> bool {
        &&& self.code.wf()
        &&& self.maps_wf()
        &&& self.pending.uses(self.code)
        &&& forall|e: Entry| self.pending.fits(#[trigger] self.code.vals(e))
        &&& forall|e: Entry, h: int|
            0 <= h < 32 && self.code.trap(e) is None ==> #[trigger] self.code.xmm(e)[h]
                == self.code.vals(e)[self.xmm@[h] as int]
        &&& forall|e: Entry| (#[trigger] self.code.xmm(e)).len() == 32
    }

    /// The values that hold registers are there.
    pub open spec fn maps_wf(self) -> bool {
        &&& forall|k: int| 0 <= k < 16 ==> #[trigger] self.gpr@[k] < self.code.n()
        &&& forall|k: int|
            0 <= k < 16 && self.code.live.gpr@[k] ==> self.code.has(#[trigger] self.gpr@[k])
        &&& forall|k: int| 0 <= k < 16 && !self.code.live.gpr@[k] ==> #[trigger] self.gpr@[k] == k
        &&& self.rflags < self.code.n()
        &&& self.code.live.flags ==> self.code.has(self.rflags)
        &&& !self.code.live.flags ==> self.rflags == ENTRY_FLAGS
        &&& !self.code.live.flags ==> self.pending is Nothing
        &&& forall|h: int| 0 <= h < 32 ==> #[trigger] self.xmm@[h] < self.code.n()
        &&& forall|h: int|
            0 <= h < 32 && self.code.live.xmm@[h / 2] ==> self.code.has(#[trigger] self.xmm@[h])
        &&& forall|h: int|
            0 <= h < 32 && !self.code.live.xmm@[h / 2] ==> #[trigger] self.xmm@[h] == 17 + h
    }

    /// The values that hold the general registers and the flags.
    pub open spec fn snapshot(self) -> Snapshot {
        Snapshot { gpr: self.gpr, rflags: self.rflags }
    }

    /// The registers in a run from `e`.
    pub open spec fn regs(self, e: Entry) -> Regs {
        let vals = self.code.vals(e);
        Regs {
            gpr: Seq::new(16, |k: int| vals[self.gpr@[k] as int]),
            xmm: Seq::new(
                16,
                |k: int|
                    xmm_join(vals[self.xmm@[2 * k] as int], vals[self.xmm@[2 * k + 1] as int]),
            ),
            rip: e.regs.rip,
            rflags: self.pending.flushed(vals[self.rflags as int], vals),
        }
    }

    /// The flags in a run from `e`, but for pending ones.
    pub open spec fn stored(self, e: Entry) -> u64 {
        self.code.vals(e)[self.rflags as int]
    }

    /// Memory and registers in a run from `e`.
    pub open spec fn machine(self, e: Entry) -> Machine {
        Machine { mem: self.code.mem(e), regs: self.regs(e) }
    }

    /// The same values hold the registers.
    pub open spec fn same_maps(self, after: Lower) -> bool {
        &&& after.gpr == self.gpr
        &&& after.rflags == self.rflags
        &&& after.pending == self.pending
        &&& after.xmm == self.xmm
    }

    /// Only values were computed.
    pub open spec fn computes(self, after: Lower) -> bool {
        &&& self.same_maps(after)
        &&& self.code.computes(after.code)
    }

    /// There is room for `k` more operations.
    pub open spec fn room(self, k: int) -> bool {
        self.code.n() + k < 0x1_0000_0000
    }
}

impl Lower {
    /// The values that hold the general registers and the flags.
    pub fn snap(&self) -> (s: Snapshot)
        requires
            self.maps_wf(),
        ensures
            s == self.snapshot(),
            s.wf(self.code.n(), self.code.live),
    {
        let s = Snapshot { gpr: self.gpr, rflags: self.rflags };
        assert forall|k: int| 0 <= k < 16 implies #[trigger] s.gpr@[k] < self.code.n() && (
        self.code.live.allows(s.gpr@[k] as int) || s.gpr@[k] == k) by {
            assert(self.gpr@[k] < self.code.n());
        }
        assert forall|k: int| 0 <= k < 16 && !self.code.live.gpr@[k] implies #[trigger] s.gpr@[k]
            == k by {
            assert(self.gpr@[k] < self.code.n());
        }
        s
    }
}

/// What was computed before stays as it was.
pub proof fn lemma_computes(before: Lower, after: Lower)
    requires
        before.wf(),
        before.computes(after),
        after.code.wf(),
    ensures
        after.wf(),
        forall|e: Entry| #[trigger] after.regs(e) == before.regs(e),
        forall|e: Entry| #[trigger] after.machine(e) == before.machine(e),
{
    assert(after.code.live == before.code.live);
    assert forall|e: Entry| #[trigger] after.regs(e) == before.regs(e) by {
        lemma_same_regs(before, after, e);
    }
    assert forall|e: Entry| after.pending.fits(#[trigger] after.code.vals(e)) by {
        assert(before.pending.fits(before.code.vals(e)));
        lemma_pending_stays(before.pending, before.code, after.code, e);
    }
    assert forall|e: Entry, h: int|
        0 <= h < 32 && after.code.trap(e) is None implies #[trigger] after.code.xmm(e)[h]
        == after.code.vals(e)[after.xmm@[h] as int] by {
        assert(before.code.xmm(e)[h] == before.code.vals(e)[before.xmm@[h] as int]);
        assert(before.xmm@[h] < before.code.n());
    }
}

/// Pending flags do not change when values are added.
pub proof fn lemma_pending_stays(p: Pending, before: Code, after: Code, e: Entry)
    requires
        p.uses(before),
        before.grows(after),
    ensures
        p.uses(after),
        p.fits(before.vals(e)) ==> p.fits(after.vals(e)),
        forall|rflags: u64|
            #[trigger] p.flushed(rflags, after.vals(e)) == p.flushed(rflags, before.vals(e)),
{
}

/// The registers do not change when values are added.
pub proof fn lemma_same_regs(before: Lower, after: Lower, e: Entry)
    requires
        before.maps_wf(),
        before.pending.uses(before.code),
        before.same_maps(after),
        before.code.grows(after.code),
    ensures
        after.regs(e) == before.regs(e),
{
    lemma_pending_stays(before.pending, before.code, after.code, e);
    assert forall|k: int| 0 <= k < 16 implies after.code.vals(e)[after.gpr@[k] as int]
        == before.code.vals(e)[before.gpr@[k] as int] by {
        assert(before.gpr@[k] < before.code.n());
    }
    assert(after.regs(e).gpr =~= before.regs(e).gpr);
    assert forall|h: int| 0 <= h < 32 implies after.code.vals(e)[#[trigger] after.xmm@[h] as int]
        == before.code.vals(e)[before.xmm@[h] as int] by {
        assert(before.xmm@[h] < before.code.n());
    }
    assert(after.regs(e).xmm =~= before.regs(e).xmm);
}

/// A block left early at `ip`, because of the access `inv`, with the given
/// general registers and flags.
pub open spec fn trapped(
    trap: Option<Trap>,
    inv: InvalidMem,
    ip: u64,
    gpr: Seq<u64>,
    rflags: u64,
) -> bool {
    trap matches Some(t) && t.ip == ip && t.address == inv.address && t.size == inv.size
        && inv.access_type == (if t.write {
        1i32
    } else {
        0i32
    }) && t.gpr =~= gpr && t.rflags == rflags
}

/// Compiling an instruction at `ip` brought `before` to `after`, and a run from
/// `e` does what is wanted: it reaches the same machine, or it leaves early, with
/// the flags `rflags`, where an access fails.
pub open spec fn advances(
    before: Lower,
    after: Lower,
    e: Entry,
    want: Next,
    ip: u64,
    rflags: u64,
) -> bool {
    if before.code.trap(e) is Some {
        &&& after.code.trap(e) == before.code.trap(e)
        &&& after.code.mem(e) == before.code.mem(e)
        &&& after.code.xmm(e) == before.code.xmm(e)
    } else {
        match want.1 {
            None => after.code.trap(e) is None && after.machine(e) =~= want.0,
            Some(Fault::Memory(inv)) => trapped(
                after.code.trap(e),
                inv,
                ip,
                want.0.regs.gpr,
                rflags,
            ) && after.code.mem(e) == want.0.mem && after.code.xmm(e) == before.code.xmm(e),
            Some(Fault::Cpu(_)) => false,
        }
    }
}

/// A run does what is wanted, and pending flags stay pending unless the
/// instruction replaces them.
pub open spec fn follows(before: Lower, after: Lower, e: Entry, want: Next, ip: u64) -> bool {
    &&& advances(before, after, e, want, ip, before.stored(e))
    &&& before.code.trap(e) is None && want.1 is None ==> after.stored(e) == before.stored(e)
}

/// A run does what is wanted, once pending flags are computed.
pub open spec fn settles(before: Lower, after: Lower, e: Entry, want: Next, ip: u64) -> bool {
    &&& advances(before, after, e, want, ip, before.regs(e).rflags)
    &&& before.code.trap(e) is None && want.1 is None ==> after.stored(e)
        == before.regs(e).rflags
}

/// A run does what is wanted, once pending flags are computed, and computes its
/// own flags at once.
pub open spec fn completes(before: Lower, after: Lower, e: Entry, want: Next, ip: u64) -> bool {
    &&& advances(before, after, e, want, ip, before.regs(e).rflags)
    &&& before.code.trap(e) is None && want.1 is None ==> after.stored(e) == after.regs(e).rflags
}

/// The value `v` was read by an instruction at `ip`: in a run from `e` its `n` low
/// bytes are what is wanted.
pub open spec fn reads(
    before: Lower,
    after: Lower,
    e: Entry,
    want: Result<u64, Fault>,
    v: usize,
    n: int,
    ip: u64,
) -> bool {
    &&& after.code.mem(e) == before.code.mem(e)
    &&& after.code.xmm(e) == before.code.xmm(e)
    &&& if before.code.trap(e) is Some {
        after.code.trap(e) == before.code.trap(e)
    } else {
        match want {
            Ok(x) => after.code.trap(e) is None && trunc(after.code.v(e, v) as int, n) == x,
            Err(Fault::Memory(inv)) => trapped(
                after.code.trap(e),
                inv,
                ip,
                before.regs(e).gpr,
                before.stored(e),
            ),
            Err(Fault::Cpu(_)) => false,
        }
    }
}

} // verus!
