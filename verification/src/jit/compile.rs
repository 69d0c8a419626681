//! Compiling a block, and what running the compiled block does.

use std::collections::HashMap;

use vstd::prelude::*;

use crate::exec::access::{after_pop, after_push, popped};
use crate::exec::branch::{holds, jcc_cond, jcc_condition};
use crate::exec::model::{Fault, InvalidMem, Machine, Next};
use crate::insn::instr::Instr;
use crate::insn::mnemonic;
use crate::jit::block::{is_self_loop, loops_to, string_bytes, BlockTerm};
use crate::jit::fast_api::FastApiKind;
use crate::jit::ir::{
    entry_vals, half_of, iconst, ops_wf, run_ops, Code, Entry, Live, Op, Run, Snapshot, ENTRY_FLAGS,
    ENTRY_VALUES, ENTRY_XMM,
};
use crate::jit::liveness::{
    analyze_live_gprs, analyze_live_xmm, any_uses_flags, any_uses_gpr, any_uses_xmm,
    block_needs_flags, covers, uses_flags, uses_gpr, uses_xmm,
};
use crate::jit::lower::{
    accepted, at_once, compiled, compiled_move, compiled_pair, compiled_unary, compiled_vector,
    flags_first, in_moves, in_pairs, in_unary, performs, MAX_OPS,
};
use crate::jit::state::{trapped, xmm_join, Lower, NotLowerable, Pending};
use crate::jit::strings::{lower_string, string_call, string_effect, StringCall};
use crate::regs::Regs;

verus! {

/// Where a block goes.
#[derive(Debug, Clone, Copy)]
pub enum Goto {
    /// Back to its own start.
    Again,
    /// To the address that a value holds.
    To {
        /// The value that holds the address.
        rip: usize,
        /// The compiled block at that address, if it was there already.
        direct: Option<u32>,
    },
}

/// What a block does to the prediction of return addresses.
#[derive(Debug, Clone, Copy)]
pub enum Prediction {
    /// Nothing.
    Keep,
    /// A call: the return address is predicted.
    Push(u64),
    /// A return: the value is checked against the prediction.
    Check(usize),
}

/// How a block ends.
#[derive(Debug, Clone, Copy)]
pub enum Tail {
    /// It goes to one place.
    Leave(Goto),
    /// It goes to the first place if the value is not zero, else to the second.
    Branch {
        /// The value that decides.
        cond: usize,
        /// Where it goes if the value is not zero.
        taken: Goto,
        /// Where it goes if the value is zero.
        not_taken: Goto,
    },
    /// A string instruction, which a helper carries out.
    Text(StringCall),
    /// A C runtime function, which the host carries out; then it goes on.
    Host(FastApiKind, Goto),
}

/// A compiled block.
pub struct CompiledBlock {
    /// Its first address.
    pub start: u64,
    /// The registers that it loads.
    pub live: Live,
    /// Its operations.
    pub ops: Vec<Op>,
    /// The values that hold the registers at its end.
    pub at: Snapshot,
    /// What it does to the prediction of return addresses.
    pub prediction: Prediction,
    /// How it ends.
    pub tail: Tail,
    /// How many instructions it stands for.
    pub insn_count: u32,
}

/// How a run of a compiled block ended.
pub struct Outcome {
    /// Memory and registers.
    pub machine: Machine,
    /// The access that failed, if one did.
    pub fault: Option<InvalidMem>,
    /// The C runtime function that the host has to carry out.
    pub host: Option<FastApiKind>,
}

/// The vector registers from their halves.
pub open spec fn joined_xmm(halves: Seq<u64>) -> Seq<u128> {
    Seq::new(16, |k: int| xmm_join(halves[2 * k], halves[2 * k + 1]))
}

/// The machine at the end of a run.
pub open spec fn machine_at(r: Run, at: Snapshot, rip: u64) -> Machine {
    Machine {
        mem: r.mem,
        regs: Regs {
            gpr: at.gprs(r.vals),
            xmm: joined_xmm(r.xmm),
            rip,
            rflags: r.vals[at.rflags as int],
        },
    }
}

/// The address that a block goes to.
pub open spec fn goto_rip(g: Goto, start: u64, vals: Seq<u64>) -> u64 {
    match g {
        Goto::Again => start,
        Goto::To { rip, direct } => vals[rip as int],
    }
}

impl CompiledBlock {
    /// How a run from `e` ends. A block that left early has its registers as they
    /// were before the access that failed.
    pub open spec fn outcome(self, e: Entry) -> Outcome {
        let r = run_ops(e, self.ops@);
        match r.trap {
            Some(t) => Outcome {
                machine: Machine {
                    mem: r.mem,
                    regs: Regs {
                        gpr: t.gpr,
                        xmm: joined_xmm(r.xmm),
                        rip: t.ip,
                        rflags: t.rflags,
                    },
                },
                fault: Some(
                    InvalidMem {
                        access_type: if t.write {
                            1
                        } else {
                            0
                        },
                        address: t.address,
                        size: t.size as i32,
                        value: 0,
                    },
                ),
                host: None,
            },
            None => match self.tail {
                Tail::Leave(g) => Outcome {
                    machine: machine_at(r, self.at, goto_rip(g, self.start, r.vals)),
                    fault: None,
                    host: None,
                },
                Tail::Branch { cond, taken, not_taken } => Outcome {
                    machine: machine_at(
                        r,
                        self.at,
                        goto_rip(
                            if r.vals[cond as int] != 0 {
                                taken
                            } else {
                                not_taken
                            },
                            self.start,
                            r.vals,
                        ),
                    ),
                    fault: None,
                    host: None,
                },
                Tail::Text(c) => {
                    let (t, f) = string_effect(machine_at(r, self.at, c.next_ip), c);
                    Outcome {
                        machine: if f is Some {
                            t.with_regs(t.regs.at(c.ip))
                        } else {
                            t
                        },
                        fault: match f {
                            Some(Fault::Memory(inv)) => Some(InvalidMem { value: 0, ..inv }),
                            Some(Fault::Cpu(_)) => Some(
                                InvalidMem {
                                    access_type: 0,
                                    address: 0,
                                    size: c.size as i32,
                                    value: 0,
                                },
                            ),
                            None => None,
                        },
                        host: None,
                    }
                },
                Tail::Host(kind, g) => Outcome {
                    machine: machine_at(r, self.at, goto_rip(g, self.start, r.vals)),
                    fault: None,
                    host: Some(kind),
                },
            },
        }
    }

    /// The operations are in order, and the values that the end names are there.
    pub open spec fn wf(self) -> bool {
        let n = ENTRY_VALUES + self.ops@.len();
        &&& ops_wf(self.ops@, self.live)
        &&& self.at.wf(n, self.live)
        &&& match self.tail {
            Tail::Leave(g) => goto_wf(g, n, self.live),
            Tail::Branch { cond, taken, not_taken } => cond < n && self.live.allows(cond as int)
                && goto_wf(taken, n, self.live) && goto_wf(not_taken, n, self.live),
            Tail::Text(c) => c.wf(),
            Tail::Host(kind, g) => goto_wf(g, n, self.live),
        }
        &&& self.prediction matches Prediction::Check(v) ==> v < n && self.live.allows(v as int)
    }
}

/// The value that a block goes by is there.
pub open spec fn goto_wf(g: Goto, n: int, live: Live) -> bool {
    g matches Goto::To { rip, direct } ==> rip < n && live.allows(rip as int)
}

/// The machine at the entry of a block.
pub open spec fn entry_machine(e: Entry) -> Machine {
    Machine { mem: e.mem, regs: e.regs }
}

/// There are sixteen registers of each kind.
pub open spec fn entry_wf(e: Entry) -> bool {
    e.regs.gpr.len() == 16 && e.regs.xmm.len() == 16
}

/// What compiled instructions do one after the other. The first that fails ends
/// it, and is given with its address.
pub open spec fn body_effect(
    s: Machine,
    insns: Seq<Instr>,
    fp: spec_fn(u8, bool, u64, u64) -> u64,
) -> (Machine, Option<(Fault, u64)>)
    decreases insns.len(),
{
    if insns.len() == 0 {
        (s, None)
    } else {
        let (t, x) = body_effect(s, insns.drop_last(), fp);
        if x is Some {
            (t, x)
        } else {
            match compiled(t, insns.last(), fp) {
                (u, None) => (u, None),
                (u, Some(f)) => (u, Some((f, insns.last().ip))),
            }
        }
    }
}

/// The flags that are computed after compiled instructions, or where one fails:
/// those of an instruction may wait until another one needs them.
pub open spec fn computed_flags(
    s: Machine,
    insns: Seq<Instr>,
    fp: spec_fn(u8, bool, u64, u64) -> u64,
) -> u64
    decreases insns.len(),
{
    if insns.len() == 0 {
        s.regs.rflags
    } else {
        let (t, x) = body_effect(s, insns.drop_last(), fp);
        let (u, y) = compiled(t, insns.last(), fp);
        if x is Some || !flags_first(insns.last()) {
            computed_flags(s, insns.drop_last(), fp)
        } else if y is None && at_once(insns.last()) {
            u.regs.rflags
        } else {
            t.regs.rflags
        }
    }
}

/// What the branch at the end of a block does.
pub open spec fn term_effect(s: Machine, term: BlockTerm) -> Next {
    match term {
        BlockTerm::Jmp { target } => s.with_regs(s.regs.at(target)).done(),
        BlockTerm::Jcc { mnemonic, taken, not_taken } => s.with_regs(
            s.regs.at(
                if holds(jcc_cond(mnemonic)->0, s.regs) {
                    taken
                } else {
                    not_taken
                },
            ),
        ).done(),
        BlockTerm::Call { target, return_ip } => match after_push(s, return_ip, 8) {
            (t, Some(f)) => t.failed(f),
            (t, None) => t.with_regs(t.regs.at(target)).done(),
        },
        BlockTerm::Ret => match popped(s, 8) {
            Err(f) => s.failed(f),
            Ok(v) => after_pop(s, 8).with_regs(after_pop(s, 8).regs.at(v)).done(),
        },
    }
}

/// What the end of a block does.
pub open spec fn tail_effect(
    s: Machine,
    last: Instr,
    end_rip: u64,
    term: Option<BlockTerm>,
    host: Option<FastApiKind>,
) -> Next {
    match term {
        Some(BlockTerm::Call { target, return_ip }) => if host is Some {
            s.with_regs(s.regs.at(return_ip)).done()
        } else {
            term_effect(s, term->0)
        },
        Some(t) => term_effect(s, t),
        None => if string_bytes(last) is Some {
            string_effect(s.with_regs(s.regs.at(last.next_ip)), string_call(last))
        } else {
            s.with_regs(s.regs.at(end_rip)).done()
        },
    }
}

/// The instructions of a block before its end.
pub open spec fn body_of(insns: Seq<Instr>, term: Option<BlockTerm>) -> Seq<Instr> {
    if insns.len() > 0 && (term is Some || string_bytes(insns.last()) is Some) {
        insns.drop_last()
    } else {
        insns
    }
}

/// What a block does to the machine. The first instruction that fails is given
/// with its address.
pub open spec fn block_effect(
    s: Machine,
    insns: Seq<Instr>,
    end_rip: u64,
    term: Option<BlockTerm>,
    host: Option<FastApiKind>,
    fp: spec_fn(u8, bool, u64, u64) -> u64,
) -> (Machine, Option<(Fault, u64)>) {
    let (t, x) = body_effect(s, body_of(insns, term), fp);
    if x is Some {
        (t, x)
    } else {
        match tail_effect(t, insns.last(), end_rip, term, host) {
            (u, None) => (u, None),
            (u, Some(f)) => (u, Some((f, insns.last().ip))),
        }
    }
}

/// The flags where a block fails: pending flags are computed before its end.
pub open spec fn fault_flags(
    s: Machine,
    insns: Seq<Instr>,
    end_rip: u64,
    term: Option<BlockTerm>,
    host: Option<FastApiKind>,
    fp: spec_fn(u8, bool, u64, u64) -> u64,
) -> u64 {
    if body_effect(s, body_of(insns, term), fp).1 is Some {
        computed_flags(s, body_of(insns, term), fp)
    } else {
        block_effect(s, insns, end_rip, term, host, fp).0.regs.rflags
    }
}

/// A run of a compiled block ended as it should: with the same machine, or with
/// the same failed access at the same instruction, the same memory and the same
/// general and vector registers.
pub open spec fn ended_as(o: Outcome, want: (Machine, Option<(Fault, u64)>)) -> bool {
    match want.1 {
        None => o.fault is None && o.machine =~= want.0,
        Some((Fault::Memory(inv), ip)) => {
            &&& o.fault matches Some(g) && g.address == inv.address && g.size == inv.size
                && g.access_type == inv.access_type
            &&& o.machine.regs.rip == ip
            &&& o.machine.mem == want.0.mem
            &&& o.machine.regs.gpr =~= want.0.regs.gpr
            &&& o.machine.regs.xmm =~= want.0.regs.xmm
        },
        Some((Fault::Cpu(_), ip)) => false,
    }
}

/// So far a run does what the instructions do, and the flags that are computed are
/// `rflags`.
pub open spec fn tracks(
    cur: Lower,
    e: Entry,
    want: (Machine, Option<(Fault, u64)>),
    rflags: u64,
) -> bool {
    match want.1 {
        None => cur.code.trap(e) is None && cur.machine(e) =~= want.0 && cur.stored(e) == rflags,
        Some((Fault::Memory(inv), ip)) => trapped(
            cur.code.trap(e),
            inv,
            ip,
            want.0.regs.gpr,
            rflags,
        ) && cur.code.mem(e) == want.0.mem && joined_xmm(cur.code.xmm(e)) =~= want.0.regs.xmm,
        Some((Fault::Cpu(_), ip)) => false,
    }
}

/// A compiled move that fails leaves the vector registers.
#[verifier::rlimit(40)]
proof fn lemma_move_failed(s: Machine, i: Instr)
    requires
        in_moves(i.mnemonic),
        compiled_move(s, i).1 is Some,
    ensures
        compiled_move(s, i).0.regs.xmm == s.regs.xmm,
{
}

/// Compiled arithmetic on one operand leaves the vector registers.
#[verifier::rlimit(40)]
proof fn lemma_unary_failed(s: Machine, i: Instr)
    requires
        in_unary(i.mnemonic),
    ensures
        compiled_unary(s, i).0.regs.xmm == s.regs.xmm,
{
}

/// Compiled arithmetic on two operands leaves the vector registers.
#[verifier::rlimit(40)]
proof fn lemma_pair_failed(s: Machine, i: Instr)
    requires
        in_pairs(i.mnemonic),
    ensures
        compiled_pair(s, i).0.regs.xmm == s.regs.xmm,
{
}

/// A compiled vector instruction that fails leaves the vector registers.
#[verifier::rlimit(40)]
proof fn lemma_vector_failed(s: Machine, i: Instr, fp: spec_fn(u8, bool, u64, u64) -> u64)
    requires
        compiled_vector(s, i, fp).1 is Some,
    ensures
        compiled_vector(s, i, fp).0.regs.xmm == s.regs.xmm,
{
}

/// A compiled instruction that fails leaves the vector registers.
proof fn lemma_failed(s: Machine, i: Instr, fp: spec_fn(u8, bool, u64, u64) -> u64)
    requires
        compiled(s, i, fp).1 is Some,
    ensures
        compiled(s, i, fp).0.regs.xmm == s.regs.xmm,
{
    if in_moves(i.mnemonic) {
        lemma_move_failed(s, i);
    } else if in_unary(i.mnemonic) {
        lemma_unary_failed(s, i);
    } else if in_pairs(i.mnemonic) {
        lemma_pair_failed(s, i);
    } else {
        lemma_vector_failed(s, i, fp);
    }
}

/// The vector registers are written through to the register file.
proof fn lemma_written_through(l: Lower, e: Entry)
    requires
        l.wf(),
        l.code.trap(e) is None,
    ensures
        joined_xmm(l.code.xmm(e)) == l.machine(e).regs.xmm,
{
    let a = joined_xmm(l.code.xmm(e));
    let b = l.machine(e).regs.xmm;
    assert forall|k: int| 0 <= k < 16 implies #[trigger] a[k] == b[k] by {
        assert(l.code.xmm(e)[2 * k] == l.code.vals(e)[l.xmm@[2 * k] as int]);
        assert(l.code.xmm(e)[2 * k + 1] == l.code.vals(e)[l.xmm@[2 * k + 1] as int]);
    }
    assert(a =~= b);
}

/// One more instruction.
proof fn lemma_tracks(
    before: Lower,
    after: Lower,
    e: Entry,
    s: Machine,
    rest: Seq<Instr>,
    i: Instr,
)
    requires
        before.wf(),
        tracks(before, e, body_effect(s, rest, e.fp), computed_flags(s, rest, e.fp)),
        performs(before, after, e, compiled(before.machine(e), i, e.fp), i),
    ensures
        tracks(
            after,
            e,
            body_effect(s, rest.push(i), e.fp),
            computed_flags(s, rest.push(i), e.fp),
        ),
{
    assert(rest.push(i).drop_last() =~= rest);
    if before.code.trap(e) is None {
        lemma_written_through(before, e);
        if compiled(before.machine(e), i, e.fp).1 is Some {
            lemma_failed(before.machine(e), i, e.fp);
        }
    }
}

impl Lower {
    /// The start of a block that loads the given registers.
    pub fn new(live: Live) -> (l: Lower)
        ensures
            l.wf(),
            l.code.live == live,
            l.code.n() == ENTRY_VALUES,
            l.pending is Nothing,
            forall|e: Entry|
                #![trigger l.code.trap(e)]
                entry_wf(e) ==> l.code.trap(e) is None && l.machine(e) =~= entry_machine(e),
    {
        let mut gpr: [usize; 16] = [0;16];
        let mut k: usize = 0;
        while k < 16
            invariant
                k <= 16,
                forall|j: int| 0 <= j < k ==> #[trigger] gpr@[j] == j,
            decreases 16 - k,
        {
            gpr[k] = k;
            k = k + 1;
        }
        let mut xmm: [usize; 32] = [0;32];
        let mut h: usize = 0;
        while h < 32
            invariant
                h <= 32,
                forall|j: int| 0 <= j < h ==> #[trigger] xmm@[j] == 17 + j,
            decreases 32 - h,
        {
            xmm[h] = ENTRY_XMM + h;
            h = h + 1;
        }
        let l = Lower {
            code: Code { ops: Vec::new(), live },
            gpr,
            rflags: ENTRY_FLAGS,
            pending: Pending::Nothing,
            xmm,
        };
        proof {
            assert forall|e: Entry| #[trigger] l.code.vals(e) == entry_vals(e.regs) by {}
            assert forall|e: Entry, j: int|
                0 <= j < 32 && l.code.trap(e) is None implies #[trigger] l.code.xmm(e)[j]
                == l.code.vals(e)[l.xmm@[j] as int] by {
                assert(l.xmm@[j] == 17 + j);
            }
            assert forall|e: Entry|
                #![trigger l.code.trap(e)]
                entry_wf(e) implies l.code.trap(e) is None && l.machine(e) =~= entry_machine(e) by {
                let vals = l.code.vals(e);
                assert(vals == entry_vals(e.regs));
                assert(l.regs(e).gpr =~= e.regs.gpr);
                assert forall|j: int| 0 <= j < 16 implies #[trigger] l.regs(e).xmm[j] == e.regs.xmm[j] by {
                    assert(l.xmm@[2 * j] == 17 + 2 * j && l.xmm@[2 * j + 1] == 17 + 2 * j + 1);
                    let x = e.regs.xmm[j];
                    assert(half_of(e.regs.xmm, 2 * j) == (x % 0x1_0000_0000_0000_0000) as u64);
                    assert(half_of(e.regs.xmm, 2 * j + 1) == (x / 0x1_0000_0000_0000_0000) as u64);
                }
                assert(l.regs(e).xmm =~= e.regs.xmm);
            }
        }
        l
    }

    /// Compiles the instructions before the end of a block.
    #[verifier::rlimit(30)]
    fn lower_body(&mut self, insns: &[Instr], count: usize) -> (r: Result<(), NotLowerable>)
        requires
            old(self).wf(),
            old(self).pending is Nothing,
            old(self).code.n() == ENTRY_VALUES,
            count <= insns@.len(),
            count <= 0x100_0000,
            forall|e: Entry|
                #![trigger old(self).code.trap(e)]
                entry_wf(e) ==> old(self).code.trap(e) is None && old(self).machine(e)
                    =~= entry_machine(e),
            forall|j: int|
                0 <= j < count ==> (#[trigger] insns@[j]).wf() && covers(
                    old(self).code.live,
                    insns@[j],
                ),
        ensures
            r is Ok == (forall|j: int| 0 <= j < count ==> accepted(#[trigger] insns@[j])),
            r is Ok ==> {
                &&& final(self).wf()
                &&& final(self).code.live == old(self).code.live
                &&& final(self).code.n() <= ENTRY_VALUES + count * MAX_OPS
                &&& forall|e: Entry|
                    #![trigger final(self).code.trap(e)]
                    entry_wf(e) ==> tracks(
                        *final(self),
                        e,
                        body_effect(entry_machine(e), insns@.take(count as int), e.fp),
                        computed_flags(entry_machine(e), insns@.take(count as int), e.fp),
                    )
            },
    {
        let ghost live = self.code.live;
        let mut k: usize = 0;
        proof {
            assert(insns@.take(0) =~= Seq::<Instr>::empty());
            assert forall|e: Entry|
                #![trigger self.code.trap(e)]
                entry_wf(e) implies tracks(
                *self,
                e,
                body_effect(entry_machine(e), insns@.take(0), e.fp),
                computed_flags(entry_machine(e), insns@.take(0), e.fp),
            ) by {
                assert(self.stored(e) == self.machine(e).regs.rflags);
            }
        }
        while k < count
            invariant
                k <= count <= insns@.len(),
                count <= 0x100_0000,
                self.wf(),
                self.code.live == live,
                self.code.n() <= ENTRY_VALUES + k * MAX_OPS,
                forall|j: int|
                    0 <= j < count ==> (#[trigger] insns@[j]).wf() && covers(live, insns@[j]),
                forall|j: int| 0 <= j < k ==> accepted(#[trigger] insns@[j]),
                forall|e: Entry|
                    #![trigger self.code.trap(e)]
                    entry_wf(e) ==> tracks(
                        *self,
                        e,
                        body_effect(entry_machine(e), insns@.take(k as int), e.fp),
                        computed_flags(entry_machine(e), insns@.take(k as int), e.fp),
                    ),
            decreases count - k,
        {
            let ghost before = *self;
            let i = insns[k];
            assert(insns@[k as int].wf() && covers(live, insns@[k as int]));
            match self.lower_insn(&i) {
                Ok(()) => {},
                Err(e) => {
                    assert(!accepted(insns@[k as int]));
                    return Err(e);
                },
            }
            proof {
                let s = insns@.take(k as int);
                let t = insns@.take(k + 1);
                assert(t =~= s.push(i));
                assert forall|e: Entry|
                    #![trigger self.code.trap(e)]
                    entry_wf(e) implies tracks(
                    *self,
                    e,
                    body_effect(entry_machine(e), t, e.fp),
                    computed_flags(entry_machine(e), t, e.fp),
                ) by {
                    assert(before.code.trap(e) == before.code.trap(e));
                    assert(tracks(
                        before,
                        e,
                        body_effect(entry_machine(e), s, e.fp),
                        computed_flags(entry_machine(e), s, e.fp),
                    ));
                    lemma_tracks(before, *self, e, entry_machine(e), s, i);
                }
            }
            k = k + 1;
        }
        Ok(())
    }
}

/// The address that a block goes to, with what its values are in a run from `e`.
pub open spec fn tail_rip(tail: Tail, start: u64, vals: Seq<u64>) -> u64 {
    match tail {
        Tail::Leave(g) => goto_rip(g, start, vals),
        Tail::Branch { cond, taken, not_taken } => goto_rip(
            if vals[cond as int] != 0 {
                taken
            } else {
                not_taken
            },
            start,
            vals,
        ),
        Tail::Text(c) => c.next_ip,
        Tail::Host(kind, g) => goto_rip(g, start, vals),
    }
}

/// The compiled block at an address, which is entered directly. A block does not enter
/// itself in this way.
pub open spec fn link_to(chain: Map<u64, u32>, start: u64, va: u64) -> Option<u32> {
    if va != start && chain.contains_key(va) {
        Some(chain[va])
    } else {
        None
    }
}

/// A block goes to `va`: back to its own start where it may loop, or else by way of the
/// compiled block that is there, if there is one.
pub open spec fn leads(g: Goto, chain: Map<u64, u32>, start: u64, va: u64, again: bool) -> bool {
    if again && va == start {
        g is Again
    } else {
        g matches Goto::To { rip, direct } && direct == link_to(chain, start, va)
    }
}

/// The places that a block goes to are linked with the compiled blocks there.
pub open spec fn links(
    tail: Tail,
    chain: Map<u64, u32>,
    start: u64,
    end_rip: u64,
    term: Option<BlockTerm>,
    host: Option<FastApiKind>,
) -> bool {
    match term {
        Some(BlockTerm::Jmp { target }) => tail matches Tail::Leave(g) && leads(
            g,
            chain,
            start,
            target,
            true,
        ),
        Some(BlockTerm::Jcc { mnemonic, taken, not_taken }) => tail matches Tail::Branch {
            cond,
            taken: a,
            not_taken: b,
        } && leads(a, chain, start, taken, true) && leads(b, chain, start, not_taken, true),
        Some(BlockTerm::Call { target, return_ip }) => match host {
            Some(kind) => tail matches Tail::Host(k, g) && k == kind && leads(
                g,
                chain,
                start,
                return_ip,
                false,
            ),
            None => tail matches Tail::Leave(g) && leads(g, chain, start, target, false),
        },
        Some(BlockTerm::Ret) => tail matches Tail::Leave(Goto::To { rip, direct }) && direct is None,
        None => tail is Text || (tail matches Tail::Leave(g) && leads(
            g,
            chain,
            start,
            end_rip,
            false,
        )),
    }
}

/// What a block does to the prediction of return addresses: a call predicts where it
/// returns, unless the host carries it out, and a return is checked.
pub open spec fn predicts(
    prediction: Prediction,
    tail: Tail,
    term: Option<BlockTerm>,
    host: Option<FastApiKind>,
) -> bool {
    match term {
        Some(BlockTerm::Call { target, return_ip }) => prediction == if host is Some {
            Prediction::Keep
        } else {
            Prediction::Push(return_ip)
        },
        Some(BlockTerm::Ret) => prediction == Prediction::Check(tail->Leave_0->rip),
        _ => prediction == Prediction::Keep,
    }
}

/// The values that the end of a block names are there.
pub open spec fn tail_wf(tail: Tail, c: Code) -> bool {
    match tail {
        Tail::Leave(g) => goto_wf(g, c.n(), c.live),
        Tail::Branch { cond, taken, not_taken } => c.has(cond) && goto_wf(taken, c.n(), c.live)
            && goto_wf(not_taken, c.n(), c.live),
        Tail::Text(t) => t.wf(),
        Tail::Host(kind, g) => goto_wf(g, c.n(), c.live),
    }
}

/// Compiling the end of a block brought `before` to `after`, and a run from `e`
/// does what is wanted.
pub open spec fn ends(
    before: Lower,
    after: Lower,
    e: Entry,
    tail: Tail,
    start: u64,
    want: Next,
    ip: u64,
) -> bool {
    if before.code.trap(e) is Some {
        &&& after.code.trap(e) == before.code.trap(e)
        &&& after.code.mem(e) == before.code.mem(e)
        &&& after.code.xmm(e) == before.code.xmm(e)
    } else {
        match want.1 {
            None => after.code.trap(e) is None && after.machine(e).with_regs(
                after.regs(e).at(tail_rip(tail, start, after.code.vals(e))),
            ) =~= want.0,
            Some(Fault::Memory(inv)) => trapped(
                after.code.trap(e),
                inv,
                ip,
                want.0.regs.gpr,
                want.0.regs.rflags,
            ) && after.code.mem(e) == want.0.mem && joined_xmm(after.code.xmm(e))
                =~= want.0.regs.xmm,
            Some(Fault::Cpu(_)) => false,
        }
    }
}

/// The compiled block at an address that is not the start of the block itself.
fn direct_to(chain: &HashMap<u64, u32>, start: u64, va: u64) -> (r: Option<u32>)
    ensures
        r == link_to(chain@, start, va),
{
    broadcast use vstd::std_specs::hash::group_hash_axioms;

    if va == start {
        return None;
    }
    match chain.get(&va) {
        Some(id) => Some(*id),
        None => None,
    }
}

impl Lower {
    /// Where a block goes that goes to `va`.
    fn goto(&mut self, chain: &HashMap<u64, u32>, start: u64, va: u64, again: bool) -> (g: Goto)
        requires
            old(self).wf(),
            old(self).room(1),
        ensures
            final(self).wf(),
            old(self).computes(*final(self)),
            final(self).code.n() <= old(self).code.n() + 1,
            goto_wf(g, final(self).code.n(), final(self).code.live),
            forall|e: Entry| #[trigger] final(self).regs(e) == old(self).regs(e),
            forall|e: Entry| #[trigger] final(self).machine(e) == old(self).machine(e),
            forall|e: Entry|
                #![trigger final(self).code.vals(e)]
                goto_rip(g, start, final(self).code.vals(e)) == va,
            leads(g, chain@, start, va, again),
    {
        if again && va == start {
            return Goto::Again;
        }
        let rip: usize = self.bind(iconst(va));
        let direct = direct_to(chain, start, va);
        proof {
            assert forall|e: Entry|
                #![trigger self.code.vals(e)]
                goto_rip(Goto::To { rip, direct }, start, self.code.vals(e)) == va by {
                assert(self.code.vals(e)[rip as int] == va);
            }
        }
        Goto::To { rip, direct }
    }

    /// Compiles the branch at the end of a block.
    fn lower_term(&mut self, start: u64, ip: u64, term: BlockTerm, chain: &HashMap<u64, u32>) -> (r:
        Result<(Tail, Prediction), NotLowerable>)
        requires
            old(self).wf(),
            old(self).room(8),
            old(self).pending is Nothing,
            term is Jcc ==> old(self).code.live.flags,
            term is Call || term is Ret ==> old(self).code.live.gpr@[4],
        ensures
            r is Ok == (term matches BlockTerm::Jcc { mnemonic, .. } ==> jcc_cond(mnemonic)
                is Some),
            r matches Ok((tail, prediction)) ==> {
                &&& final(self).wf()
                &&& final(self).pending is Nothing
                &&& final(self).code.live == old(self).code.live
                &&& final(self).code.n() <= old(self).code.n() + 8
                &&& tail_wf(tail, final(self).code)
                &&& tail is Leave || tail is Branch
                &&& links(tail, chain@, start, 0, Some(term), None)
                &&& predicts(prediction, tail, Some(term), None)
                &&& prediction matches Prediction::Check(v) ==> final(self).code.has(v)
                &&& forall|e: Entry|
                    #![trigger final(self).code.trap(e)]
                    ends(
                        *old(self),
                        *final(self),
                        e,
                        tail,
                        start,
                        term_effect(old(self).machine(e), term),
                        ip,
                    )
            },
    {
        let ghost before = *self;
        match term {
            BlockTerm::Jmp { target } => {
                let g = self.goto(chain, start, target, true);
                let tail = Tail::Leave(g);
                proof {
                    assert forall|e: Entry|
                        #![trigger self.code.trap(e)]
                        ends(
                            before,
                            *self,
                            e,
                            tail,
                            start,
                            term_effect(before.machine(e), term),
                            ip,
                        ) by {
                        assert(self.machine(e) == before.machine(e));
                        assert(self.code.mem(e) == before.code.mem(e));
                        assert(self.code.xmm(e) == before.code.xmm(e));
                        assert(self.code.vals(e) == self.code.vals(e));
                    }
                }
                Ok((tail, Prediction::Keep))
            },
            BlockTerm::Jcc { mnemonic, taken, not_taken } => {
                let c = match jcc_condition(mnemonic) {
                    Some(c) => c,
                    None => {
                        return Err(NotLowerable);
                    },
                };
                let cond: usize = self.bind_cond(c);
                let ghost s1 = *self;
                let g1 = self.goto(chain, start, taken, true);
                let ghost s2 = *self;
                let g2 = self.goto(chain, start, not_taken, true);
                let tail = Tail::Branch { cond, taken: g1, not_taken: g2 };
                proof {
                    assert forall|e: Entry|
                        #![trigger self.code.trap(e)]
                        ends(
                            before,
                            *self,
                            e,
                            tail,
                            start,
                            term_effect(before.machine(e), term),
                            ip,
                        ) by {
                        assert(s1.machine(e) == before.machine(e));
                        assert(s2.machine(e) == s1.machine(e));
                        assert(self.machine(e) == s2.machine(e));
                        assert(s1.code.trap(e) == before.code.trap(e));
                        assert(s2.code.trap(e) == s1.code.trap(e));
                        assert(s1.code.mem(e) == before.code.mem(e));
                        assert(s2.code.mem(e) == s1.code.mem(e));
                        assert(self.code.mem(e) == s2.code.mem(e));
                        assert(s1.code.xmm(e) == before.code.xmm(e));
                        assert(s2.code.xmm(e) == s1.code.xmm(e));
                        assert(self.code.xmm(e) == s2.code.xmm(e));
                        assert((s1.code.vals(e)[cond as int] != 0) == holds(c, before.regs(e)));
                        assert(s2.code.vals(e)[cond as int] == s1.code.vals(e)[cond as int]);
                        assert(self.code.vals(e)[cond as int] == s2.code.vals(e)[cond as int]);
                        assert(goto_rip(g1, start, s2.code.vals(e)) == taken);
                        assert(goto_rip(g1, start, self.code.vals(e)) == taken);
                        assert(goto_rip(g2, start, self.code.vals(e)) == not_taken);
                    }
                }
                Ok((tail, Prediction::Keep))
            },
            BlockTerm::Call { target, return_ip } => {
                let v: usize = self.bind(iconst(return_ip));
                let ghost s1 = *self;
                self.push_value(v, ip);
                let ghost s2 = *self;
                let g = self.goto(chain, start, target, false);
                let tail = Tail::Leave(g);
                proof {
                    assert forall|e: Entry|
                        #![trigger self.code.trap(e)]
                        ends(
                            before,
                            *self,
                            e,
                            tail,
                            start,
                            term_effect(before.machine(e), term),
                            ip,
                        ) by {
                        assert(s1.machine(e) == before.machine(e));
                        assert(s1.code.trap(e) == before.code.trap(e));
                        assert(s1.code.mem(e) == before.code.mem(e));
                        assert(s1.code.xmm(e) == before.code.xmm(e));
                        assert(s1.code.vals(e)[v as int] == return_ip);
                        assert(s2.code.trap(e) == s2.code.trap(e));
                        assert(self.machine(e) == s2.machine(e));
                        assert(self.code.mem(e) == s2.code.mem(e));
                        assert(self.code.xmm(e) == s2.code.xmm(e));
                        assert(self.code.vals(e) == self.code.vals(e));
                    }
                }
                Ok((tail, Prediction::Push(return_ip)))
            },
            BlockTerm::Ret => {
                let v: usize = self.pop_value(ip);
                let tail = Tail::Leave(Goto::To { rip: v, direct: None });
                proof {
                    assert forall|e: Entry|
                        #![trigger self.code.trap(e)]
                        ends(
                            before,
                            *self,
                            e,
                            tail,
                            start,
                            term_effect(before.machine(e), term),
                            ip,
                        ) by {
                        assert(self.code.trap(e) == self.code.trap(e));
                        assert(self.code.mem(e) == before.code.mem(e));
                    }
                }
                Ok((tail, Prediction::Check(v)))
            },
        }
    }

    /// Compiles the end of a block: its branch, its string instruction, or the way to
    /// `end_rip`.
    fn lower_tail(
        &mut self,
        start: u64,
        last: &Instr,
        end_rip: u64,
        term: Option<BlockTerm>,
        host: Option<FastApiKind>,
        text: Option<StringCall>,
        chain: &HashMap<u64, u32>,
    ) -> (r: Result<(Tail, Prediction), NotLowerable>)
        requires
            old(self).wf(),
            old(self).room(8),
            old(self).pending is Nothing,
            term matches Some(BlockTerm::Jcc { .. }) ==> old(self).code.live.flags,
            host is None && (term matches Some(BlockTerm::Call { .. }))
                ==> old(self).code.live.gpr@[4],
            term matches Some(BlockTerm::Ret) ==> old(self).code.live.gpr@[4],
            text is Some ==> term is None,
            text matches Some(c) ==> c.wf(),
            text is None ==> (term is Some || string_bytes(*last) is None),
        ensures
            r is Ok == (term matches Some(BlockTerm::Jcc { mnemonic, .. }) ==> jcc_cond(mnemonic)
                is Some),
            r matches Ok((tail, prediction)) ==> {
                &&& final(self).wf()
                &&& final(self).pending is Nothing
                &&& final(self).code.live == old(self).code.live
                &&& final(self).code.n() <= old(self).code.n() + 8
                &&& tail_wf(tail, final(self).code)
                &&& prediction matches Prediction::Check(v) ==> final(self).code.has(v)
                &&& links(tail, chain@, start, end_rip, term, host)
                &&& predicts(prediction, tail, term, host)
                &&& (tail matches Tail::Host(kind, g) ==> host_call(term, host) == Some(kind))
                &&& (!(tail is Host) ==> host_call(term, host) is None)
                &&& (tail is Text) == (text is Some)
                &&& text matches Some(c) ==> tail == Tail::Text(c) && *final(self) == *old(self)
                &&& text is None ==> forall|e: Entry|
                    #![trigger final(self).code.trap(e)]
                    ends(
                        *old(self),
                        *final(self),
                        e,
                        tail,
                        start,
                        tail_effect(old(self).machine(e), *last, end_rip, term, host),
                        last.ip,
                    )
            },
    {
        let ghost before = *self;
        match term {
            Some(t) => match (t, host) {
                (BlockTerm::Call { target: _, return_ip }, Some(kind)) => {
                    let g = self.goto(chain, start, return_ip, false);
                    let tail = Tail::Host(kind, g);
                    proof {
                        assert forall|e: Entry|
                            #![trigger self.code.trap(e)]
                            ends(
                                before,
                                *self,
                                e,
                                tail,
                                start,
                                tail_effect(before.machine(e), *last, end_rip, term, host),
                                last.ip,
                            ) by {
                            assert(self.machine(e) == before.machine(e));
                            assert(self.code.mem(e) == before.code.mem(e));
                            assert(self.code.xmm(e) == before.code.xmm(e));
                            assert(self.code.vals(e) == self.code.vals(e));
                        }
                    }
                    Ok((tail, Prediction::Keep))
                },
                _ => self.lower_term(start, last.ip, t, chain),
            },
            None => match text {
                Some(c) => Ok((Tail::Text(c), Prediction::Keep)),
                None => {
                    let g = self.goto(chain, start, end_rip, false);
                    let tail = Tail::Leave(g);
                    proof {
                        assert forall|e: Entry|
                            #![trigger self.code.trap(e)]
                            ends(
                                before,
                                *self,
                                e,
                                tail,
                                start,
                                tail_effect(before.machine(e), *last, end_rip, term, host),
                                last.ip,
                            ) by {
                            assert(self.machine(e) == before.machine(e));
                            assert(self.code.mem(e) == before.code.mem(e));
                            assert(self.code.xmm(e) == before.code.xmm(e));
                            assert(self.code.vals(e) == self.code.vals(e));
                        }
                    }
                    Ok((tail, Prediction::Keep))
                },
            },
        }
    }
}

/// The machine at the end of a run is the one that the values stand for.
proof fn lemma_machine_at(l: Lower, e: Entry, rip: u64)
    requires
        l.wf(),
        l.pending is Nothing,
        l.code.trap(e) is None,
    ensures
        machine_at(run_ops(e, l.code.ops@), l.snapshot(), rip) == l.machine(e).with_regs(
            l.regs(e).at(rip),
        ),
{
    let r = run_ops(e, l.code.ops@);
    let m = machine_at(r, l.snapshot(), rip);
    let want = l.machine(e).with_regs(l.regs(e).at(rip));
    assert(r.xmm == l.code.xmm(e));
    assert forall|k: int| 0 <= k < 16 implies #[trigger] m.regs.xmm[k] == want.regs.xmm[k] by {
        assert(l.code.xmm(e)[2 * k] == l.code.vals(e)[l.xmm@[2 * k] as int]);
        assert(l.code.xmm(e)[2 * k + 1] == l.code.vals(e)[l.xmm@[2 * k + 1] as int]);
    }
    assert(m.regs.xmm =~= want.regs.xmm);
    assert(m.regs.gpr =~= want.regs.gpr);
    assert(m =~= want);
}

/// Everything put together: the body, and then the end.
proof fn lemma_block_done(
    body: Lower,
    done: Lower,
    c: CompiledBlock,
    e: Entry,
    want: (Machine, Option<(Fault, u64)>),
    rflags: u64,
    tail: Next,
    ip: u64,
)
    requires
        done.wf(),
        done.pending is Nothing,
        c.ops@ == done.code.ops@,
        c.at == done.snapshot(),
        !(c.tail is Text),
        tracks(body, e, want, rflags),
        ends(body, done, e, c.tail, c.start, tail, ip),
    ensures
        want.1 is Some ==> ended_as(c.outcome(e), want),
        want.1 is None ==> ended_as(
            c.outcome(e),
            match tail {
                (u, None) => (u, None),
                (u, Some(f)) => (u, Some((f, ip))),
            },
        ),
        c.outcome(e).fault is Some ==> c.outcome(e).machine.regs.rflags == if want.1 is Some {
            rflags
        } else {
            tail.0.regs.rflags
        },
{
    if done.code.trap(e) is None {
        lemma_machine_at(done, e, tail_rip(c.tail, c.start, done.code.vals(e)));
    }
}

/// The same for a string instruction at the end.
proof fn lemma_text_done(
    body: Lower,
    done: Lower,
    c: CompiledBlock,
    e: Entry,
    want: (Machine, Option<(Fault, u64)>),
    rflags: u64,
    call: StringCall,
)
    requires
        done.wf(),
        done.pending is Nothing,
        c.ops@ == done.code.ops@,
        c.at == done.snapshot(),
        c.tail == Tail::Text(call),
        call.wf(),
        tracks(body, e, want, rflags),
        done.code.trap(e) == body.code.trap(e),
        done.code.mem(e) == body.code.mem(e),
        done.code.xmm(e) == body.code.xmm(e),
        done.machine(e) == body.machine(e),
    ensures
        want.1 is Some ==> ended_as(c.outcome(e), want),
        want.1 is None ==> ended_as(
            c.outcome(e),
            match string_effect(want.0.with_regs(want.0.regs.at(call.next_ip)), call) {
                (u, None) => (u, None),
                (u, Some(f)) => (u, Some((f, call.ip))),
            },
        ),
        c.outcome(e).fault is Some ==> c.outcome(e).machine.regs.rflags == if want.1 is Some {
            rflags
        } else {
            string_effect(want.0.with_regs(want.0.regs.at(call.next_ip)), call).0.regs.rflags
        },
{
    if done.code.trap(e) is None {
        lemma_machine_at(done, e, call.next_ip);
        let s = want.0.with_regs(want.0.regs.at(call.next_ip));
        lemma_string_fault(s, call);
    }
}

/// A string instruction fails only where an access fails.
proof fn lemma_string_fault(s: Machine, c: StringCall)
    requires
        c.wf(),
    ensures
        !(string_effect(s, c).1 matches Some(Fault::Cpu(_))),
{
}

/// The registers that a block loads: those that its instructions use, those that a
/// call of the host or of the stack needs, and all of them if it loops.
fn live_registers(start: u64, insns: &[Instr], term: Option<BlockTerm>, host: bool) -> (live: Live)
    requires
        forall|j: int| 0 <= j < insns@.len() ==> (#[trigger] insns@[j]).wf(),
    ensures
        forall|j: int| 0 <= j < insns@.len() ==> covers(live, #[trigger] insns@[j]),
        term matches Some(BlockTerm::Jcc { .. }) ==> live.flags,
        !host && (term matches Some(BlockTerm::Call { .. })) ==> live.gpr@[4],
        term matches Some(BlockTerm::Ret) ==> live.gpr@[4],
        host ==> live.gpr@[0] && live.gpr@[1] && live.gpr@[2] && live.gpr@[8] && live.gpr@[9],
        forall|k: int|
            0 <= k < 16 && #[trigger] live.gpr@[k] ==> any_uses_gpr(insns@, k) || loops_to(
                term,
                start,
            ) || (host && (k == 0 || k == 1 || k == 2 || k == 8 || k == 9)) || k == 4,
        forall|k: int| 0 <= k < 16 ==> #[trigger] live.xmm@[k] == any_uses_xmm(insns@, k),
        live.flags == (loops_to(term, start) || term matches Some(BlockTerm::Jcc { .. })
            || any_uses_flags(insns@)),
{
    let mut gpr = analyze_live_gprs(insns);
    let xmm = analyze_live_xmm(insns);
    let ghost used = gpr@;
    let again: bool = is_self_loop(term, start);
    let flags: bool = again || block_needs_flags(insns, term);
    if host {
        gpr[0] = true;
        gpr[1] = true;
        gpr[2] = true;
        gpr[8] = true;
        gpr[9] = true;
    }
    if matches!(term, Some(BlockTerm::Ret)) || (!host && matches!(
        term,
        Some(BlockTerm::Call { .. })
    )) {
        gpr[4] = true;
    }
    let ghost marked = gpr@;
    if again {
        let mut k: usize = 0;
        while k < 16
            invariant
                k <= 16,
                forall|j: int| 0 <= j < k ==> #[trigger] gpr@[j],
                forall|j: int| k <= j < 16 ==> #[trigger] gpr@[j] == marked[j],
            decreases 16 - k,
        {
            gpr[k] = true;
            k = k + 1;
        }
    }
    let live = Live { gpr, xmm, flags };
    proof {
        assert forall|k: int| 0 <= k < 16 && used[k] implies #[trigger] live.gpr@[k] by {}
        assert forall|j: int| 0 <= j < insns@.len() implies covers(live, #[trigger] insns@[j]) by {
            let i = insns@[j];
            assert forall|k: int| 0 <= k < 16 && uses_gpr(i, k) implies #[trigger] live.gpr@[k] by {
                assert(uses_gpr(insns@[j], k));
                assert(any_uses_gpr(insns@, k));
                assert(used[k]);
            }
            assert forall|k: int| 0 <= k < 16 && uses_xmm(i, k) implies #[trigger] live.xmm@[k] by {
                assert(uses_xmm(insns@[j], k));
                assert(any_uses_xmm(insns@, k));
            }
            if uses_flags(i) {
                assert(uses_flags(insns@[j]));
            }
        }
        assert forall|k: int| 0 <= k < 16 && #[trigger] live.gpr@[k] implies any_uses_gpr(insns@, k)
            || loops_to(term, start) || (host && (k == 0 || k == 1 || k == 2 || k == 8 || k == 9))
            || k == 4 by {
            if !again {
                assert(marked[k]);
                if used[k] {
                    assert(any_uses_gpr(insns@, k));
                }
            }
        }
    }
    live
}

/// A block that is compiled: all its instructions are, and it is not empty.
pub open spec fn compilable(insns: Seq<Instr>, term: Option<BlockTerm>) -> bool {
    &&& insns.len() > 0
    &&& forall|j: int|
        0 <= j < body_of(insns, term).len() ==> accepted(#[trigger] body_of(insns, term)[j])
    &&& term matches Some(BlockTerm::Jcc { mnemonic, .. }) ==> jcc_cond(mnemonic) is Some
}

/// The C runtime function that a block calls at its end.
pub open spec fn host_call(term: Option<BlockTerm>, host: Option<FastApiKind>) -> Option<
    FastApiKind,
> {
    if term matches Some(BlockTerm::Call { .. }) {
        host
    } else {
        None
    }
}

/// What holds of a block that was compiled.
pub open spec fn faithful(
    c: CompiledBlock,
    insns: Seq<Instr>,
    end_rip: u64,
    term: Option<BlockTerm>,
    host: Option<FastApiKind>,
) -> bool {
    forall|e: Entry|
        #![trigger c.outcome(e)]
        entry_wf(e) ==> {
            &&& ended_as(
                c.outcome(e),
                block_effect(entry_machine(e), insns, end_rip, term, host, e.fp),
            )
            &&& c.outcome(e).fault is Some ==> c.outcome(e).machine.regs.rflags == fault_flags(
                entry_machine(e),
                insns,
                end_rip,
                term,
                host,
                e.fp,
            )
            &&& c.outcome(e).fault is None ==> c.outcome(e).host == host_call(term, host)
        }
}

/// Compiles the block at `start`. `host` is the C runtime function that its call
/// leads to, if it leads to one; `chain` holds the blocks that are compiled
/// already. The compiled block does what its instructions do.
#[verifier::spinoff_prover]
#[verifier::rlimit(50)]
pub fn compile_block(
    start: u64,
    insns: &[Instr],
    end_rip: u64,
    term: Option<BlockTerm>,
    host: Option<FastApiKind>,
    chain: &HashMap<u64, u32>,
) -> (r: Result<CompiledBlock, NotLowerable>)
    requires
        insns@.len() <= 0x100_0000,
        forall|j: int| 0 <= j < insns@.len() ==> (#[trigger] insns@[j]).wf(),
    ensures
        r is Ok == compilable(insns@, term),
        r matches Ok(c) ==> {
            &&& c.wf()
            &&& c.start == start
            &&& c.insn_count == insns@.len()
            &&& (c.tail is Text) == (term is None && string_bytes(insns@.last()) is Some)
            &&& links(c.tail, chain@, start, end_rip, term, host)
            &&& predicts(c.prediction, c.tail, term, host)
            &&& faithful(c, insns@, end_rip, term, host)
        },
{
    let n: usize = insns.len();
    if n == 0 {
        return Err(NotLowerable);
    }
    let last = insns[n - 1];
    assert(insns@[n - 1].wf());
    let calls: bool = host.is_some() && matches!(term, Some(BlockTerm::Call { .. }));
    let live = live_registers(start, insns, term, calls);
    let text = if term.is_none() {
        lower_string(&last)
    } else {
        None
    };
    let count: usize = if term.is_some() || text.is_some() {
        n - 1
    } else {
        n
    };
    let mut l = Lower::new(live);
    let ghost body_insns = body_of(insns@, term);
    proof {
        assert(insns@.last() == last);
        assert(insns@.take(count as int) =~= body_insns);
        assert forall|j: int| 0 <= j < count implies (#[trigger] insns@[j]).wf() && covers(
            live,
            insns@[j],
        ) by {}
        assert forall|j: int| 0 <= j < count implies insns@[j] == #[trigger] body_insns[j] by {}
        assert forall|j: int| 0 <= j < count implies #[trigger] insns@[j] == body_insns[j] by {}
    }
    match l.lower_body(insns, count) {
        Ok(()) => {},
        Err(e) => {
            return Err(e);
        },
    }
    let ghost body = l;
    l.flush_pending();
    let ghost ready = l;
    let (tail, prediction): (Tail, Prediction) = match l.lower_tail(
        start,
        &last,
        end_rip,
        term,
        host,
        text,
        chain,
    ) {
        Ok(r) => r,
        Err(e) => {
            return Err(e);
        },
    };
    let at = l.snap();
    let ghost done = l;
    let c = CompiledBlock {
        start,
        live,
        ops: l.code.ops,
        at,
        prediction,
        tail,
        insn_count: n as u32,
    };
    proof {
        assert forall|e: Entry|
            #![trigger c.outcome(e)]
            entry_wf(e) implies ended_as(
            c.outcome(e),
            block_effect(entry_machine(e), insns@, end_rip, term, host, e.fp),
        ) && (c.outcome(e).fault is Some ==> c.outcome(e).machine.regs.rflags == fault_flags(
            entry_machine(e),
            insns@,
            end_rip,
            term,
            host,
            e.fp,
        )) && (c.outcome(e).fault is None ==> c.outcome(e).host == host_call(term, host)) by {
            let want = body_effect(entry_machine(e), body_insns, e.fp);
            let seen = computed_flags(entry_machine(e), body_insns, e.fp);
            let rflags = if want.1 is Some {
                seen
            } else {
                want.0.regs.rflags
            };
            assert(body.code.trap(e) == body.code.trap(e));
            assert(tracks(body, e, want, seen));
            assert(ready.code.trap(e) == body.code.trap(e));
            assert(ready.code.mem(e) == body.code.mem(e));
            assert(ready.code.xmm(e) == body.code.xmm(e));
            assert(ready.machine(e) == body.machine(e));
            assert(tracks(ready, e, want, rflags));
            assert(done.code.trap(e) == done.code.trap(e));
            if text is Some && term is None {
                lemma_text_done(ready, done, c, e, want, rflags, text->0);
            } else {
                let t = tail_effect(ready.machine(e), last, end_rip, term, host);
                assert(ends(ready, done, e, tail, start, t, last.ip));
                lemma_block_done(ready, done, c, e, want, rflags, t, last.ip);
            }
        }
    }
    Ok(c)
}

} // verus!
