//! The interpreter backend. x86-64 only.

use vstd::prelude::*;
use vstd::string::StringExecFns;

use crate::cpu::{
    bitmap_bytes_needed, CodeHookOutcome, CpuEngine, InvalidMemoryAccess, JitStats, RunUntilHook,
};
use crate::endian::read_le;
use crate::error::CpuError;
use crate::exec::hook::HookWindow;
use crate::exec::model::{machine, InvalidMem, Machine};
use crate::exec::step::{step, step_of, stepped, StepResult, Stepped};
use crate::mem::backend::read_outcome;
use crate::mem::guest::{GuestMemory, MemBackendKind};
use crate::mem::model::{lemma_mapped_run, load, mapped_run};
use crate::mem::region::{backfilled, first_covering, GuestRegion};
use crate::regs::{
    RegFile, Regs, R12, R13, R14, R15, R8, R9, RAX, RBP, RBX, RCX, RDI, RDX, RSI, RSP,
};
use crate::text;

verus! {

/// How many recent instruction pointers are kept.
pub const RIP_TRACE_CAP: usize = 32;

/// The budget that stands for "no limit", so that no run goes on forever.
pub const DEFAULT_BUDGET: usize = 100_000_000;

/// A trace with one more entry; the oldest one leaves when the trace is full.
pub open spec fn traced(trace: Seq<u64>, rip: u64) -> Seq<u64> {
    if trace.len() < RIP_TRACE_CAP {
        trace.push(rip)
    } else {
        trace.drop_first().push(rip)
    }
}

/// A counter that stays at its maximum.
pub open spec fn counted_up(n: u64) -> u64 {
    if n < u64::MAX {
        (n + 1) as u64
    } else {
        n
    }
}

/// The interpreter's state as mathematical values.
#[verifier::ext_equal]
pub struct CpuState {
    /// Memory and registers.
    pub machine: Machine,
    /// Recent instruction pointers, oldest first.
    pub trace: Seq<u64>,
    /// Instructions retired.
    pub steps: u64,
}

/// How a run ended.
pub enum RunEnd {
    /// The budget is used up, or the end address was reached.
    Finished,
    /// The host takes over.
    Hook(u64, u32),
    /// Unmapped memory was touched.
    Invalid(InvalidMem),
    /// An instruction cannot be executed, for the reason given.
    Failed(Seq<char>),
}

/// The state in which a run from `begin` starts.
pub open spec fn started(c: CpuState, begin: u64) -> CpuState {
    CpuState { machine: c.machine.with_regs(c.machine.regs.at(begin)), ..c }
}

/// How many instructions a run with the given count may execute.
pub open spec fn budget_of(count: usize) -> nat {
    if count == 0 {
        DEFAULT_BUDGET as nat
    } else {
        count as nat
    }
}

/// The state just before the step number `k` of a run: every sixteenth
/// instruction pointer is recorded.
pub open spec fn sampled(c: CpuState, k: nat) -> CpuState {
    if k % 16 == 0 {
        CpuState { trace: traced(c.trace, c.machine.regs.rip), ..c }
    } else {
        c
    }
}

/// A run of at most `budget` instructions that has done `k` already and ends at
/// the address `until`, if that is not zero. `clock` holds the time stamp of each
/// step.
pub open spec fn run_of(
    c: CpuState,
    hook: Option<&HookWindow>,
    until: u64,
    k: nat,
    budget: nat,
    clock: Seq<u64>,
) -> (CpuState, RunEnd)
    decreases budget - k,
{
    if k >= budget || (until != 0 && c.machine.regs.rip == until) {
        (c, RunEnd::Finished)
    } else {
        let d = sampled(c, k);
        let (t, what) = step_of(d.machine, hook, clock[0]);
        match what {
            Stepped::Continue => run_of(
                CpuState { machine: t, trace: d.trace, steps: counted_up(d.steps) },
                hook,
                until,
                k + 1,
                budget,
                clock.drop_first(),
            ),
            Stepped::HostStop(address, size) => (
                CpuState { machine: t, ..d },
                RunEnd::Hook(address, size),
            ),
            Stepped::Invalid(inv) => (CpuState { machine: t, ..d }, RunEnd::Invalid(inv)),
            Stepped::Failed(m) => (CpuState { machine: t, ..d }, RunEnd::Failed(m)),
        }
    }
}

/// The part of a run that has been done: from `c` at step `k`, one step for each
/// time stamp of `clock`, all completed and none at `until`.
spec fn run_prefix(
    c: CpuState,
    hook: Option<&HookWindow>,
    until: u64,
    k: nat,
    clock: Seq<u64>,
) -> Option<CpuState>
    decreases clock.len(),
{
    if clock.len() == 0 {
        Some(c)
    } else if until != 0 && c.machine.regs.rip == until {
        None
    } else {
        let d = sampled(c, k);
        let (t, what) = step_of(d.machine, hook, clock[0]);
        if what is Continue {
            run_prefix(
                CpuState { machine: t, trace: d.trace, steps: counted_up(d.steps) },
                hook,
                until,
                k + 1,
                clock.drop_first(),
            )
        } else {
            None
        }
    }
}

/// A run goes on from the end of its first part.
#[verifier::spinoff_prover]
#[verifier::rlimit(60)]
proof fn lemma_run_continues(
    c: CpuState,
    hook: Option<&HookWindow>,
    until: u64,
    k: nat,
    budget: nat,
    done: Seq<u64>,
    rest: Seq<u64>,
)
    requires
        run_prefix(c, hook, until, k, done) is Some,
        k + done.len() <= budget,
    ensures
        run_of(c, hook, until, k, budget, done + rest) == run_of(
            run_prefix(c, hook, until, k, done)->0,
            hook,
            until,
            k + done.len(),
            budget,
            rest,
        ),
    decreases done.len(),
{
    if done.len() == 0 {
        assert(done + rest =~= rest);
    } else {
        let d = sampled(c, k);
        let (t, what) = step_of(d.machine, hook, done[0]);
        assert((done + rest)[0] == done[0]);
        assert((done + rest).drop_first() =~= done.drop_first() + rest);
        lemma_run_continues(
            CpuState { machine: t, trace: d.trace, steps: counted_up(d.steps) },
            hook,
            until,
            k + 1,
            budget,
            done.drop_first(),
            rest,
        );
    }
}

/// The first part of a run grows by a completed step.
#[verifier::spinoff_prover]
#[verifier::rlimit(60)]
proof fn lemma_prefix_grows(
    c: CpuState,
    hook: Option<&HookWindow>,
    until: u64,
    k: nat,
    done: Seq<u64>,
    tsc: u64,
)
    requires
        run_prefix(c, hook, until, k, done) is Some,
        ({
            let e = run_prefix(c, hook, until, k, done)->0;
            &&& !(until != 0 && e.machine.regs.rip == until)
            &&& step_of(sampled(e, k + done.len()).machine, hook, tsc).1 is Continue
        }),
    ensures
        ({
            let d = sampled(run_prefix(c, hook, until, k, done)->0, k + done.len());
            run_prefix(c, hook, until, k, done.push(tsc)) == Some(
                CpuState {
                    machine: step_of(d.machine, hook, tsc).0,
                    trace: d.trace,
                    steps: counted_up(d.steps),
                },
            )
        }),
    decreases done.len(),
{
    if done.len() == 0 {
        reveal_with_fuel(run_prefix, 2);
        assert(done.push(tsc)[0] == tsc);
        assert(done.push(tsc).drop_first() =~= Seq::<u64>::empty());
    } else {
        let d = sampled(c, k);
        let (t, what) = step_of(d.machine, hook, done[0]);
        assert(done.push(tsc)[0] == done[0]);
        assert(done.push(tsc).drop_first() =~= done.drop_first().push(tsc));
        lemma_prefix_grows(
            CpuState { machine: t, trace: d.trace, steps: counted_up(d.steps) },
            hook,
            until,
            k + 1,
            done.drop_first(),
            tsc,
        );
    }
}

/// What a run reports, if every instruction of it could be executed.
pub open spec fn run_report(end: RunEnd) -> RunUntilHook {
    RunUntilHook {
        code: match end {
            RunEnd::Hook(address, size) => CodeHookOutcome { hit: true, address, size },
            _ => CodeHookOutcome::nothing(),
        },
        invalid_memory: match end {
            RunEnd::Invalid(inv) => InvalidMemoryAccess {
                hit: true,
                access_type: inv.access_type,
                address: inv.address,
                size: inv.size,
                value: inv.value,
            },
            _ => InvalidMemoryAccess::nothing(),
        },
    }
}

/// Instruction pointers in base 16, with arrows between them.
pub open spec fn trace_text(trace: Seq<u64>) -> Seq<char>
    decreases trace.len(),
{
    if trace.len() == 0 {
        Seq::empty()
    } else if trace.len() == 1 {
        text::hex(trace[0] as nat)
    } else {
        trace_text(trace.drop_last()) + " → "@ + text::hex(trace.last() as nat)
    }
}

/// What a failed run says beside the reason: registers and recent instruction
/// pointers.
pub open spec fn failure_text(reason: Seq<char>, regs: Regs, trace: Seq<u64>) -> Seq<char> {
    reason + "; iced_regs rax="@ + text::hex(regs.gpr[RAX as int] as nat) + " rbx="@ + text::hex(
        regs.gpr[RBX as int] as nat,
    ) + " rcx="@ + text::hex(regs.gpr[RCX as int] as nat) + " rdx="@ + text::hex(
        regs.gpr[RDX as int] as nat,
    ) + " rsp="@ + text::hex(regs.gpr[RSP as int] as nat) + " rbp="@ + text::hex(
        regs.gpr[RBP as int] as nat,
    ) + " rsi="@ + text::hex(regs.gpr[RSI as int] as nat) + " rdi="@ + text::hex(
        regs.gpr[RDI as int] as nat,
    ) + " r8="@ + text::hex(regs.gpr[R8 as int] as nat) + " r9="@ + text::hex(
        regs.gpr[R9 as int] as nat,
    ) + " r12="@ + text::hex(regs.gpr[R12 as int] as nat) + " r13="@ + text::hex(
        regs.gpr[R13 as int] as nat,
    ) + " r14="@ + text::hex(regs.gpr[R14 as int] as nat) + " r15="@ + text::hex(
        regs.gpr[R15 as int] as nat,
    ) + "; iced_rip_trace=["@ + trace_text(trace) + "]"@
}

/// Appends a label and a number in base 16.
fn push_labelled(out: &mut String, label: &str, v: u64)
    ensures
        final(out)@ == old(out)@ + label@ + text::hex(v as nat),
{
    out.append(label);
    text::push_hex(out, v);
}

/// Instruction pointers in base 16, with arrows between them.
fn format_trace(trace: &Vec<u64>) -> (s: String)
    ensures
        s@ == trace_text(trace@),
{
    let mut s = String::new();
    let mut k: usize = 0;
    while k < trace.len()
        invariant
            k <= trace@.len(),
            s@ == trace_text(trace@.take(k as int)),
        decreases trace@.len() - k,
    {
        proof {
            assert(trace@.take(k + 1).drop_last() =~= trace@.take(k as int));
            assert(trace@.take(k + 1).last() == trace@[k as int]);
        }
        if k > 0 {
            s.append(" → ");
        }
        text::push_hex(&mut s, trace[k]);
        proof {
            if k == 0 {
                assert(s@ =~= text::hex(trace@[0] as nat));
                assert(trace@.take(1)[0] == trace@[0]);
            }
        }
        k = k + 1;
    }
    assert(trace@.take(trace@.len() as int) =~= trace@);
    s
}

/// What a failed run says.
fn format_failure(reason: &str, r: &RegFile, trace: &Vec<u64>) -> (s: String)
    ensures
        s@ == failure_text(reason@, r@, trace@),
{
    let mut s = reason.to_owned();
    push_labelled(&mut s, "; iced_regs rax=", r.gpr(RAX));
    push_labelled(&mut s, " rbx=", r.gpr(RBX));
    push_labelled(&mut s, " rcx=", r.gpr(RCX));
    push_labelled(&mut s, " rdx=", r.gpr(RDX));
    push_labelled(&mut s, " rsp=", r.gpr(RSP));
    push_labelled(&mut s, " rbp=", r.gpr(RBP));
    push_labelled(&mut s, " rsi=", r.gpr(RSI));
    push_labelled(&mut s, " rdi=", r.gpr(RDI));
    push_labelled(&mut s, " r8=", r.gpr(R8));
    push_labelled(&mut s, " r9=", r.gpr(R9));
    push_labelled(&mut s, " r12=", r.gpr(R12));
    push_labelled(&mut s, " r13=", r.gpr(R13));
    push_labelled(&mut s, " r14=", r.gpr(R14));
    push_labelled(&mut s, " r15=", r.gpr(R15));
    s.append("; iced_rip_trace=[");
    let t = format_trace(trace);
    s.append(t.as_str());
    s.append("]");
    s
}

/// Software x86-64 CPU that decodes and interprets.
pub struct IcedCpu {
    mem: GuestMemory,
    regs: RegFile,
    hooks: Option<HookWindow>,
    /// Recent instruction pointers (ring buffer).
    rip_trace: [u64; 32],
    /// Where the next entry of the ring goes.
    rip_trace_i: usize,
    /// How many entries of the ring are used.
    rip_trace_n: usize,
    /// Instructions retired.
    iced_steps: u64,
}

impl IcedCpu {
    /// The ring is in order: a full one is written anywhere, a partial one from
    /// its start.
    spec fn ring_wf(&self) -> bool {
        &&& self.rip_trace_i < 32
        &&& self.rip_trace_n <= 32
        &&& self.rip_trace_n < 32 ==> self.rip_trace_i == self.rip_trace_n
    }

    /// Where the entry `j` of the trace stands in the ring.
    spec fn ring_index(&self, j: int) -> int {
        (self.rip_trace_i + 32 - self.rip_trace_n + j) % 32
    }

    /// Recent instruction pointers, oldest first.
    pub closed spec fn trace(&self) -> Seq<u64> {
        Seq::new(self.rip_trace_n as nat, |j: int| self.rip_trace@[self.ring_index(j)])
    }

    /// Instructions retired.
    pub closed spec fn steps(&self) -> u64 {
        self.iced_steps
    }

    /// The interpreter's state.
    pub open spec fn state(&self) -> CpuState {
        CpuState { machine: self.machine(), trace: self.trace(), steps: self.steps() }
    }

    /// Guest memory.
    pub closed spec fn memory(&self) -> GuestMemory {
        self.mem
    }

    /// The range of addresses at which the host takes over.
    pub closed spec fn hook(&self) -> Option<HookWindow> {
        self.hooks
    }

    /// The range of addresses at which the host takes over, by reference.
    pub open spec fn hook_view(&self) -> Option<&HookWindow> {
        match self.hook() {
            Some(h) => Some(&h),
            None => None,
        }
    }

    /// A fresh interpreter with empty memory and zero registers.
    #[must_use]
    pub fn open_x86_64() -> (cpu: Self)
        ensures
            cpu.wf(),
            cpu.machine().mem == Map::<int, u8>::empty(),
            cpu.machine().regs.gpr == Seq::new(16, |i: int| 0u64),
            cpu.machine().regs.xmm == Seq::new(16, |i: int| 0u128),
            cpu.machine().regs.rip == 0,
            cpu.machine().regs.rflags == crate::regs::ALWAYS1,
            cpu.memory().kind() == MemBackendKind::Hybrid,
            cpu.trace().len() == 0,
            cpu.steps() == 0,
            cpu.hook() is None,
    {
        Self::open_with(MemBackendKind::Hybrid)
    }

    /// A fresh interpreter whose memory is stored as `kind` says.
    #[must_use]
    pub fn open_with(kind: MemBackendKind) -> (cpu: Self)
        ensures
            cpu.wf(),
            cpu.machine().mem == Map::<int, u8>::empty(),
            cpu.machine().regs.gpr == Seq::new(16, |i: int| 0u64),
            cpu.machine().regs.xmm == Seq::new(16, |i: int| 0u128),
            cpu.machine().regs.rip == 0,
            cpu.machine().regs.rflags == crate::regs::ALWAYS1,
            cpu.memory().kind() == kind,
            cpu.trace().len() == 0,
            cpu.steps() == 0,
            cpu.hook() is None,
    {
        IcedCpu {
            mem: GuestMemory::with_kind(kind),
            regs: RegFile::new(),
            hooks: None,
            rip_trace: [0u64; 32],
            rip_trace_i: 0,
            rip_trace_n: 0,
            iced_steps: 0,
        }
    }

    /// Instructions retired by the interpreter.
    #[must_use]
    pub fn iced_steps(&self) -> (n: u64)
        ensures
            n == self.steps(),
    {
        self.iced_steps
    }

    /// Records an instruction pointer.
    #[verifier::spinoff_prover]
    #[verifier::rlimit(60)]
    fn push_rip_trace(&mut self, rip: u64)
        requires
            old(self).wf(),
        ensures
            final(self).wf(),
            final(self).trace() == traced(old(self).trace(), rip),
            final(self).machine() == old(self).machine(),
            final(self).memory() == old(self).memory(),
            final(self).hook() == old(self).hook(),
            final(self).steps() == old(self).steps(),
    {
        let i: usize = self.rip_trace_i;
        self.rip_trace[i] = rip;
        self.rip_trace_i = (i + 1) % RIP_TRACE_CAP;
        if self.rip_trace_n < RIP_TRACE_CAP {
            self.rip_trace_n = self.rip_trace_n + 1;
        }
        proof {
            let want = traced(old(self).trace(), rip);
            assert(self.trace().len() == want.len());
            assert forall|j: int| 0 <= j < want.len() implies self.trace()[j] == want[j] by {
                if j < want.len() - 1 {
                    let before = if old(self).rip_trace_n < 32 {
                        j
                    } else {
                        j + 1
                    };
                    assert(self.ring_index(j) == old(self).ring_index(before));
                    assert(self.ring_index(j) != i);
                } else {
                    assert(self.ring_index(j) == i);
                }
            }
            assert(self.trace() =~= want);
        }
    }

    /// Recent instruction pointers (oldest first), for crash diagnostics.
    #[must_use]
    pub fn rip_trace_vec(&self) -> (v: Vec<u64>)
        requires
            self.wf(),
        ensures
            v@ == self.trace(),
    {
        let n: usize = self.rip_trace_n;
        let mut out: Vec<u64> = Vec::with_capacity(n);
        let start: usize = self.rip_trace_i + RIP_TRACE_CAP - n;
        let mut k: usize = 0;
        while k < n
            invariant
                self.wf(),
                k <= n,
                n == self.rip_trace_n,
                n <= 32,
                start == self.rip_trace_i + 32 - n,
                start < 64,
                out@.len() == k,
                forall|j: int| 0 <= j < k ==> #[trigger] out@[j] == self.trace()[j],
            decreases n - k,
        {
            out.push(self.rip_trace[(start + k) % RIP_TRACE_CAP]);
            k = k + 1;
        }
        assert(out@ =~= self.trace());
        out
    }

    /// The registers.
    #[must_use]
    pub fn regs(&self) -> (r: &RegFile)
        ensures
            r@ == self.machine().regs,
    {
        &self.regs
    }

    /// The registers, to be changed.
    pub fn regs_mut(&mut self) -> (r: &mut RegFile)
        requires
            old(self).wf(),
        ensures
            r@ == old(self).machine().regs,
            final(self).wf(),
            final(self).machine() == old(self).machine().with_regs(final(r)@),
            final(self).memory() == old(self).memory(),
            final(self).trace() == old(self).trace(),
            final(self).steps() == old(self).steps(),
            final(self).hook() == old(self).hook(),
    {
        &mut self.regs
    }

    /// Guest memory, to be changed. Who changes it keeps it well-formed.
    pub fn guest_mem_mut(&mut self) -> (m: &mut GuestMemory)
        requires
            old(self).wf(),
        ensures
            *m == old(self).memory(),
            m.wf(),
            final(m).wf() ==> final(self).wf(),
            final(self).memory() == *final(m),
            final(self).machine() == old(self).machine().with_mem(final(m).bytes()),
            final(self).trace() == old(self).trace(),
            final(self).steps() == old(self).steps(),
            final(self).hook() == old(self).hook(),
    {
        &mut self.mem
    }

    /// The range of addresses at which the host takes over.
    #[must_use]
    pub fn hooks_ref(&self) -> (h: Option<&HookWindow>)
        ensures
            h == self.hook_view(),
    {
        match &self.hooks {
            Some(h) => Some(h),
            None => None,
        }
    }

    /// Guest memory.
    #[must_use]
    pub fn memory_ref(&self) -> (m: &GuestMemory)
        ensures
            *m == self.memory(),
            m.bytes() == self.machine().mem,
            self.wf() ==> m.wf(),
    {
        &self.mem
    }

    /// Reads guest bytes.
    pub fn mem_read_into(&self, address: u64, bytes: &mut [u8]) -> (r: Result<(), CpuError>)
        requires
            self.wf(),
        ensures
            read_outcome(self.machine().mem, address, old(bytes)@, r, final(bytes)@),
    {
        self.mem.read(address, bytes)
    }

    /// One step, with its outcome as it is. The instruction pointer is recorded
    /// first; a completed instruction counts.
    pub fn step_once_result(&mut self) -> (r: Result<StepResult, CpuError>)
        requires
            old(self).wf(),
        ensures
            final(self).wf(),
            final(self).hook() == old(self).hook(),
            final(self).trace() == traced(old(self).trace(), old(self).machine().regs.rip),
            final(self).steps() == if r == Ok::<StepResult, CpuError>(StepResult::Continue) {
                counted_up(old(self).steps())
            } else {
                old(self).steps()
            },
            exists|tsc: u64|
                (#[trigger] step_of(old(self).machine(), old(self).hook_view(), tsc)) == (
                    final(self).machine(),
                    stepped(r),
                ),
    {
        let rip: u64 = self.regs.rip();
        self.push_rip_trace(rip);
        let ghost h = self.hook_view();
        let hook: Option<&HookWindow> = match &self.hooks {
            Some(h) => Some(h),
            None => None,
        };
        let result = step(&mut self.mem, &mut self.regs, hook);
        match result {
            Ok(StepResult::Continue) => {
                self.iced_steps = self.iced_steps.saturating_add(1);
            },
            _ => {},
        }
        assert(self.trace() =~= traced(old(self).trace(), rip));
        result
    }

    /// Executes a single instruction at the current `RIP`; a host stop and
    /// unmapped memory are errors here.
    pub fn step_once(&mut self) -> (r: Result<(), CpuError>)
        requires
            old(self).wf(),
        ensures
            final(self).wf(),
            final(self).hook() == old(self).hook(),
            final(self).trace() == traced(old(self).trace(), old(self).machine().regs.rip),
            exists|tsc: u64|
                {
                    let (t, what) = #[trigger] step_of(
                        old(self).machine(),
                        old(self).hook_view(),
                        tsc,
                    );
                    &&& final(self).machine() == t
                    &&& once_text(what) is None ==> r is Ok && final(self).steps() == counted_up(
                        old(self).steps(),
                    )
                    &&& once_text(what) matches Some(m) ==> (r matches Err(e) && e.text() == m)
                        && final(self).steps() == old(self).steps()
                },
    {
        match self.step_once_result() {
            Ok(StepResult::Continue) => Ok(()),
            Ok(StepResult::HostStop { address, size: _ }) => Err(
                CpuError::Message(text::with_hex("host_stop at ", address)),
            ),
            Ok(StepResult::InvalidMemory(inv)) => {
                let mut m = "invalid memory ".to_owned();
                text::push_signed_dec(&mut m, inv.access_type as i64);
                m.append(" at ");
                text::push_hex(&mut m, inv.address);
                m.append(" size=");
                text::push_signed_dec(&mut m, inv.size as i64);
                Err(CpuError::Message(m))
            },
            Err(e) => Err(e),
        }
    }

    /// Registers a named layout range.
    pub fn register_region(&mut self, region: GuestRegion)
        requires
            old(self).wf(),
        ensures
            final(self).wf(),
            final(self).state() == old(self).state(),
            final(self).hook() == old(self).hook(),
            final(self).memory().regions() == old(self).memory().regions().push(
                if region.host_base is None {
                    (GuestRegion {
                        host_base: old(self).memory().arena_host_base(region.base),
                        ..region
                    })
                } else {
                    region
                },
            ),
    {
        self.mem.register_region(region);
        assert(self.trace() =~= old(self).trace());
    }

    /// The first registered range that contains `va`.
    #[must_use]
    pub fn find_region(&self, va: u64) -> (r: Option<&GuestRegion>)
        ensures
            match first_covering(self.memory().regions(), va) {
                Some(i) => 0 <= i < self.memory().regions().len() && r == Some(
                    &self.memory().regions()[i],
                ),
                None => r is None,
            },
    {
        self.mem.find_region(va)
    }

    /// Counters in the shape that all backends share.
    #[must_use]
    pub fn cpu_stats(&self) -> (s: JitStats)
        ensures
            s == (JitStats { iced_insns: self.steps(), ..JitStats::zero() }),
    {
        JitStats {
            jit_insns: 0,
            iced_insns: self.iced_steps,
            compiles: 0,
            compile_skip: 0,
            cache_hits: 0,
        }
    }

    /// Active storage backend name.
    #[must_use]
    pub fn mem_backend_name(&self) -> (name: &'static str)
        ensures
            name@ == match self.memory().kind() {
                MemBackendKind::Hash => "hash"@,
                MemBackendKind::Mmap => "mmap"@,
                MemBackendKind::Hybrid => "hybrid"@,
            },
    {
        self.mem.backend_name()
    }
}

/// The error of a single step that did not complete.
pub open spec fn once_text(what: Stepped) -> Option<Seq<char>> {
    match what {
        Stepped::Continue => None,
        Stepped::HostStop(address, _) => Some("host_stop at "@ + text::hex(address as nat)),
        Stepped::Invalid(inv) => Some(
            "invalid memory "@ + text::signed_dec(inv.access_type as int) + " at "@ + text::hex(
                inv.address as nat,
            ) + " size="@ + text::signed_dec(inv.size as int),
        ),
        Stepped::Failed(m) => Some(m),
    }
}

impl CpuEngine for IcedCpu {
    closed spec fn wf(&self) -> bool {
        &&& self.mem.wf()
        &&& self.ring_wf()
    }

    closed spec fn machine(&self) -> Machine {
        machine(self.mem, self.regs@)
    }

    fn mem_map(&mut self, address: u64, size: usize, perms: u32) -> (r: Result<(), CpuError>)
        ensures
            final(self).trace() == old(self).trace(),
            final(self).steps() == old(self).steps(),
            final(self).hook() == old(self).hook(),
            final(self).memory().kind() == old(self).memory().kind(),
            final(self).memory().regions() == match final(self).memory().arena_host_base(address) {
                Some(host) if r is Ok => old(self).memory().regions().map_values(
                    |g: GuestRegion| backfilled(g, address, host),
                ),
                _ => old(self).memory().regions(),
            },
            r is Ok ==> forall|key: u64|
                address <= key * 0x1000 < address + size ==> #[trigger] final(self).memory().host_page(key) is Some,
    {
        let r = self.mem.map(address, size, perms);
        assert(self.trace() =~= old(self).trace());
        r
    }

    fn mem_write(&mut self, address: u64, bytes: &[u8]) -> (r: Result<(), CpuError>)
        ensures
            final(self).trace() == old(self).trace(),
            final(self).steps() == old(self).steps(),
            final(self).hook() == old(self).hook(),
            final(self).memory().kind() == old(self).memory().kind(),
            final(self).memory().regions() == old(self).memory().regions(),
            forall|key: u64| #[trigger]
                final(self).memory().host_page(key) == old(self).memory().host_page(key),
    {
        let r = self.mem.write(address, bytes);
        assert(self.trace() =~= old(self).trace());
        r
    }

    fn mem_read(&mut self, address: u64, bytes: &mut [u8]) -> (r: Result<(), CpuError>)
        ensures
            *final(self) == *old(self),
    {
        self.mem.read(address, bytes)
    }

    fn install_runtime_hooks(
        &mut self,
        hook_begin: u64,
        hook_end: u64,
        stop_bitmap: Vec<u8>,
    ) -> (r: Result<(), CpuError>)
        ensures
            final(self).trace() == old(self).trace(),
            final(self).steps() == old(self).steps(),
            r is Ok ==> final(self).hook() == Some(
                HookWindow { begin: hook_begin, end: hook_end, stop_bitmap },
            ),
            r is Err ==> final(self).hook() == old(self).hook(),
            final(self).memory() == old(self).memory(),
    {
        let range_len: u64 = hook_end.saturating_sub(hook_begin).saturating_add(1);
        let fit: usize = if range_len <= usize::MAX as u64 {
            range_len as usize
        } else {
            usize::MAX
        };
        let expected: usize = fit / 8 + (if fit % 8 != 0 {
            1usize
        } else {
            0usize
        });
        assert(expected == bitmap_bytes_needed(hook_begin, hook_end));
        if stop_bitmap.len() < expected {
            let mut m = text::with_dec("stop_bitmap too small: ", stop_bitmap.len() as u64);
            m.append(" < ");
            text::push_dec(&mut m, expected as u64);
            return Err(CpuError::Message(m));
        }
        self.hooks = Some(HookWindow { begin: hook_begin, end: hook_end, stop_bitmap });
        assert(self.trace() =~= old(self).trace());
        Ok(())
    }

    fn run_until_stop(
        &mut self,
        begin: u64,
        until: u64,
        _timeout: u64,
        count: usize,
        _hook_begin: u64,
        _hook_end: u64,
    ) -> (r: Result<RunUntilHook, CpuError>)
        ensures
            final(self).hook() == old(self).hook(),
            exists|clock: Seq<u64>|
                {
                    let (c, end) = #[trigger] run_of(
                        started(old(self).state(), begin),
                        old(self).hook_view(),
                        until,
                        0,
                        budget_of(count),
                        clock,
                    );
                    &&& final(self).state() == c
                    &&& match end {
                        RunEnd::Failed(m) => r matches Err(e) && e.text() == failure_text(
                            m,
                            c.machine.regs,
                            c.trace,
                        ),
                        _ => r == Ok::<RunUntilHook, CpuError>(run_report(end)),
                    }
                },
    {
        self.regs.set_rip(begin);
        let budget: usize = if count == 0 {
            DEFAULT_BUDGET
        } else {
            count
        };
        let ghost hook = old(self).hook_view();
        let ghost start = self.state();
        let ghost mut done: Seq<u64> = Seq::empty();
        proof {
            assert(self.trace() =~= old(self).trace());
            assert(start == started(old(self).state(), begin));
        }
        let mut executed: usize = 0;
        while executed < budget
            invariant
                self.wf(),
                executed <= budget,
                done.len() == executed,
                self.hook() == old(self).hook(),
                hook == old(self).hook_view(),
                run_prefix(start, hook, until, 0, done) == Some(self.state()),
                start == started(old(self).state(), begin),
                budget == budget_of(count),
            decreases budget - executed,
        {
            let ghost here = self.state();
            if until != 0 && self.regs.rip() == until {
                proof {
                    lemma_run_continues(
                        start,
                        hook,
                        until,
                        0,
                        budget as nat,
                        done,
                        Seq::empty(),
                    );
                    assert(run_of(start, hook, until, 0, budget as nat, done + Seq::empty()) == (
                        self.state(),
                        RunEnd::Finished,
                    ));
                }
                return Ok(
                    RunUntilHook {
                        code: CodeHookOutcome::default(),
                        invalid_memory: InvalidMemoryAccess::default(),
                    },
                );
            }
            let rip_before: u64 = self.regs.rip();
            if executed % 16 == 0 {
                self.push_rip_trace(rip_before);
            }
            let ghost d = self.state();
            assert(d == sampled(here, executed as nat));
            let hook_ref: Option<&HookWindow> = match &self.hooks {
                Some(h) => Some(h),
                None => None,
            };
            assert(hook_ref == hook);
            let result = step(&mut self.mem, &mut self.regs, hook_ref);
            let ghost tsc = choose|tsc: u64|
                (#[trigger] step_of(d.machine, hook, tsc)) == (self.machine(), stepped(result));
            assert(self.trace() =~= d.trace);
            proof {
                lemma_run_continues(start, hook, until, 0, budget as nat, done, seq![tsc]);
            }
            match result {
                Ok(StepResult::Continue) => {
                    proof {
                        lemma_prefix_grows(start, hook, until, 0, done, tsc);
                        done = done.push(tsc);
                    }
                    executed = executed + 1;
                    self.iced_steps = self.iced_steps.saturating_add(1);
                    assert(self.trace() =~= d.trace);
                },
                Ok(StepResult::HostStop { address, size }) => {
                    assert(run_of(start, hook, until, 0, budget as nat, done + seq![tsc]) == (
                        self.state(),
                        RunEnd::Hook(address, size),
                    ));
                    return Ok(
                        RunUntilHook {
                            code: CodeHookOutcome { hit: true, address, size },
                            invalid_memory: InvalidMemoryAccess::default(),
                        },
                    );
                },
                Ok(StepResult::InvalidMemory(inv)) => {
                    assert(run_of(start, hook, until, 0, budget as nat, done + seq![tsc]) == (
                        self.state(),
                        RunEnd::Invalid(inv),
                    ));
                    return Ok(
                        RunUntilHook {
                            code: CodeHookOutcome::default(),
                            invalid_memory: InvalidMemoryAccess {
                                hit: true,
                                access_type: inv.access_type,
                                address: inv.address,
                                size: inv.size,
                                value: inv.value,
                            },
                        },
                    );
                },
                Err(e) => {
                    assert(run_of(start, hook, until, 0, budget as nat, done + seq![tsc]) == (
                        self.state(),
                        RunEnd::Failed(e.text()),
                    ));
                    let trace = self.rip_trace_vec();
                    return Err(
                        CpuError::Message(format_failure(e.message(), &self.regs, &trace)),
                    );
                },
            }
        }
        proof {
            lemma_run_continues(start, hook, until, 0, budget as nat, done, Seq::empty());
            assert(run_of(start, hook, until, 0, budget as nat, done + Seq::empty()) == (
                self.state(),
                RunEnd::Finished,
            ));
        }
        Ok(
            RunUntilHook {
                code: CodeHookOutcome::default(),
                invalid_memory: InvalidMemoryAccess::default(),
            },
        )
    }

    fn return_from_win64_api(&mut self, rax: u64) -> (r: Result<u64, CpuError>)
        ensures
            final(self).trace() == old(self).trace(),
            final(self).steps() == old(self).steps(),
            final(self).hook() == old(self).hook(),
            final(self).memory() == old(self).memory(),
    {
        let rsp: u64 = self.regs.gpr(RSP);
        let mut buf: Vec<u8> = vec![0u8; 8];
        let ghost m = self.mem.bytes();
        proof {
            lemma_mapped_run(m, rsp as int, 8);
        }
        match self.mem.read(rsp, buf.as_mut_slice()) {
            Ok(()) => {
                assert(buf@ =~= load(m, rsp as int, 8));
                let target: u64 = read_le(buf.as_slice());
                self.regs.set_gpr(RSP, rsp.wrapping_add(8));
                self.regs.set_gpr(RAX, rax);
                self.regs.set_rip(target);
                assert(self.trace() =~= old(self).trace());
                Ok(target)
            },
            Err(e) => {
                let mut s = "return_from_win64_api stack read: ".to_owned();
                s.append(e.message());
                proof {
                    reveal_strlit("return_from_win64_api stack read: ");
                    reveal_strlit("mem_read unmapped ");
                    reveal_strlit("return_from_win64_api stack read: mem_read unmapped ");
                    assert("return_from_win64_api stack read: "@ + "mem_read unmapped "@
                        =~= "return_from_win64_api stack read: mem_read unmapped "@);
                    let h = text::hex((rsp + mapped_run(m, rsp as int, 8)) as nat);
                    assert("return_from_win64_api stack read: "@ + ("mem_read unmapped "@ + h)
                        =~= "return_from_win64_api stack read: mem_read unmapped "@ + h);
                }
                Err(CpuError::Message(s))
            },
        }
    }

    fn read_rip(&mut self) -> (r: Result<u64, CpuError>)
        ensures
            *final(self) == *old(self),
    {
        Ok(self.regs.rip())
    }

    fn write_rip(&mut self, value: u64) -> (r: Result<(), CpuError>)
        ensures
            final(self).trace() == old(self).trace(),
            final(self).steps() == old(self).steps(),
            final(self).hook() == old(self).hook(),
            final(self).memory() == old(self).memory(),
    {
        self.regs.set_rip(value);
        assert(self.trace() =~= old(self).trace());
        Ok(())
    }

    fn read_rsp(&mut self) -> (r: Result<u64, CpuError>)
        ensures
            *final(self) == *old(self),
    {
        Ok(self.regs.gpr(RSP))
    }

    fn write_rsp(&mut self, value: u64) -> (r: Result<(), CpuError>)
        ensures
            final(self).trace() == old(self).trace(),
            final(self).steps() == old(self).steps(),
            final(self).hook() == old(self).hook(),
            final(self).memory() == old(self).memory(),
    {
        self.regs.set_gpr(RSP, value);
        assert(self.trace() =~= old(self).trace());
        Ok(())
    }

    fn read_rax(&mut self) -> (r: Result<u64, CpuError>)
        ensures
            *final(self) == *old(self),
    {
        Ok(self.regs.gpr(RAX))
    }

    fn write_rax(&mut self, value: u64) -> (r: Result<(), CpuError>)
        ensures
            final(self).trace() == old(self).trace(),
            final(self).steps() == old(self).steps(),
            final(self).hook() == old(self).hook(),
            final(self).memory() == old(self).memory(),
    {
        self.regs.set_gpr(RAX, value);
        assert(self.trace() =~= old(self).trace());
        Ok(())
    }

    fn read_rcx(&mut self) -> (r: Result<u64, CpuError>)
        ensures
            *final(self) == *old(self),
    {
        Ok(self.regs.gpr(RCX))
    }

    fn write_rcx(&mut self, value: u64) -> (r: Result<(), CpuError>)
        ensures
            final(self).trace() == old(self).trace(),
            final(self).steps() == old(self).steps(),
            final(self).hook() == old(self).hook(),
            final(self).memory() == old(self).memory(),
    {
        self.regs.set_gpr(RCX, value);
        assert(self.trace() =~= old(self).trace());
        Ok(())
    }

    fn read_rdx(&mut self) -> (r: Result<u64, CpuError>)
        ensures
            *final(self) == *old(self),
    {
        Ok(self.regs.gpr(RDX))
    }

    fn write_rdx(&mut self, value: u64) -> (r: Result<(), CpuError>)
        ensures
            final(self).trace() == old(self).trace(),
            final(self).steps() == old(self).steps(),
            final(self).hook() == old(self).hook(),
            final(self).memory() == old(self).memory(),
    {
        self.regs.set_gpr(RDX, value);
        assert(self.trace() =~= old(self).trace());
        Ok(())
    }

    fn read_r8(&mut self) -> (r: Result<u64, CpuError>)
        ensures
            *final(self) == *old(self),
    {
        Ok(self.regs.gpr(R8))
    }

    fn write_r8(&mut self, value: u64) -> (r: Result<(), CpuError>)
        ensures
            final(self).trace() == old(self).trace(),
            final(self).steps() == old(self).steps(),
            final(self).hook() == old(self).hook(),
            final(self).memory() == old(self).memory(),
    {
        self.regs.set_gpr(R8, value);
        assert(self.trace() =~= old(self).trace());
        Ok(())
    }

    fn read_r9(&mut self) -> (r: Result<u64, CpuError>)
        ensures
            *final(self) == *old(self),
    {
        Ok(self.regs.gpr(R9))
    }

    fn write_r9(&mut self, value: u64) -> (r: Result<(), CpuError>)
        ensures
            final(self).trace() == old(self).trace(),
            final(self).steps() == old(self).steps(),
            final(self).hook() == old(self).hook(),
            final(self).memory() == old(self).memory(),
    {
        self.regs.set_gpr(R9, value);
        assert(self.trace() =~= old(self).trace());
        Ok(())
    }

    fn read_rbx(&mut self) -> (r: Result<u64, CpuError>)
        ensures
            *final(self) == *old(self),
    {
        Ok(self.regs.gpr(RBX))
    }

    fn read_r12(&mut self) -> (r: Result<u64, CpuError>)
        ensures
            *final(self) == *old(self),
    {
        Ok(self.regs.gpr(R12))
    }
}

} // verus!
