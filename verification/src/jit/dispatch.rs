//! When guest code is compiled, and what runs next.

use std::collections::HashMap;

use vstd::prelude::*;

use crate::cpu::{CodeHookOutcome, CpuEngine, InvalidMemoryAccess, JitStats, RunUntilHook};
use crate::exec::hook::{stopped, HookWindow};
use crate::exec::model::InvalidMem;
use crate::iced_cpu::{counted_up, run_report, IcedCpu, RunEnd};
use crate::jit::block::{
    decode_pure_gpr_block, is_self_loop, loops_to, scanned, worthwhile, BlockTerm, Scan,
    MAX_BLOCK_INSNS,
};
use crate::jit::chain::{ChainTable, ShadowStack};
use crate::jit::compile::{
    compilable, compile_block, faithful, links, predicts, CompiledBlock,
};
use crate::jit::fast_api::FastApiKind;
use crate::jit::thunk::{final_target, resolve_thunk_va, MAX_HOPS};
use crate::jit::tlb::Tlb;
use crate::mem::model::Bytes;

verus! {

/// Visits after which a block is compiled.
pub const HOTNESS: u32 = 100;

/// Visits after which a block that loops to its own start is compiled.
pub const LOOP_HOTNESS: u32 = 16;

/// Visits after which a block that calls a C runtime function is compiled.
pub const CALL_HOTNESS: u32 = 2;

/// A compiled block in host memory.
#[derive(Debug, Clone, Copy, PartialEq, Eq, Structural)]
pub struct Native {
    /// Where its code starts.
    pub entry: u64,
    /// The number of its function.
    pub id: u32,
    /// How many guest instructions it stands for.
    pub insn_count: u32,
}

/// What is known of the code at an address.
#[derive(Debug, Clone, Copy, PartialEq, Eq, Structural)]
pub enum CacheEntry {
    /// It is compiled.
    Ready(Native),
    /// It is not to be compiled.
    Never,
    /// It was visited so many times.
    Hot(u32),
}

/// What to do with the code at an address.
#[derive(Debug, Clone, Copy, PartialEq, Eq, Structural)]
pub enum Visit {
    /// Run the compiled block.
    Run(Native),
    /// Compile it.
    Compile,
    /// Interpret one instruction.
    Interpret,
}

/// What a run does next.
#[derive(Debug, Clone, Copy, PartialEq, Eq, Structural)]
pub enum RunStep {
    /// The budget is used up, or the end address was reached.
    Finished,
    /// The host takes over at the address.
    HostStop(u64),
    /// Run the compiled block.
    Native(Native),
    /// Look at the code at the instruction pointer.
    Step,
}

/// The block at `rip`, if there is one that is worth compiling.
pub open spec fn block_at(m: Bytes, hook: Option<&HookWindow>, rip: u64) -> Option<Scan> {
    let s = scanned(m, hook, rip, MAX_BLOCK_INSNS as nat);
    if worthwhile(s) {
        Some(s)
    } else {
        None
    }
}

/// The C runtime function that the call at the end of a block leads to.
pub open spec fn called_function(
    fast: Map<u64, FastApiKind>,
    m: Bytes,
    term: Option<BlockTerm>,
) -> Option<FastApiKind> {
    match term {
        Some(BlockTerm::Call { target, return_ip }) => {
            let va = final_target(m, target, MAX_HOPS as nat);
            if fast.contains_key(va) {
                Some(fast[va])
            } else {
                None
            }
        },
        _ => None,
    }
}

/// The block at `rip` ends in a call of a C runtime function.
pub open spec fn calls_fast(
    fast: Map<u64, FastApiKind>,
    m: Bytes,
    hook: Option<&HookWindow>,
    rip: u64,
) -> bool {
    block_at(m, hook, rip) matches Some(s) && called_function(fast, m, s.term) is Some
}

/// Visits after which the code at `rip` is compiled, where `hotness` is the number
/// for ordinary code.
pub open spec fn threshold(
    fast: Map<u64, FastApiKind>,
    m: Bytes,
    hook: Option<&HookWindow>,
    rip: u64,
    hotness: u32,
) -> u32 {
    if calls_fast(fast, m, hook, rip) {
        CALL_HOTNESS
    } else if hotness > LOOP_HOTNESS && (block_at(m, hook, rip) matches Some(s) && loops_to(
        s.term,
        rip,
    )) {
        LOOP_HOTNESS
    } else {
        hotness
    }
}

/// One visit more.
pub open spec fn visited(n: u32) -> u32 {
    if n < u32::MAX {
        (n + 1) as u32
    } else {
        n
    }
}

/// What a visit of an address with the given entry leads to, and the entry
/// afterwards.
pub open spec fn visit_of(
    entry: Option<CacheEntry>,
    threshold: u32,
    hotness: u32,
) -> (Visit, Option<CacheEntry>) {
    match entry {
        Some(CacheEntry::Ready(n)) => (Visit::Run(n), entry),
        Some(CacheEntry::Never) => (Visit::Interpret, entry),
        Some(CacheEntry::Hot(n)) => if threshold > 0 && visited(n) < threshold {
            (Visit::Interpret, Some(CacheEntry::Hot(visited(n))))
        } else {
            (Visit::Compile, entry)
        },
        None => if hotness == 0 {
            (Visit::Compile, None)
        } else {
            (Visit::Interpret, Some(CacheEntry::Hot(1)))
        },
    }
}

/// The entry of an address.
pub open spec fn entry_of(cache: Map<u64, CacheEntry>, va: u64) -> Option<CacheEntry> {
    if cache.contains_key(va) {
        Some(cache[va])
    } else {
        None
    }
}

/// What the block compiler knows.
pub struct JitState {
    /// What is known of the code at each address.
    pub cache: HashMap<u64, CacheEntry>,
    /// The numbers of the functions of compiled blocks.
    pub ready: HashMap<u64, u32>,
    /// Counters.
    pub stats: JitStats,
    /// The addresses of C runtime functions.
    pub fast_api: HashMap<u64, FastApiKind>,
    /// Compiled blocks by address, for compiled code.
    pub chain: ChainTable,
    /// Predicted return addresses.
    pub shadow: ShadowStack,
    /// The pages that were used last.
    pub tlb: Tlb,
}

/// The numbers of compiled blocks are those of the cache.
pub open spec fn same_blocks(cache: Map<u64, CacheEntry>, ready: Map<u64, u32>) -> bool {
    forall|va: u64|
        #![trigger ready.contains_key(va)]
        #![trigger cache.contains_key(va)]
        ready.contains_key(va) == (cache.contains_key(va) && cache[va] is Ready) && (
        ready.contains_key(va) ==> cache[va] == CacheEntry::Ready(
            Native { id: ready[va], ..cache[va]->Ready_0 },
        ))
}

/// A fresh empty table of entries.
fn no_entries() -> (m: HashMap<u64, CacheEntry>)
    ensures
        m@ == Map::<u64, CacheEntry>::empty(),
{
    HashMap::new()
}

impl JitState {
    /// The invariant.
    pub open spec fn wf(self) -> bool {
        same_blocks(self.cache@, self.ready@)
    }

    /// Nothing is compiled, chained or predicted.
    pub open spec fn forgotten(self) -> bool {
        &&& self.cache@ == Map::<u64, CacheEntry>::empty()
        &&& self.chain.va@ == Seq::new(512, |i: int| 0u64)
        &&& self.chain.target@ == Seq::new(512, |i: int| 0u64)
        &&& self.shadow.sp == 0
        &&& self.shadow.ret@ == Seq::new(32, |i: int| 0u64)
    }

    /// Nothing is known.
    pub fn new() -> (s: Self)
        ensures
            s.wf(),
            s.forgotten(),
            s.tlb.is_empty(),
            s.stats == JitStats::zero(),
            s.fast_api@ == Map::<u64, FastApiKind>::empty(),
    {
        broadcast use vstd::std_specs::hash::group_hash_axioms;

        JitState {
            cache: no_entries(),
            ready: HashMap::new(),
            stats: JitStats::default(),
            fast_api: HashMap::new(),
            chain: ChainTable::new(),
            shadow: ShadowStack::new(),
            tlb: Tlb::new(),
        }
    }

    /// Forgets all compiled blocks.
    fn clear_cache(&mut self)
        ensures
            final(self).wf(),
            final(self).cache@ == Map::<u64, CacheEntry>::empty(),
            final(self).stats == old(self).stats,
            final(self).fast_api == old(self).fast_api,
            final(self).chain == old(self).chain,
            final(self).shadow == old(self).shadow,
            final(self).tlb == old(self).tlb,
    {
        broadcast use vstd::std_specs::hash::group_hash_axioms;

        self.cache = no_entries();
        self.ready = HashMap::new();
    }

    /// Forgets how blocks are chained and which return addresses are predicted.
    pub fn invalidate_chain_and_shadow(&mut self)
        ensures
            final(self).chain.va@ == Seq::new(512, |i: int| 0u64),
            final(self).chain.target@ == Seq::new(512, |i: int| 0u64),
            final(self).shadow.sp == 0,
            final(self).shadow.ret@ == Seq::new(32, |i: int| 0u64),
            final(self).cache == old(self).cache,
            final(self).ready == old(self).ready,
            final(self).stats == old(self).stats,
            final(self).fast_api == old(self).fast_api,
            final(self).tlb == old(self).tlb,
    {
        self.chain.chain_table_clear();
        self.shadow = ShadowStack::new();
    }

    /// Takes the addresses of C runtime functions. Blocks that were compiled
    /// without them are forgotten.
    pub fn configure_fast_path(&mut self, by_va: HashMap<u64, FastApiKind>)
        ensures
            final(self).wf(),
            final(self).forgotten(),
            final(self).fast_api == by_va,
            final(self).stats == old(self).stats,
            final(self).tlb == old(self).tlb,
    {
        self.fast_api = by_va;
        self.clear_cache();
        self.invalidate_chain_and_shadow();
    }

    /// Guest code or the addresses at which the host takes over may have changed:
    /// forgets everything but the counters and the C runtime functions.
    pub fn invalidate_all(&mut self)
        ensures
            final(self).wf(),
            final(self).forgotten(),
            final(self).tlb.is_empty(),
            final(self).fast_api == old(self).fast_api,
            final(self).stats == old(self).stats,
    {
        self.clear_cache();
        self.tlb.invalidate();
        self.invalidate_chain_and_shadow();
    }

    /// The C runtime function that the call at the end of a block leads to.
    fn call_fast(&self, cpu: &IcedCpu, term: Option<BlockTerm>) -> (r: Option<FastApiKind>)
        requires
            cpu.wf(),
        ensures
            r == called_function(self.fast_api@, cpu.machine().mem, term),
    {
        broadcast use vstd::std_specs::hash::group_hash_axioms;

        match term {
            Some(BlockTerm::Call { target, return_ip: _ }) => {
                let va: u64 = resolve_thunk_va(cpu, target);
                match self.fast_api.get(&va) {
                    Some(kind) => Some(*kind),
                    None => None,
                }
            },
            _ => None,
        }
    }

    /// Whether the block at `rip` ends in a call of a C runtime function.
    pub fn peek_fast_ucrt_call(&self, cpu: &IcedCpu, rip: u64) -> (r: bool)
        requires
            cpu.wf(),
        ensures
            r == calls_fast(self.fast_api@, cpu.machine().mem, cpu.hook_view(), rip),
    {
        match decode_pure_gpr_block(cpu, rip) {
            Some(b) => self.call_fast(cpu, b.term).is_some(),
            None => false,
        }
    }

    /// Visits after which the code at `rip` is compiled.
    fn threshold_at(&self, cpu: &IcedCpu, rip: u64, hotness: u32) -> (r: u32)
        requires
            cpu.wf(),
        ensures
            r == threshold(
                self.fast_api@,
                cpu.machine().mem,
                cpu.hook_view(),
                rip,
                hotness,
            ),
    {
        match decode_pure_gpr_block(cpu, rip) {
            Some(b) => {
                if self.call_fast(cpu, b.term).is_some() {
                    CALL_HOTNESS
                } else if hotness > LOOP_HOTNESS && is_self_loop(b.term, rip) {
                    LOOP_HOTNESS
                } else {
                    hotness
                }
            },
            None => hotness,
        }
    }

    /// Decides what to do with the code at `rip`, and counts the visit.
    pub fn visit(&mut self, cpu: &IcedCpu, rip: u64, hotness: u32) -> (v: Visit)
        requires
            old(self).wf(),
            cpu.wf(),
        ensures
            final(self).wf(),
            ({
                let m = cpu.machine().mem;
                let h = cpu.hook_view();
                let fast = old(self).fast_api@;
                let (want, entry) = visit_of(
                    entry_of(old(self).cache@, rip),
                    threshold(fast, m, h, rip, hotness),
                    hotness,
                );
                &&& v == want
                &&& final(self).cache@ == match entry {
                    Some(x) => old(self).cache@.insert(rip, x),
                    None => old(self).cache@,
                }
            }),
            final(self).stats == if v is Run {
                (JitStats {
                    cache_hits: counted_up(old(self).stats.cache_hits),
                    ..old(self).stats
                })
            } else {
                old(self).stats
            },
            final(self).fast_api == old(self).fast_api,
            final(self).chain == old(self).chain,
            final(self).shadow == old(self).shadow,
            final(self).tlb == old(self).tlb,
    {
        broadcast use vstd::std_specs::hash::group_hash_axioms;

        let entry: Option<CacheEntry> = match self.cache.get(&rip) {
            Some(e) => Some(*e),
            None => None,
        };
        assert(entry == entry_of(self.cache@, rip));
        let v = match entry {
            Some(CacheEntry::Ready(n)) => {
                self.stats.cache_hits = self.stats.cache_hits.saturating_add(1);
                assert(self.cache@ =~= self.cache@.insert(rip, CacheEntry::Ready(n)));
                Visit::Run(n)
            },
            Some(CacheEntry::Never) => {
                assert(self.cache@ =~= self.cache@.insert(rip, CacheEntry::Never));
                Visit::Interpret
            },
            Some(CacheEntry::Hot(n)) => {
                let next: u32 = n.saturating_add(1);
                let limit: u32 = self.threshold_at(cpu, rip, hotness);
                if limit > 0 && next < limit {
                    self.cache.insert(rip, CacheEntry::Hot(next));
                    Visit::Interpret
                } else {
                    assert(self.cache@ =~= self.cache@.insert(rip, CacheEntry::Hot(n)));
                    Visit::Compile
                }
            },
            None => {
                if hotness == 0 {
                    Visit::Compile
                } else {
                    self.cache.insert(rip, CacheEntry::Hot(1));
                    Visit::Interpret
                }
            },
        };
        proof {
            assert forall|va: u64|
                #![trigger self.ready@.contains_key(va)]
                self.ready@.contains_key(va) == (self.cache@.contains_key(va) && self.cache@[va]
                    is Ready) && (self.ready@.contains_key(va) ==> self.cache@[va]
                    == CacheEntry::Ready(
                    Native { id: self.ready@[va], ..self.cache@[va]->Ready_0 },
                )) by {
                assert(old(self).ready@.contains_key(va) == (old(self).cache@.contains_key(va)
                    && old(self).cache@[va] is Ready));
            }
        }
        v
    }

    /// The compiled form of the block at `rip`; `None` if there is no block that is
    /// worth compiling, or if it cannot be compiled.
    pub fn try_compile(&self, cpu: &IcedCpu, rip: u64) -> (r: Option<CompiledBlock>)
        requires
            cpu.wf(),
        ensures
            ({
                let m = cpu.machine().mem;
                match block_at(m, cpu.hook_view(), rip) {
                    None => r is None,
                    Some(s) => {
                        &&& r is Some == compilable(s.insns, s.term)
                        &&& r matches Some(c) ==> {
                            &&& c.wf()
                            &&& c.start == rip
                            &&& c.insn_count == s.insns.len()
                            &&& links(
                                c.tail,
                                self.ready@,
                                rip,
                                s.end_rip,
                                s.term,
                                called_function(self.fast_api@, m, s.term),
                            )
                            &&& predicts(
                                c.prediction,
                                c.tail,
                                s.term,
                                called_function(self.fast_api@, m, s.term),
                            )
                            &&& faithful(
                                c,
                                s.insns,
                                s.end_rip,
                                s.term,
                                called_function(self.fast_api@, m, s.term),
                            )
                        }
                    },
                }
            }),
    {
        let b = match decode_pure_gpr_block(cpu, rip) {
            Some(b) => b,
            None => {
                return None;
            },
        };
        proof {
            crate::jit::dispatch::lemma_scan_len(
                cpu.machine().mem,
                cpu.hook_view(),
                rip,
                MAX_BLOCK_INSNS as nat,
            );
        }
        let host = self.call_fast(cpu, b.term);
        match compile_block(rip, b.insns.as_slice(), b.end_rip, b.term, host, &self.ready) {
            Ok(c) => Some(c),
            Err(_) => None,
        }
    }

    /// Records whether the block at `rip` was compiled, and decides what to do
    /// with it.
    pub fn compiled(&mut self, rip: u64, block: Option<Native>) -> (v: Visit)
        requires
            old(self).wf(),
        ensures
            final(self).wf(),
            match block {
                Some(n) => {
                    &&& v == Visit::Run(n)
                    &&& final(self).cache@ == old(self).cache@.insert(rip, CacheEntry::Ready(n))
                    &&& final(self).stats == (JitStats {
                        compiles: counted_up(old(self).stats.compiles),
                        ..old(self).stats
                    })
                    &&& rip != 0 && n.entry != 0 ==> {
                        let i = crate::jit::chain::insert_slot(old(self).chain.va@, rip);
                        &&& final(self).chain.va@ == old(self).chain.va@.update(i, rip)
                        &&& final(self).chain.target@ == old(self).chain.target@.update(
                            i,
                            n.entry,
                        )
                    }
                    &&& rip == 0 || n.entry == 0 ==> final(self).chain == old(self).chain
                },
                None => {
                    &&& v == Visit::Interpret
                    &&& final(self).cache@ == old(self).cache@.insert(rip, CacheEntry::Never)
                    &&& final(self).stats == (JitStats {
                        compile_skip: counted_up(old(self).stats.compile_skip),
                        ..old(self).stats
                    })
                    &&& final(self).chain == old(self).chain
                },
            },
            final(self).fast_api == old(self).fast_api,
            final(self).shadow == old(self).shadow,
            final(self).tlb == old(self).tlb,
    {
        broadcast use vstd::std_specs::hash::group_hash_axioms;

        let v = match block {
            Some(n) => {
                self.stats.compiles = self.stats.compiles.saturating_add(1);
                self.chain.chain_table_insert(rip, n.entry);
                self.cache.insert(rip, CacheEntry::Ready(n));
                self.ready.insert(rip, n.id);
                Visit::Run(n)
            },
            None => {
                self.stats.compile_skip = self.stats.compile_skip.saturating_add(1);
                self.cache.insert(rip, CacheEntry::Never);
                self.ready.remove(&rip);
                Visit::Interpret
            },
        };
        proof {
            assert forall|va: u64|
                #![trigger self.ready@.contains_key(va)]
                self.ready@.contains_key(va) == (self.cache@.contains_key(va) && self.cache@[va]
                    is Ready) && (self.ready@.contains_key(va) ==> self.cache@[va]
                    == CacheEntry::Ready(
                    Native { id: self.ready@[va], ..self.cache@[va]->Ready_0 },
                )) by {
                assert(old(self).ready@.contains_key(va) == (old(self).cache@.contains_key(va)
                    && old(self).cache@[va] is Ready));
            }
        }
        v
    }

    /// An instruction was interpreted, or the host returned from a call: the
    /// predictions do not know of it.
    pub fn interpreted(&mut self, counts: bool)
        ensures
            final(self).shadow.sp == 0,
            final(self).shadow.ret@ == old(self).shadow.ret@,
            final(self).stats == if counts {
                (JitStats {
                    iced_insns: counted_up(old(self).stats.iced_insns),
                    ..old(self).stats
                })
            } else {
                old(self).stats
            },
            final(self).cache == old(self).cache,
            final(self).ready == old(self).ready,
            final(self).fast_api == old(self).fast_api,
            final(self).chain == old(self).chain,
            final(self).tlb == old(self).tlb,
    {
        self.shadow.drop_predictions();
        if counts {
            self.stats.iced_insns = self.stats.iced_insns.saturating_add(1);
        }
    }

    /// A compiled block ran to its end: how many instructions that counts for.
    pub fn finish_compiled(&mut self, n: Native) -> (retired: usize)
        ensures
            retired == n.insn_count,
            final(self).stats == (JitStats {
                jit_insns: if old(self).stats.jit_insns + n.insn_count <= u64::MAX {
                    (old(self).stats.jit_insns + n.insn_count) as u64
                } else {
                    u64::MAX
                },
                ..old(self).stats
            }),
            final(self).cache == old(self).cache,
            final(self).ready == old(self).ready,
            final(self).fast_api == old(self).fast_api,
            final(self).chain == old(self).chain,
            final(self).shadow == old(self).shadow,
            final(self).tlb == old(self).tlb,
    {
        self.stats.jit_insns = self.stats.jit_insns.saturating_add(n.insn_count as u64);
        n.insn_count as usize
    }

    /// Decides what a run does next, after `executed` instructions of `budget`.
    /// Compiled blocks run one after the other without another look.
    pub fn next_step(
        &mut self,
        cpu: &IcedCpu,
        until: u64,
        executed: usize,
        budget: usize,
        native: bool,
    ) -> (s: RunStep)
        requires
            old(self).wf(),
            cpu.wf(),
        ensures
            final(self).wf(),
            ({
                let rip = cpu.machine().regs.rip;
                s == if executed >= budget || (until != 0 && rip == until) {
                    RunStep::Finished
                } else if stopped(cpu.hook_view(), rip) {
                    RunStep::HostStop(rip)
                } else if native && (entry_of(old(self).cache@, rip) matches Some(CacheEntry::Ready(
                    _,
                ))) {
                    RunStep::Native(old(self).cache@[rip]->Ready_0)
                } else {
                    RunStep::Step
                }
            }),
            final(self).stats == if s is Native {
                (JitStats {
                    cache_hits: counted_up(old(self).stats.cache_hits),
                    ..old(self).stats
                })
            } else {
                old(self).stats
            },
            final(self).cache == old(self).cache,
            final(self).ready == old(self).ready,
            final(self).fast_api == old(self).fast_api,
            final(self).chain == old(self).chain,
            final(self).shadow == old(self).shadow,
            final(self).tlb == old(self).tlb,
    {
        broadcast use vstd::std_specs::hash::group_hash_axioms;

        if executed >= budget {
            return RunStep::Finished;
        }
        let rip: u64 = cpu.regs().rip();
        if until != 0 && rip == until {
            return RunStep::Finished;
        }
        let stop: bool = match cpu.hooks_ref() {
            Some(h) => h.should_host_stop(rip),
            None => false,
        };
        if stop {
            return RunStep::HostStop(rip);
        }
        if native {
            match self.cache.get(&rip) {
                Some(CacheEntry::Ready(n)) => {
                    let n: Native = *n;
                    self.stats.cache_hits = self.stats.cache_hits.saturating_add(1);
                    return RunStep::Native(n);
                },
                _ => {},
            }
        }
        RunStep::Step
    }
}

/// A block is no longer than its limit.
pub proof fn lemma_scan_len(m: Bytes, hook: Option<&HookWindow>, rip: u64, left: nat)
    ensures
        scanned(m, hook, rip, left).insns.len() <= left,
    decreases left,
{
    if left > 0 {
        match crate::jit::block::instr_at(m, hook, rip) {
            Some(i) => {
                lemma_scan_len(m, hook, i.next_ip, (left - 1) as nat);
            },
            None => {},
        }
    }
}

/// Instructions that a run has executed after `retired` more; a step counts for at
/// least one.
pub fn spend(executed: usize, retired: usize) -> (n: usize)
    ensures
        n == spent(executed, retired),
{
    let more: usize = if retired == 0 {
        1
    } else {
        retired
    };
    executed.saturating_add(more)
}

/// Instructions that a run has executed after `retired` more.
pub open spec fn spent(executed: usize, retired: usize) -> int {
    let more = if retired == 0 {
        1
    } else {
        retired as int
    };
    if executed + more > usize::MAX {
        usize::MAX as int
    } else {
        executed + more
    }
}

/// Every step of a run uses up budget, so that a run takes at most as many steps
/// as its budget has instructions.
pub proof fn budget_is_used_up(executed: usize, retired: usize, budget: usize)
    requires
        executed < budget,
    ensures
        executed < spent(executed, retired),
{
}

/// What a run reports that the host takes over from.
pub fn report_hook(address: u64, size: u32) -> (r: RunUntilHook)
    ensures
        r == run_report(RunEnd::Hook(address, size)),
{
    RunUntilHook {
        code: CodeHookOutcome { hit: true, address, size },
        invalid_memory: InvalidMemoryAccess::default(),
    }
}

/// What a run reports that touched unmapped memory.
pub fn report_invalid(inv: InvalidMem) -> (r: RunUntilHook)
    ensures
        r == run_report(RunEnd::Invalid(inv)),
{
    RunUntilHook {
        code: CodeHookOutcome::default(),
        invalid_memory: InvalidMemoryAccess {
            hit: true,
            access_type: inv.access_type,
            address: inv.address,
            size: inv.size,
            value: inv.value,
        },
    }
}

/// What a run reports that used up its budget or reached its end address.
pub fn report_finished() -> (r: RunUntilHook)
    ensures
        r == run_report(RunEnd::Finished),
{
    RunUntilHook {
        code: CodeHookOutcome::default(),
        invalid_memory: InvalidMemoryAccess::default(),
    }
}

} // verus!
