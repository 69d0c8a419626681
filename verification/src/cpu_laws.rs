//! Steps and runs of the interpreter, and the memory under them.

use vstd::prelude::*;

use crate::ascii::lower;
use crate::cpu::{bitmap_bytes_needed, us_of};
use crate::error::CpuError;
use crate::exec::access::{loaded, stored};
use crate::exec::hook::{stopped, HookWindow};
use crate::exec::model::{Fault, Machine};
use crate::exec::operand::{operand_bytes, operand_value};
use crate::exec::step::{executed, step_of, Stepped};
use crate::iced_cpu::{
    budget_of, counted_up, run_of, run_report, sampled, started, traced, CpuState, RunEnd,
};
use crate::insn::decode::decoded;
use crate::insn::instr::Instr;
use crate::insn::mnemonic;
use crate::jit::tlb::first_slot;
use crate::mem::backend::{fetch_outcome, map_outcome, read_outcome, write_outcome};
use crate::mem::guest::{in_arenas, GuestMemory, MemBackendKind};
use crate::mem::hashmap::sparse_host;
use crate::mem::model::{is_mapped, lemma_mapped_run, load, lemma_mapped_run_is, Bytes};
use crate::mem::protect::{executable, protect_for, readable, supported, writable};
use crate::mem::radix::{level_index, low_bits};
use crate::mem::region::{backfilled, first_covering, GuestRegion};
use crate::regs::modulus;
use crate::runtime::stubs::same;
use crate::text::hex;

verus! {

/// Before anything else a step looks whether the host takes over here.
pub proof fn hosts_come_first(s: Machine, hook: Option<&HookWindow>, tsc: u64)
    requires
        stopped(hook, s.regs.rip),
    ensures
        step_of(s, hook, tsc).0 == s,
        step_of(s, hook, tsc).1 matches Stepped::HostStop(address, _) && address == s.regs.rip,
{
}

/// An instruction that can be fetched and decoded is executed, and the step goes on where
/// it went; one that does not complete leaves the instruction pointer and tells why.
pub proof fn steps_execute(s: Machine, hook: Option<&HookWindow>, tsc: u64, i: Instr)
    requires
        !stopped(hook, s.regs.rip),
        is_mapped(s.mem, s.regs.rip as int, 15),
        decoded(load(s.mem, s.regs.rip as int, 15), s.regs.rip) == Some(i),
    ensures
        ({
            let (t, f) = executed(s, i, i.next_ip, tsc);
            match f {
                None => step_of(s, hook, tsc) == (t, Stepped::Continue),
                Some(Fault::Memory(inv)) => step_of(s, hook, tsc) == (
                    t.with_regs(t.regs.at(s.regs.rip)),
                    Stepped::Invalid(inv),
                ),
                Some(Fault::Cpu(m)) => step_of(s, hook, tsc) == (
                    t.with_regs(t.regs.at(s.regs.rip)),
                    Stepped::Failed(m),
                ),
            }
        }),
{
    lemma_mapped_run(s.mem, s.regs.rip as int, 15);
}

/// Where not even one byte can be fetched, the step tells so and changes nothing.
pub proof fn fetches_can_fail(s: Machine, hook: Option<&HookWindow>, tsc: u64)
    requires
        !stopped(hook, s.regs.rip),
        !s.mem.contains_key(s.regs.rip as int),
    ensures
        step_of(s, hook, tsc).0 == s,
        step_of(s, hook, tsc).1 matches Stepped::Invalid(inv) && inv.address == s.regs.rip
            && inv.size == 1 && inv.value == 0,
{
}

/// One step.
#[verifier::opaque]
pub open spec fn one_step(s: Machine, hook: Option<&HookWindow>, tsc: u64) -> (Machine, Stepped) {
    step_of(s, hook, tsc)
}

/// The machine after so many steps that all completed, with the clock that each reads.
pub open spec fn after_steps(
    s: Machine,
    hook: Option<&HookWindow>,
    clock: Seq<u64>,
    n: nat,
) -> Option<Machine>
    decreases n,
{
    if n == 0 {
        Some(s)
    } else {
        let (t, what) = one_step(s, hook, clock[0]);
        if what is Continue {
            after_steps(t, hook, clock.drop_first(), (n - 1) as nat)
        } else {
            None
        }
    }
}

/// A run.
#[verifier::opaque]
spec fn whole_run(
    c: CpuState,
    hook: Option<&HookWindow>,
    until: u64,
    k: nat,
    budget: nat,
    clock: Seq<u64>,
) -> (CpuState, RunEnd) {
    run_of(c, hook, until, k, budget, clock)
}

/// A run by its first step.
proof fn lemma_run_once(
    c: CpuState,
    hook: Option<&HookWindow>,
    until: u64,
    k: nat,
    budget: nat,
    clock: Seq<u64>,
)
    ensures
        ({
            let d = crate::iced_cpu::sampled(c, k);
            let (t, what) = one_step(d.machine, hook, clock[0]);
            let e = CpuState { machine: t, ..d };
            whole_run(c, hook, until, k, budget, clock) == if k >= budget || (until != 0
                && c.machine.regs.rip == until) {
                (c, RunEnd::Finished)
            } else {
                match what {
                    Stepped::Continue => whole_run(
                        CpuState { steps: crate::iced_cpu::counted_up(d.steps), ..e },
                        hook,
                        until,
                        k + 1,
                        budget,
                        clock.drop_first(),
                    ),
                    Stepped::HostStop(address, size) => (e, RunEnd::Hook(address, size)),
                    Stepped::Invalid(inv) => (e, RunEnd::Invalid(inv)),
                    Stepped::Failed(m) => (e, RunEnd::Failed(m)),
                }
            }
        }),
{
    reveal(one_step);
    reveal(whole_run);
}

/// What a run comes to after so many completed steps.
pub open spec fn came_to(
    c: CpuState,
    hook: Option<&HookWindow>,
    until: u64,
    left: int,
    clock: Seq<u64>,
    d: CpuState,
    end: RunEnd,
    n: nat,
) -> bool {
    let last = after_steps(c.machine, hook, clock, n)->0;
    let (t, what) = one_step(last, hook, clock[n as int]);
    &&& n <= left
    &&& after_steps(c.machine, hook, clock, n) is Some
    &&& c.steps + n <= u64::MAX ==> d.steps == c.steps + n
    &&& forall|j: nat|
        j < n ==> !(until != 0 && (#[trigger] after_steps(
            c.machine,
            hook,
            clock,
            j,
        ))->0.regs.rip == until)
    &&& match end {
        RunEnd::Finished => d.machine == last && (n == left || (until != 0 && last.regs.rip
            == until)),
        RunEnd::Hook(address, size) => n < left && d.machine == t && what == Stepped::HostStop(
            address,
            size,
        ),
        RunEnd::Invalid(inv) => n < left && d.machine == t && what == Stepped::Invalid(inv),
        RunEnd::Failed(m) => n < left && d.machine == t && what == Stepped::Failed(m),
    }
}

/// A run comes to something.
proof fn lemma_came_to(
    c: CpuState,
    hook: Option<&HookWindow>,
    until: u64,
    k: nat,
    budget: nat,
    clock: Seq<u64>,
) -> (n: nat)
    requires
        k <= budget,
        clock.len() >= budget - k,
    ensures
        came_to(
            c,
            hook,
            until,
            budget - k,
            clock,
            whole_run(c, hook, until, k, budget, clock).0,
            whole_run(c, hook, until, k, budget, clock).1,
            n,
        ),
    decreases budget - k,
{
    lemma_run_once(c, hook, until, k, budget, clock);
    if k >= budget || (until != 0 && c.machine.regs.rip == until) {
        0
    } else {
        let d = crate::iced_cpu::sampled(c, k);
        let (t, what) = one_step(d.machine, hook, clock[0]);
        if what is Continue {
            let e = CpuState {
                machine: t,
                trace: d.trace,
                steps: crate::iced_cpu::counted_up(d.steps),
            };
            let rest = clock.drop_first();
            let n = lemma_came_to(e, hook, until, k + 1, budget, rest);
            let m = n + 1;
            assert(after_steps(c.machine, hook, clock, m) == after_steps(t, hook, rest, n));
            if n < budget - (k + 1) {
                assert(rest[n as int] == clock[m as int]);
            }
            assert forall|j: nat| j < m implies !(until != 0 && (#[trigger] after_steps(
                c.machine,
                hook,
                clock,
                j,
            ))->0.regs.rip == until) by {
                if j > 0 {
                    let i = (j - 1) as nat;
                    assert(after_steps(c.machine, hook, clock, j) == after_steps(t, hook, rest, i));
                    assert(!(until != 0 && after_steps(t, hook, rest, i)->0.regs.rip == until));
                } else {
                    assert(after_steps(c.machine, hook, clock, 0) == Some(c.machine));
                }
            }
            m
        } else {
            assert(after_steps(c.machine, hook, clock, 0) == Some(c.machine));
            0
        }
    }
}

/// A run makes steps until its budget is used up, the instruction pointer is at the end
/// that was set, or a step does not complete; it counts the steps that did. The proof
/// gives their number. The clock has a reading for each step of the budget.
pub proof fn runs_make_steps(
    c: CpuState,
    hook: Option<&HookWindow>,
    until: u64,
    k: nat,
    budget: nat,
    clock: Seq<u64>,
) -> (n: nat)
    requires
        k <= budget,
        clock.len() >= budget - k,
    ensures
        came_to(
            c,
            hook,
            until,
            budget - k,
            clock,
            run_of(c, hook, until, k, budget, clock).0,
            run_of(c, hook, until, k, budget, clock).1,
            n,
        ),
{
    let n = lemma_came_to(c, hook, until, k, budget, clock);
    assert(whole_run(c, hook, until, k, budget, clock) == run_of(
        c,
        hook,
        until,
        k,
        budget,
        clock,
    )) by {
        reveal(whole_run);
    }
    n
}

/// A run starts where it is told; without a count it may make a hundred million steps.
pub proof fn runs_start(c: CpuState, begin: u64, count: usize)
    ensures
        started(c, begin).machine.regs.rip == begin,
        started(c, begin).machine.mem == c.machine.mem,
        started(c, begin).machine.regs == c.machine.regs.at(begin),
        count > 0 ==> budget_of(count) == count,
        budget_of(0) == 100_000_000,
{
}

/// The trace holds the last addresses, at most 32.
pub proof fn traces_keep_the_last(trace: Seq<u64>, rip: u64)
    requires
        trace.len() <= 32,
    ensures
        traced(trace, rip).len() <= 32,
        traced(trace, rip).last() == rip,
        trace.len() < 32 ==> traced(trace, rip).drop_last() == trace,
        trace.len() == 32 ==> traced(trace, rip).len() == 32 && traced(trace, rip).drop_last()
            == trace.drop_first(),
{
    assert(trace.push(rip).drop_last() =~= trace);
    if trace.len() == 32 {
        assert(trace.drop_first().push(rip).drop_last() =~= trace.drop_first());
    }
}

/// What a run reports: a stop for the host or an invalid access, never both, and what
/// exactly.
pub proof fn runs_report_their_end(end: RunEnd)
    ensures
        ({
            let r = run_report(end);
            &&& r.code.hit == end is Hook
            &&& r.invalid_memory.hit == end is Invalid
            &&& end matches RunEnd::Hook(address, size) ==> r.code.address == address && r.code.size
                == size
            &&& end matches RunEnd::Invalid(inv) ==> {
                &&& r.invalid_memory.access_type == inv.access_type
                &&& r.invalid_memory.address == inv.address
                &&& r.invalid_memory.size == inv.size
                &&& r.invalid_memory.value == inv.value
            }
        }),
{
}

/// A bitmap needs a bit for each address of its window, in as few bytes as hold them.
pub proof fn bitmaps_have_a_bit_for_each(begin: u64, end: u64)
    requires
        begin <= end,
        end - begin < usize::MAX,
        end - begin < u64::MAX,
    ensures
        ({
            let n = bitmap_bytes_needed(begin, end);
            8 * (n - 1) < end - begin + 1 <= 8 * n
        }),
        bitmap_bytes_needed(end, begin) == 1 || begin == end,
{
}

/// Times in microseconds; negative parts count as nothing.
pub proof fn times_in_microseconds(sec: i64, usec: i64)
    ensures
        0 <= sec <= 1_000_000_000_000 && 0 <= usec <= 1_000_000 ==> us_of(sec, usec) == 1_000_000
            * sec + usec,
        sec < 0 ==> us_of(sec, usec) == us_of(0, usec),
        usec < 0 ==> us_of(sec, usec) == us_of(sec, 0),
        0 <= us_of(sec, usec) <= u64::MAX,
{
}

/// Mapping is refused exactly if the range is not of whole pages or too high; otherwise
/// all of it is mapped afterwards, what was mapped keeps its bytes, and the rest is zero.
pub proof fn mapped_memory_is_there(
    before: Bytes,
    address: u64,
    size: usize,
    r: Result<(), CpuError>,
    after: Bytes,
    va: int,
)
    requires
        map_outcome(before, address, size, r, after),
    ensures
        r is Err <==> size > 0 && (address % 0x1000 != 0 || size % 0x1000 != 0 || address + size
            > u64::MAX),
        r is Err ==> after == before,
        r is Ok ==> after.contains_key(va) == (before.contains_key(va) || address <= va < address
            + size),
        before.contains_key(va) ==> after.contains_key(va) && after[va] == before[va],
        r is Ok && !before.contains_key(va) && after.contains_key(va) ==> after[va] == 0,
{
}

/// Writing succeeds exactly if every byte is mapped; bytes are written up to the first that
/// is not, nothing else changes, and nothing gets mapped.
pub proof fn written_memory_holds_it(
    before: Bytes,
    address: u64,
    data: Seq<u8>,
    r: Result<(), CpuError>,
    after: Bytes,
    va: int,
)
    requires
        write_outcome(before, address, data, r, after),
    ensures
        r is Ok <==> is_mapped(before, address as int, data.len()),
        after.contains_key(va) == before.contains_key(va),
        before.contains_key(va) && !(address <= va < address + data.len()) ==> after[va]
            == before[va],
        address <= va < address + data.len() && is_mapped(
            before,
            address as int,
            (va - address + 1) as nat,
        ) ==> after[va] == data[va - address],
        address <= va < address + data.len() && before.contains_key(va) && !is_mapped(
            before,
            address as int,
            (va - address + 1) as nat,
        ) ==> after[va] == before[va],
{
    let n = crate::mem::model::mapped_run(before, address as int, data.len());
    lemma_mapped_run(before, address as int, data.len());
    if address <= va < address + data.len() {
        let len = (va - address + 1) as nat;
        if va < address + n {
            assert forall|w: int| address <= w < address + len implies before.contains_key(w) by {}
        } else if is_mapped(before, address as int, len) {
            assert(before.contains_key(address + n));
        }
        if is_mapped(before, address as int, len) {
            assert(before.contains_key(va));
        }
    }
}

/// Reading succeeds exactly if every byte is mapped, and then gives them all.
pub proof fn read_memory_is_given(
    m: Bytes,
    address: u64,
    before: Seq<u8>,
    r: Result<(), CpuError>,
    after: Seq<u8>,
)
    requires
        read_outcome(m, address, before, r, after),
    ensures
        r is Ok <==> is_mapped(m, address as int, before.len()),
        r is Ok ==> after == load(m, address as int, before.len()),
        after.len() == before.len(),
{
    lemma_mapped_run(m, address as int, before.len());
    if r is Ok {
        assert(after =~= load(m, address as int, before.len()));
    }
}

/// Fetching gives at most fifteen bytes, as many as are mapped in a row; it fails only
/// where the first is not.
pub proof fn fetched_memory_is_given(
    m: Bytes,
    address: u64,
    before: Seq<u8>,
    r: Result<usize, CpuError>,
    after: Seq<u8>,
    n: nat,
)
    requires
        fetch_outcome(m, address, before, r, after),
        n <= 15,
        n <= before.len(),
        is_mapped(m, address as int, n),
        n == 15 || n == before.len() || !m.contains_key(address + n),
    ensures
        r is Err <==> n == 0 && before.len() > 0,
        r matches Ok(k) ==> k == n,
        after.take(n as int) == load(m, address as int, n),
        after.skip(n as int) == before.skip(n as int),
{
    let want = if before.len() < 15 {
        before.len()
    } else {
        15
    };
    lemma_mapped_run_is(m, address as int, want, n);
    assert(after.take(n as int) =~= load(m, address as int, n));
    assert(after.skip(n as int) =~= before.skip(n as int));
}

/// Page protections by their numbers.
pub proof fn protections_have_numbers()
    ensures
        protect_for(false, false, false) == 0x01,
        protect_for(true, false, false) == 0x02,
        protect_for(true, true, false) == 0x04,
        protect_for(false, false, true) == 0x10,
        protect_for(true, false, true) == 0x20,
        protect_for(true, true, true) == 0x40,
        readable(0x02) && !writable(0x02) && !executable(0x02),
        readable(0x04) && writable(0x04) && !executable(0x04),
        !readable(0x10) && !writable(0x10) && executable(0x10),
        readable(0x20) && !writable(0x20) && executable(0x20),
        readable(0x40) && writable(0x40) && executable(0x40),
        !readable(0x01) && !writable(0x01) && !executable(0x01),
        forall|p: u32| #[trigger]
            supported(p) <==> p == 0x01 || p == 0x02 || p == 0x04 || p == 0x10 || p == 0x20 || p
                == 0x40,
{
}

/// The region of an address is the first that covers it.
pub proof fn first_regions_win(regions: Seq<GuestRegion>, va: u64, k: int)
    ensures
        0 <= k < regions.len() && regions[k].base <= va < regions[k].base + regions[k].size && (
        forall|j: int|
            0 <= j < k ==> !((#[trigger] regions[j]).base <= va < regions[j].base + regions[j].size))
            ==> first_covering(regions, va) == Some(k),
        (forall|j: int|
            0 <= j < regions.len() ==> !((#[trigger] regions[j]).base <= va < regions[j].base
                + regions[j].size)) ==> first_covering(regions, va) is None,
    decreases regions.len(),
{
    if regions.len() > 0 {
        let rest = regions.drop_last();
        first_regions_win(rest, va, k);
        assert(regions.last() == regions[regions.len() - 1]);
        if 0 <= k < rest.len() {
            assert(rest[k] == regions[k]);
        }
        if forall|j: int|
            0 <= j < k ==> !((#[trigger] regions[j]).base <= va < regions[j].base + regions[j].size) {
            assert forall|j: int| 0 <= j < k && j < rest.len() implies !((
            #[trigger] rest[j]).base <= va < rest[j].base + rest[j].size) by {
                assert(rest[j] == regions[j]);
            }
        }
        if forall|j: int|
            0 <= j < regions.len() ==> !((#[trigger] regions[j]).base <= va < regions[j].base
                + regions[j].size) {
            assert forall|j: int| 0 <= j < rest.len() implies !((#[trigger] rest[j]).base <= va
                < rest[j].base + rest[j].size) by {
                assert(rest[j] == regions[j]);
            }
        }
    }
}

/// The host address of a region is filled in once, where the region covers the address.
pub proof fn host_addresses_are_filled_in_once(r: GuestRegion, va: u64, host: u64)
    ensures
        r.base <= va < r.base + r.size && r.host_base is None ==> backfilled(r, va, host) == (
        GuestRegion { host_base: Some(host), ..r }),
        r.host_base is Some || !(r.base <= va < r.base + r.size) ==> backfilled(r, va, host) == r,
{
}

/// Storage by its name, in any spelling: sparse pages, arenas, or both.
pub proof fn storage_has_names(v: Seq<char>)
    ensures
        MemBackendKind::named(None) == MemBackendKind::Hybrid,
        same(v, "hash"@) ==> MemBackendKind::named(Some(v)) == MemBackendKind::Hash,
        same(v, "mmap"@) || same(v, "mmap_page"@) ==> MemBackendKind::named(Some(v))
            == MemBackendKind::Mmap,
        !same(v, "hash"@) && !same(v, "mmap"@) && !same(v, "mmap_page"@) ==> MemBackendKind::named(
            Some(v),
        ) == MemBackendKind::Hybrid,
{
    reveal_strlit("hash");
    reveal_strlit("mmap");
    reveal_strlit("mmap_page");
    let (a, b) = (lower("hash"@), lower("mmap"@));
    assert(a.len() == 4 && b.len() == 4 && lower("mmap_page"@).len() == 9);
    assert(a[0] == 'h' && b[0] == 'm');
}

/// The translation cache: the slots of a page are four of sixty-four, by its number modulo
/// sixteen, and those of pages with other numbers are apart.
pub proof fn pages_have_slots(a: u64, b: u64)
    ensures
        first_slot(a) == 4 * (a % 16),
        0 <= first_slot(a) && first_slot(a) + 4 <= 64,
        a % 16 == b % 16 ==> first_slot(a) == first_slot(b),
        a % 16 != b % 16 ==> first_slot(a) + 4 <= first_slot(b) || first_slot(b) + 4
            <= first_slot(a),
{
}

/// Host pages are whole pages, none is null, and those of different guest pages are apart.
pub proof fn host_pages_are_apart(a: u64, b: u64)
    requires
        a < b < 0xf_ffff_ffff_ffff,
    ensures
        sparse_host(a) % 0x1000 == 0,
        sparse_host(a) >= 0x1000,
        sparse_host(a) + 0x1000 <= sparse_host(b),
{
}

/// A walk goes through four tables of 512 entries, by four digits of a page's number from
/// the highest on; numbers with the same lowest 36 bits go the same way.
pub proof fn walks_go_by_digits(key: u64)
    ensures
        low_bits(key) as int == ((level_index(key, 0) * 512 + level_index(key, 1)) * 512
            + level_index(key, 2)) * 512 + level_index(key, 3),
        low_bits(key) == key % 0x10_0000_0000,
        0 <= level_index(key, 0) < 512,
        0 <= level_index(key, 1) < 512,
        0 <= level_index(key, 2) < 512,
        0 <= level_index(key, 3) < 512,
{
    let k = key as int;
    let a = k / 512;
    let b = k / 0x4_0000;
    let c = k / 0x800_0000;
    assert(b == a / 512 && c == b / 512);
    let d = c / 512;
    assert(k == 512 * a + k % 512);
    assert(a == 512 * b + a % 512);
    assert(b == 512 * c + b % 512);
    assert(c == 512 * d + c % 512);
    let low = ((c % 512 * 512 + b % 512) * 512 + a % 512) * 512 + k % 512;
    assert(k == 0x10_0000_0000 * d + low);
    assert(0 <= low < 0x10_0000_0000);
    vstd::arithmetic::div_mod::lemma_fundamental_div_mod_converse(k, 0x10_0000_0000, d, low);
}

/// What goes to arenas: with arena storage everything, with sparse storage nothing, with
/// both only what has 64 kilobytes or more.
pub proof fn large_maps_go_to_arenas(m: GuestMemory, address: u64, size: usize)
    ensures
        m.kind() == MemBackendKind::Mmap ==> in_arenas(m, address, size),
        m.kind() == MemBackendKind::Hash ==> !in_arenas(m, address, size),
        m.kind() == MemBackendKind::Hybrid && size < 0x1_0000 ==> !in_arenas(m, address, size),
{
}

/// What is told of memory that is not there: the first address that is not.
pub proof fn memory_errors_tell_where(
    m: Bytes,
    address: u64,
    size: usize,
    data: Seq<u8>,
    n: nat,
    r: Result<(), CpuError>,
    w: Result<(), CpuError>,
    f: Result<usize, CpuError>,
    after: Bytes,
    out: Seq<u8>,
)
    requires
        n < data.len(),
        is_mapped(m, address as int, n),
        !m.contains_key(address + n),
    ensures
        read_outcome(m, address, data, r, out) ==> (r matches Err(e) && e.text()
            == "mem_read unmapped "@ + hex((address + n) as nat)),
        write_outcome(m, address, data, w, after) ==> (w matches Err(e) && e.text()
            == "mem_write unmapped "@ + hex((address + n) as nat)),
        fetch_outcome(m, address, data, f, out) && n == 0 ==> (f matches Err(e) && e.text()
            == "instruction fetch unmapped "@ + hex(address as nat)),
{
    lemma_mapped_run_is(m, address as int, data.len(), n);
    if n == 0 {
        let want = if data.len() < 15 {
            data.len()
        } else {
            15
        };
        lemma_mapped_run_is(m, address as int, want, 0);
    }
}

/// What is told of ranges that cannot be mapped.
pub proof fn map_errors_tell_why(
    before: Bytes,
    address: u64,
    size: usize,
    r: Result<(), CpuError>,
    after: Bytes,
)
    requires
        map_outcome(before, address, size, r, after),
        size > 0,
    ensures
        address % 0x1000 != 0 ==> (r matches Err(e) && e.text() == "mem_map address "@ + hex(
            address as nat,
        ) + " not page-aligned"@),
        address % 0x1000 == 0 && size % 0x1000 != 0 ==> (r matches Err(e) && e.text()
            == "mem_map size "@ + hex(size as nat) + " not page-aligned"@),
        address % 0x1000 == 0 && size % 0x1000 == 0 && address + size > u64::MAX ==> (r matches Err(
            e,
        ) && e.text() == "mem_map overflow at "@ + hex(address as nat) + "+"@ + hex(size as nat)),
{
}

/// A failed access is reported with its kind, its address and its size; a store with its
/// value, if that is a signed number of eight bytes.
pub proof fn faults_tell_the_access(m: Bytes, a: u64, v: u64, n: int)
    requires
        n == 1 || n == 2 || n == 4 || n == 8,
    ensures
        loaded(m, a, n) matches Err(f) ==> (f matches Fault::Memory(inv) && inv.access_type == 0
            && inv.address == a && inv.size == n && inv.value == 0),
        stored(m, a, v, n).1 matches Some(f) ==> (f matches Fault::Memory(inv) && inv.access_type
            == 1 && inv.address == a && inv.size == n && (v <= 0x7fff_ffff_ffff_ffff ==> inv.value
            == v)),
{
}

/// A division that is refused tells why.
pub proof fn divisions_tell_why(s: Machine, i: Instr, ip: u64, tsc: u64, n: int, x: u64)
    requires
        n == 1 || n == 2 || n == 4 || n == 8,
        operand_bytes(i, 0) == Ok::<int, Fault>(n),
        operand_value(s, i, 0) == Ok::<u64, Fault>(x),
        x as int % modulus(n) == 0,
    ensures
        i.mnemonic == mnemonic::DIV ==> executed(s, i, ip, tsc).1 == Some(
            Fault::Cpu("div"@ + " by zero at "@ + hex(i.ip as nat)),
        ),
        i.mnemonic == mnemonic::IDIV ==> executed(s, i, ip, tsc).1 == Some(
            Fault::Cpu("idiv"@ + " by zero at "@ + hex(i.ip as nat)),
        ),
{
    crate::jit::laws::lemma_reads_frame(s, i, 0, ip);
    let u = s.with_regs(s.regs.at(ip));
    if i.mnemonic == mnemonic::DIV {
        assert(executed(s, i, ip, tsc) == crate::exec::muldiv::after_div(u, i, false));
    } else if i.mnemonic == mnemonic::IDIV {
        assert(executed(s, i, ip, tsc) == crate::exec::muldiv::after_div(u, i, true));
    }
}

/// Every sixteenth step is traced, before it is made; tracing changes nothing else.
pub proof fn some_steps_are_traced(c: CpuState, k: nat)
    ensures
        sampled(c, k).machine == c.machine,
        sampled(c, k).steps == c.steps,
        k % 16 == 0 ==> sampled(c, k).trace == traced(c.trace, c.machine.regs.rip),
        k % 16 != 0 ==> sampled(c, k).trace == c.trace,
        c.steps < u64::MAX ==> counted_up(c.steps) == c.steps + 1,
        counted_up(u64::MAX) == u64::MAX,
{
}

} // verus!
