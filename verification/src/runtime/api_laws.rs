//! Tables of imported functions, planted stubs, and what ending a process wakes.

use vstd::prelude::*;

use crate::mem::model::{is_mapped, lemma_mapped_run, load, load_after_store};
use crate::runtime::fake_api::{
    addresses, entry_of, export_name, interned, is_for, lemma_find_api, traits_of, resolves_to,
    with_unseen, ApiFacts, FakeApi, ResolvedFakeApi, WinApiTraits,
};
use crate::runtime::names::{dec3, method_name, ComInterface};
use crate::runtime::plant::{code_written, plant_all, plant_one, planting_start, Planting, StubLayout};
use crate::runtime::stubs::{guest_stub, jump_code, out_of_line, same, stub_code};
use crate::runtime::threads::{is_thread, wake, KernelObject, Wake};
use crate::text::dec;

verus! {

/// Which calls end the process: `ExitProcess` of the kernel and the exits of the C runtime,
/// however they are spelled; any other only if its handler says so.
pub proof fn exits_end_the_process(library: Seq<char>, name: Seq<char>, facts: ApiFacts)
    ensures
        ({
            let t = traits_of(library, name, facts);
            let kernel = same(library, "KERNEL32.dll"@) && same(name, "ExitProcess"@);
            let runtime = facts.ucrt && (same(name, "exit"@) || same(name, "_exit"@) || same(
                name,
                "abort"@,
            ));
            &&& kernel || runtime ==> t.exit_process
            &&& !kernel && !runtime ==> t.exit_process == (facts.api is Some
                && facts.api->0.traits.exit_process)
        }),
{
}

/// Which calls a stub answers is marked, and such calls are noisy; elsewhere the handler
/// says it.
pub proof fn stubs_are_marked(library: Seq<char>, name: Seq<char>, facts: ApiFacts)
    ensures
        ({
            let t = traits_of(library, name, facts);
            &&& guest_stub(library, name, facts.ucrt, 0) is Some ==> t.guest_stub && t.noisy
            &&& guest_stub(library, name, facts.ucrt, 0) is None && !t.exit_process ==> match facts.api {
                Some(api) => t == api.traits,
                None => !t.guest_stub && !t.noisy && t.other == 0,
            }
        }),
{
}

/// An entry says of a function what it was made from.
pub proof fn entries_say_what_they_are_for(
    va: u64,
    library: Seq<char>,
    name: Seq<char>,
    slot: u64,
    facts: ApiFacts,
)
    ensures
        ({
            let e = entry_of(va, library, name, slot, facts);
            &&& e.fake_target_va == va
            &&& e.library == library
            &&& e.name == name
            &&& e.iat_slot_va == slot
            &&& e.ucrt == facts.ucrt
            &&& facts.api is Some ==> e.winapi_id == Some(facts.api->0.id)
            &&& facts.api is None ==> e.winapi_id is None
            &&& e.stub_kind is Some == guest_stub(library, name, facts.ucrt, 0) is Some
            &&& e.stub_kind is Some ==> e.traits.guest_stub
        }),
{
}

/// Registering a function: an entry of that library and name, in any spelling, is found,
/// the first of them, and the table stays; otherwise the function goes to the end, unless
/// the table has all its 32768 entries.
pub proof fn functions_are_registered_once(
    entries: Seq<FakeApi>,
    library: Seq<char>,
    name: Seq<char>,
    fresh: FakeApi,
    k: int,
)
    ensures
        ({
            let (after, r) = interned(entries, library, name, fresh);
            let here = |j: int|
                same(entries[j].library, library) && same(entries[j].name, name);
            &&& 0 <= k < entries.len() && here(k) && (forall|j: int| 0 <= j < k ==> !#[trigger] here(j))
                ==> after == entries && r == Ok::<FakeApi, Seq<char>>(entries[k])
            &&& (forall|j: int| 0 <= j < entries.len() ==> !#[trigger] here(j)) ==> {
                if entries.len() < 0x8000 {
                    after == entries.push(fresh) && r == Ok::<FakeApi, Seq<char>>(fresh)
                } else {
                    after == entries && r is Err
                }
            }
            &&& entries.is_prefix_of(after)
        }),
{
    let here = |j: int| same(entries[j].library, library) && same(entries[j].name, name);
    if 0 <= k < entries.len() && here(k) && (forall|j: int| 0 <= j < k ==> !#[trigger] here(j)) {
        assert forall|j: int| 0 <= j < k implies !is_for(#[trigger] entries[j], library, name) by {
            assert(!here(j));
        }
        lemma_find_api(entries, library, name, k);
    }
    if forall|j: int| 0 <= j < entries.len() ==> !#[trigger] here(j) {
        assert forall|j: int| 0 <= j < entries.len() implies !is_for(
            #[trigger] entries[j],
            library,
            name,
        ) by {
            assert(!here(j));
        }
        lemma_find_api(entries, library, name, entries.len() as int);
    }
}

/// The export that a number stands for is that of the last row with the number; without
/// one it is unknown.
pub proof fn last_rows_name_exports(rows: Seq<(Seq<char>, Seq<char>, u16)>, id: int, k: int)
    ensures
        0 <= k < rows.len() && rows[k].2 == id && (forall|j: int|
            k < j < rows.len() ==> (#[trigger] rows[j]).2 != id) ==> export_name(rows, id) == (
            rows[k].0,
            rows[k].1,
        ),
        (forall|j: int| 0 <= j < rows.len() ==> (#[trigger] rows[j]).2 != id) ==> export_name(
            rows,
            id,
        ) == ("unknown.dll"@, "unknown"@),
    decreases rows.len(),
{
    if rows.len() > 0 {
        let rest = rows.drop_last();
        last_rows_name_exports(rest, id, k);
        assert(rows.last() == rows[rows.len() - 1]);
        if 0 <= k < rest.len() {
            assert(rest[k] == rows[k]);
        }
        if forall|j: int| k < j < rows.len() ==> (#[trigger] rows[j]).2 != id {
            assert forall|j: int| k < j < rest.len() && 0 <= j implies (#[trigger] rest[j]).2
                != id by {
                assert(rest[j] == rows[j]);
            }
        }
        if forall|j: int| 0 <= j < rows.len() ==> (#[trigger] rows[j]).2 != id {
            assert forall|j: int| 0 <= j < rest.len() implies (#[trigger] rest[j]).2 != id by {
                assert(rest[j] == rows[j]);
            }
        }
    }
}

/// Some entry has the address.
pub open spec fn has_address(entries: Seq<FakeApi>, va: u64) -> bool {
    exists|k: int| 0 <= k < entries.len() && #[trigger] entries[k].fake_target_va == va
}

/// Adding entries at new addresses: what was there stays first, every address of both
/// lists is there afterwards, and what was added is of the second list, with no address
/// twice.
pub proof fn unseen_entries_are_added_once(
    seen: Set<u64>,
    done: Seq<FakeApi>,
    more: Seq<FakeApi>,
    j: int,
)
    requires
        forall|va: u64| seen.contains(va) == #[trigger] has_address(done, va),
    ensures
        done.is_prefix_of(with_unseen(seen, done, more)),
        0 <= j < more.len() ==> has_address(
            with_unseen(seen, done, more),
            more[j].fake_target_va,
        ),
        forall|k: int|
            done.len() <= k < with_unseen(seen, done, more).len() ==> {
                &&& more.contains(#[trigger] with_unseen(seen, done, more)[k])
                &&& forall|i: int|
                    0 <= i < k ==> (#[trigger] with_unseen(seen, done, more)[i]).fake_target_va
                        != with_unseen(seen, done, more)[k].fake_target_va
            },
    decreases more.len(),
{
    if more.len() > 0 {
        let va = more[0].fake_target_va;
        let rest = more.skip(1);
        let (s, d) = if seen.contains(va) {
            (seen, done)
        } else {
            (seen.insert(va), done.push(more[0]))
        };
        let all = with_unseen(seen, done, more);
        assert forall|v: u64| s.contains(v) == #[trigger] has_address(d, v) by {
            if !seen.contains(va) {
                if has_address(done, v) {
                    let k = choose|k: int|
                        0 <= k < done.len() && #[trigger] done[k].fake_target_va == v;
                    assert(d[k].fake_target_va == v);
                }
                if v == va {
                    assert(d[done.len() as int].fake_target_va == va);
                }
                if has_address(d, v) && v != va {
                    let k = choose|k: int|
                        0 <= k < d.len() && #[trigger] d[k].fake_target_va == v;
                    assert(done[k].fake_target_va == v);
                }
                assert(seen.contains(v) == has_address(done, v));
            }
        }
        unseen_entries_are_added_once(s, d, rest, j - 1);
        assert(has_address(d, va));
        let k = choose|k: int| 0 <= k < d.len() && #[trigger] d[k].fake_target_va == va;
        assert(all[k] == d[k]);
        assert(has_address(all, va));
        if 0 < j < more.len() {
            assert(rest[j - 1] == more[j]);
        }
        assert forall|k: int| done.len() <= k < all.len() implies {
            &&& more.contains(#[trigger] all[k])
            &&& forall|i: int|
                0 <= i < k ==> (#[trigger] all[i]).fake_target_va != all[k].fake_target_va
        } by {
            if k >= d.len() {
                assert(rest.contains(all[k]));
                let i = choose|i: int| 0 <= i < rest.len() && rest[i] == all[k];
                assert(more[i + 1] == all[k]);
            } else {
                assert(all[k] == d[k]);
                assert(more[0] == all[k]);
                assert forall|i: int| 0 <= i < k implies (#[trigger] all[i]).fake_target_va
                    != all[k].fake_target_va by {
                    assert(all[i] == d[i] && d[i] == done[i]);
                    assert(!has_address(done, va));
                    assert(done[i].fake_target_va != va);
                }
            }
        }
    }
}

/// Methods without a name are called by their number: of `IDirect3D9` with three digits or
/// more, of other interfaces with the interface's number too.
pub proof fn methods_have_names(
    iface: ComInterface,
    method: u8,
    names: Seq<Seq<char>>,
    device: Seq<char>,
)
    ensures
        iface is Direct3D9 && method < names.len() ==> method_name(iface, method, names, device)
            == names[method as int],
        iface is Direct3D9 && method >= names.len() ==> {
            let n = method_name(iface, method, names, device);
            &&& n.take(16) == "IDirect3D9::Slot"@
            &&& n.len() == 19
            &&& crate::text_laws::read(n.skip(16), 10) == method
        },
        iface is Direct3DDevice9 ==> method_name(iface, method, names, device) == device,
        iface matches ComInterface::Other(n) ==> method_name(iface, method, names, device)
            == "Com"@ + dec(n as nat) + "::Method"@ + dec(method as nat),
{
    reveal_strlit("IDirect3D9::Slot");
    let d = dec3(method as nat);
    let n = "IDirect3D9::Slot"@ + d;
    assert(n.take(16) =~= "IDirect3D9::Slot"@);
    assert(n.skip(16) =~= d);
    lemma_dec3(method as nat);
}

/// Three digits read back.
proof fn lemma_dec3(n: nat)
    requires
        n < 1000,
    ensures
        dec3(n).len() == 3,
        crate::text_laws::read(dec3(n), 10) == n,
{
    reveal_with_fuel(dec, 4);
    reveal_with_fuel(crate::text_laws::read, 5);
    let d = dec3(n);
    let a = n / 100;
    let b = n / 10 % 10;
    let c = n % 10;
    assert(n / 10 / 10 == a && n / 10 % 10 == b);
    assert(d =~= seq![
        crate::text::digit_char(a as int),
        crate::text::digit_char(b as int),
        crate::text::digit_char(c as int),
    ]) by {
        if n >= 100 {
            assert(dec(n / 10) =~= dec(n / 10 / 10).push(crate::text::digit_char(b as int)));
        }
    }
    assert(d.drop_last() =~= seq![
        crate::text::digit_char(a as int),
        crate::text::digit_char(b as int),
    ]);
    assert(d.drop_last().drop_last() =~= seq![crate::text::digit_char(a as int)]);
    assert(d.drop_last().drop_last().drop_last() =~= Seq::<char>::empty());
    assert(n == 100 * a + 10 * b + c);
}

/// What was written is read there, where all of it could be.
proof fn lemma_written(mem: crate::mem::model::Bytes, at: u64, code: Seq<u8>)
    requires
        code_written(mem, at, code).1,
    ensures
        load(code_written(mem, at, code).0, at as int, code.len()) == code,
        is_mapped(mem, at as int, code.len()),
{
    lemma_mapped_run(mem, at as int, code.len());
    assert(code.take(code.len() as int) =~= code);
    load_after_store(mem, at as int, code);
}

/// Planting the stub of a function: the slot then holds the stub's code, or a jump to
/// where it lies, sixteen-byte aligned after the stubs before it; the host does not take
/// over in it. Functions without a stub are left alone.
pub proof fn planted_stubs_are_there(p: Planting, l: StubLayout, e: FakeApi)
    requires
        plant_one(p, l, e).1 is None,
    ensures
        ({
            let q = plant_one(p, l, e).0;
            let at = e.fake_target_va - l.fake_api_base;
            match guest_stub(e.library, e.name, e.ucrt, l.fls_table_va) {
                None => q == p,
                Some(kind) => {
                    let code = stub_code(kind);
                    let end = l.helper_code_base + l.helper_code_size;
                    &&& at < 0 ==> q == p
                    &&& at >= 0 && !out_of_line(kind) && at + code.len() <= l.fake_api_size ==> {
                        &&& load(q.mem, e.fake_target_va as int, code.len()) == code
                        &&& q.cursor == p.cursor
                        &&& forall|o: int|
                            q.passed.contains(o) <==> p.passed.contains(o) || (at <= o < at
                                + code.len())
                    }
                    &&& at >= 0 && !out_of_line(kind) && at + code.len() > l.fake_api_size ==> q == p
                    &&& at >= 0 && out_of_line(kind) && p.cursor + code.len() <= end && end
                        <= u64::MAX && at + 12 <= l.fake_api_size ==> {
                        &&& load(q.mem, e.fake_target_va as int, 12) == jump_code(p.cursor)
                        &&& p.cursor + code.len() <= e.fake_target_va || e.fake_target_va + 12
                            <= p.cursor ==> load(q.mem, p.cursor as int, code.len()) == code
                        &&& forall|o: int|
                            q.passed.contains(o) <==> p.passed.contains(o) || (at <= o < at + 12)
                        &&& q.cursor >= p.cursor + code.len() || q.cursor == u64::MAX
                        &&& q.cursor == u64::MAX || (q.cursor - p.cursor) % 16 == 0
                        &&& q.cursor < p.cursor + code.len() + 16
                    }
                    &&& at >= 0 && out_of_line(kind) && p.cursor + code.len() > end ==> q == p
                },
            }
        }),
{
    match guest_stub(e.library, e.name, e.ucrt, l.fls_table_va) {
        None => {},
        Some(kind) => {
            let code = stub_code(kind);
            let at = e.fake_target_va - l.fake_api_base;
            if at >= 0 && !out_of_line(kind) && at + code.len() <= l.fake_api_size {
                lemma_written(p.mem, e.fake_target_va, code);
            }
            if at >= 0 && out_of_line(kind) && p.cursor + code.len() <= l.helper_code_base
                + l.helper_code_size && l.helper_code_base + l.helper_code_size <= u64::MAX && at
                + 12 <= l.fake_api_size {
                lemma_written(p.mem, p.cursor, code);
                let mid = code_written(p.mem, p.cursor, code).0;
                crate::runtime::stubs::stubs_fit_their_slots(kind, p.cursor);
                let jump = jump_code(p.cursor);
                lemma_written(mid, e.fake_target_va, jump);
                assert(jump.take(12) =~= jump);
                lemma_mapped_run(p.mem, p.cursor as int, code.len());
                lemma_mapped_run(mid, e.fake_target_va as int, 12);
                assert(is_mapped(mid, p.cursor as int, code.len())) by {
                    load_after_store(p.mem, p.cursor as int, code);
                    assert(code.take(code.len() as int) =~= code);
                }
                if p.cursor + code.len() <= e.fake_target_va || e.fake_target_va + 12 <= p.cursor {
                    crate::mem::model::load_beside_store(
                        mid,
                        e.fake_target_va as int,
                        jump,
                        p.cursor as int,
                        code.len(),
                    );
                }
            }
        },
    }
}

/// Stubs are planted one after another, and the first failure ends it.
pub proof fn planting_goes_on(p: Planting, l: StubLayout, entries: Seq<FakeApi>, e: FakeApi)
    ensures
        plant_all(p, l, Seq::empty()) == (p, None::<Seq<char>>),
        plant_all(p, l, entries.push(e)) == match plant_all(p, l, entries) {
            (q, Some(t)) => (q, Some(t)),
            (q, None) => plant_one(q, l, e),
        },
    decreases entries.len(),
{
    let all = entries.push(e);
    if entries.len() == 0 {
        let none = Seq::<FakeApi>::empty();
        assert(all.skip(1) =~= none);
        assert(plant_all(plant_one(p, l, e).0, l, none) == (
            plant_one(p, l, e).0,
            None::<Seq<char>>,
        ));
        assert(all[0] == e);
    } else {
        assert(all.skip(1) =~= entries.skip(1).push(e));
        match plant_one(p, l, entries[0]) {
            (q, None) => planting_goes_on(q, l, entries.skip(1), e),
            _ => {},
        }
    }
}

/// Ending a process wakes whoever waits: events are set, semaphores notified, threads that
/// still run finish with code 1, and finished ones are left alone.
pub proof fn ending_wakes_all(tid: u32)
    ensures
        wake(KernelObject::Event) == Wake::SetEvent,
        wake(KernelObject::Semaphore) == Wake::NotifySemaphore,
        wake(KernelObject::Thread { tid, finished: false }) == Wake::FinishThread(1),
        wake(KernelObject::Thread { tid, finished: true }) == Wake::Leave,
{
}

/// The addresses of entries, and the start of planting: nothing is passed yet, and the first
/// stub that does not fit its slot goes to the start of its range.
pub proof fn planting_starts_empty(
    entries: Seq<FakeApi>,
    va: u64,
    mem: crate::mem::model::Bytes,
    l: StubLayout,
    o: int,
)
    ensures
        addresses(entries).contains(va) == has_address(entries, va),
        planting_start(mem, l).mem == mem,
        !planting_start(mem, l).passed.contains(o),
        planting_start(mem, l).cursor == l.helper_code_base,
{
}

/// The object that stands for a thread is that of its number.
pub proof fn threads_are_known_by_number(tid: u32, other: u32, finished: bool)
    ensures
        is_thread(KernelObject::Thread { tid, finished }, other) == (tid == other),
        !is_thread(KernelObject::Event, tid),
        !is_thread(KernelObject::Semaphore, tid),
{
}

/// What a call resolves to says what it was resolved from.
pub proof fn resolved_calls_say_it_all(
    r: ResolvedFakeApi,
    library: Seq<char>,
    name: Seq<char>,
    api: Option<u16>,
    traits: WinApiTraits,
)
    requires
        resolves_to(r, library, name, api, traits),
    ensures
        r.library@ == library,
        r.name@ == name,
        r.winapi_id == api,
        r.traits == traits,
{
}

} // verus!
