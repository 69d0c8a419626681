//! Planting of stubs: which code goes where, and where the host still takes over.

use vstd::prelude::*;

use crate::bitmap::{bit_set, clear_bit};
use crate::cpu::CpuEngine;
use crate::mem::model::{mapped_run, store, Bytes};
use crate::runtime::fake_api::{apis_of, FakeApi, FakeApiError, RuntimeFakeApiEntry};
use crate::runtime::stubs::{
    classify_guest_stub, encode_jump, guest_stub, jump_code, out_of_line, stub_code, GuestStubKind,
    JUMP_SIZE, SLOT_STRIDE,
};

verus! {

/// Where stubs go.
#[derive(Debug, Clone, Copy, PartialEq, Eq, Structural)]
pub struct StubLayout {
    /// First fake API address.
    pub fake_api_base: u64,
    /// Bytes of the fake API range.
    pub fake_api_size: usize,
    /// Address of the fiber-local table.
    pub fls_table_va: u64,
    /// First address for stubs that do not fit their slot.
    pub helper_code_base: u64,
    /// Bytes there.
    pub helper_code_size: usize,
}

/// How far planting has come.
pub struct Planting {
    /// Guest memory.
    pub mem: Bytes,
    /// Offsets in the fake API range at which the host does not take over.
    pub passed: Set<int>,
    /// Where the next stub goes that does not fit its slot.
    pub cursor: u64,
}

/// Memory after code was written. Where not all of it is mapped, what is mapped
/// before the first gap is written.
pub open spec fn code_written(mem: Bytes, at: u64, code: Seq<u8>) -> (Bytes, bool) {
    let n = mapped_run(mem, at as int, code.len());
    (store(mem, at as int, code.take(n as int)), n == code.len())
}

/// The end of the room for stubs that do not fit their slot.
pub open spec fn helper_end(l: StubLayout) -> u64 {
    if l.helper_code_base + l.helper_code_size > u64::MAX {
        u64::MAX
    } else {
        (l.helper_code_base + l.helper_code_size) as u64
    }
}

/// The next multiple of 16, up to the end of the address space.
pub open spec fn next_cursor(cursor: u64, len: nat) -> u64 {
    let next = cursor + (len + 15) / 16 * 16;
    if next > u64::MAX {
        u64::MAX
    } else {
        next as u64
    }
}

/// Offsets from `start` on.
pub open spec fn offsets(start: int, len: nat) -> Set<int> {
    Set::new(|i: int| start <= i < start + len)
}

/// Planting a stub in its slot. It is left out where it would leave the range.
pub open spec fn plant_inline(p: Planting, l: StubLayout, va: u64, code: Seq<u8>) -> (
    Planting,
    Option<Seq<char>>,
) {
    let offset = va - l.fake_api_base;
    if offset + code.len() > l.fake_api_size {
        (p, None)
    } else {
        let (mem, whole) = code_written(p.mem, va, code);
        if whole {
            (Planting { mem, passed: p.passed + offsets(offset, code.len()), ..p }, None)
        } else {
            (Planting { mem, ..p }, Some("failed to write guest API stub bytes"@))
        }
    }
}

/// Planting a stub outside its slot, and a jump to it in the slot. It is left out
/// where there is no room for it; where there is none for the jump, no jump leads
/// to it and the next stub takes its place.
pub open spec fn plant_helper(p: Planting, l: StubLayout, va: u64, code: Seq<u8>) -> (
    Planting,
    Option<Seq<char>>,
) {
    let offset = va - l.fake_api_base;
    if p.cursor + code.len() > helper_end(l) {
        (p, None)
    } else {
        let (mem, whole) = code_written(p.mem, p.cursor, code);
        let q = Planting { mem, ..p };
        if !whole {
            (q, Some("failed to write out-of-line guest stub body"@))
        } else if offset + JUMP_SIZE > l.fake_api_size {
            (q, None)
        } else {
            let (mem, whole) = code_written(q.mem, va, jump_code(p.cursor));
            if !whole {
                (Planting { mem, ..q }, Some("failed to write guest stub entry jmp"@))
            } else {
                (
                    Planting {
                        mem,
                        passed: p.passed + offsets(offset, JUMP_SIZE as nat),
                        cursor: next_cursor(p.cursor, code.len()),
                    },
                    None,
                )
            }
        }
    }
}

/// Planting the stub of one entry, if it has one.
pub open spec fn plant_one(p: Planting, l: StubLayout, e: FakeApi) -> (Planting, Option<Seq<char>>) {
    match guest_stub(e.library, e.name, e.ucrt, l.fls_table_va) {
        None => (p, None),
        Some(kind) => if e.fake_target_va < l.fake_api_base {
            (p, None)
        } else if e.fake_target_va - l.fake_api_base > usize::MAX {
            (p, Some("guest stub VA offset does not fit usize"@))
        } else if out_of_line(kind) {
            plant_helper(p, l, e.fake_target_va, stub_code(kind))
        } else {
            plant_inline(p, l, e.fake_target_va, stub_code(kind))
        },
    }
}

/// Planting the stubs of entries, up to the first that fails.
pub open spec fn plant_all(p: Planting, l: StubLayout, entries: Seq<FakeApi>) -> (
    Planting,
    Option<Seq<char>>,
)
    decreases entries.len(),
{
    if entries.len() == 0 {
        (p, None)
    } else {
        match plant_one(p, l, entries[0]) {
            (q, Some(t)) => (q, Some(t)),
            (q, None) => plant_all(q, l, entries.skip(1)),
        }
    }
}

/// Planting starts with nothing planted.
pub open spec fn planting_start(mem: Bytes, l: StubLayout) -> Planting {
    Planting { mem, passed: Set::empty(), cursor: l.helper_code_base }
}

/// A bitmap has a bit for every offset of a range, which is clear where the host
/// does not take over.
pub open spec fn stops_at(map: Seq<u8>, l: StubLayout, passed: Set<int>) -> bool {
    &&& map.len() == (l.fake_api_size + 7) / 8
    &&& forall|j: int| 0 <= j < 8 * map.len() ==> #[trigger] bit_set(map, j) == !passed.contains(j)
}

/// Clears the bits of `len` offsets from `start` on.
fn pass_over(map: &mut Vec<u8>, start: usize, len: usize)
    requires
        start + len <= 8 * old(map)@.len(),
        start + len <= usize::MAX,
    ensures
        final(map)@.len() == old(map)@.len(),
        forall|j: int|
            0 <= j < 8 * old(map)@.len() ==> #[trigger] bit_set(final(map)@, j) == (bit_set(
                old(map)@,
                j,
            ) && !(start <= j < start + len)),
{
    let ghost before = map@;
    let mut k: usize = 0;
    while k < len
        invariant
            k <= len,
            start + len <= 8 * before.len(),
            start + len <= usize::MAX,
            map@.len() == before.len(),
            forall|j: int|
                0 <= j < 8 * before.len() ==> #[trigger] bit_set(map@, j) == (bit_set(before, j)
                    && !(start <= j < start + k)),
        decreases len - k,
    {
        clear_bit(map, start + k);
        k = k + 1;
    }
}

/// A byte of ones has all its bits set.
proof fn lemma_all_set(map: Seq<u8>)
    requires
        forall|i: int| 0 <= i < map.len() ==> #[trigger] map[i] == 0xff,
    ensures
        forall|j: int| 0 <= j < 8 * map.len() ==> #[trigger] bit_set(map, j),
{
    assert forall|j: int| 0 <= j < 8 * map.len() implies #[trigger] bit_set(map, j) by {
        let n = (j % 8) as u8;
        assert(map[j / 8] == 0xff);
        assert(0xffu8 & (1u8 << n) != 0) by (bit_vector)
            requires
                n < 8,
        ;
    }
}

/// The next multiple of 16.
fn advance(cursor: u64, len: usize) -> (r: u64)
    requires
        len <= 0x1000,
    ensures
        r == next_cursor(cursor, len as nat),
{
    let step: u64 = (len as u64 + 15) / 16 * 16;
    cursor.saturating_add(step)
}

/// Writes guest stubs into the fake API range and builds the bitmap of the
/// addresses at which the host takes over: everywhere but over the planted code.
pub fn plant_guest_stubs<E: CpuEngine>(
    engine: &mut E,
    entries: &[RuntimeFakeApiEntry],
    l: StubLayout,
) -> (r: Result<Vec<u8>, FakeApiError>)
    requires
        old(engine).wf(),
    ensures
        final(engine).wf(),
        final(engine).machine().regs == old(engine).machine().regs,
        final(engine).machine().mem == plant_all(
            planting_start(old(engine).machine().mem, l),
            l,
            apis_of(entries@),
        ).0.mem,
        match plant_all(
            planting_start(old(engine).machine().mem, l),
            l,
            apis_of(entries@),
        ) {
            (p, None) => r matches Ok(map) && stops_at(map@, l, p.passed),
            (_, Some(t)) => r matches Err(e) && e.text() == t,
        },
{
    let ghost all = apis_of(entries@);
    let ghost whole = plant_all(planting_start(engine.machine().mem, l), l, all);
    let rest: usize = if l.fake_api_size % 8 == 0 {
        0
    } else {
        1
    };
    let mut map: Vec<u8> = vec![0xffu8; l.fake_api_size / 8 + rest];
    proof {
        lemma_all_set(map@);
        assert(all.skip(0) =~= all);
    }
    let end: u64 = l.helper_code_base.saturating_add(l.helper_code_size as u64);
    let mut cursor: u64 = l.helper_code_base;
    let ghost mut passed: Set<int> = Set::empty();
    let mut i: usize = 0;
    while i < entries.len()
        invariant
            i <= entries@.len(),
            all == apis_of(entries@),
            end == helper_end(l),
            engine.wf(),
            engine.machine().regs == old(engine).machine().regs,
            stops_at(map@, l, passed),
            whole == plant_all(planting_start(old(engine).machine().mem, l), l, all),
            whole == plant_all(
                Planting { mem: engine.machine().mem, passed, cursor },
                l,
                all.skip(i as int),
            ),
        decreases entries@.len() - i,
    {
        let e = &entries[i];
        let ghost p = Planting { mem: engine.machine().mem, passed, cursor };
        proof {
            assert(all.skip(i as int)[0] == e@);
            assert(all.skip(i as int).skip(1) =~= all.skip(i + 1));
        }
        i = i + 1;
        let kind = match classify_guest_stub(
            e.library.as_str(),
            e.name.as_str(),
            e.ucrt,
            l.fls_table_va,
        ) {
            Some(k) => k,
            None => {
                continue;
            },
        };
        let va: u64 = e.fake_target_va;
        if va < l.fake_api_base {
            continue;
        }
        if va - l.fake_api_base > usize::MAX as u64 {
            return Err(
                FakeApiError::Message("guest stub VA offset does not fit usize".to_owned()),
            );
        }
        let offset: usize = (va - l.fake_api_base) as usize;
        let body = kind.encode();
        proof {
            lemma_stub_len(kind);
            crate::runtime::stubs::stubs_fit_their_slots(kind, cursor);
        }
        if kind.needs_out_of_line_helper() {
            match cursor.checked_add(body.len() as u64) {
                Some(stop) if stop <= end => {},
                _ => {
                    continue;
                },
            }
            match engine.mem_write(cursor, body.as_slice()) {
                Ok(()) => {},
                Err(_) => {
                    return Err(
                        FakeApiError::Message(
                            "failed to write out-of-line guest stub body".to_owned(),
                        ),
                    );
                },
            }
            match offset.checked_add(JUMP_SIZE) {
                Some(stop) if stop <= l.fake_api_size => {},
                _ => {
                    continue;
                },
            }
            let jump = encode_jump(cursor);
            match engine.mem_write(va, jump.as_slice()) {
                Ok(()) => {},
                Err(_) => {
                    return Err(
                        FakeApiError::Message("failed to write guest stub entry jmp".to_owned()),
                    );
                },
            }
            pass_over(&mut map, offset, JUMP_SIZE);
            proof {
                passed = passed + offsets(offset as int, JUMP_SIZE as nat);
            }
            cursor = advance(cursor, body.len());
        } else {
            match offset.checked_add(body.len()) {
                Some(stop) if stop <= l.fake_api_size => {},
                _ => {
                    continue;
                },
            }
            match engine.mem_write(va, body.as_slice()) {
                Ok(()) => {},
                Err(_) => {
                    return Err(
                        FakeApiError::Message("failed to write guest API stub bytes".to_owned()),
                    );
                },
            }
            pass_over(&mut map, offset, body.len());
            proof {
                passed = passed + offsets(offset as int, stub_code(kind).len());
            }
        }
    }
    Ok(map)
}

/// Planting writes to the fake API range and to the room for larger stubs, and
/// nowhere else.
pub proof fn planting_stays_in_its_ranges(p: Planting, l: StubLayout, entries: Seq<FakeApi>, at: int)
    requires
        p.cursor >= l.helper_code_base,
        !(l.fake_api_base <= at < l.fake_api_base + l.fake_api_size),
        !(l.helper_code_base <= at < l.helper_code_base + l.helper_code_size),
    ensures
        plant_all(p, l, entries).0.mem.contains_key(at) == p.mem.contains_key(at),
        p.mem.contains_key(at) ==> plant_all(p, l, entries).0.mem[at] == p.mem[at],
    decreases entries.len(),
{
    if entries.len() > 0 {
        let e = entries[0];
        let (q, failed) = plant_one(p, l, e);
        match guest_stub(e.library, e.name, e.ucrt, l.fls_table_va) {
            Some(kind) => {
                crate::runtime::stubs::stubs_fit_their_slots(kind, p.cursor);
                lemma_code_written(p.mem, p.cursor, stub_code(kind));
                lemma_code_written(p.mem, e.fake_target_va, stub_code(kind));
                lemma_code_written(
                    code_written(p.mem, p.cursor, stub_code(kind)).0,
                    e.fake_target_va,
                    jump_code(p.cursor),
                );
            },
            None => {},
        }
        assert(q.mem.contains_key(at) == p.mem.contains_key(at));
        assert(p.mem.contains_key(at) ==> q.mem[at] == p.mem[at]);
        assert(q.cursor >= l.helper_code_base);
        if failed is None {
            planting_stays_in_its_ranges(q, l, entries.skip(1), at);
        }
    }
}

/// Writing code changes bytes under the code only.
proof fn lemma_code_written(mem: Bytes, at: u64, code: Seq<u8>)
    ensures
        forall|a: int| #[trigger]
            code_written(mem, at, code).0.contains_key(a) == mem.contains_key(a),
        forall|a: int|
            mem.contains_key(a) && !(at <= a < at + code.len()) ==> #[trigger] code_written(
                mem,
                at,
                code,
            ).0[a] == mem[a],
{
    lemma_mapped_run_bound(mem, at as int, code.len());
}

/// No more bytes are mapped than were asked about.
proof fn lemma_mapped_run_bound(mem: Bytes, at: int, len: nat)
    ensures
        mapped_run(mem, at, len) <= len,
    decreases len,
{
    if len > 0 && mem.contains_key(at) {
        lemma_mapped_run_bound(mem, at + 1, (len - 1) as nat);
    }
}

/// The host is passed over only in the slots of entries that have a stub.
pub proof fn passed_offsets_lie_in_slots(
    p: Planting,
    l: StubLayout,
    entries: Seq<FakeApi>,
    offset: int,
)
    requires
        plant_all(p, l, entries).0.passed.contains(offset),
        !p.passed.contains(offset),
    ensures
        0 <= offset < l.fake_api_size,
        exists|k: int|
            0 <= k < entries.len() && (#[trigger] entries[k]).fake_target_va <= l.fake_api_base
                + offset < entries[k].fake_target_va + SLOT_STRIDE && guest_stub(
                entries[k].library,
                entries[k].name,
                entries[k].ucrt,
                l.fls_table_va,
            ) is Some,
    decreases entries.len(),
{
    let e = entries[0];
    let (q, failed) = plant_one(p, l, e);
    if q.passed.contains(offset) {
        match guest_stub(e.library, e.name, e.ucrt, l.fls_table_va) {
            Some(kind) => crate::runtime::stubs::stubs_fit_their_slots(kind, p.cursor),
            None => {},
        }
        assert(entries[0].fake_target_va <= l.fake_api_base + offset < entries[0].fake_target_va
            + SLOT_STRIDE);
    } else {
        let rest = entries.skip(1);
        passed_offsets_lie_in_slots(q, l, rest, offset);
        let k = choose|k: int|
            0 <= k < rest.len() && (#[trigger] rest[k]).fake_target_va <= l.fake_api_base + offset
                < rest[k].fake_target_va + SLOT_STRIDE && guest_stub(
                rest[k].library,
                rest[k].name,
                rest[k].ucrt,
                l.fls_table_va,
            ) is Some;
        assert(rest[k] == entries[k + 1]);
    }
}

/// Stubs are short.
proof fn lemma_stub_len(kind: GuestStubKind)
    ensures
        stub_code(kind).len() <= 64,
{
    match kind {
        GuestStubKind::ReturnImm32(imm) => crate::endian::lemma_le_bytes_len(imm as int, 4),
        GuestStubKind::ReturnImm64(v) | GuestStubKind::LoadZx32FromVa(v)
        | GuestStubKind::LoadPtrFromVa(v)
        | GuestStubKind::StoreEcxToVa(v) => crate::endian::lemma_le_bytes_len(v as int, 8),
        GuestStubKind::FlsGetValue { table_va, max_slots }
        | GuestStubKind::FlsSetValue { table_va, max_slots } => {
            crate::endian::lemma_le_bytes_len(max_slots as int, 4);
            crate::endian::lemma_le_bytes_len(table_va as int, 8);
        },
        _ => {},
    }
}

} // verus!
