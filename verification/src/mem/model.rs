//! The mathematical model of guest memory: a map from virtual addresses to
//! bytes, whose domain is the set of mapped addresses.

use vstd::prelude::*;

verus! {

/// Page size used by all guest memory backends (4 KiB).
pub const PAGE_SIZE: u64 = 0x1000;

/// The page size as a host size.
pub const PAGE_SIZE_USIZE: usize = 0x1000;

/// `log2(PAGE_SIZE)`.
pub const PAGE_SHIFT: u32 = 12;

/// The first address that can never be mapped: a mapping must end at or below
/// `u64::MAX`, so the last page of the address space stays out of reach.
pub const VA_LIMIT: u64 = 0xffff_ffff_ffff_f000;

/// Guest memory: the byte at each mapped address.
pub type Bytes = Map<int, u8>;

/// No byte lies outside the mappable address range.
pub open spec fn in_bounds(m: Bytes) -> bool {
    forall|va: int| #[trigger] m.contains_key(va) ==> 0 <= va < VA_LIMIT
}

/// How many of the `len` bytes from `address` on are mapped before the first
/// unmapped one.
pub open spec fn mapped_run(m: Bytes, address: int, len: nat) -> nat
    decreases len,
{
    if len == 0 || !m.contains_key(address) {
        0
    } else {
        1 + mapped_run(m, address + 1, (len - 1) as nat)
    }
}

/// Whether all of the `len` bytes from `address` on are mapped.
pub open spec fn is_mapped(m: Bytes, address: int, len: nat) -> bool {
    forall|va: int| address <= va < address + len ==> #[trigger] m.contains_key(va)
}

/// The `len` bytes from `address` on.
pub open spec fn load(m: Bytes, address: int, len: nat) -> Seq<u8> {
    Seq::new(len, |i: int| m[address + i])
}

/// Memory after `bytes` were stored from `address` on. Only mapped addresses
/// take a byte.
pub open spec fn store(m: Bytes, address: int, bytes: Seq<u8>) -> Bytes {
    Map::new(
        |va: int| m.contains_key(va),
        |va: int|
            if address <= va < address + bytes.len() {
                bytes[va - address]
            } else {
                m[va]
            },
    )
}

/// Memory after `[start, end)` was mapped: what was mapped keeps its bytes, the
/// rest of the range reads zero.
pub open spec fn map_range(m: Bytes, start: int, end: int) -> Bytes {
    Map::new(
        |va: int| m.contains_key(va) || start <= va < end,
        |va: int|
            if m.contains_key(va) {
                m[va]
            } else {
                0
            },
    )
}

/// Memory after every address of `[start, end)` was unmapped.
pub open spec fn unmap_range(m: Bytes, start: int, end: int) -> Bytes {
    Map::new(|va: int| m.contains_key(va) && !(start <= va < end), |va: int| m[va])
}

/// Pages are mapped whole: two addresses of one page are mapped or not together.
pub open spec fn whole_pages(m: Bytes) -> bool {
    forall|va: int, other: int|
        #![trigger m.contains_key(va), m.contains_key(other)]
        m.contains_key(va) && va / 0x1000 == other / 0x1000 ==> m.contains_key(other)
}

/// Two stores of bytes as one memory; where both hold a byte, the first counts.
pub open spec fn overlay(a: Bytes, b: Bytes) -> Bytes {
    Map::new(
        |va: int| a.contains_key(va) || b.contains_key(va),
        |va: int|
            if a.contains_key(va) {
                a[va]
            } else {
                b[va]
            },
    )
}

/// No address is in both stores.
pub open spec fn apart(a: Bytes, b: Bytes) -> bool {
    forall|va: int| !(#[trigger] a.contains_key(va) && #[trigger] b.contains_key(va))
}

/// Storing two runs one after the other is storing them as one.
pub proof fn lemma_store_append(m: Bytes, address: int, s: Seq<u8>, t: Seq<u8>)
    ensures
        store(store(m, address, s), address + s.len(), t) == store(m, address, s + t),
{
    assert(store(store(m, address, s), address + s.len(), t) =~= store(m, address, s + t));
}

/// A store that lies in one of two stores is a store into both taken together.
pub proof fn lemma_store_overlay(a: Bytes, b: Bytes, address: int, s: Seq<u8>)
    ensures
        is_mapped(a, address, s.len()) ==> overlay(store(a, address, s), b) == store(
            overlay(a, b),
            address,
            s,
        ),
        apart(a, b) && is_mapped(b, address, s.len()) ==> overlay(a, store(b, address, s)) == store(
            overlay(a, b),
            address,
            s,
        ),
{
    if is_mapped(a, address, s.len()) {
        assert forall|va: int| address <= va < address + s.len() implies a.contains_key(va) by {}
        assert(overlay(store(a, address, s), b) =~= store(overlay(a, b), address, s));
    }
    if apart(a, b) && is_mapped(b, address, s.len()) {
        assert forall|va: int| address <= va < address + s.len() implies !a.contains_key(va) by {
            assert(b.contains_key(va));
        }
        assert(overlay(a, store(b, address, s)) =~= store(overlay(a, b), address, s));
    }
}

/// Mapping a range in one of two stores, where the other has nothing, maps it in
/// both taken together.
pub proof fn lemma_map_overlay(a: Bytes, b: Bytes, start: int, end: int)
    ensures
        (forall|va: int| start <= va < end ==> !#[trigger] b.contains_key(va)) ==> overlay(
            map_range(a, start, end),
            b,
        ) == map_range(overlay(a, b), start, end),
        (forall|va: int| start <= va < end ==> !#[trigger] a.contains_key(va)) ==> overlay(
            a,
            map_range(b, start, end),
        ) == map_range(overlay(a, b), start, end),
{
    if forall|va: int| start <= va < end ==> !#[trigger] b.contains_key(va) {
        assert(overlay(map_range(a, start, end), b) =~= map_range(overlay(a, b), start, end));
    }
    if forall|va: int| start <= va < end ==> !#[trigger] a.contains_key(va) {
        assert(overlay(a, map_range(b, start, end)) =~= map_range(overlay(a, b), start, end));
    }
}

/// Mapping two adjoining ranges maps both at once.
pub proof fn lemma_map_append(m: Bytes, start: int, middle: int, end: int)
    requires
        start <= middle <= end,
    ensures
        map_range(map_range(m, start, middle), middle, end) == map_range(m, start, end),
{
    assert(map_range(map_range(m, start, middle), middle, end) =~= map_range(m, start, end));
}

/// What `mapped_run` counts: everything before it is mapped, and the byte that
/// ends it, if any, is not.
pub proof fn lemma_mapped_run(m: Bytes, address: int, len: nat)
    ensures
        mapped_run(m, address, len) <= len,
        is_mapped(m, address, mapped_run(m, address, len)),
        mapped_run(m, address, len) < len ==> !m.contains_key(
            address + mapped_run(m, address, len),
        ),
        mapped_run(m, address, len) == len <==> is_mapped(m, address, len),
    decreases len,
{
    if len > 0 && m.contains_key(address) {
        lemma_mapped_run(m, address + 1, (len - 1) as nat);
        let n = mapped_run(m, address + 1, (len - 1) as nat);
        assert forall|va: int| address <= va < address + n + 1 implies m.contains_key(va) by {
            if va > address {
                assert(address + 1 <= va < address + 1 + n);
            }
        }
        if is_mapped(m, address, len) {
            assert(is_mapped(m, address + 1, (len - 1) as nat));
        }
    } else if len > 0 {
        assert(!is_mapped(m, address, len));
    }
}

/// The run is the only length with what `lemma_mapped_run` says of it.
pub proof fn lemma_mapped_run_is(m: Bytes, address: int, len: nat, n: nat)
    requires
        n <= len,
        is_mapped(m, address, n),
        n < len ==> !m.contains_key(address + n),
    ensures
        mapped_run(m, address, len) == n,
{
    lemma_mapped_run(m, address, len);
    let r = mapped_run(m, address, len);
    if r < n {
        assert(m.contains_key(address + r));
    } else if n < r {
        assert(m.contains_key(address + n));
    }
}

/// A store followed by a load of the same range gives back what was stored.
pub proof fn load_after_store(m: Bytes, address: int, bytes: Seq<u8>)
    requires
        is_mapped(m, address, bytes.len()),
    ensures
        is_mapped(store(m, address, bytes), address, bytes.len()),
        load(store(m, address, bytes), address, bytes.len()) == bytes,
{
    let after = store(m, address, bytes);
    assert forall|va: int| address <= va < address + bytes.len() implies after.contains_key(
        va,
    ) by {
        assert(m.contains_key(va));
    }
    assert forall|i: int| 0 <= i < bytes.len() implies load(after, address, bytes.len())[i]
        == bytes[i] by {
        assert(m.contains_key(address + i));
    }
    assert(load(after, address, bytes.len()) =~= bytes);
}

/// A load of a range that a store does not touch is not changed by the store.
pub proof fn load_beside_store(m: Bytes, address: int, bytes: Seq<u8>, other: int, len: nat)
    requires
        is_mapped(m, other, len),
        other + len <= address || address + bytes.len() <= other,
    ensures
        is_mapped(store(m, address, bytes), other, len),
        load(store(m, address, bytes), other, len) == load(m, other, len),
{
    let after = store(m, address, bytes);
    assert forall|va: int| other <= va < other + len implies after.contains_key(va) by {
        assert(m.contains_key(va));
    }
    assert forall|i: int| 0 <= i < len implies load(after, other, len)[i] == load(m, other, len)[i]
    by {
        assert(m.contains_key(other + i));
    }
    assert(load(after, other, len) =~= load(m, other, len));
}

/// Mapping a range that is mapped already changes no byte.
pub proof fn map_again_keeps_bytes(m: Bytes, start: int, end: int)
    ensures
        map_range(map_range(m, start, end), start, end) == map_range(m, start, end),
        forall|va: int| m.contains_key(va) ==> #[trigger] map_range(m, start, end)[va] == m[va],
{
    assert(map_range(map_range(m, start, end), start, end) =~= map_range(m, start, end));
}

/// What was unmapped and mapped again reads zero.
pub proof fn remapped_reads_zero(m: Bytes, start: int, end: int)
    ensures
        forall|va: int|
            start <= va < end ==> #[trigger] map_range(unmap_range(m, start, end), start, end)[va]
                == 0,
{
}

} // verus!
