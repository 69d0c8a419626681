//! Large ranges as arenas, small ones as sparse pages.
//!
//! The guest stack and the heaps are large enough for arenas; single pages such
//! as thread blocks and stubs stay sparse.

use vstd::prelude::*;
use vstd::slice::slice_subrange;

use crate::error::CpuError;
use crate::mem::arena::{covered, exact, owner, zero_range, ArenaSet};
use crate::mem::backend::{
    check_map_args, page_key, page_mapped, page_offset, walkable, GuestMemBackend,
};
use crate::mem::hashmap::HashMapBackend;
use crate::mem::model::{
    apart, in_bounds, is_mapped, lemma_map_append, lemma_map_overlay, lemma_mapped_run,
    lemma_mapped_run_is, lemma_store_append, lemma_store_overlay, map_range, mapped_run, overlay,
    store, unmap_range, whole_pages, Bytes, PAGE_SIZE, PAGE_SIZE_USIZE, VA_LIMIT,
};

use crate::text;

verus! {

/// The smallest map request that becomes an arena: 64 KiB, the size of the
/// default guest stack.
pub const ARENA_THRESHOLD: usize = 0x1_0000;

/// Arenas and sparse pages; each guest page belongs to one of the two.
pub struct HybridBackend {
    /// The arenas.
    pub arenas: ArenaSet,
    /// The sparse pages.
    pub sparse: HashMapBackend,
}

impl HybridBackend {
    /// An empty backend.
    pub fn new() -> (b: Self)
        ensures
            b.wf(),
            b.bytes() == Map::<int, u8>::empty(),
            b.arenas@.len() == 0,
            forall|key: u64| #[trigger] b.sparse.host_page(key) is None,
            forall|key: u64| #[trigger] b.host_page(key) is None,
    {
        let b = HybridBackend { arenas: ArenaSet::new(), sparse: HashMapBackend::new() };
        assert(b.bytes() =~= Map::<int, u8>::empty());
        b
    }

    /// The host address of the first byte of the arena that covers `va`.
    pub fn arena_host_base_for_va(&self, va: u64) -> (r: Option<u64>)
        requires
            self.wf(),
        ensures
            match r {
                Some(host) => covered(self.arenas@, va as int) && host == self.arenas@[owner(
                    self.arenas@,
                    va as int,
                )].base + 0x1000,
                None => !covered(self.arenas@, va as int),
            },
    {
        self.arenas.arena_host_base_for_va(va)
    }

    /// Releases a range: the arena that is exactly this range, if there is one,
    /// and every sparse page of the range.
    pub fn unmap_range(&mut self, address: u64, size: usize)
        requires
            old(self).wf(),
            address % PAGE_SIZE == 0,
            size % 0x1000 == 0,
            address + size <= u64::MAX,
        ensures
            final(self).wf(),
            final(self).arenas.bytes() == if exact(old(self).arenas@, address, size) {
                unmap_range(old(self).arenas.bytes(), address as int, address + size)
            } else {
                old(self).arenas.bytes()
            },
            final(self).sparse.bytes() == unmap_range(
                old(self).sparse.bytes(),
                address as int,
                address + size,
            ),
    {
        self.arenas.unmap_exact(address, size);
        self.sparse.unmap_range(address, size);
        assert(apart(self.arenas.bytes(), self.sparse.bytes()));
    }

    /// Decommits a range: its arena bytes read zero, its sparse pages are gone.
    pub fn discard_range(&mut self, address: u64, size: usize) -> (r: Result<(), CpuError>)
        requires
            old(self).wf(),
            address % PAGE_SIZE == 0,
            size % 0x1000 == 0,
            address + size <= u64::MAX,
        ensures
            final(self).wf(),
            r is Ok,
            final(self).arenas.bytes() == zero_range(
                old(self).arenas.bytes(),
                address as int,
                address + size,
            ),
            final(self).sparse.bytes() == unmap_range(
                old(self).sparse.bytes(),
                address as int,
                address + size,
            ),
    {
        let r = self.arenas.discard_range(address, size);
        self.sparse.discard_range(address, size);
        assert(apart(self.arenas.bytes(), self.sparse.bytes()));
        r
    }

    /// Maps a fully unmapped run into arena or sparse storage.
    fn map_unmapped_run(
        &mut self,
        start: u64,
        run_end: u64,
        perms: u32,
        prefer_arena: bool,
    ) -> (r: Result<(), CpuError>)
        requires
            old(self).wf(),
            start <= run_end,
            start < run_end ==> start % PAGE_SIZE == 0 && run_end % PAGE_SIZE == 0,
            run_end - start <= usize::MAX,
            forall|va: int| start <= va < run_end ==> !#[trigger] old(self).bytes().contains_key(va),
        ensures
            final(self).wf(),
            r is Ok,
            final(self).bytes() == map_range(old(self).bytes(), start as int, run_end as int),
            if prefer_arena {
                final(self).sparse == old(self).sparse
            } else {
                final(self).arenas == old(self).arenas
            },
            forall|key: u64|
                start <= key * 0x1000 < run_end || old(self).host_page(key) is Some
                    ==> #[trigger] final(self).host_page(key) is Some,
    {
        let run_size: usize = (run_end - start) as usize;
        let ghost a = self.arenas.bytes();
        let ghost b = self.sparse.bytes();
        let ghost m = self.bytes();
        if run_size == 0 {
            assert(self.bytes() =~= map_range(m, start as int, run_end as int));
            return Ok(());
        }
        proof {
            assert forall|va: int| start <= va < run_end implies !#[trigger] a.contains_key(va) by {
                assert(!m.contains_key(va));
            }
            assert forall|va: int| start <= va < run_end implies !#[trigger] b.contains_key(va) by {
                assert(!m.contains_key(va));
            }
            lemma_map_overlay(a, b, start as int, run_end as int);
            assert forall|va: int| start <= va < run_end implies !covered(self.arenas@, va) by {
                assert(!a.contains_key(va));
            }
        }
        if prefer_arena {
            self.arenas.map_range(start, run_end, run_size, perms);
            proof {
                assert(apart(self.arenas.bytes(), self.sparse.bytes()));
                assert forall|key: u64|
                    start <= key * 0x1000 < run_end || old(self).host_page(key)
                        is Some implies #[trigger] self.host_page(key) is Some by {
                    assert(covered(old(self).arenas@, key * 0x1000) ==> a.contains_key(
                        key * 0x1000,
                    ));
                    if start <= key * 0x1000 < run_end || a.contains_key(key * 0x1000) {
                        assert(self.arenas.bytes().contains_key(key * 0x1000));
                    }
                }
            }
            Ok(())
        } else {
            let r = self.sparse.map(start, run_size, perms);
            assert(self.sparse.bytes() == map_range(b, start as int, run_end as int));
            assert(apart(self.arenas.bytes(), self.sparse.bytes()));
            assert forall|key: u64|
                start <= key * 0x1000 < run_end || old(self).host_page(key)
                    is Some implies #[trigger] self.host_page(key) is Some by {
                assert(self.arenas.host_page(key) == old(self).arenas.host_page(key));
                if self.arenas.host_page(key) is None {
                    assert(self.sparse.host_page(key) is Some);
                }
            }
            r
        }
    }
}

impl HybridBackend {
    /// Reads bytes that lie in one page: all of them, or none if the page is not
    /// mapped.
    fn read_in_page(&self, va: u64, dst: &mut [u8]) -> (r: Result<(), CpuError>)
        requires
            self.wf(),
            0 < old(dst)@.len(),
            va % PAGE_SIZE + old(dst)@.len() <= 0x1000,
        ensures
            final(dst)@.len() == old(dst)@.len(),
            if self.bytes().contains_key(va as int) {
                &&& r is Ok
                &&& is_mapped(self.bytes(), va as int, old(dst)@.len())
                &&& va + old(dst)@.len() <= VA_LIMIT
                &&& forall|i: int|
                    0 <= i < final(dst)@.len() ==> #[trigger] final(dst)@[i] == self.bytes()[va + i]
            } else {
                &&& final(dst)@ == old(dst)@
                &&& r matches Err(e) && e.text() == "mem_read unmapped "@ + text::hex(va as nat)
            },
    {
        let ghost a = self.arenas.bytes();
        let ghost b = self.sparse.bytes();
        let ghost n = dst@.len();
        proof {
            self.wf_facts();
            lemma_run_in_page(self.arenas.bytes(), va, n);
            lemma_run_in_page(self.sparse.bytes(), va, n);
            lemma_run_in_page(self.bytes(), va, n);
            self.arenas.lemma_in_bounds();
            self.sparse.wf_facts();
        }
        if self.arenas.find_va(va).is_some() {
            assert(a.contains_key(va as int));
            self.arenas.read(va, dst)
        } else {
            assert(!a.contains_key(va as int));
            assert(!is_mapped(a, va as int, n)) by {
                assert(!a.contains_key(va as int));
            }
            self.sparse.read(va, dst)
        }
    }
}

/// In memory of whole pages, a run that starts in a page and does not leave it is
/// mapped in full or not at all.
proof fn lemma_run_in_page(m: Bytes, va: u64, n: nat)
    requires
        va % PAGE_SIZE + n <= 0x1000,
    ensures
        whole_pages(m) && m.contains_key(va as int) ==> is_mapped(m, va as int, n) && mapped_run(
            m,
            va as int,
            n,
        ) == n,
        in_bounds(m) && m.contains_key(va as int) ==> va + n <= VA_LIMIT,
        !m.contains_key(va as int) ==> mapped_run(m, va as int, n) == 0,
        whole_pages(m) && !m.contains_key(va as int) ==> forall|x: int|
            va <= x < va + n ==> !#[trigger] m.contains_key(x),
{
    if whole_pages(m) {
        assert forall|x: int| va <= x < va + n implies (#[trigger] m.contains_key(x)
            <==> m.contains_key(va as int)) by {
            assert(va as int / 0x1000 == x / 0x1000);
        }
        lemma_mapped_run(m, va as int, n);
    }
    if in_bounds(m) && m.contains_key(va as int) {
        assert(va < VA_LIMIT);
    }
}

impl GuestMemBackend for HybridBackend {
    open spec fn wf(&self) -> bool {
        &&& self.arenas.wf()
        &&& self.sparse.wf()
        &&& apart(self.arenas.bytes(), self.sparse.bytes())
    }

    open spec fn bytes(&self) -> Bytes {
        overlay(self.arenas.bytes(), self.sparse.bytes())
    }

    open spec fn host_page(&self, page_key: u64) -> Option<u64> {
        match self.arenas.host_page(page_key) {
            Some(p) => Some(p),
            None => self.sparse.host_page(page_key),
        }
    }

    proof fn wf_facts(&self) {
        self.arenas.lemma_in_bounds();
        self.sparse.wf_facts();
        assert forall|key: u64| #[trigger] self.host_page(key) != Some(0u64) by {
            assert(covered(self.arenas@, key * 0x1000) ==> 0 <= key * 0x1000 < VA_LIMIT);
        }
        assert forall|key: u64| #[trigger] self.host_page(key) is Some implies walkable(
            self.bytes(),
            key,
        ) by {
            if covered(self.arenas@, key * 0x1000) {
                assert(self.arenas.bytes().contains_key(key * 0x1000));
                assert(page_mapped(self.bytes(), key));
            } else {
                assert(self.sparse.host_page(key) is Some);
                let live = choose|live: u64| #[trigger]
                    page_mapped(self.sparse.bytes(), live) && crate::mem::radix::low_bits(live)
                        == crate::mem::radix::low_bits(key);
                assert(page_mapped(self.bytes(), live));
            }
        }
    }

    fn map(&mut self, address: u64, size: usize, perms: u32) -> (r: Result<(), CpuError>)
        ensures
            r is Ok && size >= ARENA_THRESHOLD && (forall|va: int|
                address <= va < address + size ==> !#[trigger] old(self).bytes().contains_key(va))
                && (forall|key: u64|
                address <= key * 0x1000 < address + size ==> #[trigger] old(self).sparse.host_page(
                    key,
                ) is None) ==> final(self).sparse == old(self).sparse && forall|va: int|
                address <= va < address + size ==> #[trigger] covered(final(self).arenas@, va),
            r is Ok && size < ARENA_THRESHOLD ==> final(self).arenas.bytes() == old(self).arenas.bytes()
                && forall|va: int| #[trigger]
                covered(final(self).arenas@, va) == covered(old(self).arenas@, va),
    {
        let (address, end) = match check_map_args(address, size) {
            Ok(range) => range,
            Err(e) => {
                return Err(e);
            },
        };
        let ghost m = old(self).bytes();
        let ghost fresh = (forall|va: int|
            address <= va < address + size ==> !#[trigger] old(self).bytes().contains_key(va))
            && (forall|key: u64|
            address <= key * 0x1000 < address + size ==> #[trigger] old(self).sparse.host_page(key)
                is None);
        assert(self.bytes() =~= map_range(m, address as int, address as int));
        let prefer_arena: bool = size >= ARENA_THRESHOLD;
        let mut page_va: u64 = address;
        let mut run_start: u64 = address;
        while page_va < end
            invariant
                self.wf(),
                m == old(self).bytes(),
                address <= run_start <= page_va <= end,
                end == address + size,
                prefer_arena == (size >= ARENA_THRESHOLD),
                size == 0 || (page_va % 0x1000 == 0 && end % 0x1000 == 0 && run_start % 0x1000
                    == 0),
                self.bytes() == map_range(m, address as int, run_start as int),
                forall|va: int|
                    run_start <= va < page_va ==> !#[trigger] self.bytes().contains_key(va),
                !prefer_arena ==> self.arenas.bytes() == old(self).arenas.bytes(),
                forall|key: u64|
                    address <= key * 0x1000 < run_start || old(self).host_page(key) is Some
                        ==> #[trigger] self.host_page(key) is Some,
                fresh ==> self.sparse == old(self).sparse && run_start == address && forall|va: int|
                    address <= va < address + size ==> !#[trigger] m.contains_key(va),
                fresh ==> forall|key: u64|
                    address <= key * 0x1000 < address + size ==> #[trigger] old(self).sparse.host_page(key) is None,
            decreases end - page_va,
        {
            proof {
                self.arenas.lemma_in_bounds();
                self.sparse.wf_facts();
                self.wf_facts();
            }
            let ghost whole = self.bytes();
            let ghost entry = *self;
            let ghost a = self.arenas.bytes();
            let ghost b = self.sparse.bytes();
            let key = page_key(page_va);
            assert(page_va == key * 0x1000);
            assert(fresh ==> old(self).sparse.host_page(key) is None);
            assert(fresh ==> !m.contains_key(page_va as int));
            if self.arenas.find_va(page_va).is_some() {
                assert(whole.contains_key(page_va as int));
                let ghost before = *self;
                self.arenas.set_perms_at(page_va, perms);
                assert forall|k: u64| #[trigger] self.host_page(k) == before.host_page(k) by {
                    assert(self.arenas.bytes().contains_key(k * 0x1000) == a.contains_key(
                        k * 0x1000,
                    ));
                }
                assert(self.host_page(key) is Some);
                match self.map_unmapped_run(run_start, page_va, perms, prefer_arena) {
                    Ok(()) => {},
                    Err(e) => {
                        return Err(e);
                    },
                }
                proof {
                    lemma_map_append(m, address as int, run_start as int, page_va as int);
                    assert forall|va: int|
                        page_va <= va < page_va + 0x1000 implies whole.contains_key(va) by {
                        assert(page_va as int / 0x1000 == va / 0x1000);
                    }
                    assert(map_range(m, address as int, page_va as int) =~= map_range(
                        m,
                        address as int,
                        page_va + 0x1000,
                    ));
                }
                assert forall|k: u64|
                    address <= k * 0x1000 < page_va + 0x1000 || old(self).host_page(k)
                        is Some implies #[trigger] self.host_page(k) is Some by {
                    if k > key {
                        assert(k * 0x1000 >= (key + 1) * 0x1000);
                    }
                }
                run_start = page_va + PAGE_SIZE;
            } else if self.sparse.page_data_ptr(key).is_some() {
                proof {
                    assert forall|va: int|
                        page_va <= va < page_va + 0x1000 implies !#[trigger] a.contains_key(va) by {
                        assert(page_va as int / 0x1000 == va / 0x1000);
                        assert(!a.contains_key(page_va as int));
                    }
                    lemma_map_overlay(a, b, page_va as int, page_va + 0x1000);
                }
                let ghost before = *self;
                assert forall|k: u64| entry.host_page(k) is Some implies #[trigger] before.host_page(
                    k,
                ) is Some by {
                    assert(entry.sparse.host_page(k) is Some ==> before.sparse.host_page(k)
                        == entry.sparse.host_page(k));
                }
                match self.sparse.map(page_va, PAGE_SIZE_USIZE, perms) {
                    Ok(()) => {},
                    Err(e) => {
                        return Err(e);
                    },
                }
                assert(apart(self.arenas.bytes(), self.sparse.bytes()));
                assert(self.bytes() == map_range(whole, page_va as int, page_va + 0x1000));
                assert forall|k: u64|
                    k == key || before.host_page(k) is Some implies #[trigger] self.host_page(k)
                    is Some by {
                    assert(self.arenas.host_page(k) == before.arenas.host_page(k));
                    assert(k == key ==> page_va <= k * 0x1000 < page_va + 0x1000);
                    if self.arenas.host_page(k) is None {
                        assert(self.sparse.host_page(k) is Some);
                    }
                }
                match self.map_unmapped_run(run_start, page_va, perms, prefer_arena) {
                    Ok(()) => {},
                    Err(e) => {
                        return Err(e);
                    },
                }
                proof {
                    assert(map_range(
                        map_range(
                            map_range(m, address as int, run_start as int),
                            page_va as int,
                            page_va + 0x1000,
                        ),
                        run_start as int,
                        page_va as int,
                    ) =~= map_range(m, address as int, page_va + 0x1000));
                }
                assert forall|k: u64|
                    address <= k * 0x1000 < page_va + 0x1000 || old(self).host_page(k)
                        is Some implies #[trigger] self.host_page(k) is Some by {
                    if k > key {
                        assert(k * 0x1000 >= (key + 1) * 0x1000);
                    }
                    assert(entry.host_page(k) is Some ==> before.host_page(k) is Some);
                }
                run_start = page_va + PAGE_SIZE;
            } else {
                proof {
                    assert(!whole.contains_key(page_va as int));
                    assert forall|va: int|
                        run_start <= va < page_va
                            + 0x1000 implies !#[trigger] self.bytes().contains_key(va) by {
                        if va >= page_va {
                            assert(page_va as int / 0x1000 == va / 0x1000);
                            assert(!whole.contains_key(va));
                        }
                        assert(self.bytes() == whole);
                    }
                }
            }
            page_va = page_va + PAGE_SIZE;
        }
        let r = self.map_unmapped_run(run_start, end, perms, prefer_arena);
        proof {
            lemma_map_append(m, address as int, run_start as int, end as int);
            if prefer_arena && fresh {
                assert forall|va: int| address <= va < address + size implies #[trigger] covered(
                    self.arenas@,
                    va,
                ) by {
                    assert(self.bytes().contains_key(va));
                    assert(!m.contains_key(va));
                    assert(!self.sparse.bytes().contains_key(va));
                }
            }
            if !prefer_arena {
                assert forall|va: int| #[trigger] covered(self.arenas@, va) == covered(
                    old(self).arenas@,
                    va,
                ) by {
                    assert(self.arenas.bytes().contains_key(va) == old(
                        self,
                    ).arenas.bytes().contains_key(va));
                }
            }
        }
        r
    }

    fn write(&mut self, address: u64, bytes: &[u8]) -> (r: Result<(), CpuError>) {
        let ghost m = old(self).bytes();
        let len: usize = bytes.len();
        let mut offset: usize = 0;
        assert(self.bytes() =~= store(m, address as int, bytes@.take(0)));
        while offset < len
            invariant
                self.wf(),
                len == bytes@.len(),
                m == old(self).bytes(),
                offset <= len,
                offset > 0 ==> address + offset <= VA_LIMIT,
                is_mapped(m, address as int, offset as nat),
                self.bytes() == store(m, address as int, bytes@.take(offset as int)),
                forall|key: u64| self.host_page(key) == old(self).host_page(key),
            decreases len - offset,
        {
            let va: u64 = address + offset as u64;
            let page_off = page_offset(va);
            let room: usize = PAGE_SIZE_USIZE - page_off;
            let remaining: usize = len - offset;
            let chunk: usize = if room < remaining {
                room
            } else {
                remaining
            };
            let src = slice_subrange(bytes, offset, offset + chunk);
            let ghost a = self.arenas.bytes();
            let ghost b = self.sparse.bytes();
            proof {
                self.arenas.lemma_in_bounds();
                self.sparse.wf_facts();
                self.wf_facts();
                lemma_store_overlay(a, b, va as int, src@);
                lemma_store_append(m, address as int, bytes@.take(offset as int), src@);
                assert(bytes@.take(offset as int) + src@ =~= bytes@.take(offset + chunk));
                assert(src@.take(chunk as int) =~= src@);
                assert(src@.take(0) =~= Seq::<u8>::empty());
            }
            if self.arenas.find_va(va).is_some() {
                let ghost arenas_before = self.arenas@;
                proof {
                    assert(a.contains_key(va as int));
                    assert forall|x: int| va <= x < va + chunk implies a.contains_key(x) by {
                        assert(va as int / 0x1000 == x / 0x1000);
                    }
                    lemma_mapped_run(a, va as int, chunk as nat);
                }
                match self.arenas.write(va, src) {
                    Ok(()) => {},
                    Err(e) => {
                        return Err(e);
                    },
                }
                assert forall|x: int| va <= x < va + chunk implies m.contains_key(x) by {
                    assert(a.contains_key(x));
                    assert(overlay(a, b).contains_key(x));
                }
                assert(apart(self.arenas.bytes(), self.sparse.bytes()));
                assert forall|key: u64| self.host_page(key) == old(self).host_page(key) by {
                    assert(covered(self.arenas@, key * 0x1000) == covered(
                        arenas_before,
                        key * 0x1000,
                    ));
                }
            } else {
                proof {
                    if b.contains_key(va as int) {
                        assert forall|x: int| va <= x < va + chunk implies b.contains_key(x) by {
                            assert(va as int / 0x1000 == x / 0x1000);
                        }
                        lemma_mapped_run(b, va as int, chunk as nat);
                    } else {
                        assert(mapped_run(b, va as int, chunk as nat) == 0);
                        assert(store(b, va as int, src@.take(0)) =~= b);
                        assert(!overlay(a, b).contains_key(va as int));
                        assert(!m.contains_key(va as int));
                        lemma_mapped_run_is(m, address as int, len as nat, offset as nat);
                    }
                }
                match self.sparse.write(va, src) {
                    Ok(()) => {},
                    Err(e) => {
                        return Err(e);
                    },
                }
                assert forall|x: int| va <= x < va + chunk implies m.contains_key(x) by {
                    assert(b.contains_key(x));
                    assert(overlay(a, b).contains_key(x));
                }
                assert(apart(self.arenas.bytes(), self.sparse.bytes()));
            }
            offset = offset + chunk;
        }
        proof {
            lemma_mapped_run_is(m, address as int, len as nat, len as nat);
            assert(bytes@.take(len as int) =~= bytes@);
        }
        Ok(())
    }

    fn read(&self, address: u64, bytes: &mut [u8]) -> (r: Result<(), CpuError>) {
        let ghost m = self.bytes();
        let len: usize = bytes.len();
        let mut offset: usize = 0;
        while offset < len
            invariant
                self.wf(),
                len == bytes@.len(),
                len == old(bytes)@.len(),
                m == self.bytes(),
                offset <= len,
                offset > 0 ==> address + offset <= VA_LIMIT,
                is_mapped(m, address as int, offset as nat),
                forall|i: int|
                    0 <= i < len ==> #[trigger] bytes@[i] == if i < offset {
                        m[address + i]
                    } else {
                        old(bytes)@[i]
                    },
            decreases len - offset,
        {
            let va: u64 = address + offset as u64;
            let page_off = page_offset(va);
            let room: usize = PAGE_SIZE_USIZE - page_off;
            let remaining: usize = len - offset;
            let chunk: usize = if room < remaining {
                room
            } else {
                remaining
            };
            let (_head, tail) = bytes.split_at_mut(offset);
            let (dst, _rest) = tail.split_at_mut(chunk);
            match self.read_in_page(va, dst) {
                Ok(()) => {},
                Err(e) => {
                    proof {
                        lemma_mapped_run_is(m, address as int, len as nat, offset as nat);
                    }
                    return Err(e);
                },
            }
            offset = offset + chunk;
        }
        proof {
            lemma_mapped_run_is(m, address as int, len as nat, len as nat);
        }
        Ok(())
    }

    fn page_data_ptr(&mut self, page_key: u64) -> (r: Option<u64>) {
        proof {
            self.wf_facts();
            self.arenas.lemma_in_bounds();
        }
        match self.arenas.page_data_ptr(page_key) {
            Some(p) => Some(p),
            None => self.sparse.page_data_ptr(page_key),
        }
    }

    fn page_data_ptr_walk(&self, page_key: u64) -> (r: Option<u64>) {
        match self.arenas.page_data_ptr(page_key) {
            Some(p) => Some(p),
            None => self.sparse.page_data_ptr_walk(page_key),
        }
    }

    fn name(&self) -> (s: &'static str)
        ensures
            s@ == "hybrid"@,
    {
        "hybrid"
    }
}

} // verus!
