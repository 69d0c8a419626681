//! Guest memory: a storage backend and the registry of named ranges.

use vstd::prelude::*;

use crate::ascii;
use crate::error::CpuError;
use crate::mem::arena::{covered, owner};
use crate::mem::backend::{
    fetch_outcome, map_outcome, read_outcome, walkable, write_outcome, GuestMemBackend, MAX_FETCH,
};
use crate::mem::hashmap::HashMapBackend;
use crate::mem::hybrid::{HybridBackend, ARENA_THRESHOLD};
use crate::mem::mmap_arena::MmapArenaBackend;
use crate::mem::model::{in_bounds, lemma_mapped_run, load, mapped_run, whole_pages, Bytes};
use crate::mem::region::{backfilled, first_covering, GuestRegion, RegionTable};
use crate::text;

verus! {

/// How guest pages are stored.
#[derive(Debug, Clone, Copy, PartialEq, Eq, Structural)]
pub enum MemBackendKind {
    /// Sparse pages and a radix table only.
    Hash,
    /// Every map is an arena.
    Mmap,
    /// Large maps as arenas, small ones as sparse pages.
    Hybrid,
}

impl MemBackendKind {
    /// The kind that a setting names, ASCII case aside: `hash`, `mmap` (also
    /// `mmap_page`) or `hybrid`, which is the default.
    pub open spec fn named(setting: Option<Seq<char>>) -> Self {
        match setting {
            Some(v) => if ascii::lower(v) == ascii::lower("hash"@) {
                MemBackendKind::Hash
            } else if ascii::lower(v) == ascii::lower("mmap"@) || ascii::lower(v) == ascii::lower(
                "mmap_page"@,
            ) {
                MemBackendKind::Mmap
            } else {
                MemBackendKind::Hybrid
            },
            None => MemBackendKind::Hybrid,
        }
    }

    /// Parses the `WIE_MEM` setting; a missing or unknown one means hybrid.
    #[must_use]
    pub fn from_setting(setting: Option<&str>) -> (kind: Self)
        ensures
            kind == Self::named(
                match setting {
                    Some(v) => Some(v@),
                    None => None,
                },
            ),
    {
        match setting {
            Some(v) => {
                if v.eq_ignore_ascii_case("hash") {
                    MemBackendKind::Hash
                } else if v.eq_ignore_ascii_case("mmap") {
                    MemBackendKind::Mmap
                } else if v.eq_ignore_ascii_case("hybrid") {
                    proof {
                        reveal_strlit("hash");
                        reveal_strlit("mmap");
                        reveal_strlit("mmap_page");
                        reveal_strlit("hybrid");
                        assert(ascii::lower(v@).len() == 6);
                        assert(ascii::lower("mmap_page"@).len() == 9);
                    }
                    MemBackendKind::Hybrid
                } else if v.eq_ignore_ascii_case("mmap_page") {
                    MemBackendKind::Mmap
                } else {
                    MemBackendKind::Hybrid
                }
            },
            None => MemBackendKind::Hybrid,
        }
    }
}

/// Concrete storage behind [`GuestMemory`].
pub enum Storage {
    /// Sparse pages.
    Hash(HashMapBackend),
    /// Arenas.
    Mmap(MmapArenaBackend),
    /// Both.
    Hybrid(HybridBackend),
}

impl Storage {
    /// The backend's invariant.
    pub open spec fn wf(&self) -> bool {
        match self {
            Storage::Hash(b) => b.wf(),
            Storage::Mmap(b) => b.wf(),
            Storage::Hybrid(b) => b.wf(),
        }
    }

    /// The mapped addresses and their bytes.
    pub open spec fn bytes(&self) -> Bytes {
        match self {
            Storage::Hash(b) => b.bytes(),
            Storage::Mmap(b) => b.bytes(),
            Storage::Hybrid(b) => b.bytes(),
        }
    }

    /// What a page-table walk gives.
    pub open spec fn host_page(&self, page_key: u64) -> Option<u64> {
        match self {
            Storage::Hash(b) => b.host_page(page_key),
            Storage::Mmap(b) => b.host_page(page_key),
            Storage::Hybrid(b) => b.host_page(page_key),
        }
    }

    /// The host address of the first byte of the arena that covers `va`.
    pub open spec fn arena_host_base(&self, va: u64) -> Option<u64> {
        let arenas = match self {
            Storage::Hash(_) => Seq::empty(),
            Storage::Mmap(b) => b.arenas@,
            Storage::Hybrid(b) => b.arenas@,
        };
        if covered(arenas, va as int) {
            Some((arenas[owner(arenas, va as int)].base + 0x1000) as u64)
        } else {
            None
        }
    }

    /// Which backend this is.
    pub open spec fn kind(&self) -> MemBackendKind {
        match self {
            Storage::Hash(_) => MemBackendKind::Hash,
            Storage::Mmap(_) => MemBackendKind::Mmap,
            Storage::Hybrid(_) => MemBackendKind::Hybrid,
        }
    }

    /// Empty storage of the given kind.
    fn new(kind: MemBackendKind) -> (s: Self)
        ensures
            s.wf(),
            s.kind() == kind,
            s.bytes() == Map::<int, u8>::empty(),
            forall|key: u64| #[trigger] s.host_page(key) is None,
            forall|va: u64| #[trigger] s.arena_host_base(va) is None,
    {
        match kind {
            MemBackendKind::Hash => Storage::Hash(HashMapBackend::new()),
            MemBackendKind::Mmap => Storage::Mmap(MmapArenaBackend::new()),
            MemBackendKind::Hybrid => Storage::Hybrid(HybridBackend::new()),
        }
    }

    /// The facts that every backend's invariant gives.
    proof fn wf_facts(&self)
        requires
            self.wf(),
        ensures
            in_bounds(self.bytes()),
            whole_pages(self.bytes()),
            forall|key: u64| #[trigger] self.host_page(key) != Some(0u64),
            forall|key: u64| #[trigger]
                self.host_page(key) is Some ==> walkable(self.bytes(), key),
            forall|va: u64| #[trigger] self.arena_host_base(va) != Some(0u64),
            forall|va: u64| #[trigger]
                self.arena_host_base(va) is Some ==> self.bytes().contains_key(va as int),
            self.kind() == MemBackendKind::Mmap ==> forall|va: u64| #[trigger]
                self.bytes().contains_key(va as int) ==> self.arena_host_base(va) is Some,
    {
        match self {
            Storage::Hash(b) => {
                b.wf_facts();
                assert forall|key: u64| #[trigger] self.host_page(key) != Some(0u64) && (
                self.host_page(key) is Some ==> walkable(self.bytes(), key)) by {
                    assert(b.host_page(key) != Some(0u64));
                    assert(b.host_page(key) is Some ==> walkable(b.bytes(), key));
                }
            },
            Storage::Mmap(b) => {
                b.wf_facts();
                assert forall|key: u64| #[trigger] self.host_page(key) != Some(0u64) && (
                self.host_page(key) is Some ==> walkable(self.bytes(), key)) by {
                    assert(b.host_page(key) != Some(0u64));
                    assert(b.host_page(key) is Some ==> walkable(b.bytes(), key));
                }
            },
            Storage::Hybrid(b) => {
                b.wf_facts();
                assert forall|key: u64| #[trigger] self.host_page(key) != Some(0u64) && (
                self.host_page(key) is Some ==> walkable(self.bytes(), key)) by {
                    assert(b.host_page(key) != Some(0u64));
                    assert(b.host_page(key) is Some ==> walkable(b.bytes(), key));
                }
            },
        }
    }

    fn arena_host_base_for_va(&self, va: u64) -> (r: Option<u64>)
        requires
            self.wf(),
        ensures
            r == self.arena_host_base(va),
    {
        match self {
            Storage::Hash(_) => None,
            Storage::Mmap(b) => b.arena_host_base_for_va(va),
            Storage::Hybrid(b) => b.arena_host_base_for_va(va),
        }
    }
}

/// Guest memory: pluggable backend and region registry.
pub struct GuestMemory {
    backend: Storage,
    regions: RegionTable,
}

impl GuestMemory {
    /// The memory's invariant.
    pub closed spec fn wf(&self) -> bool {
        self.backend.wf()
    }

    /// The mapped addresses and their bytes.
    pub closed spec fn bytes(&self) -> Bytes {
        self.backend.bytes()
    }

    /// The registered ranges.
    pub closed spec fn regions(&self) -> Seq<GuestRegion> {
        self.regions@
    }

    /// What a page-table walk gives.
    pub closed spec fn host_page(&self, page_key: u64) -> Option<u64> {
        self.backend.host_page(page_key)
    }

    /// The host address of the first byte of the arena that covers `va`.
    pub closed spec fn arena_host_base(&self, va: u64) -> Option<u64> {
        self.backend.arena_host_base(va)
    }

    /// The kind of the storage.
    pub closed spec fn kind(&self) -> MemBackendKind {
        self.backend.kind()
    }

    /// What the invariant gives: bytes in the mappable range only, whole pages,
    /// no null host page, and host pages and arenas only where memory is mapped. With
    /// arena storage, all that is mapped has a host address.
    pub proof fn wf_facts(&self)
        requires
            self.wf(),
        ensures
            in_bounds(self.bytes()),
            whole_pages(self.bytes()),
            forall|key: u64| #[trigger] self.host_page(key) != Some(0u64),
            forall|key: u64| #[trigger]
                self.host_page(key) is Some ==> walkable(self.bytes(), key),
            forall|va: u64| #[trigger] self.arena_host_base(va) != Some(0u64),
            forall|va: u64| #[trigger]
                self.arena_host_base(va) is Some ==> self.bytes().contains_key(va as int),
            self.kind() == MemBackendKind::Mmap ==> forall|va: u64| #[trigger]
                self.bytes().contains_key(va as int) ==> self.arena_host_base(va) is Some,
    {
        self.backend.wf_facts();
        assert forall|key: u64| #[trigger] self.host_page(key) != Some(0u64) && (self.host_page(
            key,
        ) is Some ==> walkable(self.bytes(), key)) by {
            assert(self.backend.host_page(key) != Some(0u64));
            assert(self.backend.host_page(key) is Some ==> walkable(self.backend.bytes(), key));
        }
        assert forall|va: u64| #[trigger] self.arena_host_base(va) != Some(0u64) && (
        self.arena_host_base(va) is Some ==> self.bytes().contains_key(va as int)) by {
            assert(self.backend.arena_host_base(va) != Some(0u64));
        }
    }

    /// Empty memory with the default storage.
    #[must_use]
    pub fn new() -> (m: Self)
        ensures
            m.wf(),
            m.kind() == MemBackendKind::Hybrid,
            m.bytes() == Map::<int, u8>::empty(),
            m.regions().len() == 0,
            forall|key: u64| #[trigger] m.host_page(key) is None,
            forall|va: u64| #[trigger] m.arena_host_base(va) is None,
    {
        Self::with_kind(MemBackendKind::Hybrid)
    }

    /// Empty memory with the given storage.
    #[must_use]
    pub fn with_kind(kind: MemBackendKind) -> (m: Self)
        ensures
            m.wf(),
            m.kind() == kind,
            m.bytes() == Map::<int, u8>::empty(),
            m.regions().len() == 0,
            forall|key: u64| #[trigger] m.host_page(key) is None,
            forall|va: u64| #[trigger] m.arena_host_base(va) is None,
    {
        let m = GuestMemory { backend: Storage::new(kind), regions: RegionTable::new() };
        assert forall|key: u64| #[trigger] m.host_page(key) is None by {
            assert(m.backend.host_page(key) is None);
        }
        assert forall|va: u64| #[trigger] m.arena_host_base(va) is None by {
            assert(m.backend.arena_host_base(va) is None);
        }
        m
    }

    /// Active storage backend name.
    #[must_use]
    pub fn backend_name(&self) -> (name: &'static str)
        ensures
            name@ == match self.kind() {
                MemBackendKind::Hash => "hash"@,
                MemBackendKind::Mmap => "mmap"@,
                MemBackendKind::Hybrid => "hybrid"@,
            },
    {
        match &self.backend {
            Storage::Hash(b) => b.name(),
            Storage::Mmap(b) => b.name(),
            Storage::Hybrid(b) => b.name(),
        }
    }

    /// Registers a named layout range; fills in its host address when an arena
    /// covers its base.
    pub fn register_region(&mut self, region: GuestRegion)
        requires
            old(self).wf(),
        ensures
            final(self).wf(),
            final(self).bytes() == old(self).bytes(),
            final(self).kind() == old(self).kind(),
            forall|key: u64| #[trigger] final(self).host_page(key) == old(self).host_page(key),
            forall|va: u64| #[trigger]
                final(self).arena_host_base(va) == old(self).arena_host_base(va),
            final(self).regions() == old(self).regions().push(
                if region.host_base is None {
                    (GuestRegion { host_base: old(self).arena_host_base(region.base), ..region })
                } else {
                    region
                },
            ),
    {
        let mut region = region;
        if region.host_base.is_none() {
            region.host_base = self.backend.arena_host_base_for_va(region.base);
        }
        self.regions.register(region);
    }

    /// The first registered range that contains `va`.
    #[must_use]
    pub fn find_region(&self, va: u64) -> (r: Option<&GuestRegion>)
        ensures
            match first_covering(self.regions(), va) {
                Some(i) => 0 <= i < self.regions().len() && r == Some(&self.regions()[i]),
                None => r is None,
            },
    {
        self.regions.find(va)
    }

    /// Maps `[address, address + size)` with `perms`. A page-table walk then finds
    /// every page of the range. With arena storage, and for a large fresh range with
    /// both kinds, the range lies in arenas. Registered ranges that contain `address`
    /// and have no host address yet get that of the arena there.
    pub fn map(&mut self, address: u64, size: usize, perms: u32) -> (r: Result<(), CpuError>)
        requires
            old(self).wf(),
        ensures
            final(self).wf(),
            final(self).kind() == old(self).kind(),
            map_outcome(old(self).bytes(), address, size, r, final(self).bytes()),
            final(self).regions() == match final(self).arena_host_base(address) {
                Some(host) if r is Ok => old(self).regions().map_values(
                    |g: GuestRegion| backfilled(g, address, host),
                ),
                _ => old(self).regions(),
            },
            r is Ok ==> forall|key: u64|
                address <= key * 0x1000 < address + size || old(self).host_page(key) is Some
                    ==> #[trigger] final(self).host_page(key) is Some,
            r is Err ==> forall|key: u64| #[trigger]
                final(self).host_page(key) == old(self).host_page(key),
            forall|key: u64|
                #![trigger final(self).host_page(key)]
                final(self).host_page(key) != Some(0u64) && (final(self).host_page(key) is Some
                    ==> walkable(final(self).bytes(), key)),
            r is Ok && in_arenas(*old(self), address, size) ==> forall|va: u64|
                address <= va < address + size ==> (#[trigger] final(self).arena_host_base(va)
                    matches Some(host) && host != 0),
            r is Ok && old(self).kind() == MemBackendKind::Hybrid && size < ARENA_THRESHOLD
                ==> forall|va: u64|
                #![trigger final(self).arena_host_base(va)]
                final(self).arena_host_base(va) is Some == old(self).arena_host_base(va) is Some,
    {
        let ghost before = *self;
        proof {
            if self.kind() == MemBackendKind::Hybrid && in_arenas(before, address, size) {
                let b = self.backend->Hybrid_0;
                assert forall|key: u64|
                    address <= key * 0x1000 < address
                        + size implies #[trigger] b.sparse.host_page(key) is None by {
                    assert(before.host_page(key) is None);
                }
                assert forall|va: int|
                    address <= va < address + size implies !#[trigger] b.bytes().contains_key(
                    va,
                ) by {
                    assert(!before.bytes().contains_key(va));
                }
            }
        }
        let r = match &mut self.backend {
            Storage::Hash(b) => b.map(address, size, perms),
            Storage::Mmap(b) => b.map(address, size, perms),
            Storage::Hybrid(b) => b.map(address, size, perms),
        };
        proof {
            self.wf_facts();
            assert forall|key: u64|
                r is Ok && (address <= key * 0x1000 < address + size || before.host_page(key)
                    is Some) implies #[trigger] self.host_page(key) is Some by {
                assert(before.backend.host_page(key) == before.host_page(key));
                assert(self.backend.host_page(key) is Some);
            }
            if r is Ok && in_arenas(before, address, size) {
                assert forall|va: u64| address <= va < address + size implies (
                #[trigger] self.arena_host_base(va) matches Some(host) && host != 0) by {
                    assert(self.bytes().contains_key(va as int));
                    if before.kind() == MemBackendKind::Hybrid {
                        assert(covered(self.backend->Hybrid_0.arenas@, va as int));
                    }
                }
            }
        }
        let ghost mapped = *self;
        match r {
            Ok(()) => {},
            Err(e) => {
                return Err(e);
            },
        }
        match self.backend.arena_host_base_for_va(address) {
            Some(host) => {
                self.regions.set_host_base_if_covers(address, host);
            },
            None => {},
        }
        proof {
            self.wf_facts();
            assert forall|va: u64| #[trigger] self.arena_host_base(va) == mapped.arena_host_base(
                va,
            ) by {}
        }
        Ok(())
    }

    /// Writes `bytes` at guest `address`.
    pub fn write(&mut self, address: u64, bytes: &[u8]) -> (r: Result<(), CpuError>)
        requires
            old(self).wf(),
        ensures
            final(self).wf(),
            final(self).kind() == old(self).kind(),
            final(self).regions() == old(self).regions(),
            write_outcome(old(self).bytes(), address, bytes@, r, final(self).bytes()),
            forall|key: u64| #[trigger] final(self).host_page(key) == old(self).host_page(key),
    {
        let ghost before = self.backend;
        let r = match &mut self.backend {
            Storage::Hash(b) => b.write(address, bytes),
            Storage::Mmap(b) => b.write(address, bytes),
            Storage::Hybrid(b) => b.write(address, bytes),
        };
        assert forall|key: u64| #[trigger] self.host_page(key) == old(self).host_page(key) by {
            assert(self.backend.host_page(key) == before.host_page(key));
        }
        r
    }

    /// Reads into `bytes` from guest `address`.
    pub fn read(&self, address: u64, bytes: &mut [u8]) -> (r: Result<(), CpuError>)
        requires
            self.wf(),
        ensures
            read_outcome(self.bytes(), address, old(bytes)@, r, final(bytes)@),
    {
        match &self.backend {
            Storage::Hash(b) => b.read(address, bytes),
            Storage::Mmap(b) => b.read(address, bytes),
            Storage::Hybrid(b) => b.read(address, bytes),
        }
    }

    /// The host page of a mapped guest page (for the JIT's TLB).
    #[must_use]
    pub fn page_data_ptr(&mut self, page_key: u64) -> (r: Option<u64>)
        requires
            old(self).wf(),
        ensures
            final(self).wf(),
            final(self).kind() == old(self).kind(),
            final(self).regions() == old(self).regions(),
            final(self).bytes() == old(self).bytes(),
            r == final(self).host_page(page_key),
            old(self).host_page(page_key) is Some ==> r == old(self).host_page(page_key),
            r is Some <==> old(self).host_page(page_key) is Some || old(self).bytes().contains_key(
                page_key * 0x1000,
            ),
            r != Some(0u64),
            forall|key: u64|
                old(self).host_page(key) is Some ==> #[trigger] final(self).host_page(key)
                    == old(self).host_page(key),
    {
        let r = match &mut self.backend {
            Storage::Hash(b) => b.page_data_ptr(page_key),
            Storage::Mmap(b) => b.page_data_ptr(page_key),
            Storage::Hybrid(b) => b.page_data_ptr(page_key),
        };
        proof {
            self.wf_facts();
        }
        r
    }

    /// The page-table walk behind `page_data_ptr`.
    #[must_use]
    pub fn page_data_ptr_walk(&self, page_key: u64) -> (r: Option<u64>)
        requires
            self.wf(),
        ensures
            r == self.host_page(page_key),
            r != Some(0u64),
            r is Some ==> walkable(self.bytes(), page_key),
    {
        proof {
            self.wf_facts();
        }
        match &self.backend {
            Storage::Hash(b) => b.page_data_ptr_walk(page_key),
            Storage::Mmap(b) => b.page_data_ptr_walk(page_key),
            Storage::Hybrid(b) => b.page_data_ptr_walk(page_key),
        }
    }

    /// Instruction fetch into a small buffer.
    pub fn fetch_into(&self, address: u64, out: &mut [u8]) -> (r: Result<usize, CpuError>)
        requires
            self.wf(),
        ensures
            fetch_outcome(self.bytes(), address, old(out)@, r, final(out)@),
    {
        match &self.backend {
            Storage::Hash(b) => b.fetch_into(address, out),
            Storage::Mmap(b) => b.fetch_into(address, out),
            Storage::Hybrid(b) => b.fetch_into(address, out),
        }
    }

    /// Reads up to `max_len` bytes (never more than fifteen) for instruction
    /// fetch: as many as are mapped in a row. Fails if the first one is not.
    pub fn fetch(&self, address: u64, max_len: usize) -> (r: Result<Vec<u8>, CpuError>)
        requires
            self.wf(),
        ensures
            fetched(self.bytes(), address, max_len as nat) matches Some(bytes) ==> (r matches Ok(v)
                && v@ == bytes),
            fetched(self.bytes(), address, max_len as nat) is None ==> (r matches Err(e) && e.text()
                == "instruction fetch unmapped "@ + text::hex(address as nat)),
    {
        let want: usize = if max_len < MAX_FETCH {
            max_len
        } else {
            MAX_FETCH
        };
        let mut buf: Vec<u8> = vec![0u8; want];
        proof {
            lemma_mapped_run(self.bytes(), address as int, want as nat);
        }
        match self.fetch_into(address, buf.as_mut_slice()) {
            Ok(n) => {
                buf.truncate(n);
                assert(buf@ =~= load(self.bytes(), address as int, n as nat));
                Ok(buf)
            },
            Err(e) => Err(e),
        }
    }
}

/// A map request goes to arenas: with arena storage any, with both kinds a large one
/// of a range where nothing is mapped and no walk finds a page.
pub open spec fn in_arenas(m: GuestMemory, address: u64, size: usize) -> bool {
    match m.kind() {
        MemBackendKind::Hash => false,
        MemBackendKind::Mmap => true,
        MemBackendKind::Hybrid => size >= ARENA_THRESHOLD && (forall|va: int|
            address <= va < address + size ==> !#[trigger] m.bytes().contains_key(va)) && (forall|
            key: u64,
        |
            address <= key * 0x1000 < address + size ==> #[trigger] m.host_page(key) is None),
    }
}

/// The bytes that an instruction fetch of at most `max_len` bytes gives, if the
/// address is mapped.
pub open spec fn fetched(m: Bytes, address: u64, max_len: nat) -> Option<Seq<u8>> {
    let want = if max_len < MAX_FETCH {
        max_len
    } else {
        MAX_FETCH as nat
    };
    let n = mapped_run(m, address as int, want);
    if n > 0 || want == 0 {
        Some(load(m, address as int, n))
    } else {
        None
    }
}

} // verus!
