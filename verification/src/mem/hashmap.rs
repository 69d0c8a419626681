//! Sparse guest pages and a radix page table that mirrors their host pages.
//!
//! Reads and writes go by the page map alone; the table serves the JIT, which
//! walks it by nine bits of the page key per level.

use vstd::prelude::*;

use crate::error::CpuError;
use crate::mem::backend::{check_map_args, page_key, page_mapped, walkable, GuestMemBackend};
use crate::mem::model::{map_range, unmap_range, Bytes, PAGE_SIZE};
use crate::mem::pages::{lemma_page_bytes, Page, PageStore};
use crate::mem::radix::{lemma_leaf_shared, low_bits, RadixTable};

verus! {

/// The host page of the guest page `key`: its place in the backend's host space,
/// which starts one page above zero so that no page is null.
pub open spec fn sparse_host(key: u64) -> u64 {
    ((key + 1) * 0x1000) as u64
}

/// `after` is `before` with the pages of `[start, end)` mapped: those have
/// `perms`, and no other page changes.
pub open spec fn pages_mapped(
    before: Map<u64, Page>,
    after: Map<u64, Page>,
    start: int,
    end: int,
    perms: u32,
) -> bool {
    forall|key: u64|
        #![trigger after.contains_key(key)]
        #![trigger after[key]]
        if start <= key * 0x1000 < end {
            after.contains_key(key) && after[key].perms == perms
        } else {
            (after.contains_key(key) <==> before.contains_key(key)) && after[key] == before[key]
        }
}

/// Sparse page map with a radix page table for the JIT.
pub struct HashMapBackend {
    store: PageStore,
    table: RadixTable,
}

impl HashMapBackend {
    /// The mapped pages by key.
    pub closed spec fn pages(&self) -> Map<u64, Page> {
        self.store@
    }

    /// The leaf that a walk for `key` reaches; zero where there is none.
    pub closed spec fn leaf(&self, key: u64) -> u64 {
        self.table.leaf(key)
    }

    /// Every leaf names a mapped page whose key agrees with the walked key in the
    /// 36 bits that the table indexes.
    spec fn leaves_are_live(&self) -> bool {
        forall|key: u64| #[trigger]
            self.table.leaf(key) != 0 ==> exists|live: u64|
                {
                    &&& #[trigger] self.store@.contains_key(live)
                    &&& low_bits(live) == low_bits(key)
                    &&& self.table.leaf(key) == sparse_host(live)
                }
    }

    /// An empty backend.
    pub fn new() -> (b: Self)
        ensures
            b.wf(),
            b.bytes() == Map::<int, u8>::empty(),
            b.pages() == Map::<u64, Page>::empty(),
            forall|key: u64| #[trigger] b.host_page(key) is None,
    {
        HashMapBackend { store: PageStore::new(), table: RadixTable::new() }
    }

    /// The number of mapped pages.
    pub fn page_count(&self) -> (n: usize)
        ensures
            n == self.pages().len(),
    {
        self.store.len()
    }

    /// Drops every page of `[address, address + size)`, and the leaves that named
    /// one of them.
    pub fn unmap_range(&mut self, address: u64, size: usize)
        requires
            old(self).wf(),
            address % PAGE_SIZE == 0,
            size % 0x1000 == 0,
            address + size <= u64::MAX,
        ensures
            final(self).wf(),
            final(self).bytes() == unmap_range(old(self).bytes(), address as int, address + size),
            forall|key: u64|
                address <= key * 0x1000 < address + size ==> !(#[trigger] final(self).pages().contains_key(key)),
            forall|key: u64|
                !(address <= key * 0x1000 < address + size) ==> (#[trigger] final(self).pages().contains_key(key) <==> old(self).pages().contains_key(key)),
    {
        let ghost m = old(self).bytes();
        let end: u64 = address + size as u64;
        let mut page_va: u64 = address;
        assert(self.bytes() =~= unmap_range(m, address as int, address as int));
        while page_va < end
            invariant
                self.wf(),
                m == old(self).bytes(),
                address <= page_va <= end,
                end == address + size,
                page_va % 0x1000 == 0,
                end % 0x1000 == 0,
                self.bytes() == unmap_range(m, address as int, page_va as int),
                forall|key: u64|
                    address <= key * 0x1000 < page_va ==> !(#[trigger] self.pages().contains_key(
                        key,
                    )),
                forall|key: u64|
                    !(address <= key * 0x1000 < page_va) ==> (#[trigger] self.pages().contains_key(
                        key,
                    ) <==> old(self).pages().contains_key(key)),
            decreases end - page_va,
        {
            let key = page_key(page_va);
            let ghost before = *self;
            assert(page_va == key * 0x1000);
            self.store.unmap_page(key);
            let host: u64 = (key + 1) * PAGE_SIZE;
            if self.table.walk(key) == host {
                self.table.install(key, 0);
            }
            proof {
                assert(before.pages() == before.store@);
                assert(self.pages() == self.store@);
                assert forall|k: u64| #[trigger] self.table.leaf(k) != 0 implies exists|live: u64|
                    {
                        &&& #[trigger] self.store@.contains_key(live)
                        &&& low_bits(live) == low_bits(k)
                        &&& self.table.leaf(k) == sparse_host(live)
                    } by {
                    if low_bits(k) == low_bits(key) {
                        lemma_leaf_shared(before.table, k, key);
                        lemma_leaf_shared(self.table, k, key);
                    }
                    assert(self.table.leaf(k) == before.table.leaf(k));
                    let live = choose|live: u64|
                        {
                            &&& #[trigger] before.store@.contains_key(live)
                            &&& low_bits(live) == low_bits(k)
                            &&& before.table.leaf(k) == sparse_host(live)
                        };
                    assert(live != key);
                    assert(self.store@.contains_key(live));
                }
                assert(unmap_range(
                    unmap_range(m, address as int, page_va as int),
                    page_va as int,
                    page_va + 0x1000,
                ) =~= unmap_range(m, address as int, page_va + 0x1000));
            }
            page_va = page_va + PAGE_SIZE;
        }
    }

    /// Decommits `[address, address + size)`: the sparse pages are dropped.
    pub fn discard_range(&mut self, address: u64, size: usize)
        requires
            old(self).wf(),
            address % PAGE_SIZE == 0,
            size % 0x1000 == 0,
            address + size <= u64::MAX,
        ensures
            final(self).wf(),
            final(self).bytes() == unmap_range(old(self).bytes(), address as int, address + size),
    {
        self.unmap_range(address, size);
    }
}

impl GuestMemBackend for HashMapBackend {
    closed spec fn wf(&self) -> bool {
        &&& self.store.wf()
        &&& self.table.wf()
        &&& self.leaves_are_live()
    }

    closed spec fn bytes(&self) -> Bytes {
        self.store.bytes()
    }

    closed spec fn host_page(&self, page_key: u64) -> Option<u64> {
        if self.table.leaf(page_key) == 0 {
            None
        } else {
            Some(self.table.leaf(page_key))
        }
    }

    proof fn wf_facts(&self) {
        lemma_page_bytes(self.store);
        assert forall|key: u64| #[trigger] self.host_page(key) is Some implies walkable(
            self.bytes(),
            key,
        ) by {
            let live = choose|live: u64|
                {
                    &&& #[trigger] self.store@.contains_key(live)
                    &&& low_bits(live) == low_bits(key)
                    &&& self.table.leaf(key) == sparse_host(live)
                };
            assert(page_mapped(self.bytes(), live));
        }
    }

    fn map(&mut self, address: u64, size: usize, perms: u32) -> (r: Result<(), CpuError>)
        ensures
            r is Ok ==> pages_mapped(
                old(self).pages(),
                final(self).pages(),
                address as int,
                address + size,
                perms,
            ),
            r is Ok && size <= 0x1_0000_0000_0000 ==> forall|key: u64|
                address <= key * 0x1000 < address + size ==> #[trigger] final(self).host_page(key)
                    == Some(sparse_host(key)),
    {
        let (address, end) = match check_map_args(address, size) {
            Ok(range) => range,
            Err(e) => {
                return Err(e);
            },
        };
        let ghost m = old(self).bytes();
        assert(self.bytes() =~= map_range(m, address as int, address as int));
        let mut page_va: u64 = address;
        assert(pages_mapped(
            old(self).pages(),
            self.pages(),
            address as int,
            page_va as int,
            perms,
        ));
        while page_va < end
            invariant
                self.wf(),
                m == old(self).bytes(),
                address <= page_va <= end,
                end == address + size,
                size == 0 || (page_va % 0x1000 == 0 && end % 0x1000 == 0),
                self.bytes() == map_range(m, address as int, page_va as int),
                pages_mapped(
                    old(self).pages(),
                    self.pages(),
                    address as int,
                    page_va as int,
                    perms,
                ),
                size <= 0x1_0000_0000_0000 ==> forall|key: u64|
                    address <= key * 0x1000 < page_va ==> #[trigger] self.host_page(key) == Some(
                        sparse_host(key),
                    ),
                forall|key: u64|
                    address <= key * 0x1000 < page_va || old(self).host_page(key) is Some
                        ==> #[trigger] self.host_page(key) is Some,
            decreases end - page_va,
        {
            let key = page_key(page_va);
            let ghost before = *self;
            assert(page_va == key * 0x1000);
            self.store.map_page(key, perms);
            let host: u64 = (key + 1) * PAGE_SIZE;
            self.table.install(key, host);
            proof {
                assert(before.pages() == before.store@);
                assert(self.pages() == self.store@);
                assert forall|k: u64| #[trigger] self.table.leaf(k) != 0 implies exists|live: u64|
                    {
                        &&& #[trigger] self.store@.contains_key(live)
                        &&& low_bits(live) == low_bits(k)
                        &&& self.table.leaf(k) == sparse_host(live)
                    } by {
                    if low_bits(k) == low_bits(key) {
                        assert(self.store@.contains_key(key));
                    } else {
                        let live = choose|live: u64|
                            {
                                &&& #[trigger] before.store@.contains_key(live)
                                &&& low_bits(live) == low_bits(k)
                                &&& before.table.leaf(k) == sparse_host(live)
                            };
                        assert(self.store@.contains_key(live));
                    }
                }
                assert(map_range(
                    map_range(m, address as int, page_va as int),
                    page_va as int,
                    page_va + 0x1000,
                ) =~= map_range(m, address as int, page_va + 0x1000));
                assert(pages_mapped(
                    old(self).pages(),
                    self.pages(),
                    address as int,
                    page_va + 0x1000,
                    perms,
                ));
                assert forall|k: u64|
                    address <= k * 0x1000 < page_va + 0x1000 || old(self).host_page(k)
                        is Some implies #[trigger] self.host_page(k) is Some by {
                    if k != key {
                        if k > key {
                            assert(k * 0x1000 >= (key + 1) * 0x1000);
                        }
                        assert(before.host_page(k) is Some);
                    }
                }
                assert forall|k: u64|
                    size <= 0x1_0000_0000_0000 && address <= k * 0x1000 < page_va
                        + 0x1000 implies #[trigger] self.host_page(k) == Some(sparse_host(k)) by {
                    if k != key {
                        assert(k * 0x1000 < page_va) by {
                            if k > key {
                                assert(k * 0x1000 >= (key + 1) * 0x1000);
                            }
                        }
                        assert(before.host_page(k) == Some(sparse_host(k)));
                        assert(low_bits(k) != low_bits(key));
                    }
                }
            }
            page_va = page_va + PAGE_SIZE;
        }
        Ok(())
    }

    fn write(&mut self, address: u64, bytes: &[u8]) -> (r: Result<(), CpuError>)
        ensures
            final(self).pages().dom() == old(self).pages().dom(),
            forall|k: u64| #[trigger]
                old(self).pages().contains_key(k) ==> final(self).pages()[k].perms == old(self).pages()[k].perms,
    {
        let ghost before = *self;
        let r = self.store.write(address, bytes);
        proof {
            assert forall|k: u64| #[trigger] self.table.leaf(k) != 0 implies exists|live: u64|
                {
                    &&& #[trigger] self.store@.contains_key(live)
                    &&& low_bits(live) == low_bits(k)
                    &&& self.table.leaf(k) == sparse_host(live)
                } by {
                let live = choose|live: u64|
                    {
                        &&& #[trigger] before.store@.contains_key(live)
                        &&& low_bits(live) == low_bits(k)
                        &&& before.table.leaf(k) == sparse_host(live)
                    };
                assert(self.store@.contains_key(live));
            }
        }
        r
    }

    fn read(&self, address: u64, bytes: &mut [u8]) -> (r: Result<(), CpuError>) {
        self.store.read(address, bytes)
    }

    fn page_data_ptr(&mut self, page_key: u64) -> (r: Option<u64>)
        ensures
            final(self).pages() == old(self).pages(),
            r is None ==> *final(self) == *old(self),
            old(self).host_page(page_key) is None && r is Some ==> r == Some(sparse_host(page_key)),
    {
        proof {
            lemma_page_bytes(self.store);
        }
        let leaf: u64 = self.table.walk(page_key);
        if leaf != 0 {
            return Some(leaf);
        }
        if !self.store.contains(page_key) {
            return None;
        }
        let ghost before = *self;
        let host: u64 = (page_key + 1) * PAGE_SIZE;
        self.table.install(page_key, host);
        proof {
            assert forall|k: u64| #[trigger] self.table.leaf(k) != 0 implies exists|live: u64|
                {
                    &&& #[trigger] self.store@.contains_key(live)
                    &&& low_bits(live) == low_bits(k)
                    &&& self.table.leaf(k) == sparse_host(live)
                } by {
                if low_bits(k) == low_bits(page_key) {
                    assert(self.store@.contains_key(page_key));
                } else {
                    assert(before.table.leaf(k) != 0);
                }
            }
            assert forall|k: u64| before.host_page(k) is Some implies #[trigger] self.host_page(k)
                == before.host_page(k) by {
                if low_bits(k) == low_bits(page_key) {
                    crate::mem::radix::lemma_leaf_shared(before.table, k, page_key);
                }
            }
        }
        Some(host)
    }

    fn page_data_ptr_walk(&self, page_key: u64) -> (r: Option<u64>) {
        let leaf: u64 = self.table.walk(page_key);
        if leaf == 0 {
            None
        } else {
            Some(leaf)
        }
    }

    fn name(&self) -> (s: &'static str)
        ensures
            s@ == "hash"@,
    {
        "hash"
    }
}

/// A walk gives a host page only where some mapped page agrees with the key in
/// the 36 bits that the table indexes, and then the host page of such a page.
pub proof fn walk_names_mapped_page(b: HashMapBackend, key: u64)
    requires
        b.wf(),
        b.host_page(key) is Some,
    ensures
        exists|live: u64|
            {
                &&& #[trigger] b.pages().contains_key(live)
                &&& low_bits(live) == low_bits(key)
                &&& b.host_page(key) == Some(sparse_host(live))
            },
{
    let live = choose|live: u64|
        {
            &&& #[trigger] b.store@.contains_key(live)
            &&& low_bits(live) == low_bits(key)
            &&& b.table.leaf(key) == sparse_host(live)
        };
    assert(b.pages().contains_key(live));
}

/// Below a 48-bit address space a walk gives a page's own host page or nothing,
/// and nothing for a page that is not mapped.
pub proof fn walk_matches_map(b: HashMapBackend, key: u64)
    requires
        b.wf(),
        forall|k: u64| #[trigger] b.pages().contains_key(k) ==> k < 0x10_0000_0000,
        key < 0x10_0000_0000,
    ensures
        b.host_page(key) is Some ==> b.pages().contains_key(key) && b.host_page(key) == Some(
            sparse_host(key),
        ),
{
    if b.host_page(key) is Some {
        walk_names_mapped_page(b, key);
    }
}

} // verus!
