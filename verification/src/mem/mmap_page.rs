//! Sparse guest memory where each page is an allocation of its own, with no page
//! table beside the page map.

use vstd::prelude::*;

use crate::error::CpuError;
use crate::mem::backend::{check_map_args, page_key, page_mapped, walkable, GuestMemBackend};
use crate::mem::hashmap::{pages_mapped, sparse_host};
use crate::mem::model::{map_range, Bytes, PAGE_SIZE};
use crate::mem::pages::{lemma_page_bytes, Page, PageStore};

verus! {

/// Independent pages by key.
pub struct MmapPageBackend {
    store: PageStore,
}

impl MmapPageBackend {
    /// The mapped pages by key.
    pub closed spec fn pages(&self) -> Map<u64, Page> {
        self.store@
    }

    /// An empty backend.
    pub fn new() -> (b: Self)
        ensures
            b.wf(),
            b.bytes() == Map::<int, u8>::empty(),
            b.pages() == Map::<u64, Page>::empty(),
    {
        MmapPageBackend { store: PageStore::new() }
    }
}

impl GuestMemBackend for MmapPageBackend {
    closed spec fn wf(&self) -> bool {
        self.store.wf()
    }

    closed spec fn bytes(&self) -> Bytes {
        self.store.bytes()
    }

    open spec fn host_page(&self, page_key: u64) -> Option<u64> {
        if self.pages().contains_key(page_key) {
            Some(sparse_host(page_key))
        } else {
            None
        }
    }

    proof fn wf_facts(&self) {
        lemma_page_bytes(self.store);
        assert forall|key: u64| #[trigger] self.host_page(key) is Some implies walkable(
            self.bytes(),
            key,
        ) by {
            assert(self.store@.contains_key(key));
            assert(page_mapped(self.bytes(), key));
        }
        assert forall|key: u64| #[trigger] self.host_page(key) != Some(0u64) by {
            if self.store@.contains_key(key) {
                assert(self.bytes().contains_key(key * 0x1000));
            }
        }
    }

    fn map(&mut self, address: u64, size: usize, perms: u32) -> (r: Result<(), CpuError>)
        ensures
            r is Ok ==> pages_mapped(
                old(self).pages(),
                final(self).pages(),
                address as int,
                address + size,
                perms,
            ),
    {
        let (address, end) = match check_map_args(address, size) {
            Ok(range) => range,
            Err(e) => {
                return Err(e);
            },
        };
        let ghost m = old(self).bytes();
        assert(self.bytes() =~= map_range(m, address as int, address as int));
        let mut page_va: u64 = address;
        assert(pages_mapped(
            old(self).pages(),
            self.pages(),
            address as int,
            page_va as int,
            perms,
        ));
        while page_va < end
            invariant
                self.wf(),
                m == old(self).bytes(),
                address <= page_va <= end,
                end == address + size,
                size == 0 || (page_va % 0x1000 == 0 && end % 0x1000 == 0),
                self.bytes() == map_range(m, address as int, page_va as int),
                pages_mapped(
                    old(self).pages(),
                    self.pages(),
                    address as int,
                    page_va as int,
                    perms,
                ),
            decreases end - page_va,
        {
            let key = page_key(page_va);
            let ghost before = *self;
            assert(page_va == key * 0x1000);
            self.store.map_page(key, perms);
            proof {
                assert(before.pages() == before.store@);
                assert(self.pages() == self.store@);
                assert(map_range(
                    map_range(m, address as int, page_va as int),
                    page_va as int,
                    page_va + 0x1000,
                ) =~= map_range(m, address as int, page_va + 0x1000));
                assert(pages_mapped(
                    old(self).pages(),
                    self.pages(),
                    address as int,
                    page_va + 0x1000,
                    perms,
                ));
            }
            page_va = page_va + PAGE_SIZE;
        }
        Ok(())
    }

    fn write(&mut self, address: u64, bytes: &[u8]) -> (r: Result<(), CpuError>) {
        self.store.write(address, bytes)
    }

    fn read(&self, address: u64, bytes: &mut [u8]) -> (r: Result<(), CpuError>) {
        self.store.read(address, bytes)
    }

    fn page_data_ptr(&mut self, page_key: u64) -> (r: Option<u64>) {
        proof {
            lemma_page_bytes(self.store);
        }
        self.page_data_ptr_walk(page_key)
    }

    fn page_data_ptr_walk(&self, page_key: u64) -> (r: Option<u64>) {
        if self.store.contains(page_key) {
            Some((page_key + 1) * PAGE_SIZE)
        } else {
            None
        }
    }

    fn name(&self) -> (s: &'static str)
        ensures
            s@ == "mmap_page"@,
    {
        "mmap_page"
    }
}

} // verus!
