//! Guest memory made of contiguous arenas only.

use vstd::prelude::*;

use crate::error::CpuError;
use crate::mem::arena::{covered, owner, ArenaSet};
use crate::mem::backend::{check_map_args, page_mapped, walkable, GuestMemBackend};
use crate::mem::model::{lemma_map_append, map_range, Bytes, PAGE_SIZE};

verus! {

/// Every map request becomes an arena for the part that is not mapped yet.
pub struct MmapArenaBackend {
    /// The arenas.
    pub arenas: ArenaSet,
}

impl MmapArenaBackend {
    /// An empty backend.
    pub fn new() -> (b: Self)
        ensures
            b.wf(),
            b.bytes() == Map::<int, u8>::empty(),
            b.arenas@.len() == 0,
    {
        MmapArenaBackend { arenas: ArenaSet::new() }
    }

    /// The host address of the first byte of the arena that covers `va`.
    pub fn arena_host_base_for_va(&self, va: u64) -> (r: Option<u64>)
        requires
            self.wf(),
        ensures
            match r {
                Some(host) => covered(self.arenas@, va as int) && host == self.arenas@[owner(
                    self.arenas@,
                    va as int,
                )].base + 0x1000,
                None => !covered(self.arenas@, va as int),
            },
    {
        self.arenas.arena_host_base_for_va(va)
    }
}

impl GuestMemBackend for MmapArenaBackend {
    open spec fn wf(&self) -> bool {
        self.arenas.wf()
    }

    open spec fn bytes(&self) -> Bytes {
        self.arenas.bytes()
    }

    open spec fn host_page(&self, page_key: u64) -> Option<u64> {
        self.arenas.host_page(page_key)
    }

    proof fn wf_facts(&self) {
        self.arenas.lemma_in_bounds();
        assert forall|key: u64| #[trigger] self.host_page(key) is Some implies walkable(
            self.bytes(),
            key,
        ) by {
            assert(covered(self.arenas@, key * 0x1000));
            assert(page_mapped(self.bytes(), key));
        }
    }

    fn map(&mut self, address: u64, size: usize, perms: u32) -> (r: Result<(), CpuError>) {
        let (address, end) = match check_map_args(address, size) {
            Ok(range) => range,
            Err(e) => {
                return Err(e);
            },
        };
        let ghost m = old(self).bytes();
        assert(self.bytes() =~= map_range(m, address as int, address as int));
        let mut page_va: u64 = address;
        let mut run_start: u64 = address;
        while page_va < end
            invariant
                self.wf(),
                m == old(self).bytes(),
                address <= run_start <= page_va <= end,
                end == address + size,
                size == 0 || (page_va % 0x1000 == 0 && end % 0x1000 == 0 && run_start % 0x1000
                    == 0),
                self.bytes() == map_range(m, address as int, run_start as int),
                forall|va: int| run_start <= va < page_va ==> !covered(self.arenas@, va),
            decreases end - page_va,
        {
            proof {
                self.arenas.lemma_in_bounds();
            }
            let ghost whole = self.bytes();
            if self.arenas.find_va(page_va).is_some() {
                self.arenas.set_perms_at(page_va, perms);
                assert forall|va: int| run_start <= va < page_va implies !covered(
                    self.arenas@,
                    va,
                ) by {
                    assert(!whole.contains_key(va));
                    assert(!self.arenas.bytes().contains_key(va));
                }
                self.map_unmapped_run(run_start, page_va, perms);
                proof {
                    lemma_map_append(m, address as int, run_start as int, page_va as int);
                    assert forall|va: int| page_va <= va < page_va + 0x1000 implies whole.contains_key(
                        va,
                    ) by {
                        assert(whole.contains_key(page_va as int));
                        assert(page_va as int / 0x1000 == va / 0x1000);
                    }
                    assert(map_range(m, address as int, page_va as int) =~= map_range(
                        m,
                        address as int,
                        page_va + 0x1000,
                    ));
                }
                run_start = page_va + PAGE_SIZE;
            } else {
                assert forall|va: int| run_start <= va < page_va + 0x1000 implies !covered(
                    self.arenas@,
                    va,
                ) by {
                    if va >= page_va {
                        assert(!whole.contains_key(page_va as int));
                        assert(page_va as int / 0x1000 == va / 0x1000);
                        assert(!whole.contains_key(va));
                    }
                }
            }
            page_va = page_va + PAGE_SIZE;
        }
        self.map_unmapped_run(run_start, end, perms);
        proof {
            lemma_map_append(m, address as int, run_start as int, end as int);
            assert forall|key: u64|
                address <= key * 0x1000 < address + size || old(self).host_page(key)
                    is Some implies #[trigger] self.host_page(key) is Some by {
                assert(old(self).host_page(key) is Some ==> m.contains_key(key * 0x1000));
                assert(self.bytes().contains_key(key * 0x1000));
            }
        }
        Ok(())
    }

    fn write(&mut self, address: u64, bytes: &[u8]) -> (r: Result<(), CpuError>) {
        self.arenas.write(address, bytes)
    }

    fn read(&self, address: u64, bytes: &mut [u8]) -> (r: Result<(), CpuError>) {
        self.arenas.read(address, bytes)
    }

    fn page_data_ptr(&mut self, page_key: u64) -> (r: Option<u64>) {
        self.arenas.page_data_ptr(page_key)
    }

    fn page_data_ptr_walk(&self, page_key: u64) -> (r: Option<u64>) {
        self.arenas.page_data_ptr(page_key)
    }

    fn name(&self) -> (s: &'static str)
        ensures
            s@ == "mmap"@,
    {
        "mmap"
    }
}

impl MmapArenaBackend {
    /// Maps a fully unmapped run as one arena.
    fn map_unmapped_run(&mut self, start: u64, run_end: u64, perms: u32)
        requires
            old(self).wf(),
            start <= run_end,
            start < run_end ==> start % PAGE_SIZE == 0 && run_end % PAGE_SIZE == 0,
            run_end - start <= usize::MAX,
            forall|va: int| start <= va < run_end ==> !covered(old(self).arenas@, va),
        ensures
            final(self).wf(),
            final(self).bytes() == map_range(old(self).bytes(), start as int, run_end as int),
    {
        let run_size: usize = (run_end - start) as usize;
        if run_size == 0 {
            assert(self.bytes() =~= map_range(self.bytes(), start as int, run_end as int));
            return ;
        }
        self.arenas.map_range(start, run_end, run_size, perms);
    }
}

} // verus!
