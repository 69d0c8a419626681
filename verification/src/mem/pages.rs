//! Sparse page storage: one owned 4 KiB page per mapped page key.

use std::collections::HashMap;

use vstd::prelude::*;

use crate::error::CpuError;
use crate::mem::backend::{
    page_key, page_offset, read_outcome, write_outcome, PAGE_KEY_LIMIT,
};
use crate::mem::model::{
    in_bounds, is_mapped, lemma_mapped_run_is, map_range, store, unmap_range, whole_pages, Bytes,
    PAGE_SIZE_USIZE, VA_LIMIT,
};
use crate::text;

verus! {

broadcast use vstd::std_specs::hash::group_hash_axioms;

/// One mapped page.
pub struct Page {
    /// The page's bytes.
    pub data: Vec<u8>,
    /// The `PROT_*` bits of the last map request that covered the page.
    pub perms: u32,
}

/// Mapped pages by key.
pub struct PageStore {
    pages: HashMap<u64, Page>,
}

impl PageStore {
    /// The pages by key.
    pub closed spec fn view(&self) -> Map<u64, Page> {
        self.pages@
    }

    /// Every page is whole and lies in the mappable range.
    pub open spec fn wf(&self) -> bool {
        forall|key: u64| #[trigger]
            self@.contains_key(key) ==> key < PAGE_KEY_LIMIT && self@[key].data@.len() == 0x1000
    }

    /// The mapped addresses and their bytes.
    pub open spec fn bytes(&self) -> Bytes {
        Map::new(
            |va: int| 0 <= va < VA_LIMIT && self@.contains_key((va / 0x1000) as u64),
            |va: int| self@[(va / 0x1000) as u64].data@[va % 0x1000],
        )
    }

    /// An empty store.
    pub fn new() -> (s: Self)
        ensures
            s.wf(),
            s@ == Map::<u64, Page>::empty(),
            s.bytes() == Map::<int, u8>::empty(),
    {
        let s = PageStore { pages: HashMap::new() };
        assert(s.bytes() =~= Map::<int, u8>::empty());
        s
    }

    /// Whether the page `key` is mapped.
    pub fn contains(&self, key: u64) -> (r: bool)
        ensures
            r == self@.contains_key(key),
    {
        self.pages.contains_key(&key)
    }

    /// The number of mapped pages.
    pub fn len(&self) -> (n: usize)
        ensures
            n == self@.len(),
    {
        self.pages.len()
    }

    /// Maps the page `key`: a new page reads zero, a mapped one keeps its bytes,
    /// and either has `perms` afterwards.
    pub fn map_page(&mut self, key: u64, perms: u32)
        requires
            old(self).wf(),
            key < PAGE_KEY_LIMIT,
        ensures
            final(self).wf(),
            final(self)@.dom() == old(self)@.dom().insert(key),
            final(self)@[key].perms == perms,
            forall|k: u64| k != key ==> #[trigger] final(self)@[k] == old(self)@[k],
            final(self).bytes() == map_range(old(self).bytes(), key * 0x1000, (key + 1) * 0x1000),
    {
        let data: Vec<u8> = match self.pages.remove(&key) {
            Some(page) => page.data,
            None => vec![0u8; PAGE_SIZE_USIZE],
        };
        self.pages.insert(key, Page { data, perms });
        proof {
            assert(self@.dom() =~= old(self)@.dom().insert(key));
            assert(self.bytes() =~= map_range(
                old(self).bytes(),
                key * 0x1000,
                (key + 1) * 0x1000,
            ));
        }
    }

    /// Unmaps the page `key`, if it is mapped.
    pub fn unmap_page(&mut self, key: u64)
        requires
            old(self).wf(),
            key < PAGE_KEY_LIMIT,
        ensures
            final(self).wf(),
            final(self)@ == old(self)@.remove(key),
            final(self).bytes() == unmap_range(
                old(self).bytes(),
                key * 0x1000,
                (key + 1) * 0x1000,
            ),
    {
        self.pages.remove(&key);
        proof {
            assert(self.bytes() =~= unmap_range(
                old(self).bytes(),
                key * 0x1000,
                (key + 1) * 0x1000,
            ));
        }
    }

    /// Writes `bytes` at guest `address`, page by page.
    pub fn write(&mut self, address: u64, bytes: &[u8]) -> (r: Result<(), CpuError>)
        requires
            old(self).wf(),
        ensures
            final(self).wf(),
            final(self)@.dom() == old(self)@.dom(),
            forall|k: u64| #[trigger]
                old(self)@.contains_key(k) ==> final(self)@[k].perms == old(self)@[k].perms,
            write_outcome(old(self).bytes(), address, bytes@, r, final(self).bytes()),
    {
        let ghost m = old(self).bytes();
        let len: usize = bytes.len();
        let mut offset: usize = 0;
        assert(self.bytes() =~= store(m, address as int, bytes@.take(0)));
        while offset < len
            invariant
                self.wf(),
                len == bytes@.len(),
                m == old(self).bytes(),
                offset <= len,
                offset > 0 ==> address + offset <= VA_LIMIT,
                is_mapped(m, address as int, offset as nat),
                self@.dom() == old(self)@.dom(),
                forall|k: u64| #[trigger]
                    old(self)@.contains_key(k) ==> self@[k].perms == old(self)@[k].perms,
                self.bytes() == store(m, address as int, bytes@.take(offset as int)),
            decreases len - offset,
        {
            let va: u64 = address + offset as u64;
            let key = page_key(va);
            let page_off = page_offset(va);
            let ghost prev = *self;
            match self.pages.remove(&key) {
                None => {
                    proof {
                        assert(self@ =~= prev@);
                        assert(self.bytes() =~= prev.bytes());
                        assert(!m.contains_key(va as int));
                        lemma_mapped_run_is(m, address as int, len as nat, offset as nat);
                    }
                    return Err(CpuError::Message(text::with_hex("mem_write unmapped ", va)));
                },
                Some(page) => {
                    let room: usize = PAGE_SIZE_USIZE - page_off;
                    let remaining: usize = len - offset;
                    let chunk: usize = if room < remaining {
                        room
                    } else {
                        remaining
                    };
                    let mut data = page.data;
                    let ghost before = data@;
                    let mut j: usize = 0;
                    while j < chunk
                        invariant
                            j <= chunk,
                            page_off + chunk <= 0x1000,
                            offset + chunk <= len,
                            len == bytes@.len(),
                            data@.len() == 0x1000,
                            before.len() == 0x1000,
                            forall|i: int|
                                0 <= i < 0x1000 ==> #[trigger] data@[i] == if page_off <= i
                                    < page_off + j {
                                    bytes@[offset + i - page_off]
                                } else {
                                    before[i]
                                },
                        decreases chunk - j,
                    {
                        data[page_off + j] = bytes[offset + j];
                        j = j + 1;
                    }
                    self.pages.insert(key, Page { data, perms: page.perms });
                    proof {
                        assert(self@.dom() =~= old(self)@.dom());
                        assert forall|x: int| va <= x < va + chunk implies m.contains_key(x) by {
                            assert(x / 0x1000 == key);
                        }
                        assert(is_mapped(m, address as int, (offset + chunk) as nat));
                        let after = store(m, address as int, bytes@.take(offset + chunk));
                        assert forall|x: int| after.contains_key(x) implies self.bytes()[x]
                            == after[x] by {
                            assert(prev.bytes().contains_key(x));
                            assert(self.bytes().contains_key(x));
                            assert(self.bytes()[x] == self@[(x / 0x1000) as u64].data@[x % 0x1000]);
                            assert(prev.bytes()[x] == store(
                                m,
                                address as int,
                                bytes@.take(offset as int),
                            )[x]);
                            if x / 0x1000 == key {
                                let i = x % 0x1000;
                                assert(x == key * 0x1000 + i);
                                assert(va == key * 0x1000 + page_off);
                                assert(prev.bytes()[x] == before[i]);
                                assert(data@[i] == if page_off <= i < page_off + chunk {
                                    bytes@[offset + i - page_off]
                                } else {
                                    before[i]
                                });
                            } else {
                                assert(!(va <= x < va + chunk));
                                assert(self@[(x / 0x1000) as u64] == prev@[(x / 0x1000) as u64]);
                            }
                        }
                        assert(self.bytes() =~= after);
                    }
                    offset = offset + chunk;
                },
            }
        }
        proof {
            lemma_mapped_run_is(m, address as int, len as nat, len as nat);
        }
        Ok(())
    }

    /// Reads into `bytes` from guest `address`, page by page.
    pub fn read(&self, address: u64, bytes: &mut [u8]) -> (r: Result<(), CpuError>)
        requires
            self.wf(),
        ensures
            read_outcome(self.bytes(), address, old(bytes)@, r, final(bytes)@),
    {
        let ghost m = self.bytes();
        let len: usize = bytes.len();
        let mut offset: usize = 0;
        while offset < len
            invariant
                self.wf(),
                len == bytes@.len(),
                len == old(bytes)@.len(),
                m == self.bytes(),
                offset <= len,
                offset > 0 ==> address + offset <= VA_LIMIT,
                is_mapped(m, address as int, offset as nat),
                forall|i: int|
                    0 <= i < len ==> #[trigger] bytes@[i] == if i < offset {
                        m[address + i]
                    } else {
                        old(bytes)@[i]
                    },
            decreases len - offset,
        {
            let va: u64 = address + offset as u64;
            let key = page_key(va);
            let page_off = page_offset(va);
            match self.pages.get(&key) {
                None => {
                    proof {
                        assert(!m.contains_key(va as int));
                        lemma_mapped_run_is(m, address as int, len as nat, offset as nat);
                    }
                    return Err(CpuError::Message(text::with_hex("mem_read unmapped ", va)));
                },
                Some(page) => {
                    let room: usize = PAGE_SIZE_USIZE - page_off;
                    let remaining: usize = len - offset;
                    let chunk: usize = if room < remaining {
                        room
                    } else {
                        remaining
                    };
                    assert(self@.contains_key(key));
                    assert forall|x: int| va <= x < va + chunk implies m.contains_key(x) && m[x]
                        == page.data@[x - va + page_off] by {
                        assert(va == key * 0x1000 + page_off);
                        assert(x / 0x1000 == key);
                    }
                    let mut j: usize = 0;
                    while j < chunk
                        invariant
                            j <= chunk,
                            page_off + chunk <= 0x1000,
                            offset + chunk <= len,
                            len == bytes@.len(),
                            len == old(bytes)@.len(),
                            page.data@.len() == 0x1000,
                            va == address + offset,
                            forall|x: int|
                                va <= x < va + chunk ==> #[trigger] m[x] == page.data@[x - va
                                    + page_off],
                            forall|i: int|
                                0 <= i < len ==> #[trigger] bytes@[i] == if i < offset + j {
                                    m[address + i]
                                } else {
                                    old(bytes)@[i]
                                },
                        decreases chunk - j,
                    {
                        bytes[offset + j] = page.data[page_off + j];
                        assert(m[va + j] == page.data@[page_off + j]);
                        j = j + 1;
                    }
                    offset = offset + chunk;
                },
            }
        }
        proof {
            lemma_mapped_run_is(m, address as int, len as nat, len as nat);
        }
        Ok(())
    }
}

/// The bytes of a page store lie in the mappable range, and an address is mapped
/// exactly if its page is.
pub proof fn lemma_page_bytes(s: PageStore)
    requires
        s.wf(),
    ensures
        in_bounds(s.bytes()),
        whole_pages(s.bytes()),
        forall|key: u64| #[trigger]
            s@.contains_key(key) <==> s.bytes().contains_key(key * 0x1000),
{
    assert forall|key: u64| #[trigger] s@.contains_key(key) implies s.bytes().contains_key(
        key * 0x1000,
    ) by {
        assert((key * 0x1000) / 0x1000 == key);
    }
    assert forall|key: u64| s.bytes().contains_key(key * 0x1000) implies #[trigger] s@.contains_key(
        key,
    ) by {
        assert((key * 0x1000) / 0x1000 == key);
    }
}

} // verus!
