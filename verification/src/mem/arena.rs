//! Contiguous arenas: guest ranges that live in one host allocation each.

use vstd::prelude::*;

use crate::error::CpuError;
use crate::mem::backend::{read_outcome, write_outcome, PAGE_KEY_LIMIT};
use crate::mem::model::{
    in_bounds, is_mapped, lemma_mapped_run_is, map_range, store, unmap_range, whole_pages,
    Bytes, PAGE_SIZE, VA_LIMIT,
};
use crate::text;

verus! {

/// One contiguous guest range `[base, base + data.len())`.
pub struct Arena {
    /// First guest address.
    pub base: u64,
    /// The bytes of the range.
    pub data: Vec<u8>,
    /// The `PROT_*` bits of the last map request that touched the arena.
    pub perms: u32,
}

impl Arena {
    /// A nonempty range of whole pages in the mappable address range.
    pub open spec fn wf(self) -> bool {
        &&& self.base % PAGE_SIZE == 0
        &&& 0 < self.data@.len()
        &&& self.data@.len() % 0x1000 == 0
        &&& self.base + self.data@.len() <= VA_LIMIT
    }

    /// Whether the arena holds the byte at `va`.
    pub open spec fn covers(self, va: int) -> bool {
        self.base <= va < self.base + self.data@.len()
    }

    /// Replaces the arena's permissions.
    pub fn set_perms(&mut self, perms: u32)
        ensures
            *final(self) == (Arena { perms, ..*old(self) }),
    {
        self.perms = perms;
    }
}

/// Disjoint arenas.
pub struct ArenaSet {
    arenas: Vec<Arena>,
}

/// Some arena of `arenas` covers `va`.
pub open spec fn covered(arenas: Seq<Arena>, va: int) -> bool {
    exists|i: int| 0 <= i < arenas.len() && (#[trigger] arenas[i]).covers(va)
}

/// The arena of `arenas` that covers `va`.
pub open spec fn owner(arenas: Seq<Arena>, va: int) -> int {
    choose|i: int| 0 <= i < arenas.len() && (#[trigger] arenas[i]).covers(va)
}

/// No address is covered twice.
pub open spec fn disjoint(arenas: Seq<Arena>) -> bool {
    forall|i: int, j: int, va: int|
        #![trigger arenas[i].covers(va), arenas[j].covers(va)]
        0 <= i < arenas.len() && 0 <= j < arenas.len() && arenas[i].covers(va) && arenas[j].covers(
            va,
        ) ==> i == j
}

/// The bytes of a set of arenas.
pub open spec fn arena_bytes(arenas: Seq<Arena>) -> Bytes {
    Map::new(
        |va: int| covered(arenas, va),
        |va: int| arenas[owner(arenas, va)].data@[va - arenas[owner(arenas, va)].base],
    )
}

/// What the bytes of a set of arenas are at an address that a known arena covers.
proof fn lemma_owned(arenas: Seq<Arena>, i: int, va: int)
    requires
        disjoint(arenas),
        0 <= i < arenas.len(),
        arenas[i].covers(va),
    ensures
        covered(arenas, va),
        owner(arenas, va) == i,
        arena_bytes(arenas).contains_key(va),
        arena_bytes(arenas)[va] == arenas[i].data@[va - arenas[i].base],
{
    let o = owner(arenas, va);
    assert(arenas[o].covers(va) && arenas[i].covers(va));
}

/// Replacing the bytes of one arena changes memory at its addresses only.
proof fn lemma_replaced(before: Seq<Arena>, after: Seq<Arena>, i: int)
    requires
        disjoint(before),
        0 <= i < before.len(),
        after.len() == before.len(),
        after[i].base == before[i].base,
        after[i].data@.len() == before[i].data@.len(),
        forall|j: int| 0 <= j < before.len() && j != i ==> #[trigger] after[j] == before[j],
    ensures
        disjoint(after),
        forall|va: int| #[trigger] covered(after, va) <==> covered(before, va),
        forall|va: int|
            covered(before, va) && !before[i].covers(va) ==> #[trigger] arena_bytes(after)[va]
                == arena_bytes(before)[va],
{
    assert forall|j: int, va: int| 0 <= j < before.len() implies #[trigger] after[j].covers(va)
        == before[j].covers(va) by {
        if j != i {
            assert(after[j] == before[j]);
        }
    }
    assert forall|j: int, k: int, va: int|
        #![trigger after[j].covers(va), after[k].covers(va)]
        0 <= j < after.len() && 0 <= k < after.len() && after[j].covers(va) && after[k].covers(
            va,
        ) implies j == k by {
        assert(before[j].covers(va) && before[k].covers(va));
    }
    assert forall|va: int| #[trigger] covered(after, va) <==> covered(before, va) by {
        if covered(after, va) {
            let j = owner(after, va);
            assert(before[j].covers(va));
        }
        if covered(before, va) {
            let j = owner(before, va);
            assert(after[j].covers(va));
        }
    }
    assert forall|va: int|
        covered(before, va) && !before[i].covers(va) implies #[trigger] arena_bytes(after)[va]
        == arena_bytes(before)[va] by {
        let j = owner(before, va);
        assert(before[j].covers(va));
        assert(after[j].covers(va));
        lemma_owned(before, j, va);
        lemma_owned(after, j, va);
    }
}

/// Copies `n` bytes of `src` from `from` on into `data` from `at` on.
fn copy_into(data: &mut Vec<u8>, at: usize, src: &[u8], from: usize, n: usize)
    requires
        at + n <= old(data)@.len(),
        from + n <= src@.len(),
    ensures
        final(data)@.len() == old(data)@.len(),
        forall|k: int|
            0 <= k < old(data)@.len() ==> #[trigger] final(data)@[k] == if at <= k < at + n {
                src@[from + k - at]
            } else {
                old(data)@[k]
            },
{
    let total: usize = data.len();
    let available: usize = src.len();
    let mut j: usize = 0;
    while j < n
        invariant
            j <= n,
            at + n <= total,
            total == data@.len(),
            data@.len() == old(data)@.len(),
            from + n <= available,
            available == src@.len(),
            forall|k: int|
                0 <= k < data@.len() ==> #[trigger] data@[k] == if at <= k < at + j {
                    src@[from + k - at]
                } else {
                    old(data)@[k]
                },
        decreases n - j,
    {
        data[at + j] = src[from + j];
        j = j + 1;
    }
}

/// Zeroes `n` bytes of `data` from `at` on.
fn zero_out(data: &mut Vec<u8>, at: usize, n: usize)
    requires
        at + n <= old(data)@.len(),
    ensures
        final(data)@.len() == old(data)@.len(),
        forall|k: int|
            0 <= k < old(data)@.len() ==> #[trigger] final(data)@[k] == if at <= k < at + n {
                0
            } else {
                old(data)@[k]
            },
{
    let total: usize = data.len();
    let mut j: usize = 0;
    while j < n
        invariant
            j <= n,
            at + n <= total,
            total == data@.len(),
            data@.len() == old(data)@.len(),
            forall|k: int|
                0 <= k < data@.len() ==> #[trigger] data@[k] == if at <= k < at + j {
                    0
                } else {
                    old(data)@[k]
                },
        decreases n - j,
    {
        data[at + j] = 0;
        j = j + 1;
    }
}

/// Memory after the mapped bytes of `[start, end)` were zeroed.
pub open spec fn zero_range(m: Bytes, start: int, end: int) -> Bytes {
    Map::new(
        |va: int| m.contains_key(va),
        |va: int|
            if start <= va < end {
                0
            } else {
                m[va]
            },
    )
}

impl ArenaSet {
    /// The arenas.
    pub closed spec fn view(&self) -> Seq<Arena> {
        self.arenas@
    }

    /// Whole, disjoint arenas.
    pub open spec fn wf(&self) -> bool {
        &&& forall|i: int| 0 <= i < self@.len() ==> (#[trigger] self@[i]).wf()
        &&& disjoint(self@)
    }

    /// The mapped addresses and their bytes.
    pub open spec fn bytes(&self) -> Bytes {
        arena_bytes(self@)
    }

    /// The host page of the guest page `key`: pages of one arena lie side by side
    /// in host space.
    pub open spec fn host_page(&self, key: u64) -> Option<u64> {
        if covered(self@, key * 0x1000) {
            Some((key * 0x1000 + 0x1000) as u64)
        } else {
            None
        }
    }

    /// No arenas.
    pub fn new() -> (s: Self)
        ensures
            s.wf(),
            s@.len() == 0,
            s.bytes() == Map::<int, u8>::empty(),
    {
        let s = ArenaSet { arenas: Vec::new() };
        assert(s.bytes() =~= Map::<int, u8>::empty());
        s
    }

    /// The number of arenas.
    pub fn len(&self) -> (n: usize)
        ensures
            n == self@.len(),
    {
        self.arenas.len()
    }

    /// The index of the arena that covers `va`.
    pub fn find_va(&self, va: u64) -> (r: Option<usize>)
        requires
            self.wf(),
        ensures
            match r {
                Some(i) => i < self@.len() && self@[i as int].covers(va as int) && covered(
                    self@,
                    va as int,
                ),
                None => !covered(self@, va as int),
            },
    {
        let mut i: usize = 0;
        while i < self.arenas.len()
            invariant
                self.wf(),
                i <= self@.len(),
                forall|j: int| 0 <= j < i ==> !(#[trigger] self@[j]).covers(va as int),
            decreases self@.len() - i,
        {
            let a = &self.arenas[i];
            assert(self@[i as int].wf());
            if a.base <= va && va - a.base < a.data.len() as u64 {
                return Some(i);
            }
            i = i + 1;
        }
        None
    }

    /// Gives the arena that covers `va` new permissions.
    pub fn set_perms_at(&mut self, va: u64, perms: u32)
        requires
            old(self).wf(),
            covered(old(self)@, va as int),
        ensures
            final(self).wf(),
            final(self).bytes() == old(self).bytes(),
            exists|i: int|
                0 <= i < old(self)@.len() && (#[trigger] old(self)@[i]).covers(va as int) && final(self)@ == old(self)@.update(i, Arena { perms, ..old(self)@[i] }),
    {
        if let Some(i) = self.find_va(va) {
            let ghost before = self.arenas@;
            self.arenas[i].set_perms(perms);
            proof {
                assert(self.arenas@ =~= before.update(
                    i as int,
                    Arena { perms, ..before[i as int] },
                ));
                lemma_replaced(before, self.arenas@, i as int);
                assert forall|j: int| 0 <= j < self@.len() implies (#[trigger] self@[j]).wf() by {
                    assert(before[j].wf());
                }
                assert forall|x: int| covered(before, x) implies arena_bytes(self.arenas@)[x]
                    == arena_bytes(before)[x] by {
                    let o = owner(before, x);
                    assert(before[o].covers(x));
                    assert(self.arenas@[o].covers(x));
                    lemma_owned(before, o, x);
                    lemma_owned(self.arenas@, o, x);
                }
                assert(self.bytes() =~= arena_bytes(before));
                assert(old(self)@[i as int].covers(va as int));
            }
        }
    }

    /// Adds a zeroed arena for the unmapped range `[start, end)`.
    pub fn map_range(&mut self, start: u64, end: u64, size: usize, perms: u32)
        requires
            old(self).wf(),
            start % PAGE_SIZE == 0,
            0 < size,
            size % 0x1000 == 0,
            end == start + size,
            forall|va: int| start <= va < end ==> !covered(old(self)@, va),
        ensures
            final(self).wf(),
            final(self).bytes() == map_range(old(self).bytes(), start as int, end as int),
            final(self)@.len() == old(self)@.len() + 1,
            final(self)@.last().base == start,
            final(self)@.last().data@.len() == size,
            final(self)@.last().perms == perms,
            forall|i: int| 0 <= i < old(self)@.len() ==> #[trigger] final(self)@[i] == old(self)@[i],
    {
        let ghost before = self.arenas@;
        self.arenas.push(Arena { base: start, data: vec![0u8; size], perms });
        proof {
            let after = self.arenas@;
            let n = before.len() as int;
            assert(after[n].base == start && after[n].data@.len() == size);
            assert forall|i: int, va: int| 0 <= i < n implies #[trigger] after[i].covers(va)
                == before[i].covers(va) by {
                assert(after[i] == before[i]);
            }
            assert forall|i: int, j: int, va: int|
                #![trigger after[i].covers(va), after[j].covers(va)]
                0 <= i < after.len() && 0 <= j < after.len() && after[i].covers(va)
                    && after[j].covers(va) implies i == j by {
                if i < n && j < n {
                    assert(before[i].covers(va) && before[j].covers(va));
                } else if i < n {
                    assert(before[i].covers(va));
                    assert(covered(before, va));
                } else if j < n {
                    assert(before[j].covers(va));
                    assert(covered(before, va));
                }
            }
            assert forall|i: int| 0 <= i < after.len() implies (#[trigger] after[i]).wf() by {
                if i < n {
                    assert(before[i].wf());
                }
            }
            assert forall|va: int| #[trigger] covered(after, va) <==> (covered(before, va) || start
                <= va < end) by {
                if covered(after, va) {
                    let i = owner(after, va);
                    assert(after[i].covers(va));
                    if i < n {
                        assert(before[i].covers(va));
                    }
                }
                if covered(before, va) {
                    let i = owner(before, va);
                    assert(after[i].covers(va));
                }
                if start <= va < end {
                    assert(after[n].covers(va));
                }
            }
            let m = map_range(arena_bytes(before), start as int, end as int);
            assert forall|va: int| m.contains_key(va) implies arena_bytes(after)[va] == m[va] by {
                if covered(before, va) {
                    let i = owner(before, va);
                    assert(before[i].covers(va));
                    assert(after[i].covers(va));
                    lemma_owned(before, i, va);
                    lemma_owned(after, i, va);
                } else {
                    assert(after[n].covers(va));
                    lemma_owned(after, n, va);
                }
            }
            assert(arena_bytes(after) =~= m);
        }
    }

    /// Writes `bytes` at guest `address`.
    pub fn write(&mut self, address: u64, bytes: &[u8]) -> (r: Result<(), CpuError>)
        requires
            old(self).wf(),
        ensures
            final(self).wf(),
            write_outcome(old(self).bytes(), address, bytes@, r, final(self).bytes()),
            forall|va: int| #[trigger] covered(final(self)@, va) <==> covered(old(self)@, va),
    {
        let ghost m = old(self).bytes();
        let len: usize = bytes.len();
        let mut offset: usize = 0;
        assert(self.bytes() =~= store(m, address as int, bytes@.take(0)));
        while offset < len
            invariant
                self.wf(),
                len == bytes@.len(),
                m == old(self).bytes(),
                offset <= len,
                offset > 0 ==> address + offset <= VA_LIMIT,
                is_mapped(m, address as int, offset as nat),
                forall|va: int| #[trigger] covered(self@, va) <==> covered(old(self)@, va),
                self.bytes() == store(m, address as int, bytes@.take(offset as int)),
            decreases len - offset,
        {
            let va: u64 = address + offset as u64;
            match self.find_va(va) {
                None => {
                    proof {
                        assert(!m.contains_key(va as int));
                        lemma_mapped_run_is(m, address as int, len as nat, offset as nat);
                    }
                    return Err(CpuError::Message(text::with_hex("mem_write unmapped ", va)));
                },
                Some(i) => {
                    let ghost before = self.arenas@;
                    assert(self@[i as int].wf());
                    let at: usize = (va - self.arenas[i].base) as usize;
                    let room: usize = self.arenas[i].data.len() - at;
                    let remaining: usize = len - offset;
                    let chunk: usize = if room < remaining {
                        room
                    } else {
                        remaining
                    };
                    copy_into(&mut self.arenas[i].data, at, bytes, offset, chunk);
                    proof {
                        let after = self.arenas@;
                        lemma_replaced(before, after, i as int);
                        assert forall|j: int| 0 <= j < after.len() implies (
                        #[trigger] after[j]).wf() by {
                            assert(before[j].wf());
                        }
                        assert forall|x: int| va <= x < va + chunk implies m.contains_key(x) by {
                            assert(before[i as int].covers(x));
                            assert(covered(before, x));
                        }
                        assert(is_mapped(m, address as int, (offset + chunk) as nat));
                        let want = store(m, address as int, bytes@.take(offset + chunk));
                        assert forall|x: int| want.contains_key(x) implies arena_bytes(after)[x]
                            == want[x] by {
                            assert(covered(before, x));
                            assert(arena_bytes(before)[x] == store(
                                m,
                                address as int,
                                bytes@.take(offset as int),
                            )[x]);
                            if before[i as int].covers(x) {
                                assert(after[i as int].covers(x));
                                lemma_owned(before, i as int, x);
                                lemma_owned(after, i as int, x);
                                let k = x - before[i as int].base;
                                assert(after[i as int].data@[k] == if at <= k < at + chunk {
                                    bytes@[offset + k - at]
                                } else {
                                    before[i as int].data@[k]
                                });
                            }
                        }
                        assert(arena_bytes(after) =~= want);
                    }
                    offset = offset + chunk;
                },
            }
        }
        proof {
            lemma_mapped_run_is(m, address as int, len as nat, len as nat);
        }
        Ok(())
    }

    /// Reads into `bytes` from guest `address`.
    pub fn read(&self, address: u64, bytes: &mut [u8]) -> (r: Result<(), CpuError>)
        requires
            self.wf(),
        ensures
            read_outcome(self.bytes(), address, old(bytes)@, r, final(bytes)@),
    {
        let ghost m = self.bytes();
        let len: usize = bytes.len();
        let mut offset: usize = 0;
        while offset < len
            invariant
                self.wf(),
                len == bytes@.len(),
                len == old(bytes)@.len(),
                m == self.bytes(),
                offset <= len,
                offset > 0 ==> address + offset <= VA_LIMIT,
                is_mapped(m, address as int, offset as nat),
                forall|i: int|
                    0 <= i < len ==> #[trigger] bytes@[i] == if i < offset {
                        m[address + i]
                    } else {
                        old(bytes)@[i]
                    },
            decreases len - offset,
        {
            let va: u64 = address + offset as u64;
            match self.find_va(va) {
                None => {
                    proof {
                        assert(!m.contains_key(va as int));
                        lemma_mapped_run_is(m, address as int, len as nat, offset as nat);
                    }
                    return Err(CpuError::Message(text::with_hex("mem_read unmapped ", va)));
                },
                Some(i) => {
                    assert(self@[i as int].wf());
                    let a = &self.arenas[i];
                    let at: usize = (va - a.base) as usize;
                    let total: usize = a.data.len();
                    let room: usize = total - at;
                    let remaining: usize = len - offset;
                    let chunk: usize = if room < remaining {
                        room
                    } else {
                        remaining
                    };
                    assert forall|x: int| va <= x < va + chunk implies m.contains_key(x) && m[x]
                        == a.data@[x - a.base] by {
                        assert(self@[i as int].covers(x));
                        lemma_owned(self@, i as int, x);
                    }
                    let mut j: usize = 0;
                    while j < chunk
                        invariant
                            j <= chunk,
                            at + chunk <= total,
                            total == a.data@.len(),
                            offset + chunk <= len,
                            len == bytes@.len(),
                            len == old(bytes)@.len(),
                            va == address + offset,
                            va == a.base + at,
                            forall|x: int|
                                va <= x < va + chunk ==> #[trigger] m[x] == a.data@[x - a.base],
                            forall|k: int|
                                0 <= k < len ==> #[trigger] bytes@[k] == if k < offset + j {
                                    m[address + k]
                                } else {
                                    old(bytes)@[k]
                                },
                        decreases chunk - j,
                    {
                        bytes[offset + j] = a.data[at + j];
                        assert(m[va + j] == a.data@[at + j]);
                        j = j + 1;
                    }
                    offset = offset + chunk;
                },
            }
        }
        proof {
            lemma_mapped_run_is(m, address as int, len as nat, len as nat);
        }
        Ok(())
    }

    /// The host page of the guest page `key`.
    pub fn page_data_ptr(&self, key: u64) -> (r: Option<u64>)
        requires
            self.wf(),
        ensures
            r == self.host_page(key),
    {
        proof {
            self.lemma_in_bounds();
        }
        if key >= PAGE_KEY_LIMIT {
            assert(!covered(self@, key * 0x1000));
            return None;
        }
        let va: u64 = key * PAGE_SIZE;
        match self.find_va(va) {
            Some(_) => Some(va + PAGE_SIZE),
            None => None,
        }
    }

    /// The host address of the first byte of the arena that covers `va`.
    pub fn arena_host_base_for_va(&self, va: u64) -> (r: Option<u64>)
        requires
            self.wf(),
        ensures
            match r {
                Some(host) => covered(self@, va as int) && host == self@[owner(
                    self@,
                    va as int,
                )].base + 0x1000,
                None => !covered(self@, va as int),
            },
    {
        match self.find_va(va) {
            Some(i) => {
                assert(self@[i as int].wf());
                proof {
                    lemma_owned(self@, i as int, va as int);
                }
                Some(self.arenas[i].base + PAGE_SIZE)
            },
            None => None,
        }
    }

    /// Drops the arena that is exactly `[address, address + size)`, if there is
    /// one.
    pub fn unmap_exact(&mut self, address: u64, size: usize)
        requires
            old(self).wf(),
        ensures
            final(self).wf(),
            if exact(old(self)@, address, size) {
                exists|i: int|
                    0 <= i < old(self)@.len() && is_exact(#[trigger] old(self)@[i], address, size)
                        && final(self)@ == old(self)@.remove(i)
            } else {
                final(self)@ == old(self)@
            },
            final(self).bytes() == if exact(old(self)@, address, size) {
                unmap_range(old(self).bytes(), address as int, address + size)
            } else {
                old(self).bytes()
            },
    {
        let ghost before = self.arenas@;
        let mut i: usize = 0;
        while i < self.arenas.len()
            invariant
                self.wf(),
                self@ == before,
                self.arenas@ == before,
                before == old(self)@,
                i <= before.len(),
                forall|j: int| 0 <= j < i ==> !is_exact(#[trigger] before[j], address, size),
            decreases before.len() - i,
        {
            if self.arenas[i].base == address && self.arenas[i].data.len() == size {
                proof {
                    assert(is_exact(before[i as int], address, size));
                    lemma_drop_exact(before, i as int, address, size);
                }
                self.arenas.remove(i);
                return ;
            }
            i = i + 1;
        }
        assert(!exact(before, address, size));
    }

    /// Zeroes the mapped bytes of `[address, address + size)`.
    pub fn discard_range(&mut self, address: u64, size: usize) -> (r: Result<(), CpuError>)
        requires
            old(self).wf(),
        ensures
            final(self).wf(),
            r is Ok,
            final(self).bytes() == zero_range(old(self).bytes(), address as int, address + size),
            forall|va: int| #[trigger] covered(final(self)@, va) <==> covered(old(self)@, va),
    {
        let ghost m = old(self).bytes();
        let end: u64 = match address.checked_add(size as u64) {
            Some(end) => end,
            None => u64::MAX,
        };
        let mut i: usize = 0;
        while i < self.arenas.len()
            invariant
                self.wf(),
                i <= self@.len(),
                self@.len() == old(self)@.len(),
                old(self).wf(),
                m == old(self).bytes(),
                end == if address + size <= u64::MAX {
                    address + size
                } else {
                    u64::MAX as int
                },
                forall|j: int| i <= j < self@.len() ==> #[trigger] self@[j] == old(self)@[j],
                forall|j: int|
                    0 <= j < self@.len() ==> (#[trigger] self@[j]).base == old(self)@[j].base
                        && self@[j].data@.len() == old(self)@[j].data@.len(),
                forall|j: int, k: int|
                    0 <= j < i && 0 <= k < self@[j].data@.len() ==> #[trigger] self@[j].data@[k]
                        == if address <= self@[j].base + k < address + size {
                        0
                    } else {
                        old(self)@[j].data@[k]
                    },
            decreases self@.len() - i,
        {
            let ghost before = self.arenas@;
            assert(self@[i as int].wf());
            assert(self@[i as int] == old(self)@[i as int]);
            let base: u64 = self.arenas[i].base;
            let len: usize = self.arenas[i].data.len();
            let arena_end: u64 = base + len as u64;
            let from: u64 = if address > base {
                address
            } else {
                base
            };
            let to: u64 = if end < arena_end {
                end
            } else {
                arena_end
            };
            if from < to {
                zero_out(&mut self.arenas[i].data, (from - base) as usize, (to - from) as usize);
            }
            proof {
                let after = self.arenas@;
                lemma_replaced(before, after, i as int);
                assert forall|j: int| 0 <= j < after.len() implies (#[trigger] after[j]).wf() by {
                    assert(before[j].wf());
                }
                assert forall|k: int| 0 <= k < len implies #[trigger] after[i as int].data@[k]
                    == if address <= base + k < address + size {
                    0
                } else {
                    old(self)@[i as int].data@[k]
                } by {
                    if from < to {
                        assert(base + k < VA_LIMIT);
                    }
                }
            }
            i = i + 1;
        }
        proof {
            let a = old(self)@;
            let b = self@;
            assert forall|va: int| #[trigger] covered(b, va) <==> covered(a, va) by {
                if covered(a, va) {
                    let o = owner(a, va);
                    assert(a[o].covers(va));
                    assert(b[o].covers(va));
                }
                if covered(b, va) {
                    let o = owner(b, va);
                    assert(b[o].covers(va));
                    assert(a[o].covers(va));
                }
            }
            let want = zero_range(m, address as int, address + size);
            assert forall|va: int| want.contains_key(va) implies arena_bytes(b)[va] == want[va] by {
                let o = owner(a, va);
                assert(a[o].covers(va));
                assert(b[o].covers(va));
                lemma_owned(a, o, va);
                lemma_owned(b, o, va);
                let k = va - b[o].base;
                assert(b[o].data@[k] == if address <= b[o].base + k < address + size {
                    0
                } else {
                    a[o].data@[k]
                });
            }
            assert(arena_bytes(b) =~= want);
        }
        Ok(())
    }

    /// Arena bytes lie in the mappable range and fill whole pages.
    pub proof fn lemma_in_bounds(&self)
        requires
            self.wf(),
        ensures
            in_bounds(self.bytes()),
            whole_pages(self.bytes()),
            forall|va: int| #[trigger] covered(self@, va) ==> 0 <= va < VA_LIMIT,
    {
        let m = self.bytes();
        assert forall|va: int, other: int|
            #![trigger m.contains_key(va), m.contains_key(other)]
            m.contains_key(va) && va / 0x1000 == other / 0x1000 implies m.contains_key(other) by {
            let i = owner(self@, va);
            assert(self@[i].covers(va));
            assert(self@[i].wf());
            assert(self@[i].covers(other));
        }
        assert forall|va: int| #[trigger] covered(self@, va) implies 0 <= va < VA_LIMIT by {
            let i = owner(self@, va);
            assert(self@[i].covers(va));
            assert(self@[i].wf());
        }
    }
}

/// `arena` is exactly `[address, address + size)`.
pub open spec fn is_exact(arena: Arena, address: u64, size: usize) -> bool {
    arena.base == address && arena.data@.len() == size
}

/// Some arena is exactly `[address, address + size)`.
pub open spec fn exact(arenas: Seq<Arena>, address: u64, size: usize) -> bool {
    exists|i: int| 0 <= i < arenas.len() && is_exact(#[trigger] arenas[i], address, size)
}

/// Removing the arena at `at`, which is exactly the given range, drops that range
/// and nothing else.
proof fn lemma_drop_exact(before: Seq<Arena>, at: int, address: u64, size: usize)
    requires
        disjoint(before),
        forall|i: int| 0 <= i < before.len() ==> (#[trigger] before[i]).wf(),
        0 <= at < before.len(),
        before[at].base == address,
        before[at].data@.len() == size,
    ensures
        disjoint(before.remove(at)),
        forall|i: int|
            0 <= i < before.remove(at).len() ==> (#[trigger] before.remove(at)[i]).wf(),
        arena_bytes(before.remove(at)) == unmap_range(
            arena_bytes(before),
            address as int,
            address + size,
        ),
{
    let after = before.remove(at);
    assert(before[at].wf());
    assert forall|i: int| 0 <= i < after.len() implies #[trigger] after[i] == before[if i < at {
        i
    } else {
        i + 1
    }] by {}
    assert forall|i: int, j: int, va: int|
        #![trigger after[i].covers(va), after[j].covers(va)]
        0 <= i < after.len() && 0 <= j < after.len() && after[i].covers(va) && after[j].covers(
            va,
        ) implies i == j by {
        let bi = if i < at {
            i
        } else {
            i + 1
        };
        let bj = if j < at {
            j
        } else {
            j + 1
        };
        assert(before[bi].covers(va) && before[bj].covers(va));
    }
    assert forall|i: int| 0 <= i < after.len() implies (#[trigger] after[i]).wf() by {
        let bi = if i < at {
            i
        } else {
            i + 1
        };
        assert(before[bi].wf());
    }
    assert forall|va: int| #[trigger]
        covered(after, va) <==> covered(before, va) && !(address <= va < address + size) by {
        if covered(after, va) {
            let i = owner(after, va);
            assert(after[i].covers(va));
            let bi = if i < at {
                i
            } else {
                i + 1
            };
            assert(before[bi].covers(va));
            if address <= va < address + size {
                assert(before[at].covers(va));
            }
        }
        if covered(before, va) && !(address <= va < address + size) {
            let i = owner(before, va);
            assert(before[i].covers(va));
            assert(i != at);
            let ai = if i < at {
                i
            } else {
                i - 1
            };
            assert(after[ai].covers(va));
        }
    }
    assert forall|va: int| covered(after, va) implies #[trigger] arena_bytes(after)[va]
        == arena_bytes(before)[va] by {
        let i = owner(after, va);
        assert(after[i].covers(va));
        let bi = if i < at {
            i
        } else {
            i + 1
        };
        assert(before[bi].covers(va));
        lemma_owned(after, i, va);
        lemma_owned(before, bi, va);
    }
    assert(arena_bytes(after) =~= unmap_range(
        arena_bytes(before),
        address as int,
        address + size,
    ));
}

} // verus!
