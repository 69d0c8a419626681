//! The 4-level radix page table: nine bits of the page key per level, 36 bits in
//! all, which covers a 48-bit address space.
//!
//! A leaf holds the host page of a guest page; zero stands for no page.

use vstd::prelude::*;

verus! {

/// Bits per radix level (512-way).
pub const PT_BITS: u32 = 9;

/// Entries per level table.
pub const PT_SIZE: usize = 512;

/// Mask for one level index.
pub const PT_MASK: u64 = 511;

/// The part of a page key that the four levels index.
pub open spec fn low_bits(page_key: u64) -> u64 {
    page_key % 0x10_0000_0000
}

/// The table index of `page_key` at `level` (0 to 3).
pub open spec fn level_index(page_key: u64, level: int) -> int {
    if level == 0 {
        (page_key as int / 0x800_0000) % 512
    } else if level == 1 {
        (page_key as int / 0x4_0000) % 512
    } else if level == 2 {
        (page_key as int / 512) % 512
    } else {
        page_key as int % 512
    }
}

/// The level indices determine the indexed part of a key, and no more.
pub proof fn lemma_level_indices(a: u64, b: u64)
    ensures
        (forall|level: int|
            0 <= level < 4 ==> #[trigger] level_index(a, level) == level_index(b, level))
            <==> low_bits(a) == low_bits(b),
{
    lemma_key_digits(a);
    lemma_key_digits(b);
    if low_bits(a) == low_bits(b) {
        assert forall|level: int| 0 <= level < 4 implies #[trigger] level_index(a, level)
            == level_index(b, level) by {
            assert(level == 0 || level == 1 || level == 2 || level == 3);
        }
    } else {
        assert(level_index(a, 0) != level_index(b, 0) || level_index(a, 1) != level_index(b, 1)
            || level_index(a, 2) != level_index(b, 2) || level_index(a, 3) != level_index(b, 3));
    }
}

/// The level indices are the base 512 digits of the indexed part of a key.
proof fn lemma_key_digits(key: u64)
    ensures
        level_index(key, 0) == low_bits(key) as int / 0x800_0000,
        level_index(key, 1) == (low_bits(key) as int / 0x4_0000) % 512,
        level_index(key, 2) == (low_bits(key) as int / 512) % 512,
        level_index(key, 3) == low_bits(key) as int % 512,
        low_bits(key) == level_index(key, 0) * 0x800_0000 + level_index(key, 1) * 0x4_0000
            + level_index(key, 2) * 512 + level_index(key, 3),
{
    assert((key % 0x10_0000_0000) / 0x800_0000 == (key / 0x800_0000) % 512 && ((key
        % 0x10_0000_0000) / 0x4_0000) % 512 == (key / 0x4_0000) % 512 && ((key % 0x10_0000_0000)
        / 512) % 512 == (key / 512) % 512 && (key % 0x10_0000_0000) % 512 == key % 512) by (
    bit_vector);
    let r = low_bits(key) as int;
    assert(r == (r / 512) * 512 + r % 512);
    assert(r / 512 == ((r / 512) / 512) * 512 + (r / 512) % 512);
    assert((r / 512) / 512 == r / 0x4_0000);
    assert(r / 0x4_0000 == ((r / 0x4_0000) / 512) * 512 + (r / 0x4_0000) % 512);
    assert((r / 0x4_0000) / 512 == r / 0x800_0000);
}

/// Level 3: host pages.
pub struct PtL3 {
    entries: Vec<u64>,
}

/// Level 2: owned level 3 tables.
pub struct PtL2 {
    entries: Vec<Option<Box<PtL3>>>,
}

/// Level 1: owned level 2 tables.
pub struct PtL1 {
    entries: Vec<Option<Box<PtL2>>>,
}

/// Level 0: the directory of level 1 tables.
pub struct RadixTable {
    l0: Vec<Option<Box<PtL1>>>,
}

impl PtL3 {
    spec fn wf(&self) -> bool {
        self.entries@.len() == 512
    }

    spec fn leaf(&self, i3: int) -> u64 {
        self.entries@[i3]
    }

    fn new() -> (t: Self)
        ensures
            t.wf(),
            forall|i3: int| 0 <= i3 < 512 ==> t.leaf(i3) == 0,
    {
        PtL3 { entries: vec![0u64; PT_SIZE] }
    }

    fn install(&mut self, i3: usize, host: u64)
        requires
            old(self).wf(),
            i3 < 512,
        ensures
            final(self).wf(),
            forall|j3: int|
                0 <= j3 < 512 ==> #[trigger] final(self).leaf(j3) == if j3 == i3 {
                    host
                } else {
                    old(self).leaf(j3)
                },
    {
        self.entries[i3] = host;
    }
}

impl PtL2 {
    spec fn wf(&self) -> bool {
        &&& self.entries@.len() == 512
        &&& forall|i2: int|
            0 <= i2 < 512 ==> (#[trigger] self.entries@[i2] matches Some(t) ==> t.wf())
    }

    spec fn leaf(&self, i2: int, i3: int) -> u64 {
        match self.entries@[i2] {
            Some(t) => t.leaf(i3),
            None => 0,
        }
    }

    fn new() -> (t: Self)
        ensures
            t.wf(),
            forall|i2: int, i3: int| 0 <= i2 < 512 && 0 <= i3 < 512 ==> t.leaf(i2, i3) == 0,
    {
        let mut entries: Vec<Option<Box<PtL3>>> = Vec::new();
        let mut i: usize = 0;
        while i < PT_SIZE
            invariant
                i <= 512,
                entries@.len() == i,
                forall|k: int| 0 <= k < i ==> #[trigger] entries@[k] is None,
            decreases 512 - i,
        {
            entries.push(None);
            i = i + 1;
        }
        PtL2 { entries }
    }

    fn install(&mut self, i2: usize, i3: usize, host: u64)
        requires
            old(self).wf(),
            i2 < 512,
            i3 < 512,
        ensures
            final(self).wf(),
            forall|j2: int, j3: int|
                0 <= j2 < 512 && 0 <= j3 < 512 ==> #[trigger] final(self).leaf(j2, j3) == if j2
                    == i2 && j3 == i3 {
                    host
                } else {
                    old(self).leaf(j2, j3)
                },
    {
        let ghost before = self.entries@;
        let mut table: Box<PtL3> = match self.entries[i2].take() {
            Some(t) => t,
            None => Box::new(PtL3::new()),
        };
        table.install(i3, host);
        self.entries[i2] = Some(table);
        assert(forall|j2: int|
            0 <= j2 < 512 && j2 != i2 ==> #[trigger] self.entries@[j2] == before[j2]);
    }

    fn walk(&self, i2: usize, i3: usize) -> (host: u64)
        requires
            self.wf(),
            i2 < 512,
            i3 < 512,
        ensures
            host == self.leaf(i2 as int, i3 as int),
    {
        match &self.entries[i2] {
            Some(t) => t.entries[i3],
            None => 0,
        }
    }
}

impl PtL1 {
    spec fn wf(&self) -> bool {
        &&& self.entries@.len() == 512
        &&& forall|i1: int|
            0 <= i1 < 512 ==> (#[trigger] self.entries@[i1] matches Some(t) ==> t.wf())
    }

    spec fn leaf(&self, i1: int, i2: int, i3: int) -> u64 {
        match self.entries@[i1] {
            Some(t) => t.leaf(i2, i3),
            None => 0,
        }
    }

    fn new() -> (t: Self)
        ensures
            t.wf(),
            forall|i1: int, i2: int, i3: int|
                0 <= i1 < 512 && 0 <= i2 < 512 && 0 <= i3 < 512 ==> t.leaf(i1, i2, i3) == 0,
    {
        let mut entries: Vec<Option<Box<PtL2>>> = Vec::new();
        let mut i: usize = 0;
        while i < PT_SIZE
            invariant
                i <= 512,
                entries@.len() == i,
                forall|k: int| 0 <= k < i ==> #[trigger] entries@[k] is None,
            decreases 512 - i,
        {
            entries.push(None);
            i = i + 1;
        }
        PtL1 { entries }
    }

    fn install(&mut self, i1: usize, i2: usize, i3: usize, host: u64)
        requires
            old(self).wf(),
            i1 < 512,
            i2 < 512,
            i3 < 512,
        ensures
            final(self).wf(),
            forall|j1: int, j2: int, j3: int|
                0 <= j1 < 512 && 0 <= j2 < 512 && 0 <= j3 < 512 ==> #[trigger] final(self).leaf(
                    j1,
                    j2,
                    j3,
                ) == if j1 == i1 && j2 == i2 && j3 == i3 {
                    host
                } else {
                    old(self).leaf(j1, j2, j3)
                },
    {
        let ghost before = self.entries@;
        let mut table: Box<PtL2> = match self.entries[i1].take() {
            Some(t) => t,
            None => Box::new(PtL2::new()),
        };
        table.install(i2, i3, host);
        self.entries[i1] = Some(table);
        assert(forall|j1: int|
            0 <= j1 < 512 && j1 != i1 ==> #[trigger] self.entries@[j1] == before[j1]);
    }

    fn walk(&self, i1: usize, i2: usize, i3: usize) -> (host: u64)
        requires
            self.wf(),
            i1 < 512,
            i2 < 512,
            i3 < 512,
        ensures
            host == self.leaf(i1 as int, i2 as int, i3 as int),
    {
        match &self.entries[i1] {
            Some(t) => t.walk(i2, i3),
            None => 0,
        }
    }
}

impl RadixTable {
    /// Every table that is reached has 512 entries.
    pub closed spec fn wf(&self) -> bool {
        &&& self.l0@.len() == 512
        &&& forall|i0: int| 0 <= i0 < 512 ==> (#[trigger] self.l0@[i0] matches Some(t) ==> t.wf())
    }

    spec fn leaf_at(&self, i0: int, i1: int, i2: int, i3: int) -> u64 {
        match self.l0@[i0] {
            Some(t) => t.leaf(i1, i2, i3),
            None => 0,
        }
    }

    /// The leaf that `page_key` reaches; zero where there is none.
    pub closed spec fn leaf(&self, page_key: u64) -> u64 {
        self.leaf_at(
            level_index(page_key, 0),
            level_index(page_key, 1),
            level_index(page_key, 2),
            level_index(page_key, 3),
        )
    }

    /// A table with no leaf.
    pub fn new() -> (t: Self)
        ensures
            t.wf(),
            forall|key: u64| #[trigger] t.leaf(key) == 0,
    {
        let mut l0: Vec<Option<Box<PtL1>>> = Vec::new();
        let mut i: usize = 0;
        while i < PT_SIZE
            invariant
                i <= 512,
                l0@.len() == i,
                forall|k: int| 0 <= k < i ==> #[trigger] l0@[k] is None,
            decreases 512 - i,
        {
            l0.push(None);
            i = i + 1;
        }
        RadixTable { l0 }
    }

    /// The level indices of a page key.
    pub fn indices(page_key: u64) -> (r: [usize; 4])
        ensures
            forall|level: int|
                0 <= level < 4 ==> #[trigger] r@[level] == level_index(page_key, level),
            forall|level: int| 0 <= level < 4 ==> #[trigger] r@[level] < 512,
    {
        assert((page_key >> 27u32) & 511 == (page_key / 0x800_0000) % 512 && (page_key >> 18u32)
            & 511 == (page_key / 0x4_0000) % 512 && (page_key >> 9u32) & 511 == (page_key / 512)
            % 512 && page_key & 511 == page_key % 512) by (bit_vector);
        [
            ((page_key >> (3 * PT_BITS)) & PT_MASK) as usize,
            ((page_key >> (2 * PT_BITS)) & PT_MASK) as usize,
            ((page_key >> PT_BITS) & PT_MASK) as usize,
            (page_key & PT_MASK) as usize,
        ]
    }

    /// Makes `host` the leaf of `page_key`, growing the tree as needed.
    pub fn install(&mut self, page_key: u64, host: u64)
        requires
            old(self).wf(),
        ensures
            final(self).wf(),
            forall|key: u64| #[trigger]
                final(self).leaf(key) == if low_bits(key) == low_bits(page_key) {
                    host
                } else {
                    old(self).leaf(key)
                },
    {
        let idx = Self::indices(page_key);
        let i0: usize = idx[0];
        assert(forall|level: int| 0 <= level < 4 ==> #[trigger] idx@[level] < 512);
        let ghost before = self.l0@;
        let mut table: Box<PtL1> = match self.l0[i0].take() {
            Some(t) => t,
            None => Box::new(PtL1::new()),
        };
        table.install(idx[1], idx[2], idx[3], host);
        self.l0[i0] = Some(table);
        proof {
            assert(forall|j0: int|
                0 <= j0 < 512 && j0 != i0 ==> #[trigger] self.l0@[j0] == before[j0]);
            assert forall|key: u64| #[trigger]
                self.leaf(key) == if low_bits(key) == low_bits(page_key) {
                    host
                } else {
                    old(self).leaf(key)
                } by {
                lemma_level_indices(key, page_key);
                assert(idx@[0] == level_index(page_key, 0));
                assert(idx@[1] == level_index(page_key, 1));
                assert(idx@[2] == level_index(page_key, 2));
                assert(idx@[3] == level_index(page_key, 3));
            }
        }
    }

    /// Walks the four levels for `page_key`.
    pub fn walk(&self, page_key: u64) -> (host: u64)
        requires
            self.wf(),
        ensures
            host == self.leaf(page_key),
    {
        let idx = Self::indices(page_key);
        assert(idx@[0] == level_index(page_key, 0));
        assert(idx@[1] == level_index(page_key, 1));
        assert(idx@[2] == level_index(page_key, 2));
        assert(idx@[3] == level_index(page_key, 3));
        match &self.l0[idx[0]] {
            Some(t) => t.walk(idx[1], idx[2], idx[3]),
            None => 0,
        }
    }
}

/// Keys with the same indexed part reach the same leaf.
pub proof fn lemma_leaf_shared(t: RadixTable, a: u64, b: u64)
    requires
        low_bits(a) == low_bits(b),
    ensures
        t.leaf(a) == t.leaf(b),
{
    lemma_level_indices(a, b);
    assert(level_index(a, 0) == level_index(b, 0));
    assert(level_index(a, 1) == level_index(b, 1));
    assert(level_index(a, 2) == level_index(b, 2));
    assert(level_index(a, 3) == level_index(b, 3));
}

} // verus!
