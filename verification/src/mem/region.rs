//! Named ranges of the guest layout.

use vstd::prelude::*;

verus! {

/// What a layout range is used for.
#[derive(Debug, Clone, Copy, PartialEq, Eq, Structural)]
pub enum RegionKind {
    /// A thread stack.
    Stack,
    /// A heap.
    Heap,
    /// A loaded image.
    Image,
    /// Anything else.
    Other,
}

/// A named layout range.
#[derive(Debug, Clone)]
pub struct GuestRegion {
    /// Name for diagnostics.
    pub name: String,
    /// What the range is used for.
    pub kind: RegionKind,
    /// First guest address.
    pub base: u64,
    /// Length in bytes.
    pub size: u64,
    /// `PROT_*` bits.
    pub perms: u32,
    /// Host address of the arena that covers the range, once known.
    pub host_base: Option<u64>,
}

impl GuestRegion {
    /// Whether `va` lies in the range.
    pub open spec fn covers(self, va: u64) -> bool {
        self.base <= va < self.base + self.size
    }

    /// A range with no host address yet.
    pub fn new(name: &str, kind: RegionKind, base: u64, size: u64, perms: u32) -> (r: Self)
        ensures
            r.name@ == name@,
            r.kind == kind,
            r.base == base,
            r.size == size,
            r.perms == perms,
            r.host_base is None,
    {
        GuestRegion { name: name.to_owned(), kind, base, size, perms, host_base: None }
    }

    /// Whether `va` lies in the range.
    pub fn contains(&self, va: u64) -> (r: bool)
        ensures
            r == self.covers(va),
    {
        self.base <= va && va - self.base < self.size
    }
}

/// Registered ranges, in order of registration.
pub struct RegionTable {
    regions: Vec<GuestRegion>,
}

/// The first range that covers `va`.
pub open spec fn first_covering(regions: Seq<GuestRegion>, va: u64) -> Option<int>
    decreases regions.len(),
{
    if regions.len() == 0 {
        None
    } else {
        match first_covering(regions.drop_last(), va) {
            Some(i) => Some(i),
            None => if regions.last().covers(va) {
                Some(regions.len() - 1)
            } else {
                None
            },
        }
    }
}

/// `region` with the host address `host`, if it covers `va` and has none yet.
pub open spec fn backfilled(region: GuestRegion, va: u64, host: u64) -> GuestRegion {
    if region.covers(va) && region.host_base is None {
        GuestRegion { host_base: Some(host), ..region }
    } else {
        region
    }
}

impl RegionTable {
    /// The registered ranges.
    pub closed spec fn view(&self) -> Seq<GuestRegion> {
        self.regions@
    }

    /// An empty table.
    pub fn new() -> (t: Self)
        ensures
            t@.len() == 0,
    {
        RegionTable { regions: Vec::new() }
    }

    /// The number of ranges.
    pub fn len(&self) -> (n: usize)
        ensures
            n == self@.len(),
    {
        self.regions.len()
    }

    /// Adds a range.
    pub fn register(&mut self, region: GuestRegion)
        ensures
            final(self)@ == old(self)@.push(region),
    {
        self.regions.push(region);
    }

    /// The first registered range that covers `va`.
    pub fn find(&self, va: u64) -> (r: Option<&GuestRegion>)
        ensures
            match first_covering(self@, va) {
                Some(i) => 0 <= i < self@.len() && r == Some(&self@[i]),
                None => r is None,
            },
    {
        let n: usize = self.regions.len();
        let mut i: usize = 0;
        while i < n
            invariant
                i <= n,
                n == self@.len(),
                first_covering(self@.take(i as int), va) is None,
            decreases n - i,
        {
            proof {
                assert(self@.take(i + 1).drop_last() =~= self@.take(i as int));
            }
            if self.regions[i].contains(va) {
                proof {
                    lemma_first_covering_prefix(self@, i + 1, va);
                }
                return Some(&self.regions[i]);
            }
            i = i + 1;
        }
        assert(self@.take(n as int) =~= self@);
        None
    }

    /// Gives every range that covers `va` and has no host address yet `host`.
    pub fn set_host_base_if_covers(&mut self, va: u64, host: u64)
        ensures
            final(self)@ == old(self)@.map_values(|r: GuestRegion| backfilled(r, va, host)),
    {
        let n: usize = self.regions.len();
        let mut i: usize = 0;
        while i < n
            invariant
                i <= n,
                n == self@.len(),
                self@.len() == old(self)@.len(),
                forall|j: int|
                    0 <= j < n ==> #[trigger] self@[j] == if j < i {
                        backfilled(old(self)@[j], va, host)
                    } else {
                        old(self)@[j]
                    },
            decreases n - i,
        {
            assert(self@[i as int] == old(self)@[i as int]);
            if self.regions[i].contains(va) && self.regions[i].host_base.is_none() {
                self.regions[i].host_base = Some(host);
            }
            i = i + 1;
        }
        assert(self@ =~= old(self)@.map_values(|r: GuestRegion| backfilled(r, va, host)));
    }
}

/// The first covering range of a prefix is that of the whole.
proof fn lemma_first_covering_prefix(regions: Seq<GuestRegion>, n: int, va: u64)
    requires
        0 <= n <= regions.len(),
        first_covering(regions.take(n), va) is Some,
    ensures
        first_covering(regions, va) == first_covering(regions.take(n), va),
    decreases regions.len() - n,
{
    if n < regions.len() {
        assert(regions.take(n + 1).drop_last() =~= regions.take(n));
        lemma_first_covering_prefix(regions, n + 1, va);
    } else {
        assert(regions.take(n) =~= regions);
    }
}

} // verus!
