//! Finding compiled blocks by guest address, and predicting return addresses.

use vstd::prelude::*;

verus! {

/// Slots of the chain table.
pub const CHAIN_SLOTS: usize = 512;

/// How many slots a lookup tries.
pub const CHAIN_PROBES: usize = 16;

/// How many compiled blocks may call each other without going back to the
/// dispatcher, so that the host stack stays bounded.
pub const MAX_CHAIN_DEPTH: u64 = 48;

/// How many return addresses are predicted.
pub const SHADOW_DEPTH: usize = 32;

/// The slot at which the search for an address starts.
pub open spec fn slot_of(va: u64) -> int {
    (va * 0x9E37_79B9_7F4A_7C15 % 0x1_0000_0000_0000_0000) % 512
}

/// The slot at which the search for an address starts.
pub fn chain_hash(va: u64) -> (i: usize)
    ensures
        i == slot_of(va),
        i < CHAIN_SLOTS,
{
    let h: u64 = va.wrapping_mul(0x9E37_79B9_7F4A_7C15);
    (h % 512) as usize
}

/// The first of `n` slots from `i` on that holds `va` or nothing, going round.
pub open spec fn place(keys: Seq<u64>, va: u64, i: int, n: nat) -> Option<int>
    decreases n,
{
    if n == 0 {
        None
    } else if keys[i] == 0 || keys[i] == va {
        Some(i)
    } else {
        place(keys, va, (i + 1) % 512, (n - 1) as nat)
    }
}

/// The slot that an address is put in: the first that holds it or nothing, or, in
/// a full table, the slot at which the search starts.
pub open spec fn insert_slot(keys: Seq<u64>, va: u64) -> int {
    match place(keys, va, slot_of(va), CHAIN_SLOTS as nat) {
        Some(i) => i,
        None => slot_of(va),
    }
}

/// What a lookup finds: zero if a free slot or the limit of the search comes
/// first.
pub open spec fn found(keys: Seq<u64>, targets: Seq<u64>, va: u64) -> u64 {
    if va == 0 {
        0
    } else {
        match place(keys, va, slot_of(va), CHAIN_PROBES as nat) {
            Some(i) => if keys[i] == va {
                targets[i]
            } else {
                0
            },
            None => 0,
        }
    }
}

/// An open-addressing table from guest addresses to compiled blocks. Zero means
/// empty.
pub struct ChainTable {
    /// Guest addresses.
    pub va: [u64; 512],
    /// Entry points of compiled blocks.
    pub target: [u64; 512],
}

impl ChainTable {
    /// An empty table.
    pub fn new() -> (t: Self)
        ensures
            t.va@ == Seq::new(512, |i: int| 0u64),
            t.target@ == Seq::new(512, |i: int| 0u64),
    {
        let t = ChainTable { va: [0u64;512], target: [0u64;512] };
        assert(t.va@ =~= Seq::new(512, |i: int| 0u64));
        assert(t.target@ =~= Seq::new(512, |i: int| 0u64));
        t
    }

    /// Puts a block into the table, or updates it. Zero is neither an address nor a
    /// block.
    pub fn chain_table_insert(&mut self, va: u64, target: u64)
        ensures
            va == 0 || target == 0 ==> *final(self) == *old(self),
            va != 0 && target != 0 ==> {
                let i = insert_slot(old(self).va@, va);
                &&& 0 <= i < 512
                &&& final(self).va@ == old(self).va@.update(i, va)
                &&& final(self).target@ == old(self).target@.update(i, target)
            },
    {
        if va == 0 || target == 0 {
            return;
        }
        let start: usize = chain_hash(va);
        let mut i: usize = start;
        let mut left: usize = CHAIN_SLOTS;
        while left > 0
            invariant
                i < 512,
                left <= 512,
                start == slot_of(va),
                va != 0,
                target != 0,
                *self == *old(self),
                place(self.va@, va, slot_of(va), 512) == place(self.va@, va, i as int, left as nat),
            decreases left,
        {
            let key: u64 = self.va[i];
            if key == 0 || key == va {
                self.va[i] = va;
                self.target[i] = target;
                return;
            }
            i = (i + 1) % CHAIN_SLOTS;
            left = left - 1;
        }
        self.va[start] = va;
        self.target[start] = target;
    }

    /// Empties the table.
    pub fn chain_table_clear(&mut self)
        ensures
            final(self).va@ == Seq::new(512, |i: int| 0u64),
            final(self).target@ == Seq::new(512, |i: int| 0u64),
    {
        let empty = ChainTable::new();
        self.va = empty.va;
        self.target = empty.target;
    }

    /// The compiled block at `va`, or zero.
    pub fn chain_lookup(&self, va: u64) -> (r: u64)
        ensures
            r == found(self.va@, self.target@, va),
    {
        if va == 0 {
            return 0;
        }
        let mut i: usize = chain_hash(va);
        let mut left: usize = CHAIN_PROBES;
        while left > 0
            invariant
                i < 512,
                left <= 16,
                va != 0,
                place(self.va@, va, slot_of(va), 16) == place(self.va@, va, i as int, left as nat),
            decreases left,
        {
            let key: u64 = self.va[i];
            if key == va {
                return self.target[i];
            }
            if key == 0 {
                return 0;
            }
            i = (i + 1) % CHAIN_SLOTS;
            left = left - 1;
        }
        0
    }

    /// The compiled block at `va` that a block may call, at the given depth of
    /// calls; zero if the depth is used up.
    pub fn chain_follow(&self, va: u64, depth: u64) -> (r: u64)
        ensures
            r == if depth < MAX_CHAIN_DEPTH {
                found(self.va@, self.target@, va)
            } else {
                0
            },
    {
        if depth < MAX_CHAIN_DEPTH {
            self.chain_lookup(va)
        } else {
            0
        }
    }
}

/// A search with a longer limit finds what one with a shorter limit finds.
proof fn lemma_place_longer(keys: Seq<u64>, va: u64, i: int, n: nat, m: nat)
    requires
        n <= m,
        place(keys, va, i, n) is Some,
    ensures
        place(keys, va, i, m) == place(keys, va, i, n),
    decreases n,
{
    if n > 0 && !(keys[i] == 0 || keys[i] == va) {
        lemma_place_longer(keys, va, (i + 1) % 512, (n - 1) as nat, (m - 1) as nat);
    }
}

/// Filling the slot that a search found keeps it the first.
proof fn lemma_place_filled(keys: Seq<u64>, va: u64, i: int, n: nat, at: int)
    requires
        keys.len() == 512,
        0 <= i < 512,
        0 <= at < 512,
        place(keys, va, i, n) == Some(at),
    ensures
        place(keys.update(at, va), va, i, n) == Some(at),
    decreases n,
{
    if i != at {
        assert(keys.update(at, va)[i] == keys[i]);
        if n > 0 && !(keys[i] == 0 || keys[i] == va) {
            lemma_place_filled(keys, va, (i + 1) % 512, (n - 1) as nat, at);
        }
    }
}

/// A block that was put into the table is found again, if the search for its slot
/// ended within the limit of a lookup.
pub proof fn lookup_after_insert(keys: Seq<u64>, targets: Seq<u64>, va: u64, target: u64)
    requires
        keys.len() == 512,
        targets.len() == 512,
        va != 0,
        place(keys, va, slot_of(va), CHAIN_PROBES as nat) is Some,
    ensures
        ({
            let i = insert_slot(keys, va);
            found(keys.update(i, va), targets.update(i, target), va) == target
        }),
{
    lemma_place_in(keys, va, slot_of(va), 16);
    lemma_place_longer(keys, va, slot_of(va), 16, 512);
    let i = insert_slot(keys, va);
    lemma_place_filled(keys, va, slot_of(va), 16, i);
}

/// A search stays in the table.
proof fn lemma_place_in(keys: Seq<u64>, va: u64, i: int, n: nat)
    requires
        0 <= i < 512,
    ensures
        place(keys, va, i, n) matches Some(j) ==> 0 <= j < 512,
    decreases n,
{
    if n > 0 && !(keys[i] == 0 || keys[i] == va) {
        lemma_place_in(keys, va, (i + 1) % 512, (n - 1) as nat);
    }
}

/// A lookup never finds a block that was put in for another address.
pub proof fn lookup_is_sound(keys: Seq<u64>, targets: Seq<u64>, va: u64)
    requires
        found(keys, targets, va) != 0,
    ensures
        exists|i: int|
            0 <= i < 512 && #[trigger] keys[i] == va && targets[i] == found(keys, targets, va),
{
    lemma_place_in(keys, va, slot_of(va), 16);
    let i = place(keys, va, slot_of(va), 16)->0;
    assert(keys[i] == va);
}

/// An empty table holds nothing.
pub proof fn lookup_in_empty_table(va: u64)
    ensures
        found(Seq::new(512, |i: int| 0u64), Seq::new(512, |i: int| 0u64), va) == 0,
{
    lemma_place_in(Seq::new(512, |i: int| 0u64), va, slot_of(va), 16);
}

/// The predicted return addresses, a ring. The count of pushes says where its top
/// is.
pub struct ShadowStack {
    /// Count of pushes.
    pub sp: u64,
    /// The ring.
    pub ret: [u64; 32],
}

/// The ring and its count after a call.
pub open spec fn after_call(sp: u64, ret: Seq<u64>, return_ip: u64) -> (u64, Seq<u64>) {
    (sp.wrapping_add(1), ret.update(sp as int % 32, return_ip))
}

/// The count after a return.
pub open spec fn after_return(sp: u64, ret: Seq<u64>, ret_va: u64) -> u64 {
    if sp > 0 && ret[(sp - 1) % 32] == ret_va {
        (sp - 1) as u64
    } else {
        0
    }
}

/// The return that belongs to a call is predicted, also where another call and its return
/// come between, and takes off just that prediction. Any other return clears all
/// predictions.
pub proof fn returns_follow_calls(sp: u64, ret: Seq<u64>, a: u64, b: u64, other: u64)
    requires
        ret.len() == 32,
        sp < u64::MAX - 1,
    ensures
        ({
            let (p, r) = after_call(sp, ret, a);
            let (q, t) = after_call(p, r, b);
            &&& p == sp + 1
            &&& after_return(p, r, a) == sp
            &&& other != a ==> after_return(p, r, other) == 0
            &&& after_return(q, t, b) == p
            &&& after_return(after_return(q, t, b), t, a) == sp
            &&& r.len() == 32
            &&& sp > 0 ==> r[(sp - 1) % 32] == ret[(sp - 1) % 32]
        }),
        after_return(0, ret, a) == 0,
{
}

impl ShadowStack {
    /// Nothing is predicted.
    pub fn new() -> (s: Self)
        ensures
            s.sp == 0,
            s.ret@ == Seq::new(32, |i: int| 0u64),
    {
        let s = ShadowStack { sp: 0, ret: [0u64;32] };
        assert(s.ret@ =~= Seq::new(32, |i: int| 0u64));
        s
    }

    /// A call: the return address is predicted.
    pub fn shadow_push(&mut self, return_ip: u64)
        ensures
            final(self).ret@ == old(self).ret@.update(old(self).sp as int % 32, return_ip),
            final(self).sp == old(self).sp.wrapping_add(1),
            (final(self).sp, final(self).ret@) == after_call(
                old(self).sp,
                old(self).ret@,
                return_ip,
            ),
    {
        let i: usize = (self.sp % 32) as usize;
        self.ret[i] = return_ip;
        self.sp = self.sp.wrapping_add(1);
    }

    /// A return to `ret_va`: a right prediction is taken off, a wrong one clears
    /// all of them.
    pub fn shadow_pop_check(&mut self, ret_va: u64)
        ensures
            final(self).ret@ == old(self).ret@,
            final(self).sp == if old(self).sp == 0 {
                0
            } else if old(self).ret@[(old(self).sp - 1) % 32] == ret_va {
                (old(self).sp - 1) as u64
            } else {
                0
            },
            final(self).sp == after_return(old(self).sp, old(self).ret@, ret_va),
    {
        if self.sp != 0 {
            let below: u64 = self.sp - 1;
            let i: usize = (below % 32) as usize;
            if self.ret[i] == ret_va {
                self.sp = below;
            } else {
                self.sp = 0;
            }
        }
    }

    /// Forgets all predictions.
    pub fn drop_predictions(&mut self)
        ensures
            final(self).sp == 0,
            final(self).ret@ == old(self).ret@,
    {
        self.sp = 0;
    }
}

} // verus!
