//! The pages that compiled code used last, and its loads and stores.

use vstd::prelude::*;

use crate::exec::access::{loaded, read_mem_value, stored, write_mem_value};
use crate::exec::model::{InvalidMem, ACCESS_READ, ACCESS_WRITE};
use crate::mem::guest::GuestMemory;

verus! {

/// Sets of pages that are remembered; a page belongs to the set of the low bits of its
/// key.
pub const TLB_SETS: usize = 16;

/// How many pages of one set are remembered.
pub const TLB_WAYS: usize = 4;

/// The page key of an empty slot.
pub const TLB_EMPTY: u64 = 0xffff_ffff_ffff_ffff;

/// The pages that were used last, with their host pages.
pub struct Tlb {
    /// Page keys, set by set, or [`TLB_EMPTY`].
    pub page: [u64; 64],
    /// Host pages; zero if the slot is empty.
    pub host: [u64; 64],
    /// Count of fills; the next fill goes to this slot of its set, modulo the number of
    /// slots.
    pub next: u64,
}

/// The first slot of the set that a page belongs to.
pub open spec fn first_slot(key: u64) -> int {
    (key as int % TLB_SETS as int) * TLB_WAYS
}

impl Tlb {
    /// Every slot that is filled holds the host page of its page.
    pub open spec fn agrees(self, mem: GuestMemory) -> bool {
        forall|i: int|
            0 <= i < 64 && #[trigger] self.host@[i] != 0 ==> mem.host_page(self.page@[i]) == Some(
                self.host@[i],
            )
    }

    /// Nothing is remembered.
    pub open spec fn is_empty(self) -> bool {
        &&& self.page@ == Seq::new(64, |i: int| TLB_EMPTY)
        &&& self.host@ == Seq::new(64, |i: int| 0u64)
        &&& self.next == 0
    }

    /// An empty one.
    pub fn new() -> (t: Self)
        ensures
            t.is_empty(),
            forall|mem: GuestMemory| #[trigger] t.agrees(mem),
    {
        let t = Tlb { page: [TLB_EMPTY;64], host: [0u64;64], next: 0 };
        assert(t.page@ =~= Seq::new(64, |i: int| TLB_EMPTY));
        assert(t.host@ =~= Seq::new(64, |i: int| 0u64));
        t
    }

    /// Forgets all pages.
    pub fn invalidate(&mut self)
        ensures
            final(self).is_empty(),
            forall|mem: GuestMemory| #[trigger] final(self).agrees(mem),
    {
        let empty = Tlb::new();
        self.page = empty.page;
        self.host = empty.host;
        self.next = 0;
    }

    /// A page is remembered, in its set.
    pub open spec fn remembers(self, key: u64) -> bool {
        exists|i: int|
            first_slot(key) <= i < first_slot(key) + TLB_WAYS && #[trigger] self.page@[i] == key
                && self.host@[i] != 0
    }

    /// The host address of `size` bytes at `addr`, if they lie in one page that is
    /// mapped. A page that was not remembered takes a place in its set; the places
    /// take turns.
    pub fn tlb_page_ptr(&mut self, mem: &mut GuestMemory, addr: u64, size: usize) -> (r: Option<
        u64,
    >)
        requires
            old(mem).wf(),
            old(self).agrees(*old(mem)),
        ensures
            same_memory(*old(mem), *final(mem)),
            final(self).agrees(*final(mem)),
            ({
                let key = addr / 0x1000;
                let slot = first_slot(key) + old(self).next as int % 4;
                if addr as int % 0x1000 + size > 0x1000 {
                    r is None && *final(self) == *old(self) && *final(mem) == *old(mem)
                } else {
                    &&& match final(mem).host_page(key) {
                        Some(p) => r == Some(p.wrapping_add((addr % 0x1000) as u64)),
                        None => r is None,
                    }
                    &&& r is Some <==> old(mem).host_page(key) is Some
                        || old(mem).bytes().contains_key(key * 0x1000)
                    &&& old(self).remembers(key) || r is None ==> *final(self) == *old(self)
                    &&& !old(self).remembers(key) && r is Some ==> {
                        &&& final(self).next == old(self).next.wrapping_add(1)
                        &&& final(self).page@ == old(self).page@.update(slot, key)
                        &&& final(self).host@ == old(self).host@.update(
                            slot,
                            final(mem).host_page(key)->0,
                        )
                    }
                }
            }),
    {
        let offset: u64 = addr % 0x1000;
        if size > 0x1000 || offset as usize > 0x1000 - size {
            return None;
        }
        let key: u64 = addr / 0x1000;
        let first: usize = (key % TLB_SETS as u64) as usize * TLB_WAYS;
        let mut i: usize = first;
        while i < first + TLB_WAYS
            invariant
                first == first_slot(key),
                first <= i <= first + 4,
                first <= 60,
                *self == *old(self),
                *mem == *old(mem),
                mem.wf(),
                self.agrees(*mem),
                key == addr / 0x1000,
                offset == addr % 0x1000,
                offset + size <= 0x1000,
                forall|j: int|
                    first <= j < i ==> !(#[trigger] self.page@[j] == key && self.host@[j] != 0),
            decreases first + 4 - i,
        {
            if self.page[i] == key && self.host[i] != 0 {
                assert(mem.host_page(self.page@[i as int]) == Some(self.host@[i as int]));
                assert(self.remembers(key));
                return Some(self.host[i].wrapping_add(offset));
            }
            i = i + 1;
        }
        assert(!self.remembers(key));
        let walked: Option<u64> = mem.page_data_ptr_walk(key);
        let found: Option<u64> = match walked {
            Some(p) => Some(p),
            None => mem.page_data_ptr(key),
        };
        let ghost now = *mem;
        assert(self.agrees(now)) by {
            assert forall|i: int| 0 <= i < 64 && #[trigger] self.host@[i] != 0 implies now.host_page(
                self.page@[i],
            ) == Some(self.host@[i]) by {
                assert(old(mem).host_page(self.page@[i]) == Some(self.host@[i]));
                assert(now.host_page(self.page@[i]) == old(mem).host_page(self.page@[i]));
            }
        }
        let p: u64 = match found {
            Some(p) => p,
            None => {
                return None;
            },
        };
        let slot: usize = first + (self.next % 4) as usize;
        self.page[slot] = key;
        self.host[slot] = p;
        self.next = self.next.wrapping_add(1);
        proof {
            assert forall|i: int| 0 <= i < 64 && #[trigger] self.host@[i] != 0 implies now.host_page(
                self.page@[i],
            ) == Some(self.host@[i]) by {
                if i != slot {
                    assert(self.host@[i] == old(self).host@[i]);
                    assert(self.page@[i] == old(self).page@[i]);
                }
            }
        }
        Some(p.wrapping_add(offset))
    }

    /// Loads an integer for compiled code.
    pub fn load(&mut self, mem: &mut GuestMemory, addr: u64, size: u64) -> (r: Result<
        u64,
        InvalidMem,
    >)
        requires
            old(mem).wf(),
            old(self).agrees(*old(mem)),
        ensures
            same_memory(*old(mem), *final(mem)),
            final(self).agrees(*final(mem)),
            size == 0 || size > 8 ==> r is Err,
            1 <= size <= 8 ==> match loaded(old(mem).bytes(), addr, size as int) {
                Ok(v) => r == Ok::<u64, InvalidMem>(v),
                Err(_) => r is Err,
            },
            r matches Err(inv) ==> inv == (InvalidMem {
                access_type: ACCESS_READ,
                address: addr,
                size: if size <= 0x7fff_ffff {
                    size as i32
                } else {
                    0
                },
                value: 0,
            }),
    {
        let shown: i32 = if size <= 0x7fff_ffff {
            size as i32
        } else {
            0
        };
        let fault = InvalidMem { access_type: ACCESS_READ, address: addr, size: shown, value: 0 };
        if size == 0 || size > 8 {
            return Err(fault);
        }
        let _ = self.tlb_page_ptr(mem, addr, size as usize);
        match read_mem_value(mem, addr, size as usize) {
            Ok(v) => Ok(v),
            Err(_) => Err(fault),
        }
    }

    /// Stores an integer for compiled code.
    pub fn store(&mut self, mem: &mut GuestMemory, addr: u64, size: u64, value: u64) -> (r: Result<
        (),
        InvalidMem,
    >)
        requires
            old(mem).wf(),
            old(self).agrees(*old(mem)),
        ensures
            final(mem).wf(),
            final(mem).kind() == old(mem).kind(),
            final(mem).regions() == old(mem).regions(),
            final(self).agrees(*final(mem)),
            size == 0 || size > 8 ==> r is Err && final(mem).bytes() == old(mem).bytes(),
            1 <= size <= 8 ==> {
                let want = stored(old(mem).bytes(), addr, value, size as int);
                final(mem).bytes() == want.0 && r is Ok == want.1 is None
            },
            r matches Err(inv) ==> inv == (InvalidMem {
                access_type: ACCESS_WRITE,
                address: addr,
                size: if size <= 0x7fff_ffff {
                    size as i32
                } else {
                    0
                },
                value: 0,
            }),
    {
        let shown: i32 = if size <= 0x7fff_ffff {
            size as i32
        } else {
            0
        };
        let fault = InvalidMem { access_type: ACCESS_WRITE, address: addr, size: shown, value: 0 };
        if size == 0 || size > 8 {
            return Err(fault);
        }
        let _ = self.tlb_page_ptr(mem, addr, size as usize);
        let ghost was = *mem;
        let done = write_mem_value(mem, addr, value, size as usize);
        proof {
            assert forall|i: int| 0 <= i < 64 && #[trigger] self.host@[i] != 0 implies mem.host_page(
                self.page@[i],
            ) == Some(self.host@[i]) by {
                assert(was.host_page(self.page@[i]) == Some(self.host@[i]));
            }
        }
        match done {
            Ok(()) => Ok(()),
            Err(_) => Err(fault),
        }
    }
}

/// Memory holds what it held. A page that had no host page may have one now.
pub open spec fn same_memory(before: GuestMemory, after: GuestMemory) -> bool {
    &&& after.wf()
    &&& after.kind() == before.kind()
    &&& after.regions() == before.regions()
    &&& after.bytes() == before.bytes()
}

} // verus!
