//! The storage trait of guest memory, and what its implementations share.

use vstd::prelude::*;
use vstd::string::StringExecFns;

use crate::error::CpuError;
use crate::mem::model::{
    in_bounds, is_mapped, lemma_mapped_run, lemma_mapped_run_is, map_range, mapped_run, store,
    whole_pages, Bytes, PAGE_SHIFT, PAGE_SIZE,
};
use crate::mem::radix::low_bits;
use crate::text;

verus! {

/// Keys of mappable pages lie below this one.
pub const PAGE_KEY_LIMIT: u64 = 0xf_ffff_ffff_ffff;

/// The longest instruction, and so the most that an instruction fetch reads.
pub const MAX_FETCH: usize = 15;

/// The key of the page that holds `va`.
pub fn page_key(va: u64) -> (key: u64)
    ensures
        key == va / PAGE_SIZE,
        key <= PAGE_KEY_LIMIT,
{
    assert(va >> 12u32 == va / 0x1000 && va / 0x1000 <= 0xf_ffff_ffff_ffff) by (bit_vector);
    va >> PAGE_SHIFT
}

/// The offset of `va` in its page.
pub fn page_offset(va: u64) -> (offset: usize)
    ensures
        offset == va % PAGE_SIZE,
        offset < PAGE_SIZE,
{
    (va % PAGE_SIZE) as usize
}

/// Why a map request is refused, if it is: the message that it fails with.
pub open spec fn map_refusal(address: u64, size: usize) -> Option<Seq<char>> {
    if size == 0 {
        None
    } else if address % PAGE_SIZE != 0 {
        Some("mem_map address "@ + text::hex(address as nat) + " not page-aligned"@)
    } else if size % 0x1000 != 0 {
        Some("mem_map size "@ + text::hex(size as nat) + " not page-aligned"@)
    } else if address + size > u64::MAX {
        Some("mem_map overflow at "@ + text::hex(address as nat) + "+"@ + text::hex(size as nat))
    } else {
        None
    }
}

/// What mapping `size` bytes at `address` does to memory, and what it answers.
pub open spec fn map_outcome(
    before: Bytes,
    address: u64,
    size: usize,
    result: Result<(), CpuError>,
    after: Bytes,
) -> bool {
    match map_refusal(address, size) {
        Some(message) => {
            &&& result matches Err(e) && e.text() == message
            &&& after == before
        },
        None => {
            &&& result is Ok
            &&& after == map_range(before, address as int, address + size)
        },
    }
}

/// What writing `data` at `address` does to memory, and what it answers: the
/// bytes before the first unmapped address are stored in any case.
pub open spec fn write_outcome(
    before: Bytes,
    address: u64,
    data: Seq<u8>,
    result: Result<(), CpuError>,
    after: Bytes,
) -> bool {
    let n = mapped_run(before, address as int, data.len());
    &&& after == store(before, address as int, data.take(n as int))
    &&& if n == data.len() {
        result is Ok
    } else {
        result matches Err(e) && e.text() == "mem_write unmapped "@ + text::hex(
            (address + n) as nat,
        )
    }
}

/// What reading from `address` puts into a buffer, and what it answers: the
/// bytes before the first unmapped address are copied in any case.
pub open spec fn read_outcome(
    m: Bytes,
    address: u64,
    before: Seq<u8>,
    result: Result<(), CpuError>,
    after: Seq<u8>,
) -> bool {
    let n = mapped_run(m, address as int, before.len());
    &&& after.len() == before.len()
    &&& forall|i: int|
        0 <= i < after.len() ==> #[trigger] after[i] == if i < n {
            m[address + i]
        } else {
            before[i]
        }
    &&& if n == before.len() {
        result is Ok
    } else {
        result matches Err(e) && e.text() == "mem_read unmapped "@ + text::hex(
            (address + n) as nat,
        )
    }
}

/// What an instruction fetch from `address` puts into a buffer, and what it
/// answers: as many of the first fifteen bytes as are mapped in a row.
pub open spec fn fetch_outcome(
    m: Bytes,
    address: u64,
    before: Seq<u8>,
    result: Result<usize, CpuError>,
    after: Seq<u8>,
) -> bool {
    let want = if before.len() < MAX_FETCH {
        before.len()
    } else {
        MAX_FETCH as nat
    };
    let n = mapped_run(m, address as int, want);
    &&& after.len() == before.len()
    &&& forall|i: int|
        0 <= i < after.len() ==> #[trigger] after[i] == if i < n {
            m[address + i]
        } else {
            before[i]
        }
    &&& if n > 0 || want == 0 {
        result == Ok::<usize, CpuError>(n as usize)
    } else {
        result matches Err(e) && e.text() == "instruction fetch unmapped "@ + text::hex(
            address as nat,
        )
    }
}

/// The page `key` is mapped.
pub open spec fn page_mapped(m: Bytes, key: u64) -> bool {
    m.contains_key(key * 0x1000)
}

/// A walk for `key` may find a page: one is mapped whose key agrees with it in the 36
/// bits that page tables index.
pub open spec fn walkable(m: Bytes, key: u64) -> bool {
    exists|live: u64| #[trigger] page_mapped(m, live) && low_bits(live) == low_bits(key)
}

/// Storage backend for guest virtual memory.
///
/// Soft translation only: guest VA is never assumed equal to host VA. A host
/// page is named by a nonzero `u64`, its address in the backend's own host
/// space.
pub trait GuestMemBackend {
    /// The backend's invariant.
    spec fn wf(&self) -> bool;

    /// The mapped addresses and their bytes.
    spec fn bytes(&self) -> Bytes;

    /// What a page-table walk for `page_key` gives.
    spec fn host_page(&self, page_key: u64) -> Option<u64>;

    /// The invariant keeps every byte in the mappable range and pages whole, and
    /// a walk never gives the null host page, nor any where no page is mapped.
    proof fn wf_facts(&self)
        requires
            self.wf(),
        ensures
            in_bounds(self.bytes()),
            whole_pages(self.bytes()),
            forall|key: u64| #[trigger] self.host_page(key) != Some(0u64),
            forall|key: u64| #[trigger]
                self.host_page(key) is Some ==> walkable(self.bytes(), key),
    ;

    /// Maps `[address, address + size)` with `perms` (`PROT_*` bits). A walk then
    /// finds every page of the range, and every page that it found before.
    fn map(&mut self, address: u64, size: usize, perms: u32) -> (r: Result<(), CpuError>)
        requires
            old(self).wf(),
        ensures
            final(self).wf(),
            map_outcome(old(self).bytes(), address, size, r, final(self).bytes()),
            r is Ok ==> forall|key: u64|
                address <= key * 0x1000 < address + size || old(self).host_page(key) is Some
                    ==> #[trigger] final(self).host_page(key) is Some,
            r is Err ==> forall|key: u64| #[trigger]
                final(self).host_page(key) == old(self).host_page(key),
    ;

    /// Writes `bytes` at guest `address`.
    fn write(&mut self, address: u64, bytes: &[u8]) -> (r: Result<(), CpuError>)
        requires
            old(self).wf(),
        ensures
            final(self).wf(),
            write_outcome(old(self).bytes(), address, bytes@, r, final(self).bytes()),
            forall|key: u64| final(self).host_page(key) == old(self).host_page(key),
    ;

    /// Reads into `bytes` from guest `address`.
    fn read(&self, address: u64, bytes: &mut [u8]) -> (r: Result<(), CpuError>)
        requires
            self.wf(),
        ensures
            read_outcome(self.bytes(), address, old(bytes)@, r, final(bytes)@),
    ;

    /// The host page of a mapped guest page (for the JIT's TLB): what a walk
    /// gives, or else the page itself, which a walk then gives from now on.
    fn page_data_ptr(&mut self, page_key: u64) -> (r: Option<u64>)
        requires
            old(self).wf(),
        ensures
            final(self).wf(),
            final(self).bytes() == old(self).bytes(),
            r == final(self).host_page(page_key),
            old(self).host_page(page_key) is Some ==> r == old(self).host_page(page_key),
            r is Some <==> old(self).host_page(page_key) is Some || old(self).bytes().contains_key(page_key * 0x1000),
            forall|key: u64|
                old(self).host_page(key) is Some ==> #[trigger] final(self).host_page(key)
                    == old(self).host_page(key),
    ;

    /// The page-table walk behind `page_data_ptr`.
    fn page_data_ptr_walk(&self, page_key: u64) -> (r: Option<u64>)
        requires
            self.wf(),
        ensures
            r == self.host_page(page_key),
    ;

    /// Fills `out` (at most fifteen bytes of it) from guest `address` for
    /// instruction fetch, and returns how many bytes are valid.
    fn fetch_into(&self, address: u64, out: &mut [u8]) -> (r: Result<usize, CpuError>)
        requires
            self.wf(),
        ensures
            fetch_outcome(self.bytes(), address, old(out)@, r, final(out)@),
    {
        let want: usize = if out.len() < MAX_FETCH {
            out.len()
        } else {
            MAX_FETCH
        };
        let ghost m = self.bytes();
        let ghost n = mapped_run(m, address as int, want as nat);
        proof {
            lemma_mapped_run(m, address as int, want as nat);
        }
        if want == 0 {
            return Ok(0);
        }
        let mut len: usize = want;
        while len > 0
            invariant
                self.wf(),
                m == self.bytes(),
                want <= out@.len(),
                out@.len() == old(out)@.len(),
                want == if old(out)@.len() < MAX_FETCH {
                    old(out)@.len()
                } else {
                    MAX_FETCH as nat
                },
                n == mapped_run(m, address as int, want as nat),
                n <= len <= want,
                0 < want,
                is_mapped(m, address as int, n),
                n < want ==> !m.contains_key(address + n),
                forall|i: int|
                    0 <= i < out@.len() ==> #[trigger] out@[i] == if i < n && len < want {
                        m[address + i]
                    } else {
                        old(out)@[i]
                    },
            decreases len,
        {
            proof {
                lemma_mapped_run_is(m, address as int, len as nat, n);
            }
            let (head, _tail) = out.split_at_mut(len);
            if self.read(address, head).is_ok() {
                return Ok(len);
            }
            len = len - 1;
        }
        Err(CpuError::Message(text::with_hex("instruction fetch unmapped ", address)))
    }

    /// Backend name for diagnostics.
    fn name(&self) -> &'static str;
}

/// Checks the arguments of a map request, as every backend does: the end of the
/// range, or the message that the request is refused with.
pub fn check_map_args(address: u64, size: usize) -> (r: Result<(u64, u64), CpuError>)
    ensures
        match map_refusal(address, size) {
            Some(message) => r matches Err(e) && e.text() == message,
            None => r == Ok::<(u64, u64), CpuError>((address, (address + size) as u64)) && address
                + size <= u64::MAX,
        },
{
    if size == 0 {
        return Ok((address, address));
    }
    if address % PAGE_SIZE != 0 {
        return Err(
            CpuError::Message(
                text::with_hex_between("mem_map address ", address, " not page-aligned"),
            ),
        );
    }
    let size_u64: u64 = size as u64;
    if size_u64 % PAGE_SIZE != 0 {
        return Err(
            CpuError::Message(
                text::with_hex_between("mem_map size ", size_u64, " not page-aligned"),
            ),
        );
    }
    match address.checked_add(size_u64) {
        Some(end) => Ok((address, end)),
        None => {
            let mut m = text::with_hex_between("mem_map overflow at ", address, "+");
            text::push_hex(&mut m, size_u64);
            Err(CpuError::Message(m))
        },
    }
}

/// Two answers are the same: both the same value, or both failures with one text.
pub open spec fn same_answer<T>(a: Result<T, CpuError>, b: Result<T, CpuError>) -> bool {
    match (a, b) {
        (Ok(x), Ok(y)) => x == y,
        (Err(x), Err(y)) => x.text() == y.text(),
        _ => false,
    }
}

/// Two storages that hold the same bytes answer a map request the same way, and hold
/// the same bytes afterwards.
pub proof fn backends_agree_on_map(
    m: Bytes,
    address: u64,
    size: usize,
    ra: Result<(), CpuError>,
    a: Bytes,
    rb: Result<(), CpuError>,
    b: Bytes,
)
    requires
        map_outcome(m, address, size, ra, a),
        map_outcome(m, address, size, rb, b),
    ensures
        same_answer(ra, rb),
        a == b,
{
}

/// Two storages that hold the same bytes answer a write the same way, and hold the
/// same bytes afterwards.
pub proof fn backends_agree_on_write(
    m: Bytes,
    address: u64,
    data: Seq<u8>,
    ra: Result<(), CpuError>,
    a: Bytes,
    rb: Result<(), CpuError>,
    b: Bytes,
)
    requires
        write_outcome(m, address, data, ra, a),
        write_outcome(m, address, data, rb, b),
    ensures
        same_answer(ra, rb),
        a == b,
{
}

/// Two storages that hold the same bytes answer a read the same way.
pub proof fn backends_agree_on_read(
    m: Bytes,
    address: u64,
    buffer: Seq<u8>,
    ra: Result<(), CpuError>,
    a: Seq<u8>,
    rb: Result<(), CpuError>,
    b: Seq<u8>,
)
    requires
        read_outcome(m, address, buffer, ra, a),
        read_outcome(m, address, buffer, rb, b),
    ensures
        same_answer(ra, rb),
        a == b,
{
    assert(a =~= b);
}

/// Two storages that hold the same bytes answer an instruction fetch the same way.
pub proof fn backends_agree_on_fetch(
    m: Bytes,
    address: u64,
    buffer: Seq<u8>,
    ra: Result<usize, CpuError>,
    a: Seq<u8>,
    rb: Result<usize, CpuError>,
    b: Seq<u8>,
)
    requires
        fetch_outcome(m, address, buffer, ra, a),
        fetch_outcome(m, address, buffer, rb, b),
    ensures
        same_answer(ra, rb),
        a == b,
{
    assert(a =~= b);
}

/// A read gives back what a write wrote, wherever the write succeeded.
pub proof fn reads_give_back_writes(
    before: Bytes,
    address: u64,
    data: Seq<u8>,
    written: Result<(), CpuError>,
    after: Bytes,
    buffer: Seq<u8>,
    read: Result<(), CpuError>,
    out: Seq<u8>,
)
    requires
        write_outcome(before, address, data, written, after),
        written is Ok,
        buffer.len() == data.len(),
        read_outcome(after, address, buffer, read, out),
    ensures
        read is Ok,
        out == data,
{
    lemma_mapped_run(before, address as int, data.len());
    assert(data.take(data.len() as int) =~= data);
    crate::mem::model::load_after_store(before, address as int, data);
    lemma_mapped_run_is(after, address as int, data.len(), data.len());
    assert forall|i: int| 0 <= i < out.len() implies out[i] == data[i] by {
        assert(before.contains_key(address + i));
        assert(crate::mem::model::load(after, address as int, data.len())[i] == data[i]);
    }
    assert(out =~= data);
}

} // verus!
