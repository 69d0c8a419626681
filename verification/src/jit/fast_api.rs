//! C runtime functions that compiled code calls without leaving for the host.

use vstd::prelude::*;

use crate::exec::access::read_mem_value;
use crate::exec::model::{InvalidMem, ACCESS_READ};
use crate::mem::guest::GuestMemory;
use crate::mem::model::{Bytes, VA_LIMIT};
use crate::regs::{R8, R9, RCX, RDX};

verus! {

/// A C runtime function.
#[derive(Debug, Clone, Copy, PartialEq, Eq, Structural)]
pub enum FastApiKind {
    /// `malloc`.
    Malloc,
    /// `free`.
    Free,
    /// `memcpy`.
    Memcpy,
    /// `strlen`.
    Strlen,
    /// `__acrt_iob_func`.
    AcrtIobFunc,
    /// `fwrite`.
    Fwrite,
    /// `fflush`.
    Fflush,
}

/// The number of a function, by which compiled code names it.
pub open spec fn number_of(kind: FastApiKind) -> u64 {
    match kind {
        FastApiKind::Malloc => 0,
        FastApiKind::Free => 1,
        FastApiKind::Memcpy => 2,
        FastApiKind::Strlen => 3,
        FastApiKind::AcrtIobFunc => 4,
        FastApiKind::Fwrite => 5,
        FastApiKind::Fflush => 6,
    }
}

/// The number of a function.
pub fn fast_number(kind: FastApiKind) -> (n: u64)
    ensures
        n == number_of(kind),
{
    match kind {
        FastApiKind::Malloc => 0,
        FastApiKind::Free => 1,
        FastApiKind::Memcpy => 2,
        FastApiKind::Strlen => 3,
        FastApiKind::AcrtIobFunc => 4,
        FastApiKind::Fwrite => 5,
        FastApiKind::Fflush => 6,
    }
}

/// The function with a number.
pub fn fast_of(n: u64) -> (r: Option<FastApiKind>)
    ensures
        match r {
            Some(kind) => number_of(kind) == n,
            None => forall|kind: FastApiKind| number_of(kind) != n,
        },
{
    match n {
        0 => Some(FastApiKind::Malloc),
        1 => Some(FastApiKind::Free),
        2 => Some(FastApiKind::Memcpy),
        3 => Some(FastApiKind::Strlen),
        4 => Some(FastApiKind::AcrtIobFunc),
        5 => Some(FastApiKind::Fwrite),
        6 => Some(FastApiKind::Fflush),
        _ => None,
    }
}

/// No two functions have the same number.
pub proof fn numbers_are_distinct(a: FastApiKind, b: FastApiKind)
    requires
        number_of(a) == number_of(b),
    ensures
        a == b,
{
}

/// The general registers that hold the arguments of a function.
pub open spec fn argument_regs(kind: FastApiKind) -> Seq<usize> {
    match kind {
        FastApiKind::Memcpy => seq![RCX, RDX, R8],
        FastApiKind::Fwrite => seq![RCX, RDX, R8, R9],
        _ => seq![RCX],
    }
}

/// The general registers that hold the arguments of a function.
pub fn fast_arguments(kind: FastApiKind) -> (v: Vec<usize>)
    ensures
        v@ == argument_regs(kind),
        forall|k: int| 0 <= k < v@.len() ==> #[trigger] v@[k] < 16,
{
    let v = match kind {
        FastApiKind::Memcpy => vec![RCX, RDX, R8],
        FastApiKind::Fwrite => vec![RCX, RDX, R8, R9],
        _ => vec![RCX],
    };
    assert(v@ =~= argument_regs(kind));
    v
}

/// Whether a function gets at guest memory.
pub open spec fn gets_at_memory(kind: FastApiKind) -> bool {
    match kind {
        FastApiKind::AcrtIobFunc => false,
        FastApiKind::Fflush => false,
        _ => true,
    }
}

/// What a call of a function leaves in `RAX`.
pub open spec fn left_in_rax(kind: FastApiKind, result: u64) -> u64 {
    if kind is Free {
        0
    } else {
        result
    }
}

/// The handle of a stream.
pub open spec fn handle_of(index: u64, handles: Seq<u64>) -> u64 {
    let ix = index as u32;
    if ix < 3 {
        handles[ix as int]
    } else {
        0
    }
}

/// The `FILE*` of a standard stream.
pub open spec fn stream_address(index: u64) -> int {
    0x6800_0000 + 256 * index
}

/// Functions that take a pointer, or make or end an allocation, can fail; the other two
/// cannot. All but `free` hand their result on.
pub proof fn functions_by_what_they_touch(kind: FastApiKind, result: u64)
    ensures
        gets_at_memory(kind) <==> kind is Malloc || kind is Free || kind is Memcpy || kind is Strlen
            || kind is Fwrite,
        !gets_at_memory(kind) <==> kind is AcrtIobFunc || kind is Fflush,
        kind is Free ==> left_in_rax(kind, result) == 0,
        !(kind is Free) ==> left_in_rax(kind, result) == result,
{
}

/// The three standard streams have their handles and 256 bytes each in the page of the C
/// runtime; no other stream has a handle, and the high half of a number does not count.
pub proof fn streams_are_three(index: u64, high: u64, handles: Seq<u64>)
    requires
        handles.len() == 3,
        high < 0x1_0000_0000,
    ensures
        index < 3 ==> handle_of(index, handles) == handles[index as int],
        3 <= index < 0x1_0000_0000 ==> handle_of(index, handles) == 0,
        index < 0x1_0000_0000 ==> handle_of((index + high * 0x1_0000_0000) as u64, handles)
            == handle_of(index, handles),
        stream_address(0) == 0x6800_0000,
        stream_address(index) == stream_address(0) + 0x100 * index,
        index < 3 ==> stream_address(index) + 0x100 <= 0x6800_0300,
{
    if index < 0x1_0000_0000 {
        let x = (index + high * 0x1_0000_0000) as u64;
        assert(x % 0x1_0000_0000 == index);
        assert(x as u32 == (x % 0x1_0000_0000) as u32) by (bit_vector);
    }
}

/// Whether a function gets at guest memory, and so can fail.
pub fn fast_may_fault(kind: FastApiKind) -> (r: bool)
    ensures
        r == !(kind == FastApiKind::AcrtIobFunc || kind == FastApiKind::Fflush),
        r == gets_at_memory(kind),
{
    !matches!(kind, FastApiKind::AcrtIobFunc | FastApiKind::Fflush)
}

/// What a call of a function leaves in `RAX`: its result, or zero for `free`,
/// which has none.
pub fn fast_result(kind: FastApiKind, result: u64) -> (rax: u64)
    ensures
        rax == if kind == FastApiKind::Free {
            0
        } else {
            result
        },
        rax == left_in_rax(kind, result),
{
    match kind {
        FastApiKind::Free => 0,
        _ => result,
    }
}

/// The handle that `__acrt_iob_func` returns for an index: one of three for the
/// standard streams, zero for any other. Only the low half of the index counts.
pub fn iob_handle(index: u64, handles: &[u64; 3]) -> (h: u64)
    ensures
        h == if index as int % 0x1_0000_0000 < 3 {
            handles@[index as int % 0x1_0000_0000]
        } else {
            0
        },
        h == handle_of(index, handles@),
{
    assert(index as u32 == (index % 0x1_0000_0000) as u32) by (bit_vector);
    let ix: u64 = index % 0x1_0000_0000;
    if ix < 3 {
        handles[ix as usize]
    } else {
        0
    }
}

/// The `FILE*` of the standard stream with a number below three.
pub fn file_cookie(index: u64) -> (c: u64)
    requires
        index < 3,
    ensures
        c == 0x6800_0000 + 0x100 * index,
        c == stream_address(index),
{
    0x6800_0000 + 0x100 * index
}

/// The bytes before the first zero byte from `s` on, or the first address that is not
/// mapped.
pub open spec fn string_length(m: Bytes, s: int) -> Result<nat, int>
    decreases VA_LIMIT - s,
{
    if s >= VA_LIMIT || !m.contains_key(s) {
        Err(s)
    } else if m[s] == 0 {
        Ok(0)
    } else {
        match string_length(m, s + 1) {
            Ok(n) => Ok(n + 1),
            Err(a) => Err(a),
        }
    }
}

/// `strlen`: the length of the string at `s`, zero for a null pointer, or the access
/// that failed.
pub fn guest_strlen(mem: &GuestMemory, s: u64) -> (r: Result<u64, InvalidMem>)
    requires
        mem.wf(),
    ensures
        s == 0 ==> r == Ok::<u64, InvalidMem>(0),
        s != 0 ==> match string_length(mem.bytes(), s as int) {
            Ok(n) => r matches Ok(v) && v == n,
            Err(a) => r matches Err(inv) && inv.access_type == ACCESS_READ && inv.address == a
                && inv.size == 1 && inv.value == 0,
        },
{
    if s == 0 {
        return Ok(0);
    }
    let ghost m = mem.bytes();
    let mut at: u64 = s;
    loop
        invariant
            mem.wf(),
            m == mem.bytes(),
            0 < s <= at,
            string_length(m, s as int) == (match string_length(m, at as int) {
                Ok(n) => Ok::<nat, int>((n + (at - s)) as nat),
                Err(a) => Err(a),
            }),
        decreases u64::MAX - at,
    {
        match read_mem_value(mem, at, 1) {
            Ok(b) => {
                proof {
                    mem.wf_facts();
                    lemma_one_byte(m, at as int);
                    assert(crate::mem::model::is_mapped(m, at as int, 1));
                    assert(m.contains_key(at as int));
                }
                if b == 0 {
                    return Ok(at - s);
                }
            },
            Err(_) => {
                proof {
                    if m.contains_key(at as int) {
                        assert(crate::mem::model::is_mapped(m, at as int, 1));
                    }
                }
                return Err(InvalidMem { access_type: ACCESS_READ, address: at, size: 1, value: 0 });
            },
        }
        at = at + 1;
    }
}

/// A load of one byte gives that byte.
proof fn lemma_one_byte(m: Bytes, at: int)
    ensures
        crate::endian::le_value(crate::mem::model::load(m, at, 1)) == m[at],
{
    let s = crate::mem::model::load(m, at, 1);
    reveal_with_fuel(crate::endian::le_value, 2);
    assert(s.len() == 1);
    assert(s[0] == m[at]);
}

} // verus!
