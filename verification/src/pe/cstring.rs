//! Numbers and zero-terminated strings in a file.

use vstd::prelude::*;
use vstd::slice::slice_subrange;
use vstd::utf8::{decode_utf8, valid_utf8};

use crate::endian::{le_value, lemma_le_value_bound, lemma_pow256, read_le};
use crate::pe::error::{because, pe_error, pe_error_from, pe_gives, said, PeError, Trouble};
use crate::pe::parsed::ParsedPe;
use crate::pe::sections::{file_offset, rva_to_file_offset};

verus! {

/// The `n` bytes at `offset`.
pub open spec fn bytes_at(bytes: Seq<u8>, offset: usize, n: usize) -> Result<Seq<u8>, Trouble> {
    if offset + n > usize::MAX {
        Err(said("read range overflow"@))
    } else if offset + n > bytes.len() {
        Err(said("read range is outside file"@))
    } else {
        Ok(bytes.subrange(offset as int, offset + n))
    }
}

/// The little-endian number of `n` bytes at `offset`.
pub open spec fn number_at(bytes: Seq<u8>, offset: usize, n: usize) -> Result<u64, Trouble> {
    match bytes_at(bytes, offset, n) {
        Ok(b) => Ok(le_value(b) as u64),
        Err(t) => Err(t),
    }
}

/// The little-endian number of `n` bytes, `plus` bytes after `offset`.
pub open spec fn number_after(bytes: Seq<u8>, offset: usize, plus: usize, n: usize) -> Result<
    u64,
    Trouble,
> {
    if offset + plus > usize::MAX {
        Err(said("usize addition overflow"@))
    } else {
        number_at(bytes, (offset + plus) as usize, n)
    }
}

/// Reads a little-endian number.
pub fn read_number(bytes: &[u8], offset: usize, n: usize) -> (r: Result<u64, PeError>)
    requires
        n <= 8,
    ensures
        pe_gives(number_at(bytes@, offset, n), r),
        n <= 2 ==> (r matches Ok(v) ==> v <= u16::MAX),
        n <= 4 ==> (r matches Ok(v) ==> v <= u32::MAX),
{
    let end: usize = match offset.checked_add(n) {
        Some(end) => end,
        None => {
            return Err(pe_error("read range overflow"));
        },
    };
    if end > bytes.len() {
        return Err(pe_error("read range is outside file"));
    }
    let part = slice_subrange(bytes, offset, end);
    let v: u64 = read_le(part);
    proof {
        lemma_pow256();
        lemma_le_value_bound(part@);
        crate::endian::lemma_pow256_monotone(n as nat, if n <= 2 {
            2
        } else if n <= 4 {
            4
        } else {
            8
        });
    }
    Ok(v)
}

/// Reads a little-endian number of two bytes.
pub fn read_u16(bytes: &[u8], offset: usize) -> (r: Result<u16, PeError>)
    ensures
        match number_at(bytes@, offset, 2) {
            Ok(v) => r matches Ok(w) && w == v,
            Err(t) => r matches Err(e) && e@ == t,
        },
{
    match read_number(bytes, offset, 2) {
        Ok(v) => Ok(v as u16),
        Err(e) => Err(e),
    }
}

/// Reads a little-endian number of four bytes.
pub fn read_u32(bytes: &[u8], offset: usize) -> (r: Result<u32, PeError>)
    ensures
        match number_at(bytes@, offset, 4) {
            Ok(v) => r matches Ok(w) && w == v,
            Err(t) => r matches Err(e) && e@ == t,
        },
{
    match read_number(bytes, offset, 4) {
        Ok(v) => Ok(v as u32),
        Err(e) => Err(e),
    }
}

/// Reads a little-endian number of eight bytes.
pub fn read_u64(bytes: &[u8], offset: usize) -> (r: Result<u64, PeError>)
    ensures
        pe_gives(number_at(bytes@, offset, 8), r),
{
    read_number(bytes, offset, 8)
}

/// Reads a little-endian number of four bytes, `plus` bytes after `offset`.
pub fn read_u32_after(bytes: &[u8], offset: usize, plus: usize) -> (r: Result<u32, PeError>)
    ensures
        match number_after(bytes@, offset, plus, 4) {
            Ok(v) => r matches Ok(w) && w == v,
            Err(t) => r matches Err(e) && e@ == t,
        },
{
    match offset.checked_add(plus) {
        Some(at) => read_u32(bytes, at),
        None => Err(pe_error("usize addition overflow")),
    }
}

/// What `std::str::from_utf8` reports of bytes that are not valid UTF-8.
pub uninterp spec fn utf8_complaint(bytes: Seq<u8>) -> Seq<char>;

/// Calls `std::str::from_utf8`: the bytes as text, if they are valid UTF-8. Of the text
/// of its error only this is claimed: it depends on nothing but the bytes.
#[verifier::external_body]
fn utf8_text(bytes: &[u8]) -> (r: Result<&str, String>)
    ensures
        match r {
            Ok(s) => valid_utf8(bytes@) && s@ == decode_utf8(bytes@),
            Err(e) => !valid_utf8(bytes@) && e@ == utf8_complaint(bytes@),
        },
{
    std::str::from_utf8(bytes).map_err(|e| e.to_string())
}

/// The number of bytes before the first zero byte.
pub open spec fn before_zero(bytes: Seq<u8>) -> Option<nat>
    decreases bytes.len(),
{
    if bytes.len() == 0 {
        None
    } else if bytes[0] == 0 {
        Some(0)
    } else {
        match before_zero(bytes.skip(1)) {
            Some(n) => Some(n + 1),
            None => None,
        }
    }
}

/// The zero-terminated string at an offset of a file.
pub open spec fn c_string_at(bytes: Seq<u8>, offset: usize) -> Result<Seq<char>, Trouble> {
    if offset > bytes.len() {
        Err(said("string offset is outside file"@))
    } else {
        match before_zero(bytes.skip(offset as int)) {
            None => Err(said("unterminated C string"@)),
            Some(n) => {
                let part = bytes.subrange(offset as int, offset + n);
                if valid_utf8(part) {
                    Ok(decode_utf8(part))
                } else {
                    Err(because("C string is not valid UTF-8"@, said(utf8_complaint(part))))
                }
            },
        }
    }
}

/// The first zero byte is where it is.
proof fn lemma_before_zero(bytes: Seq<u8>, n: int)
    requires
        0 <= n <= bytes.len(),
        forall|k: int| 0 <= k < n ==> bytes[k] != 0,
    ensures
        n < bytes.len() && bytes[n] == 0 ==> before_zero(bytes) == Some(n as nat),
        n == bytes.len() ==> before_zero(bytes) is None,
    decreases n,
{
    if n > 0 {
        let rest = bytes.skip(1);
        assert forall|k: int| 0 <= k < n - 1 implies rest[k] != 0 by {
            assert(bytes[k + 1] != 0);
        }
        lemma_before_zero(rest, n - 1);
    }
}

/// Reads the zero-terminated string at an offset.
pub fn read_c_string_at_offset(bytes: &[u8], offset: usize) -> (r: Result<String, PeError>)
    ensures
        match c_string_at(bytes@, offset) {
            Ok(s) => r matches Ok(v) && v@ == s,
            Err(t) => r matches Err(e) && e@ == t,
        },
{
    if offset > bytes.len() {
        return Err(pe_error("string offset is outside file"));
    }
    let ghost tail = bytes@.skip(offset as int);
    let mut end: usize = offset;
    while end < bytes.len() && bytes[end] != 0
        invariant
            offset <= end <= bytes@.len(),
            tail == bytes@.skip(offset as int),
            forall|k: int| 0 <= k < end - offset ==> tail[k] != 0,
        decreases bytes@.len() - end,
    {
        end = end + 1;
    }
    proof {
        lemma_before_zero(tail, end - offset);
    }
    if end == bytes.len() {
        return Err(pe_error("unterminated C string"));
    }
    match utf8_text(slice_subrange(bytes, offset, end)) {
        Ok(s) => Ok(s.to_owned()),
        Err(e) => Err(pe_error_from("C string is not valid UTF-8", e)),
    }
}

/// The zero-terminated string at a relative address.
pub open spec fn c_string_at_rva(
    bytes: Seq<u8>,
    offset: Result<usize, Trouble>,
) -> Result<Seq<char>, Trouble> {
    match offset {
        Ok(o) => c_string_at(bytes, o),
        Err(t) => Err(t),
    }
}

/// Reads the zero-terminated string at a relative address.
pub fn read_c_string_at_rva(pe: &ParsedPe, bytes: &[u8], rva: u32) -> (r: Result<String, PeError>)
    ensures
        match c_string_at_rva(bytes@, file_offset(pe@.sections, rva as u64)) {
            Ok(s) => r matches Ok(v) && v@ == s,
            Err(t) => r matches Err(e) && e@ == t,
        },
{
    match rva_to_file_offset(pe, rva) {
        Ok(o) => read_c_string_at_offset(bytes, o),
        Err(e) => Err(e),
    }
}

} // verus!
