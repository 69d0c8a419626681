//! What the imports of an image are, in terms of the bytes of its file.

use vstd::prelude::*;

use crate::endian::{le_value, lemma_le_value_bound, lemma_pow256};
use crate::pe::cstring::{c_string_at, number_at};
use crate::pe::error::Trouble;
use crate::pe::imports::{
    descriptor_imports, directory_imports, image_imports, thunk_import, thunk_imports, Import,
};
use crate::pe::parsed::Pe;
use crate::pe::sections::file_offset;

verus! {

/// The number of `n` bytes at `offset`.
pub open spec fn word(bytes: Seq<u8>, offset: int, n: int) -> int {
    le_value(bytes.subrange(offset, offset + n))
}

/// Thunk number `k` of the table at relative address `table`.
pub open spec fn thunk_at(pe: Pe, bytes: Seq<u8>, table: int, k: int) -> int {
    word(bytes, file_offset(pe.sections, (table + 8 * k) as u64)->Ok_0 as int, 8)
}

/// An entry that stands for a thunk: by ordinal if its highest bit is set, else by the
/// name that stands after the two bytes of a hint where it points.
pub open spec fn entry_of_thunk(pe: Pe, bytes: Seq<u8>, e: Import, thunk: int) -> bool {
    let there = file_offset(pe.sections, thunk as u64)->Ok_0;
    if thunk >= 0x8000_0000_0000_0000 {
        &&& e.name == Seq::<char>::empty()
        &&& e.ordinal == thunk % 0x1_0000
        &&& e.hint_name_rva is None
    } else {
        &&& e.hint_name_rva == Some(thunk as u64)
        &&& e.ordinal == word(bytes, there as int, 2)
        &&& c_string_at(bytes, (there + 2) as usize) == Ok::<Seq<char>, Trouble>(e.name)
    }
}

/// The entries are those of a table of thunks from number `from` on: one for each thunk
/// up to the first zero, in order, with the slot of the same number in the address table
/// at `first`.
pub open spec fn lists_thunks(
    pe: Pe,
    bytes: Seq<u8>,
    library: Seq<char>,
    lookup: int,
    first: int,
    from: int,
    own: Seq<Import>,
) -> bool {
    &&& thunk_at(pe, bytes, lookup, from + own.len()) == 0
    &&& forall|k: int|
        0 <= k < own.len() ==> {
            let e = #[trigger] own[k];
            &&& thunk_at(pe, bytes, lookup, from + k) != 0
            &&& entry_of_thunk(pe, bytes, e, thunk_at(pe, bytes, lookup, from + k))
            &&& e.library == library
            &&& e.iat_slot_rva == first + 8 * (from + k)
            &&& e.iat_slot_va == pe.image_base + first + 8 * (from + k)
        }
}

/// Numbers read from a file fit their size.
proof fn lemma_word(bytes: Seq<u8>, offset: usize, n: usize)
    requires
        n == 2 || n == 4 || n == 8,
        number_at(bytes, offset, n) is Ok,
    ensures
        number_at(bytes, offset, n)->Ok_0 == word(bytes, offset as int, n as int),
        n == 2 ==> word(bytes, offset as int, n as int) < 0x1_0000,
        n == 4 ==> word(bytes, offset as int, n as int) < 0x1_0000_0000,
{
    lemma_le_value_bound(bytes.subrange(offset as int, offset + n));
    lemma_pow256();
}

/// The import of a thunk in terms of bytes.
proof fn lemma_thunk(
    pe: Pe,
    bytes: Seq<u8>,
    library: Seq<char>,
    lookup: u32,
    first: u32,
    k: int,
)
    requires
        k >= 0,
        thunk_import(pe, bytes, library, lookup, first, k) is Ok,
    ensures
        ({
            let t = thunk_at(pe, bytes, lookup as int, k);
            match thunk_import(pe, bytes, library, lookup, first, k)->Ok_0 {
                None => t == 0,
                Some(e) => {
                    &&& t != 0
                    &&& entry_of_thunk(pe, bytes, e, t)
                    &&& e.library == library
                    &&& e.iat_slot_rva == first + 8 * k
                    &&& e.iat_slot_va == pe.image_base + first + 8 * k
                },
            }
        }),
{
    let rva = (lookup + 8 * k) as u64;
    let offset = file_offset(pe.sections, rva)->Ok_0;
    lemma_word(bytes, offset, 8);
    let t = thunk_at(pe, bytes, lookup as int, k);
    if t != 0 && t < 0x8000_0000_0000_0000 {
        lemma_word(bytes, file_offset(pe.sections, t as u64)->Ok_0, 2);
    }
}

/// What was read before stays first: the imports of a table of thunks come after it.
proof fn lemma_thunks_shift(
    pe: Pe,
    bytes: Seq<u8>,
    library: Seq<char>,
    lookup: u32,
    first: u32,
    index: int,
    done: Seq<Import>,
)
    ensures
        thunk_imports(pe, bytes, library, lookup, first, index, done) == match thunk_imports(
            pe,
            bytes,
            library,
            lookup,
            first,
            index,
            Seq::empty(),
        ) {
            Ok(own) => Ok(done + own),
            Err(t) => Err(t),
        },
    decreases u64::MAX - index,
{
    let none = Seq::<Import>::empty();
    match thunk_import(pe, bytes, library, lookup, first, index) {
        Ok(Some(i)) => {
            if index < u64::MAX {
                lemma_thunks_shift(pe, bytes, library, lookup, first, index + 1, done.push(i));
                lemma_thunks_shift(pe, bytes, library, lookup, first, index + 1, none.push(i));
                match thunk_imports(pe, bytes, library, lookup, first, index + 1, none) {
                    Ok(own) => {
                        assert(done.push(i) + own =~= done + (none.push(i) + own));
                    },
                    Err(_) => {},
                }
            }
        },
        Ok(None) => {
            assert(done + none =~= done);
        },
        Err(_) => {},
    }
}

/// The imports of a table of thunks have one entry for each.
proof fn lemma_thunks_list(
    pe: Pe,
    bytes: Seq<u8>,
    library: Seq<char>,
    lookup: u32,
    first: u32,
    index: int,
    own: Seq<Import>,
)
    requires
        index >= 0,
        thunk_imports(pe, bytes, library, lookup, first, index, Seq::empty()) == Ok::<
            Seq<Import>,
            Trouble,
        >(own),
    ensures
        lists_thunks(pe, bytes, library, lookup as int, first as int, index, own),
    decreases u64::MAX - index,
{
    let none = Seq::<Import>::empty();
    lemma_thunk(pe, bytes, library, lookup, first, index);
    match thunk_import(pe, bytes, library, lookup, first, index) {
        Ok(Some(i)) => {
            if index < u64::MAX {
                lemma_thunks_shift(pe, bytes, library, lookup, first, index + 1, none.push(i));
                let rest = thunk_imports(
                    pe,
                    bytes,
                    library,
                    lookup,
                    first,
                    index + 1,
                    none,
                )->Ok_0;
                lemma_thunks_list(pe, bytes, library, lookup, first, index + 1, rest);
                assert(own == none.push(i) + rest);
                assert forall|k: int| 0 <= k < own.len() implies {
                    let e = #[trigger] own[k];
                    &&& thunk_at(pe, bytes, lookup as int, index + k) != 0
                    &&& entry_of_thunk(pe, bytes, e, thunk_at(pe, bytes, lookup as int, index + k))
                    &&& e.library == library
                    &&& e.iat_slot_rva == first + 8 * (index + k)
                    &&& e.iat_slot_va == pe.image_base + first + 8 * (index + k)
                } by {
                    if k > 0 {
                        assert(own[k] == rest[k - 1]);
                        assert(index + 1 + (k - 1) == index + k);
                    }
                }
                assert(index + 1 + rest.len() == index + own.len());
            }
        },
        _ => {},
    }
}

/// Reading one more descriptor only extends the imports that were read before it, and
/// which imports it adds does not depend on them.
pub proof fn descriptors_extend_imports(pe: Pe, bytes: Seq<u8>, rva: u32, done: Seq<Import>)
    ensures
        descriptor_imports(pe, bytes, rva, done) == match descriptor_imports(
            pe,
            bytes,
            rva,
            Seq::empty(),
        ) {
            Ok(Some(own)) => Ok(Some(done + own)),
            other => other,
        },
        descriptor_imports(pe, bytes, rva, done) matches Ok(Some(more)) ==> done.is_prefix_of(more),
{
    match file_offset(pe.sections, rva as u64) {
        Ok(offset) => match crate::pe::imports::descriptor_at(bytes, offset) {
            Ok(d) => match crate::pe::cstring::c_string_at_rva(
                bytes,
                file_offset(pe.sections, d.name_rva as u64),
            ) {
                Ok(library) => {
                    let lookup = if d.original_first_thunk == 0 {
                        d.first_thunk
                    } else {
                        d.original_first_thunk
                    };
                    lemma_thunks_shift(pe, bytes, library, lookup, d.first_thunk, 0, done);
                },
                Err(_) => {},
            },
            Err(_) => {},
        },
        Err(_) => {},
    }
}

/// What was read before stays first: the imports of a directory come after it.
pub proof fn directories_extend_imports(pe: Pe, bytes: Seq<u8>, rva: u32, done: Seq<Import>)
    ensures
        directory_imports(pe, bytes, rva, done) == match directory_imports(
            pe,
            bytes,
            rva,
            Seq::empty(),
        ) {
            Ok(all) => Ok(done + all),
            Err(t) => Err(t),
        },
    decreases u32::MAX - rva,
{
    let none = Seq::<Import>::empty();
    descriptors_extend_imports(pe, bytes, rva, done);
    match descriptor_imports(pe, bytes, rva, none) {
        Ok(Some(own)) => {
            if rva + 20 <= u32::MAX {
                let next = (rva + 20) as u32;
                directories_extend_imports(pe, bytes, next, done + own);
                directories_extend_imports(pe, bytes, next, own);
                match directory_imports(pe, bytes, next, none) {
                    Ok(rest) => {
                        assert(done + own + rest =~= done + (own + rest));
                    },
                    Err(_) => {},
                }
            }
        },
        Ok(None) => {
            assert(done + none =~= done);
        },
        Err(_) => {},
    }
}

/// The imports of a directory are those of its descriptors one after another. A
/// descriptor whose lookup table, name and address table are all zero ends it. Any other
/// gives the named library's entries, one for each thunk of its lookup table (or of its
/// address table, where it has no lookup table), and those of the descriptors 20 bytes on
/// follow. The proof gives the two parts.
pub proof fn directories_list_their_descriptors(
    pe: Pe,
    bytes: Seq<u8>,
    rva: u32,
    all: Seq<Import>,
) -> (parts: (Seq<Import>, Seq<Import>))
    requires
        directory_imports(pe, bytes, rva, Seq::empty()) == Ok::<Seq<Import>, Trouble>(all),
    ensures
        all == parts.0 + parts.1,
        file_offset(pe.sections, rva as u64) is Ok,
        ({
            let at = file_offset(pe.sections, rva as u64)->Ok_0 as int;
            let lookup = word(bytes, at, 4);
            let name = word(bytes, at + 12, 4);
            let first = word(bytes, at + 16, 4);
            let string = file_offset(pe.sections, name as u64)->Ok_0;
            if lookup == 0 && name == 0 && first == 0 {
                all.len() == 0
            } else {
                &&& rva + 20 <= u32::MAX
                &&& directory_imports(pe, bytes, (rva + 20) as u32, Seq::empty()) == Ok::<
                    Seq<Import>,
                    Trouble,
                >(parts.1)
                &&& c_string_at(bytes, string) is Ok
                &&& lists_thunks(
                    pe,
                    bytes,
                    c_string_at(bytes, string)->Ok_0,
                    if lookup == 0 {
                        first
                    } else {
                        lookup
                    },
                    first,
                    0,
                    parts.0,
                )
            }
        }),
{
    let none = Seq::<Import>::empty();
    let at = file_offset(pe.sections, rva as u64)->Ok_0;
    lemma_word(bytes, at, 4);
    lemma_word(bytes, (at + 12) as usize, 4);
    lemma_word(bytes, (at + 16) as usize, 4);
    match descriptor_imports(pe, bytes, rva, none) {
        Ok(Some(own)) => {
            let d = crate::pe::imports::descriptor_at(bytes, at)->Ok_0;
            let lookup = if d.original_first_thunk == 0 {
                d.first_thunk
            } else {
                d.original_first_thunk
            };
            let library = crate::pe::cstring::c_string_at_rva(
                bytes,
                file_offset(pe.sections, d.name_rva as u64),
            )->Ok_0;
            lemma_thunks_list(pe, bytes, library, lookup, d.first_thunk, 0, own);
            let next = (rva + 20) as u32;
            directories_extend_imports(pe, bytes, next, own);
            (own, directory_imports(pe, bytes, next, none)->Ok_0)
        },
        _ => (none, none),
    }
}

/// An image without an import directory is refused; one whose directory lies nowhere
/// imports nothing; any other imports what its directory lists.
pub proof fn images_import_their_directory(pe: Pe, bytes: Seq<u8>)
    ensures
        image_imports(pe, bytes) is Ok ==> pe.import_directory is Some,
        pe.import_directory == Some(0u32) ==> image_imports(pe, bytes) == Ok::<
            Seq<Import>,
            Trouble,
        >(Seq::empty()),
        pe.import_directory matches Some(rva) ==> rva != 0 ==> image_imports(pe, bytes)
            == directory_imports(pe, bytes, rva, Seq::empty()),
{
}

/// No two thunks of one library get the same slot, and slots do not overlap.
pub proof fn slots_do_not_overlap(
    pe: Pe,
    bytes: Seq<u8>,
    library: Seq<char>,
    lookup: int,
    first: int,
    own: Seq<Import>,
    j: int,
    k: int,
)
    requires
        lists_thunks(pe, bytes, library, lookup, first, 0, own),
        0 <= j < k < own.len(),
    ensures
        own[j].iat_slot_rva + 8 <= own[k].iat_slot_rva,
        own[j].iat_slot_va - own[j].iat_slot_rva == own[k].iat_slot_va - own[k].iat_slot_rva,
{
    assert(own[j].iat_slot_rva == first + 8 * (0 + j));
    assert(own[k].iat_slot_rva == first + 8 * (0 + k));
}

} // verus!
