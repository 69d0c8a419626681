//! The import directory: which functions of which libraries an image wants, and
//! where their addresses go.

use vstd::prelude::*;

use crate::pe::cstring::{
    c_string_at, c_string_at_rva, number_after, number_at, read_c_string_at_offset,
    read_c_string_at_rva, read_u16, read_u32, read_u32_after, read_u64,
};
use crate::pe::error::{
    at_rva, because, message_at, pe_error, said, PeError, Trouble,
};
use crate::pe::parsed::{goblin_pe, parse_pe64, pe64_of, ParsedPe, Pe};
use crate::pe::sections::{file_offset, rva_to_file_offset, rva_to_file_offset_u64};

verus! {

/// Imported `PE` function metadata.
#[derive(Debug, Clone)]
pub struct PeImportSummary {
    /// Imported library name.
    pub library: String,
    /// Imported function name.
    pub name: String,
    /// Imported ordinal, or the hint of a name import.
    pub ordinal: u16,
    /// Import address table slot virtual address.
    pub iat_slot_va: u64,
    /// Import address table slot relative virtual address.
    pub iat_slot_rva: u64,
    /// Hint/name table relative virtual address.
    pub hint_name_rva: Option<u64>,
}

/// An imported function as a mathematical value.
pub struct Import {
    /// Imported library name.
    pub library: Seq<char>,
    /// Imported function name.
    pub name: Seq<char>,
    /// Imported ordinal, or the hint of a name import.
    pub ordinal: u16,
    /// Import address table slot virtual address.
    pub iat_slot_va: u64,
    /// Import address table slot relative virtual address.
    pub iat_slot_rva: u64,
    /// Hint/name table relative virtual address.
    pub hint_name_rva: Option<u64>,
}

impl View for PeImportSummary {
    type V = Import;

    open spec fn view(&self) -> Import {
        Import {
            library: self.library@,
            name: self.name@,
            ordinal: self.ordinal,
            iat_slot_va: self.iat_slot_va,
            iat_slot_rva: self.iat_slot_rva,
            hint_name_rva: self.hint_name_rva,
        }
    }
}

/// The imports of a list.
pub open spec fn imports_of(v: Seq<PeImportSummary>) -> Seq<Import> {
    v.map_values(|i: PeImportSummary| i@)
}

/// The flag of a thunk that imports by ordinal.
pub const ORDINAL_FLAG: u64 = 0x8000_0000_0000_0000;

/// Bytes of an import descriptor.
pub const DESCRIPTOR_SIZE: u32 = 20;

/// What a thunk imports: the ordinal, or the hint and the name that it points to.
pub open spec fn thunk_target(pe: Pe, bytes: Seq<u8>, thunk: u64) -> Result<
    (Seq<char>, u16, Option<u64>),
    Trouble,
> {
    if thunk >= ORDINAL_FLAG {
        Ok((Seq::empty(), (thunk % 0x1_0000) as u16, None))
    } else if thunk > u32::MAX {
        Err(said("hint/name RVA does not fit u32"@))
    } else {
        match file_offset(pe.sections, thunk) {
            Err(t) => Err(because(at_rva("failed to map hint/name RVA "@, thunk), t)),
            Ok(offset) => match number_at(bytes, offset, 2) {
                Err(t) => Err(t),
                Ok(hint) => if offset + 2 > usize::MAX {
                    Err(said("usize addition overflow"@))
                } else {
                    match c_string_at(bytes, (offset + 2) as usize) {
                        Err(t) => Err(t),
                        Ok(name) => Ok((name, hint as u16, Some(thunk))),
                    }
                },
            },
        }
    }
}

/// The import of the thunk number `index` of a library, or `None` at the end of its
/// list. Names are looked up in the table at `lookup`; addresses go to the table at
/// `first`.
pub open spec fn thunk_import(
    pe: Pe,
    bytes: Seq<u8>,
    library: Seq<char>,
    lookup: u32,
    first: u32,
    index: int,
) -> Result<Option<Import>, Trouble> {
    if 8 * index > u64::MAX {
        Err(said("lookup thunk index overflow"@))
    } else if lookup + 8 * index > u64::MAX {
        Err(said("lookup thunk RVA overflow"@))
    } else {
        let rva = (lookup + 8 * index) as u64;
        match file_offset(pe.sections, rva) {
            Err(t) => Err(because(at_rva("failed to map lookup thunk RVA "@, rva), t)),
            Ok(offset) => match number_at(bytes, offset, 8) {
                Err(t) => Err(t),
                Ok(thunk) => if thunk == 0 {
                    Ok(None)
                } else if first + 8 * index > u64::MAX {
                    Err(said("IAT slot RVA overflow"@))
                } else if pe.image_base + first + 8 * index > u64::MAX {
                    Err(said("IAT slot VA overflow"@))
                } else {
                    match thunk_target(pe, bytes, thunk) {
                        Err(t) => Err(t),
                        Ok((name, ordinal, hint_name_rva)) => Ok(
                            Some(
                                Import {
                                    library,
                                    name,
                                    ordinal,
                                    iat_slot_va: (pe.image_base + first + 8 * index) as u64,
                                    iat_slot_rva: (first + 8 * index) as u64,
                                    hint_name_rva,
                                },
                            ),
                        ),
                    }
                },
            },
        }
    }
}

/// The imports `done`, and after them those of the thunks from number `index` on.
pub open spec fn thunk_imports(
    pe: Pe,
    bytes: Seq<u8>,
    library: Seq<char>,
    lookup: u32,
    first: u32,
    index: int,
    done: Seq<Import>,
) -> Result<Seq<Import>, Trouble>
    decreases u64::MAX - index,
{
    match thunk_import(pe, bytes, library, lookup, first, index) {
        Err(t) => Err(t),
        Ok(None) => Ok(done),
        Ok(Some(i)) => if index < u64::MAX {
            thunk_imports(pe, bytes, library, lookup, first, index + 1, done.push(i))
        } else {
            Err(said("import thunk index overflow"@))
        },
    }
}

/// An import descriptor.
#[derive(Debug, Clone, Copy, PartialEq, Eq, Structural)]
pub struct Descriptor {
    /// Relative address of the lookup table, or zero.
    pub original_first_thunk: u32,
    /// Relative address of the library's name.
    pub name_rva: u32,
    /// Relative address of the address table.
    pub first_thunk: u32,
}

/// The import descriptor at an offset of the file. All its five words are read.
pub open spec fn descriptor_at(bytes: Seq<u8>, offset: usize) -> Result<Descriptor, Trouble> {
    match number_at(bytes, offset, 4) {
        Err(t) => Err(t),
        Ok(lookup) => match number_after(bytes, offset, 4, 4) {
            Err(t) => Err(t),
            Ok(_) => match number_after(bytes, offset, 8, 4) {
                Err(t) => Err(t),
                Ok(_) => match number_after(bytes, offset, 12, 4) {
                    Err(t) => Err(t),
                    Ok(name) => match number_after(bytes, offset, 16, 4) {
                        Err(t) => Err(t),
                        Ok(first) => Ok(
                            Descriptor {
                                original_first_thunk: lookup as u32,
                                name_rva: name as u32,
                                first_thunk: first as u32,
                            },
                        ),
                    },
                },
            },
        },
    }
}

/// The imports of one descriptor after the imports `done`, or `None` where the
/// descriptor ends the directory.
pub open spec fn descriptor_imports(
    pe: Pe,
    bytes: Seq<u8>,
    rva: u32,
    done: Seq<Import>,
) -> Result<Option<Seq<Import>>, Trouble> {
    match file_offset(pe.sections, rva as u64) {
        Err(t) => Err(because(at_rva("failed to map import descriptor RVA "@, rva as u64), t)),
        Ok(offset) => match descriptor_at(bytes, offset) {
            Err(t) => Err(t),
            Ok(d) => if d.original_first_thunk == 0 && d.name_rva == 0 && d.first_thunk == 0 {
                Ok(None)
            } else {
                match c_string_at_rva(bytes, file_offset(pe.sections, d.name_rva as u64)) {
                    Err(t) => Err(
                        because(at_rva("failed to read DLL name at RVA "@, d.name_rva as u64), t),
                    ),
                    Ok(library) => {
                        let lookup = if d.original_first_thunk == 0 {
                            d.first_thunk
                        } else {
                            d.original_first_thunk
                        };
                        match thunk_imports(pe, bytes, library, lookup, d.first_thunk, 0, done) {
                            Ok(s) => Ok(Some(s)),
                            Err(t) => Err(t),
                        }
                    },
                }
            },
        },
    }
}

/// The imports `done`, and after them those of the descriptors from `rva` on.
pub open spec fn directory_imports(
    pe: Pe,
    bytes: Seq<u8>,
    rva: u32,
    done: Seq<Import>,
) -> Result<Seq<Import>, Trouble>
    decreases u32::MAX - rva,
{
    match descriptor_imports(pe, bytes, rva, done) {
        Err(t) => Err(t),
        Ok(None) => Ok(done),
        Ok(Some(more)) => if rva + DESCRIPTOR_SIZE > u32::MAX {
            Err(said("import descriptor RVA overflow"@))
        } else {
            directory_imports(pe, bytes, (rva + DESCRIPTOR_SIZE) as u32, more)
        },
    }
}

/// The imports of an image.
pub open spec fn image_imports(pe: Pe, bytes: Seq<u8>) -> Result<Seq<Import>, Trouble> {
    match pe.import_directory {
        None => Err(said("PE image has no import directory"@)),
        Some(rva) => if rva == 0 {
            Ok(Seq::empty())
        } else {
            directory_imports(pe, bytes, rva, Seq::empty())
        },
    }
}

/// A thunk imports by ordinal if its highest bit is set, and then its lowest bits
/// are the ordinal.
proof fn lemma_ordinal(thunk: u64)
    ensures
        (thunk & ORDINAL_FLAG != 0) == (thunk >= ORDINAL_FLAG),
        thunk & 0xffff == thunk % 0x1_0000,
{
    assert((thunk & 0x8000_0000_0000_0000 != 0) == (thunk >= 0x8000_0000_0000_0000))
        by (bit_vector);
    assert(thunk & 0xffff == thunk % 0x1_0000) by (bit_vector);
}

/// Reads what a thunk imports.
fn read_thunk_target(pe: &ParsedPe, bytes: &[u8], thunk: u64) -> (r: Result<
    (String, u16, Option<u64>),
    PeError,
>)
    ensures
        match thunk_target(pe@, bytes@, thunk) {
            Ok((name, ordinal, hint)) => r matches Ok(v) && v.0@ == name && v.1 == ordinal && v.2
                == hint,
            Err(t) => r matches Err(e) && e@ == t,
        },
{
    proof {
        lemma_ordinal(thunk);
    }
    if (thunk & ORDINAL_FLAG) != 0 {
        let ordinal: u16 = (thunk & 0xffff) as u16;
        let name = String::new();
        assert(name@ =~= Seq::<char>::empty());
        return Ok((name, ordinal, None));
    }
    if thunk > u32::MAX as u64 {
        return Err(pe_error("hint/name RVA does not fit u32"));
    }
    let offset: usize = match rva_to_file_offset(pe, thunk as u32) {
        Ok(o) => o,
        Err(e) => {
            return Err(e.under(message_at("failed to map hint/name RVA ", thunk)));
        },
    };
    let hint: u16 = match read_u16(bytes, offset) {
        Ok(h) => h,
        Err(e) => {
            return Err(e);
        },
    };
    let name_offset: usize = match offset.checked_add(2) {
        Some(o) => o,
        None => {
            return Err(pe_error("usize addition overflow"));
        },
    };
    match read_c_string_at_offset(bytes, name_offset) {
        Ok(name) => Ok((name, hint, Some(thunk))),
        Err(e) => Err(e),
    }
}

/// Reads the import of one thunk.
fn read_thunk(
    pe: &ParsedPe,
    bytes: &[u8],
    library: &str,
    lookup: u32,
    first: u32,
    index: u64,
) -> (r: Result<Option<PeImportSummary>, PeError>)
    ensures
        match thunk_import(pe@, bytes@, library@, lookup, first, index as int) {
            Ok(None) => r matches Ok(None),
            Ok(Some(i)) => r matches Ok(Some(v)) && v@ == i,
            Err(t) => r matches Err(e) && e@ == t,
        },
{
    let step: u64 = match index.checked_mul(8) {
        Some(s) => s,
        None => {
            return Err(pe_error("lookup thunk index overflow"));
        },
    };
    let rva: u64 = match (lookup as u64).checked_add(step) {
        Some(r) => r,
        None => {
            return Err(pe_error("lookup thunk RVA overflow"));
        },
    };
    let offset: usize = match rva_to_file_offset_u64(pe, rva) {
        Ok(o) => o,
        Err(e) => {
            return Err(e.under(message_at("failed to map lookup thunk RVA ", rva)));
        },
    };
    let thunk: u64 = match read_u64(bytes, offset) {
        Ok(v) => v,
        Err(e) => {
            return Err(e);
        },
    };
    if thunk == 0 {
        return Ok(None);
    }
    let iat_slot_rva: u64 = match (first as u64).checked_add(step) {
        Some(r) => r,
        None => {
            return Err(pe_error("IAT slot RVA overflow"));
        },
    };
    let iat_slot_va: u64 = match pe.image_base.checked_add(iat_slot_rva) {
        Some(v) => v,
        None => {
            return Err(pe_error("IAT slot VA overflow"));
        },
    };
    match read_thunk_target(pe, bytes, thunk) {
        Ok((name, ordinal, hint_name_rva)) => Ok(
            Some(
                PeImportSummary {
                    library: library.to_owned(),
                    name,
                    ordinal,
                    iat_slot_va,
                    iat_slot_rva,
                    hint_name_rva,
                },
            ),
        ),
        Err(e) => Err(e),
    }
}

/// Reads the imports of one library after those in `imports`.
fn read_import_thunks(
    pe: &ParsedPe,
    bytes: &[u8],
    library: &str,
    lookup: u32,
    first: u32,
    imports: &mut Vec<PeImportSummary>,
) -> (r: Result<(), PeError>)
    ensures
        match thunk_imports(pe@, bytes@, library@, lookup, first, 0, imports_of(old(imports)@)) {
            Ok(s) => r is Ok && imports_of(final(imports)@) == s,
            Err(t) => r matches Err(e) && e@ == t,
        },
{
    let mut index: u64 = 0;
    loop
        invariant
            thunk_imports(
                pe@,
                bytes@,
                library@,
                lookup,
                first,
                0,
                imports_of(old(imports)@),
            ) == thunk_imports(
                pe@,
                bytes@,
                library@,
                lookup,
                first,
                index as int,
                imports_of(imports@),
            ),
        decreases u64::MAX - index,
    {
        match read_thunk(pe, bytes, library, lookup, first, index) {
            Ok(None) => {
                return Ok(());
            },
            Ok(Some(i)) => {
                let ghost before = imports@;
                imports.push(i);
                proof {
                    assert(imports_of(imports@) =~= imports_of(before).push(i@));
                }
            },
            Err(e) => {
                return Err(e);
            },
        }
        if index == u64::MAX {
            return Err(pe_error("import thunk index overflow"));
        }
        index = index + 1;
    }
}

/// Reads an import descriptor.
fn read_descriptor(bytes: &[u8], offset: usize) -> (r: Result<Descriptor, PeError>)
    ensures
        match descriptor_at(bytes@, offset) {
            Ok(d) => r == Ok::<Descriptor, PeError>(d),
            Err(t) => r matches Err(e) && e@ == t,
        },
{
    let original_first_thunk: u32 = match read_u32(bytes, offset) {
        Ok(v) => v,
        Err(e) => {
            return Err(e);
        },
    };
    match read_u32_after(bytes, offset, 4) {
        Ok(_) => {},
        Err(e) => {
            return Err(e);
        },
    }
    match read_u32_after(bytes, offset, 8) {
        Ok(_) => {},
        Err(e) => {
            return Err(e);
        },
    }
    let name_rva: u32 = match read_u32_after(bytes, offset, 12) {
        Ok(v) => v,
        Err(e) => {
            return Err(e);
        },
    };
    match read_u32_after(bytes, offset, 16) {
        Ok(first_thunk) => Ok(Descriptor { original_first_thunk, name_rva, first_thunk }),
        Err(e) => Err(e),
    }
}

/// Reads the imports of one descriptor after those in `imports`. False at the end of
/// the directory.
fn read_descriptor_imports(
    pe: &ParsedPe,
    bytes: &[u8],
    rva: u32,
    imports: &mut Vec<PeImportSummary>,
) -> (r: Result<bool, PeError>)
    ensures
        match descriptor_imports(pe@, bytes@, rva, imports_of(old(imports)@)) {
            Ok(None) => r matches Ok(more) && !more && final(imports)@ == old(imports)@,
            Ok(Some(s)) => r matches Ok(more) && more && imports_of(final(imports)@) == s,
            Err(t) => r matches Err(e) && e@ == t,
        },
{
    let offset: usize = match rva_to_file_offset(pe, rva) {
        Ok(o) => o,
        Err(e) => {
            return Err(e.under(message_at("failed to map import descriptor RVA ", rva as u64)));
        },
    };
    let d = match read_descriptor(bytes, offset) {
        Ok(d) => d,
        Err(e) => {
            return Err(e);
        },
    };
    if d.original_first_thunk == 0 && d.name_rva == 0 && d.first_thunk == 0 {
        return Ok(false);
    }
    let library = match read_c_string_at_rva(pe, bytes, d.name_rva) {
        Ok(s) => s,
        Err(e) => {
            return Err(e.under(message_at("failed to read DLL name at RVA ", d.name_rva as u64)));
        },
    };
    let lookup: u32 = if d.original_first_thunk == 0 {
        d.first_thunk
    } else {
        d.original_first_thunk
    };
    match read_import_thunks(pe, bytes, library.as_str(), lookup, d.first_thunk, imports) {
        Ok(()) => Ok(true),
        Err(e) => Err(e),
    }
}

/// The outcome of reading imports is the one that is wanted.
pub open spec fn imports_read(
    want: Result<Seq<Import>, Trouble>,
    r: Result<Vec<PeImportSummary>, PeError>,
) -> bool {
    match want {
        Ok(s) => r matches Ok(v) && imports_of(v@) == s,
        Err(t) => r matches Err(e) && e@ == t,
    }
}

/// Reads the imports of an image out of its file.
pub fn pe_imports(pe: &ParsedPe, bytes: &[u8]) -> (r: Result<Vec<PeImportSummary>, PeError>)
    ensures
        imports_read(image_imports(pe@, bytes@), r),
{
    let directory: u32 = match pe.import_directory {
        Some(rva) => rva,
        None => {
            return Err(pe_error("PE image has no import directory"));
        },
    };
    let mut imports: Vec<PeImportSummary> = Vec::new();
    assert(imports_of(imports@) =~= Seq::<Import>::empty());
    if directory == 0 {
        return Ok(imports);
    }
    let mut rva: u32 = directory;
    loop
        invariant
            directory_imports(pe@, bytes@, directory, Seq::empty()) == directory_imports(
                pe@,
                bytes@,
                rva,
                imports_of(imports@),
            ),
            image_imports(pe@, bytes@) == directory_imports(
                pe@,
                bytes@,
                directory,
                Seq::empty(),
            ),
        decreases u32::MAX - rva,
    {
        match read_descriptor_imports(pe, bytes, rva, &mut imports) {
            Ok(true) => {},
            Ok(false) => {
                return Ok(imports);
            },
            Err(e) => {
                return Err(e);
            },
        }
        rva = match rva.checked_add(DESCRIPTOR_SIZE) {
            Some(r) => r,
            None => {
                return Err(pe_error("import descriptor RVA overflow"));
            },
        };
    }
}

/// Reads import metadata from `PE` bytes.
pub fn inspect_pe_imports_bytes(bytes: &[u8]) -> (r: Result<Vec<PeImportSummary>, PeError>)
    ensures
        match pe64_of(goblin_pe(bytes@)) {
            Err(t) => r matches Err(e) && e@ == t,
            Ok(pe) => imports_read(image_imports(pe, bytes@), r),
        },
{
    match parse_pe64(bytes) {
        Ok(pe) => pe_imports(&pe, bytes),
        Err(e) => Err(e),
    }
}

} // verus!
