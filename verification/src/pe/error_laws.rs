//! What is told of images that cannot be read.

use vstd::prelude::*;

use crate::pe::cstring::{c_string_at, number_at};
use crate::pe::error::Trouble;
use crate::pe::file_laws::covers_rva;
use crate::pe::identity::identity_error;
use crate::pe::image::{loaded_image, with_section};
use crate::pe::imports::{
    descriptor_imports, directory_imports, image_imports, thunk_import, thunk_target, Import,
};
use crate::pe::parsed::{pe64_of, Pe, Section};
use crate::pe::patch::patch_error;
use crate::pe::sections::{file_offset, section_error};
use crate::text::hex_padded;

verus! {

/// The outcome is a failure that tells just this.
pub open spec fn tells<T>(r: Result<T, Trouble>, message: Seq<char>) -> bool {
    r == Err::<T, Trouble>(seq![message])
}

/// The outcome is a failure that tells this first, and then what another one told.
pub open spec fn passes_on<T, U>(r: Result<T, Trouble>, message: Seq<char>, cause: Result<
    U,
    Trouble,
>) -> bool {
    &&& r is Err
    &&& cause is Err
    &&& r->Err_0.len() == cause->Err_0.len() + 1
    &&& r->Err_0[0] == message
    &&& r->Err_0.skip(1) == cause->Err_0
}

/// Files that cannot be parsed, and images of 32 bits.
pub proof fn refused_files(cause: Seq<char>, pe: Pe)
    ensures
        pe64_of(Err(cause)) == Err::<Pe, Trouble>(seq!["failed to parse PE image"@, cause]),
        !pe.is_64 ==> tells(pe64_of(Ok(pe)), "expected PE64 image, got PE32"@),
{
    assert(pe64_of(Err(cause))->Err_0 =~= seq!["failed to parse PE image"@, cause]);
}

/// Addresses that lie in no section.
pub proof fn lost_addresses(sections: Seq<Section>, rva: u64)
    requires
        forall|j: int| 0 <= j < sections.len() ==> !covers_rva(#[trigger] sections[j], rva),
    ensures
        tells(
            file_offset(sections, rva),
            "RVA "@ + hex_padded(rva as nat, 8) + " is not inside any section"@,
        ),
    decreases sections.len(),
{
    if sections.len() > 0 {
        let rest = sections.skip(1);
        assert(!covers_rva(sections[0], rva));
        assert forall|j: int| 0 <= j < rest.len() implies !covers_rva(#[trigger] rest[j], rva) by {
            assert(rest[j] == sections[j + 1]);
        }
        lost_addresses(rest, rva);
    }
}

/// Reads that are not inside the file, and strings without an end.
pub proof fn reads_outside_the_file(bytes: Seq<u8>, offset: usize, n: usize)
    ensures
        offset + n <= usize::MAX && offset + n > bytes.len() ==> tells(
            number_at(bytes, offset, n),
            "read range is outside file"@,
        ),
        offset + n > usize::MAX ==> tells(number_at(bytes, offset, n), "read range overflow"@),
        offset > bytes.len() ==> tells(
            c_string_at(bytes, offset),
            "string offset is outside file"@,
        ),
        offset == bytes.len() ==> tells(c_string_at(bytes, offset), "unterminated C string"@),
{
    assert(bytes.len() == offset ==> bytes.skip(offset as int).len() == 0);
}

/// What can be wrong with a thunk: it points too far, or to where nothing is.
pub proof fn bad_thunks(pe: Pe, bytes: Seq<u8>, thunk: u64)
    requires
        thunk < 0x8000_0000_0000_0000,
    ensures
        thunk > 0xffff_ffff ==> tells(
            thunk_target(pe, bytes, thunk),
            "hint/name RVA does not fit u32"@,
        ),
        thunk <= 0xffff_ffff && file_offset(pe.sections, thunk) is Err ==> passes_on(
            thunk_target(pe, bytes, thunk),
            "failed to map hint/name RVA "@ + hex_padded(thunk as nat, 8),
            file_offset(pe.sections, thunk),
        ),
{
    if thunk <= 0xffff_ffff && file_offset(pe.sections, thunk) is Err {
        assert(thunk_target(pe, bytes, thunk)->Err_0.skip(1) =~= file_offset(
            pe.sections,
            thunk,
        )->Err_0);
    }
}

/// What can be wrong with an import descriptor or its thunks: where nothing is.
pub proof fn bad_descriptors(
    pe: Pe,
    bytes: Seq<u8>,
    rva: u32,
    done: Seq<Import>,
    library: Seq<char>,
    lookup: u32,
    first: u32,
    k: int,
)
    ensures
        file_offset(pe.sections, rva as u64) is Err ==> passes_on(
            descriptor_imports(pe, bytes, rva, done),
            "failed to map import descriptor RVA "@ + hex_padded(rva as nat, 8),
            file_offset(pe.sections, rva as u64),
        ),
        0 <= k < 0x1000_0000 && file_offset(pe.sections, (lookup + 8 * k) as u64) is Err
            ==> passes_on(
            thunk_import(pe, bytes, library, lookup, first, k),
            "failed to map lookup thunk RVA "@ + hex_padded((lookup + 8 * k) as nat, 8),
            file_offset(pe.sections, (lookup + 8 * k) as u64),
        ),
        descriptor_imports(pe, bytes, rva, done) matches Err(t) ==> directory_imports(
            pe,
            bytes,
            rva,
            done,
        ) == Err::<Seq<Import>, Trouble>(t),
        pe.import_directory is None ==> tells(
            image_imports(pe, bytes),
            "PE image has no import directory"@,
        ),
{
    if file_offset(pe.sections, rva as u64) is Err {
        assert(descriptor_imports(pe, bytes, rva, done)->Err_0.skip(1) =~= file_offset(
            pe.sections,
            rva as u64,
        )->Err_0);
    }
    if 0 <= k < 0x1000_0000 && file_offset(pe.sections, (lookup + 8 * k) as u64) is Err {
        assert(thunk_import(pe, bytes, library, lookup, first, k)->Err_0.skip(1) =~= file_offset(
            pe.sections,
            (lookup + 8 * k) as u64,
        )->Err_0);
    }
}

/// What can be wrong with an image that is loaded.
pub proof fn bad_images(pe: Pe, bytes: Seq<u8>)
    ensures
        pe.image_base + pe.entry > u64::MAX ==> tells(
            loaded_image(pe, bytes),
            "entry point VA overflow"@,
        ),
        pe.image_base + pe.entry <= u64::MAX && pe.sizes is None ==> tells(
            loaded_image(pe, bytes),
            "PE image has no optional header"@,
        ),
        identity_error(pe) is None && pe.sizes->0.size_of_headers > bytes.len() ==> tells(
            loaded_image(pe, bytes),
            "size_of_headers is larger than file size"@,
        ),
        identity_error(pe) is None && pe.sizes->0.size_of_headers <= bytes.len()
            && pe.sizes->0.size_of_headers > pe.sizes->0.size_of_image ==> tells(
            loaded_image(pe, bytes),
            "failed to slice image headers"@,
        ),
{
}

/// What can be wrong with a section: more bytes than the file or the image has, or no
/// readable name, or no address.
pub proof fn bad_sections(source: Seq<u8>, image: Seq<u8>, s: Section, base: u64)
    ensures
        s.size_of_raw_data > 0 && s.virtual_address + s.size_of_raw_data <= usize::MAX
            && s.pointer_to_raw_data + s.size_of_raw_data <= usize::MAX && s.pointer_to_raw_data
            + s.size_of_raw_data > source.len() ==> tells(
            with_section(source, image, s),
            "section raw range is outside file"@,
        ),
        s.size_of_raw_data > 0 && s.virtual_address + s.size_of_raw_data <= usize::MAX
            && s.pointer_to_raw_data + s.size_of_raw_data <= usize::MAX && s.pointer_to_raw_data
            + s.size_of_raw_data <= source.len() && s.virtual_address + s.size_of_raw_data
            > image.len() ==> tells(
            with_section(source, image, s),
            "section virtual range is outside image"@,
        ),
        s.name matches Err(cause) ==> section_error(base, s) == Some(
            seq!["failed to read section name"@, cause],
        ),
        s.name is Ok && base + s.virtual_address > u64::MAX ==> section_error(base, s) == Some(
            seq!["section VA overflow"@],
        ),
        s.name is Ok && base + s.virtual_address <= u64::MAX ==> section_error(base, s) is None,
{
    if s.name is Err {
        assert(section_error(base, s)->0 =~= seq![
            "failed to read section name"@,
            s.name->Err_0,
        ]);
    }
}

/// A slot that lies outside the image cannot be patched.
pub proof fn bad_slots(size: nat, i: Import, k: int)
    requires
        0 <= k < 0x1_0000_0000_0000,
        i.iat_slot_rva + 8 <= usize::MAX,
    ensures
        i.iat_slot_rva + 8 > size ==> patch_error(size, i, k) == Some(
            seq!["IAT slot is outside loaded image"@],
        ),
        i.iat_slot_rva + 8 <= size ==> patch_error(size, i, k) is None,
{
}

} // verus!
