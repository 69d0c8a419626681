//! Where things of a file are found, and what becomes of them in memory.

use vstd::prelude::*;
use vstd::utf8::{decode_utf8, valid_utf8};

use crate::endian::le_value;
use crate::pe::cstring::{before_zero, c_string_at, number_after, number_at};
use crate::pe::error::{PeError, Trouble};
use crate::pe::identity::{
    after_separator, file_name, identifies, identity_error, module_name, summarizes, trimmed,
    PeIdentity, PeImageSummary,
};
use crate::pe::image::{loaded_image, loaded_summary, overlaid, with_sections};
use crate::pe::imports::Import;
use crate::pe::parsed::{pe64_of, Pe, Section};
use crate::pe::patch::{patch_error, patched_image, patched_imports, patched_slots_read_back};
use crate::pe::sections::{
    file_offset, first_section_error, sections_summarized, PeSectionSummary,
};

verus! {

/// How many bytes a section covers in memory: as many as it has there or in the file,
/// whichever is more.
pub open spec fn extent(s: Section) -> int {
    if s.virtual_size >= s.size_of_raw_data {
        s.virtual_size as int
    } else {
        s.size_of_raw_data as int
    }
}

/// A relative address lies in a section.
pub open spec fn covers_rva(s: Section, rva: u64) -> bool {
    s.virtual_address <= rva && rva - s.virtual_address < extent(s)
}

/// A relative address is as far into the file's part of a section as it is into the
/// section: of the first section that it lies in. There is none exactly where it lies in
/// no section or the offset is too large.
pub proof fn offsets_follow_sections(sections: Seq<Section>, rva: u64, k: int)
    ensures
        0 <= k < sections.len() && covers_rva(sections[k], rva) && (forall|j: int|
            0 <= j < k ==> !covers_rva(#[trigger] sections[j], rva)) ==> {
            let offset = sections[k].pointer_to_raw_data + rva - sections[k].virtual_address;
            match file_offset(sections, rva) {
                Ok(o) => o == offset,
                Err(_) => offset > usize::MAX,
            }
        },
        (forall|j: int| 0 <= j < sections.len() ==> !covers_rva(#[trigger] sections[j], rva))
            ==> file_offset(sections, rva) is Err,
    decreases sections.len(),
{
    if sections.len() > 0 {
        let rest = sections.skip(1);
        offsets_follow_sections(rest, rva, k - 1);
        if 0 < k < sections.len() {
            assert(rest[k - 1] == sections[k]);
        }
        if forall|j: int| 0 <= j < k ==> !covers_rva(#[trigger] sections[j], rva) {
            if k > 0 {
                assert(!covers_rva(sections[0], rva));
            }
            assert forall|j: int| 0 <= j < k - 1 && j < rest.len() implies !covers_rva(
                #[trigger] rest[j],
                rva,
            ) by {
                assert(rest[j] == sections[j + 1]);
            }
        }
        if forall|j: int| 0 <= j < sections.len() ==> !covers_rva(#[trigger] sections[j], rva) {
            assert(!covers_rva(sections[0], rva));
            assert forall|j: int| 0 <= j < rest.len() implies !covers_rva(#[trigger] rest[j], rva) by {
                assert(rest[j] == sections[j + 1]);
            }
        }
    }
}

/// Reading a number succeeds exactly if all its bytes are in the file.
pub proof fn numbers_are_in_the_file(bytes: Seq<u8>, offset: usize, plus: usize, n: usize)
    ensures
        number_at(bytes, offset, n) is Ok == (offset + n <= bytes.len() && offset + n
            <= usize::MAX),
        number_after(bytes, offset, plus, n) is Ok == (offset + plus + n <= bytes.len() && offset
            + plus + n <= usize::MAX),
        offset + plus <= usize::MAX ==> number_after(bytes, offset, plus, n) == number_at(
            bytes,
            (offset + plus) as usize,
            n,
        ),
{
}

/// Where the first zero byte is.
proof fn lemma_zero(bytes: Seq<u8>)
    ensures
        match before_zero(bytes) {
            Some(n) => n < bytes.len() && bytes[n as int] == 0 && forall|k: int|
                0 <= k < n ==> #[trigger] bytes[k] != 0,
            None => forall|k: int| 0 <= k < bytes.len() ==> #[trigger] bytes[k] != 0,
        },
    decreases bytes.len(),
{
    if bytes.len() > 0 && bytes[0] != 0 {
        let rest = bytes.skip(1);
        lemma_zero(rest);
        match before_zero(rest) {
            Some(n) => {
                assert(bytes[n as int + 1] == rest[n as int]);
                assert forall|k: int| 0 <= k < n + 1 implies #[trigger] bytes[k] != 0 by {
                    if k > 0 {
                        assert(bytes[k] == rest[k - 1]);
                    }
                }
            },
            None => {
                assert forall|k: int| 0 <= k < bytes.len() implies #[trigger] bytes[k] != 0 by {
                    if k > 0 {
                        assert(bytes[k] == rest[k - 1]);
                    }
                }
            },
        }
    }
}

/// A string ends before the first zero byte and is the text of the bytes up to there,
/// which must be valid; without a zero byte there is none.
pub proof fn strings_end_at_zero(bytes: Seq<u8>, offset: usize, n: int)
    requires
        offset <= bytes.len(),
        0 <= n,
        offset + n <= bytes.len(),
        forall|k: int| offset <= k < offset + n ==> #[trigger] bytes[k] != 0,
    ensures
        offset + n < bytes.len() && bytes[offset + n] == 0 ==> {
            let part = bytes.subrange(offset as int, offset + n);
            if valid_utf8(part) {
                c_string_at(bytes, offset) == Ok::<Seq<char>, Trouble>(decode_utf8(part))
            } else {
                c_string_at(bytes, offset) is Err
            }
        },
        offset + n == bytes.len() ==> c_string_at(bytes, offset) is Err,
{
    let tail = bytes.skip(offset as int);
    lemma_zero(tail);
    match before_zero(tail) {
        Some(m) => {
            assert(tail[m as int] == bytes[offset + m]);
            if m < n {
                assert(bytes[offset + m] != 0);
            } else if n < m {
                assert(tail[n] == bytes[offset + n]);
            }
        },
        None => {
            if offset + n < bytes.len() {
                assert(tail[n] == bytes[offset + n]);
            }
        },
    }
}

/// What follows the last separator of a path.
proof fn lemma_after_separator(dir: Seq<char>, name: Seq<char>)
    requires
        dir.len() == 0 || dir.last() == '/',
        forall|k: int| 0 <= k < name.len() ==> #[trigger] name[k] != '/',
    ensures
        after_separator(dir + name) == name,
    decreases name.len(),
{
    let path = dir + name;
    if name.len() == 0 {
        assert(path =~= dir);
        assert(after_separator(path) =~= name);
    } else {
        let shorter = name.drop_last();
        assert(path.drop_last() =~= dir + shorter);
        assert(path.last() == name.last());
        assert forall|k: int| 0 <= k < shorter.len() implies #[trigger] shorter[k] != '/' by {
            assert(name[k] != '/');
        }
        lemma_after_separator(dir, shorter);
        assert(name[name.len() - 1] != '/');
        assert(shorter.push(name.last()) =~= name);
    }
}

/// The name of a file is the last part of its path, and the directory before it does not
/// matter.
pub proof fn file_names_are_last_parts(dir: Seq<char>, name: Seq<char>)
    requires
        dir.len() == 0 || dir.last() == '/',
        name.len() > 0,
        name != seq!['.'],
        name != seq!['.', '.'],
        forall|k: int| 0 <= k < name.len() ==> #[trigger] name[k] != '/',
    ensures
        file_name(dir + name) == Some(name),
        module_name(dir + name) == name,
{
    let path = dir + name;
    assert(path.last() == name.last());
    assert(name[name.len() - 1] != '/');
    if path.last() == '.' && (path.len() == 1 || path[path.len() - 2] == '/') {
        if name.len() >= 2 {
            assert(path[path.len() - 2] == name[name.len() - 2]);
            assert(name[name.len() - 2] != '/');
        } else {
            assert(name =~= seq!['.']);
        }
    }
    assert(trimmed(path) == path);
    lemma_after_separator(dir, name);
}

/// Separators and single dots at the end of a path do not matter.
pub proof fn trailing_separators_do_not_matter(path: Seq<char>)
    ensures
        file_name(path.push('/')) == file_name(path),
        path.len() > 0 && path.last() == '/' ==> file_name(path.push('.')) == file_name(path),
        file_name(Seq::empty()) is None,
        file_name(path) is None ==> module_name(path) == "app.exe"@,
{
    assert(path.push('/').drop_last() =~= path);
    assert(path.push('.').drop_last() =~= path);
    assert(path.push('/').last() == '/');
    if path.len() > 0 && path.last() == '/' {
        let p = path.push('.');
        assert(p[p.len() - 2] == '/');
    }
}

/// A path that ends in two dots has no file name.
pub proof fn parents_have_no_name(dir: Seq<char>)
    requires
        dir.len() == 0 || dir.last() == '/',
    ensures
        file_name(dir + seq!['.', '.']) is None,
        module_name(dir + seq!['.', '.']) == "app.exe"@,
{
    let dots = seq!['.', '.'];
    let path = dir + dots;
    assert(path[path.len() - 2] == '.');
    assert(trimmed(path) == path);
    lemma_after_separator(dir, dots);
}

/// A loaded image has the size that the headers say. Where no section lies it holds the
/// headers of the file and zeros after them.
pub proof fn loaded_images_start_with_headers(pe: Pe, bytes: Seq<u8>, at: int)
    requires
        loaded_image(pe, bytes) is Ok,
        0 <= at < pe.sizes->0.size_of_image,
        forall|j: int|
            0 <= j < pe.sections.len() ==> !((#[trigger] pe.sections[j]).virtual_address <= at
                < pe.sections[j].virtual_address + pe.sections[j].size_of_raw_data),
    ensures
        pe.sizes is Some,
        loaded_image(pe, bytes)->Ok_0.len() == pe.sizes->0.size_of_image,
        loaded_image(pe, bytes)->Ok_0[at] == if at < pe.sizes->0.size_of_headers {
            bytes[at]
        } else {
            0
        },
{
    let sizes = pe.sizes->0;
    let start = overlaid(
        Seq::new(sizes.size_of_image as nat, |i: int| 0u8),
        0,
        bytes.take(sizes.size_of_headers as int),
    );
    crate::pe::image::sections_keep_size(bytes, start, pe.sections);
    crate::pe::image::sections_leave_the_rest(bytes, start, pe.sections, at);
}

/// All that a section says of its bytes is inside the file and the image, if it says that
/// there are any.
pub open spec fn section_fits(s: Section, file: nat, image: nat) -> bool {
    s.size_of_raw_data > 0 ==> s.pointer_to_raw_data + s.size_of_raw_data <= file
        && s.virtual_address + s.size_of_raw_data <= image && s.pointer_to_raw_data
        + s.size_of_raw_data <= usize::MAX && s.virtual_address + s.size_of_raw_data <= usize::MAX
}

/// An image is loaded exactly if it has sizes, its entry point has an address, its headers
/// fit the file and the image, and so do all its sections.
pub proof fn images_that_load(pe: Pe, bytes: Seq<u8>)
    ensures
        loaded_image(pe, bytes) is Ok <==> {
            &&& pe.sizes is Some
            &&& pe.image_base + pe.entry <= u64::MAX
            &&& pe.sizes->0.size_of_headers <= bytes.len()
            &&& pe.sizes->0.size_of_headers <= pe.sizes->0.size_of_image
            &&& forall|j: int|
                0 <= j < pe.sections.len() ==> section_fits(
                    #[trigger] pe.sections[j],
                    bytes.len(),
                    pe.sizes->0.size_of_image as nat,
                )
        },
{
    if pe.sizes is Some {
        let sizes = pe.sizes->0;
        let start = overlaid(
            Seq::new(sizes.size_of_image as nat, |i: int| 0u8),
            0,
            bytes.take(sizes.size_of_headers as int),
        );
        lemma_sections_that_fit(bytes, start, pe.sections);
    }
}

/// Sections are copied exactly if they all fit.
proof fn lemma_sections_that_fit(source: Seq<u8>, image: Seq<u8>, sections: Seq<Section>)
    ensures
        with_sections(source, image, sections) is Ok <==> forall|j: int|
            0 <= j < sections.len() ==> section_fits(
                #[trigger] sections[j],
                source.len(),
                image.len(),
            ),
    decreases sections.len(),
{
    if sections.len() > 0 {
        let rest = sections.skip(1);
        match crate::pe::image::with_section(source, image, sections[0]) {
            Ok(next) => {
                assert(section_fits(sections[0], source.len(), image.len()));
                lemma_sections_that_fit(source, next, rest);
                if with_sections(source, next, rest) is Ok {
                    assert forall|j: int| 0 <= j < sections.len() implies section_fits(
                        #[trigger] sections[j],
                        source.len(),
                        image.len(),
                    ) by {
                        if j > 0 {
                            assert(sections[j] == rest[j - 1]);
                        }
                    }
                } else {
                    let j = choose|j: int|
                        0 <= j < rest.len() && !section_fits(
                            #[trigger] rest[j],
                            source.len(),
                            next.len(),
                        );
                    assert(rest[j] == sections[j + 1]);
                }
            },
            Err(_) => {
                assert(!section_fits(sections[0], source.len(), image.len()));
            },
        }
    }
}

/// What is said of a loaded image: its base, its entry point relative to the base and as
/// an address, its sizes, and how many sections it has.
pub proof fn loaded_summaries(pe: Pe, bytes: Seq<u8>)
    requires
        loaded_image(pe, bytes) is Ok,
        pe.sections.len() <= usize::MAX,
    ensures
        ({
            let s = loaded_summary(pe);
            &&& s.image_base == pe.image_base
            &&& s.entry_rva == pe.entry
            &&& s.entry_point_va - s.image_base == s.entry_rva
            &&& s.image_size == loaded_image(pe, bytes)->Ok_0.len()
            &&& s.header_size == pe.sizes->0.size_of_headers
            &&& s.section_count == pe.sections.len()
        }),
{
    let sizes = pe.sizes->0;
    let start = overlaid(
        Seq::new(sizes.size_of_image as nat, |i: int| 0u8),
        0,
        bytes.take(sizes.size_of_headers as int),
    );
    crate::pe::image::sections_keep_size(bytes, start, pe.sections);
}

/// Only 64-bit images are taken, and every one that can be parsed is.
pub proof fn only_wide_images(parsed: Result<Pe, Seq<char>>)
    ensures
        pe64_of(parsed) matches Ok(pe) ==> parsed == Ok::<Pe, Seq<char>>(pe) && pe.is_64,
        parsed matches Ok(pe) ==> pe.is_64 ==> pe64_of(parsed) is Ok,
{
}

/// Fake targets: that of import number `k` is sixteen bytes times `k` after
/// `0x7000_0000_0000`. The entry keeps library, slot and name of its import; one without a
/// name is called by its ordinal.
pub proof fn fake_targets_are_in_order(imports: Seq<Import>, k: int)
    requires
        0 <= k < imports.len(),
        k < 0x1_0000_0000_0000,
    ensures
        patched_imports(imports).len() == imports.len(),
        ({
            let p = patched_imports(imports)[k];
            &&& p.fake_target_va == 0x7000_0000_0000 + 16 * k
            &&& p.library == imports[k].library
            &&& p.iat_slot_va == imports[k].iat_slot_va
            &&& p.iat_slot_rva == imports[k].iat_slot_rva
            &&& imports[k].name.len() > 0 ==> p.name == imports[k].name
            &&& imports[k].name.len() == 0 ==> p.name == "ORDINAL "@ + crate::text::dec(
                imports[k].ordinal as nat,
            )
        }),
{
}

/// A loaded image is patched exactly if every slot lies inside it; a slot then holds the
/// fake target of its import, unless a later slot covers it.
pub proof fn patched_slots_hold_fake_targets(image: Seq<u8>, imports: Seq<Import>, k: int)
    requires
        imports.len() < 0x1_0000_0000_0000,
        0 <= k < imports.len(),
        image.len() <= usize::MAX,
    ensures
        patched_image(image, imports, 0).1 is None <==> forall|m: int|
            0 <= m < imports.len() ==> (#[trigger] imports[m]).iat_slot_rva + 8 <= image.len(),
        patched_image(image, imports, 0).1 is None && (forall|m: int|
            k < m < imports.len() ==> (#[trigger] imports[m]).iat_slot_rva + 8
                <= imports[k].iat_slot_rva || imports[k].iat_slot_rva + 8
                <= imports[m].iat_slot_rva) ==> le_value(
            patched_image(image, imports, 0).0.subrange(
                imports[k].iat_slot_rva as int,
                imports[k].iat_slot_rva + 8,
            ),
        ) == 0x7000_0000_0000 + 16 * k,
{
    lemma_patched_all(image, imports, 0);
    if patched_image(image, imports, 0).1 is None && (forall|m: int|
        k < m < imports.len() ==> (#[trigger] imports[m]).iat_slot_rva + 8
            <= imports[k].iat_slot_rva || imports[k].iat_slot_rva + 8 <= imports[m].iat_slot_rva) {
        patched_slots_read_back(image, imports, k);
        fake_targets_are_in_order(imports, k);
    }
}

/// Patching succeeds exactly if every slot from `index` on lies inside the image.
proof fn lemma_patched_all(image: Seq<u8>, imports: Seq<Import>, index: int)
    requires
        imports.len() < 0x1_0000_0000_0000,
        0 <= index <= imports.len(),
        image.len() <= usize::MAX,
    ensures
        patched_image(image, imports, index).1 is None <==> forall|m: int|
            index <= m < imports.len() ==> (#[trigger] imports[m]).iat_slot_rva + 8 <= image.len(),
    decreases imports.len() - index,
{
    if index < imports.len() {
        let next = crate::pe::patch::slot_patched(image, imports[index], index);
        lemma_patched_all(next, imports, index + 1);

        if imports[index].iat_slot_rva + 8 <= image.len() {
            assert(patch_error(image.len(), imports[index], index) is None);
        } else {
            assert(patch_error(image.len(), imports[index], index) is Some);
        }
    }
}

/// What identifies an image: its path as given, base, entry point relative to the base and
/// as an address, sizes, machine, and number of sections. It needs sizes and an entry point
/// that has an address.
pub proof fn identities_say_it_all(id: PeIdentity, path: Seq<char>, pe: Pe)
    requires
        identifies(id, path, pe),
    ensures
        id.path@ == path,
        id.image_base == pe.image_base,
        id.entry_rva == pe.entry,
        id.entry_va == id.image_base + id.entry_rva,
        id.size_of_image == pe.sizes->0.size_of_image,
        id.size_of_headers == pe.sizes->0.size_of_headers,
        id.machine == pe.machine,
        id.is_pe64,
        id.section_count == pe.sections.len(),
        identity_error(pe) is None <==> pe.sizes is Some && pe.image_base + pe.entry <= u64::MAX,
{
}

/// What is said of an image: the same of path, machine, base, entry point and sections, and
/// how many libraries and functions it imports.
pub proof fn summaries_say_it_all(s: PeImageSummary, path: Seq<char>, pe: Pe)
    requires
        summarizes(s, path, pe),
    ensures
        s.path@ == path,
        s.is_pe64,
        s.machine == pe.machine,
        s.image_base == pe.image_base,
        s.entry_rva == pe.entry,
        s.entry_point_va == s.image_base + s.entry_rva,
        s.section_count == pe.sections.len(),
        s.library_count == pe.library_count,
        s.import_count == pe.import_count,
{
}

/// The sections of an image are all described, in order, exactly if every one of them has a
/// readable name and an address.
pub proof fn sections_are_described(pe: Pe, r: Result<Vec<PeSectionSummary>, PeError>)
    requires
        sections_summarized(pe, r),
    ensures
        r is Ok <==> forall|j: int|
            0 <= j < pe.sections.len() ==> (#[trigger] pe.sections[j]).name is Ok && pe.image_base
                + pe.sections[j].virtual_address <= u64::MAX,
        r matches Ok(v) ==> v@.len() == pe.sections.len() && forall|j: int|
            0 <= j < v@.len() ==> {
                let d = #[trigger] v@[j];
                let s = pe.sections[j];
                &&& s.name == Ok::<Seq<char>, Seq<char>>(d.name@)
                &&& d.virtual_address == s.virtual_address
                &&& d.virtual_size == s.virtual_size
                &&& d.pointer_to_raw_data == s.pointer_to_raw_data
                &&& d.size_of_raw_data == s.size_of_raw_data
                &&& d.virtual_address_va == pe.image_base + s.virtual_address
            },
{
    lemma_section_errors(pe.image_base, pe.sections);
}

/// No section has an error exactly if each has a readable name and an address.
proof fn lemma_section_errors(base: u64, sections: Seq<Section>)
    ensures
        first_section_error(base, sections) is None <==> forall|j: int|
            0 <= j < sections.len() ==> (#[trigger] sections[j]).name is Ok && base
                + sections[j].virtual_address <= u64::MAX,
    decreases sections.len(),
{
    if sections.len() > 0 {
        let rest = sections.skip(1);
        lemma_section_errors(base, rest);
        if first_section_error(base, sections) is None {
            assert forall|j: int| 0 <= j < sections.len() implies (
            #[trigger] sections[j]).name is Ok && base + sections[j].virtual_address
                <= u64::MAX by {
                if j > 0 {
                    assert(sections[j] == rest[j - 1]);
                }
            }
        } else if sections[0].name is Ok && base + sections[0].virtual_address <= u64::MAX {
            let j = choose|j: int|
                0 <= j < rest.len() && !((#[trigger] rest[j]).name is Ok && base
                    + rest[j].virtual_address <= u64::MAX);
            assert(rest[j] == sections[j + 1]);
        }
    }
}

} // verus!
