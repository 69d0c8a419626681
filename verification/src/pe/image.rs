//! The memory image of a PE file, as the system's loader would lay it out.

use vstd::prelude::*;

use crate::pe::error::{pe_error, said, PeError, Trouble};
use crate::pe::identity::{identity_error, pe_identity, PeIdentity};
use crate::pe::parsed::{goblin_pe, parse_pe64, pe64_of, ParsedPe, Pe, Section, SectionHeader};

verus! {

/// Loaded `PE` image layout prepared for runtime mapping.
#[derive(Debug, Clone, Copy, PartialEq, Eq, Structural)]
pub struct PeLoadedImageSummary {
    /// Preferred image base.
    pub image_base: u64,
    /// `AddressOfEntryPoint` RVA.
    pub entry_rva: u64,
    /// Absolute entry point virtual address.
    pub entry_point_va: u64,
    /// Total image size in memory.
    pub image_size: usize,
    /// Number of copied header bytes.
    pub header_size: usize,
    /// Number of sections copied into the memory image.
    pub section_count: usize,
}

impl PeLoadedImageSummary {
    /// Loader identity view of this loaded image. The machine is not kept; a header
    /// size that does not fit is given as the largest that does.
    #[must_use]
    pub fn identity(&self, path: &str) -> (id: PeIdentity)
        ensures
            id.path@ == path@,
            id.image_base == self.image_base,
            id.entry_rva == self.entry_rva,
            id.entry_va == self.entry_point_va,
            id.size_of_image == self.image_size,
            id.size_of_headers == (if self.header_size <= u32::MAX {
                self.header_size as u32
            } else {
                u32::MAX
            }),
            id.machine == 0,
            id.is_pe64,
            id.section_count == self.section_count,
    {
        let header: u64 = self.header_size as u64;
        PeIdentity {
            path: path.to_owned(),
            image_base: self.image_base,
            entry_rva: self.entry_rva,
            entry_va: self.entry_point_va,
            size_of_image: self.image_size as u64,
            size_of_headers: if header <= u32::MAX as u64 {
                header as u32
            } else {
                u32::MAX
            },
            machine: 0,
            is_pe64: true,
            section_count: self.section_count,
        }
    }
}

/// An image with some of its bytes replaced.
pub open spec fn overlaid(image: Seq<u8>, at: int, part: Seq<u8>) -> Seq<u8> {
    Seq::new(
        image.len(),
        |i: int|
            if at <= i < at + part.len() {
                part[i - at]
            } else {
                image[i]
            },
    )
}

/// An image after a section was copied into it.
pub open spec fn with_section(source: Seq<u8>, image: Seq<u8>, s: Section) -> Result<
    Seq<u8>,
    Trouble,
> {
    let size = s.size_of_raw_data as int;
    if size == 0 {
        Ok(image)
    } else if s.pointer_to_raw_data + size > usize::MAX {
        Err(said("section source range overflow"@))
    } else if s.virtual_address + size > usize::MAX {
        Err(said("section image range overflow"@))
    } else if s.pointer_to_raw_data + size > source.len() {
        Err(said("section raw range is outside file"@))
    } else if s.virtual_address + size > image.len() {
        Err(said("section virtual range is outside image"@))
    } else {
        Ok(
            overlaid(
                image,
                s.virtual_address as int,
                source.subrange(s.pointer_to_raw_data as int, s.pointer_to_raw_data + size),
            ),
        )
    }
}

/// An image after sections were copied into it, in their order.
pub open spec fn with_sections(source: Seq<u8>, image: Seq<u8>, sections: Seq<Section>) -> Result<
    Seq<u8>,
    Trouble,
>
    decreases sections.len(),
{
    if sections.len() == 0 {
        Ok(image)
    } else {
        match with_section(source, image, sections[0]) {
            Err(t) => Err(t),
            Ok(next) => with_sections(source, next, sections.skip(1)),
        }
    }
}

/// The memory image of a file: zeros, the headers, and the sections.
pub open spec fn loaded_image(pe: Pe, bytes: Seq<u8>) -> Result<Seq<u8>, Trouble> {
    if identity_error(pe) is Some {
        Err(identity_error(pe)->0)
    } else {
        let sizes = pe.sizes->0;
        if sizes.size_of_headers > bytes.len() {
            Err(said("size_of_headers is larger than file size"@))
        } else if sizes.size_of_headers > sizes.size_of_image {
            Err(said("failed to slice image headers"@))
        } else {
            with_sections(
                bytes,
                overlaid(
                    Seq::new(sizes.size_of_image as nat, |i: int| 0u8),
                    0,
                    bytes.take(sizes.size_of_headers as int),
                ),
                pe.sections,
            )
        }
    }
}

/// The layout of the memory image of a file.
pub open spec fn loaded_summary(pe: Pe) -> PeLoadedImageSummary {
    PeLoadedImageSummary {
        image_base: pe.image_base,
        entry_rva: pe.entry as u64,
        entry_point_va: (pe.image_base + pe.entry) as u64,
        image_size: pe.sizes->0.size_of_image as usize,
        header_size: pe.sizes->0.size_of_headers as usize,
        section_count: pe.sections.len() as usize,
    }
}

/// Copies `size` bytes of a file into an image.
fn copy_bytes(source: &[u8], from: usize, image: &mut Vec<u8>, to: usize, size: usize)
    requires
        from + size <= source@.len(),
        to + size <= old(image)@.len(),
    ensures
        final(image)@ == overlaid(
            old(image)@,
            to as int,
            source@.subrange(from as int, from + size),
        ),
{
    let ghost before = image@;
    let ghost part = source@.subrange(from as int, from + size);
    let from_end: usize = source.len();
    let to_end: usize = image.len();
    let mut i: usize = 0;
    assert(image@ =~= overlaid(before, to as int, part.take(0)));
    while i < size
        invariant
            i <= size,
            from_end == source@.len(),
            to_end == before.len(),
            from + size <= from_end,
            to + size <= to_end,
            part == source@.subrange(from as int, from + size),
            image@ == overlaid(before, to as int, part.take(i as int)),
        decreases size - i,
    {
        image.set(to + i, source[from + i]);
        i = i + 1;
        assert(image@ =~= overlaid(before, to as int, part.take(i as int)));
    }
    assert(part.take(size as int) =~= part);
}

/// Copies a section of a file into an image.
fn copy_section(source: &[u8], image: &mut Vec<u8>, section: &SectionHeader) -> (r: Result<
    (),
    PeError,
>)
    ensures
        match with_section(source@, old(image)@, section@) {
            Ok(next) => r is Ok && final(image)@ == next,
            Err(t) => r matches Err(e) && e@ == t,
        },
{
    let from: usize = section.pointer_to_raw_data as usize;
    let size: usize = section.size_of_raw_data as usize;
    let to: usize = section.virtual_address as usize;
    if size == 0 {
        return Ok(());
    }
    let source_end: usize = match from.checked_add(size) {
        Some(end) => end,
        None => {
            return Err(pe_error("section source range overflow"));
        },
    };
    let image_end: usize = match to.checked_add(size) {
        Some(end) => end,
        None => {
            return Err(pe_error("section image range overflow"));
        },
    };
    if source_end > source.len() {
        return Err(pe_error("section raw range is outside file"));
    }
    if image_end > image.len() {
        return Err(pe_error("section virtual range is outside image"));
    }
    copy_bytes(source, from, image, to, size);
    Ok(())
}

/// The outcome of loading an image is the one that is wanted.
pub open spec fn image_loaded(
    pe: Pe,
    bytes: Seq<u8>,
    r: Result<(Vec<u8>, PeLoadedImageSummary), PeError>,
) -> bool {
    match loaded_image(pe, bytes) {
        Ok(image) => r matches Ok(v) && v.0@ == image && v.1 == loaded_summary(pe),
        Err(t) => r matches Err(e) && e@ == t,
    }
}

/// Lays out the memory image of a file whose headers are known.
pub fn load_image(pe: &ParsedPe, bytes: &[u8]) -> (r: Result<
    (Vec<u8>, PeLoadedImageSummary),
    PeError,
>)
    ensures
        image_loaded(pe@, bytes@, r),
{
    let id = match pe_identity("<memory>", pe) {
        Ok(id) => id,
        Err(e) => {
            return Err(e);
        },
    };
    assert(id.size_of_image <= u32::MAX);
    let image_size: usize = id.size_of_image as u32 as usize;
    let header_size: usize = id.size_of_headers as usize;
    if header_size > bytes.len() {
        return Err(pe_error("size_of_headers is larger than file size"));
    }
    if header_size > image_size {
        return Err(pe_error("failed to slice image headers"));
    }
    let mut image: Vec<u8> = vec![0u8; image_size];
    assert(image@ =~= Seq::new(image_size as nat, |i: int| 0u8));
    assert(bytes@.take(header_size as int) =~= bytes@.subrange(0, header_size as int));
    copy_bytes(bytes, 0, &mut image, 0, header_size);
    let ghost all = pe@.sections;
    let mut i: usize = 0;
    proof {
        assert(all.skip(0) =~= all);
    }
    while i < pe.sections.len()
        invariant
            i <= all.len(),
            all == pe@.sections,
            all.len() == pe.sections@.len(),
            loaded_image(pe@, bytes@) == with_sections(bytes@, image@, all.skip(i as int)),
        decreases all.len() - i,
    {
        proof {
            assert(all[i as int] == pe.sections@[i as int]@);
            assert(all.skip(i as int)[0] == all[i as int]);
            assert(all.skip(i as int).skip(1) =~= all.skip(i + 1));
        }
        match copy_section(bytes, &mut image, &pe.sections[i]) {
            Ok(()) => {},
            Err(e) => {
                return Err(e);
            },
        }
        i = i + 1;
    }
    let summary = PeLoadedImageSummary {
        image_base: id.image_base,
        entry_rva: id.entry_rva,
        entry_point_va: id.entry_va,
        image_size,
        header_size,
        section_count: id.section_count,
    };
    Ok((image, summary))
}

/// Builds a Windows-loader-like memory image from `PE64` bytes.
pub fn build_loaded_image_bytes(bytes: &[u8]) -> (r: Result<
    (Vec<u8>, PeLoadedImageSummary),
    PeError,
>)
    ensures
        match pe64_of(goblin_pe(bytes@)) {
            Err(t) => r matches Err(e) && e@ == t,
            Ok(pe) => image_loaded(pe, bytes@, r),
        },
{
    match parse_pe64(bytes) {
        Ok(pe) => load_image(&pe, bytes),
        Err(e) => Err(e),
    }
}

/// Copying sections keeps the size of the image.
pub proof fn sections_keep_size(source: Seq<u8>, image: Seq<u8>, sections: Seq<Section>)
    ensures
        with_sections(source, image, sections) matches Ok(next) ==> next.len() == image.len(),
    decreases sections.len(),
{
    if sections.len() > 0 {
        match with_section(source, image, sections[0]) {
            Ok(next) => sections_keep_size(source, next, sections.skip(1)),
            Err(_) => {},
        }
    }
}

/// Copying sections leaves the bytes outside them.
pub proof fn sections_leave_the_rest(
    source: Seq<u8>,
    image: Seq<u8>,
    sections: Seq<Section>,
    at: int,
)
    requires
        0 <= at < image.len(),
        forall|j: int|
            0 <= j < sections.len() ==> !((#[trigger] sections[j]).virtual_address <= at
                < sections[j].virtual_address + sections[j].size_of_raw_data),
    ensures
        with_sections(source, image, sections) matches Ok(next) ==> next[at] == image[at],
    decreases sections.len(),
{
    if sections.len() > 0 {
        match with_section(source, image, sections[0]) {
            Ok(next) => {
                let rest = sections.skip(1);
                assert forall|j: int| 0 <= j < rest.len() implies !((
                #[trigger] rest[j]).virtual_address <= at < rest[j].virtual_address
                    + rest[j].size_of_raw_data) by {
                    assert(rest[j] == sections[j + 1]);
                }
                assert(!(sections[0].virtual_address <= at < sections[0].virtual_address
                    + sections[0].size_of_raw_data));
                assert(next[at] == image[at]);
                sections_leave_the_rest(source, next, rest, at);
            },
            Err(_) => {},
        }
    }
}

/// Every byte of a section that no later section covers is the byte of the file that
/// the headers say it is.
pub proof fn loaded_bytes_come_from_the_file(pe: Pe, bytes: Seq<u8>, j: int, k: int)
    requires
        loaded_image(pe, bytes) is Ok,
        0 <= j < pe.sections.len(),
        0 <= k < pe.sections[j].size_of_raw_data,
        forall|m: int|
            j < m < pe.sections.len() ==> !((#[trigger] pe.sections[m]).virtual_address
                <= pe.sections[j].virtual_address + k < pe.sections[m].virtual_address
                + pe.sections[m].size_of_raw_data),
    ensures
        pe.sections[j].virtual_address + k < loaded_image(pe, bytes)->Ok_0.len(),
        loaded_image(pe, bytes)->Ok_0[pe.sections[j].virtual_address + k]
            == bytes[pe.sections[j].pointer_to_raw_data + k],
{
    let sizes = pe.sizes->0;
    let start = overlaid(
        Seq::new(sizes.size_of_image as nat, |i: int| 0u8),
        0,
        bytes.take(sizes.size_of_headers as int),
    );
    lemma_section_bytes(bytes, start, pe.sections, j, k);
}

/// The bytes of a section that no later one covers.
proof fn lemma_section_bytes(
    source: Seq<u8>,
    image: Seq<u8>,
    sections: Seq<Section>,
    j: int,
    k: int,
)
    requires
        with_sections(source, image, sections) is Ok,
        0 <= j < sections.len(),
        0 <= k < sections[j].size_of_raw_data,
        forall|m: int|
            j < m < sections.len() ==> !((#[trigger] sections[m]).virtual_address
                <= sections[j].virtual_address + k < sections[m].virtual_address
                + sections[m].size_of_raw_data),
    ensures
        sections[j].virtual_address + k < with_sections(source, image, sections)->Ok_0.len(),
        with_sections(source, image, sections)->Ok_0[sections[j].virtual_address + k]
            == source[sections[j].pointer_to_raw_data + k],
    decreases sections.len(),
{
    let rest = sections.skip(1);
    let next = with_section(source, image, sections[0])->Ok_0;
    let at = sections[j].virtual_address + k;
    if j == 0 {
        assert(next[at] == source[sections[0].pointer_to_raw_data + k]);
        assert forall|m: int| 0 <= m < rest.len() implies !((#[trigger] rest[m]).virtual_address
            <= at < rest[m].virtual_address + rest[m].size_of_raw_data) by {
            assert(rest[m] == sections[m + 1]);
        }
        sections_keep_size(source, next, rest);
        sections_leave_the_rest(source, next, rest, at);
    } else {
        assert(rest[j - 1] == sections[j]);
        assert forall|m: int| j - 1 < m < rest.len() implies !((
        #[trigger] rest[m]).virtual_address <= rest[j - 1].virtual_address + k
            < rest[m].virtual_address + rest[m].size_of_raw_data) by {
            assert(rest[m] == sections[m + 1]);
        }
        lemma_section_bytes(source, next, rest, j - 1, k);
    }
}

} // verus!
