//! Sections: what they are called and where they lie in the file and in memory.

use vstd::prelude::*;
use vstd::string::StringExecFns;

use crate::pe::error::{
    because, pe_error, pe_error_from, pe_error_of, pe_gives, said, PeError, Trouble,
};
use crate::pe::parsed::{goblin_pe, parse_pe64, pe64_of, ParsedPe, Pe, Section};
use crate::text::{hex_padded, push_hex_padded};

verus! {

/// `PE` section metadata needed for image mapping.
#[derive(Debug, Clone)]
pub struct PeSectionSummary {
    /// Section name.
    pub name: String,
    /// Section virtual address relative to image base.
    pub virtual_address: u32,
    /// Section virtual size.
    pub virtual_size: u32,
    /// Section raw file offset.
    pub pointer_to_raw_data: u32,
    /// Section raw file size.
    pub size_of_raw_data: u32,
    /// Absolute section virtual address.
    pub virtual_address_va: u64,
}

/// What is wrong with a section of an image at `base`.
pub open spec fn section_error(base: u64, s: Section) -> Option<Trouble> {
    if s.name is Err {
        Some(because("failed to read section name"@, said(s.name->Err_0)))
    } else if base + s.virtual_address > u64::MAX {
        Some(said("section VA overflow"@))
    } else {
        None
    }
}

/// What is wrong with the first section that something is wrong with.
pub open spec fn first_section_error(base: u64, sections: Seq<Section>) -> Option<Trouble>
    decreases sections.len(),
{
    if sections.len() == 0 {
        None
    } else if section_error(base, sections[0]) is Some {
        section_error(base, sections[0])
    } else {
        first_section_error(base, sections.skip(1))
    }
}

/// A summary is that of a section of an image at `base`.
pub open spec fn describes(d: PeSectionSummary, base: u64, s: Section) -> bool {
    &&& s.name == Ok::<Seq<char>, Seq<char>>(d.name@)
    &&& d.virtual_address == s.virtual_address
    &&& d.virtual_size == s.virtual_size
    &&& d.pointer_to_raw_data == s.pointer_to_raw_data
    &&& d.size_of_raw_data == s.size_of_raw_data
    &&& d.virtual_address_va == base + s.virtual_address
}

/// What the section summaries of an image are.
pub open spec fn sections_summarized(pe: Pe, r: Result<Vec<PeSectionSummary>, PeError>) -> bool {
    match first_section_error(pe.image_base, pe.sections) {
        Some(t) => r matches Err(e) && e@ == t,
        None => r matches Ok(v) && v@.len() == pe.sections.len() && forall|j: int|
            0 <= j < v@.len() ==> describes(#[trigger] v@[j], pe.image_base, pe.sections[j]),
    }
}

/// Summarizes the sections of an image.
pub fn pe_sections(pe: &ParsedPe) -> (r: Result<Vec<PeSectionSummary>, PeError>)
    ensures
        sections_summarized(pe@, r),
{
    let ghost all = pe@.sections;
    let mut out: Vec<PeSectionSummary> = Vec::new();
    let mut i: usize = 0;
    proof {
        assert(all.skip(0) =~= all);
    }
    while i < pe.sections.len()
        invariant
            i <= all.len(),
            all == pe@.sections,
            all.len() == pe.sections@.len(),
            first_section_error(pe.image_base, all) == first_section_error(
                pe.image_base,
                all.skip(i as int),
            ),
            out@.len() == i,
            forall|j: int| 0 <= j < i ==> describes(#[trigger] out@[j], pe.image_base, all[j]),
        decreases all.len() - i,
    {
        let s = &pe.sections[i];
        proof {
            assert(all[i as int] == s@);
            assert(all.skip(i as int)[0] == s@);
            assert(all.skip(i as int).skip(1) =~= all.skip(i + 1));
        }
        let name = match &s.name {
            Ok(n) => n.as_str().to_owned(),
            Err(e) => {
                return Err(pe_error_from("failed to read section name", e.as_str().to_owned()));
            },
        };
        let virtual_address_va: u64 = match pe.image_base.checked_add(s.virtual_address as u64) {
            Some(va) => va,
            None => {
                return Err(pe_error("section VA overflow"));
            },
        };
        out.push(
            PeSectionSummary {
                name,
                virtual_address: s.virtual_address,
                virtual_size: s.virtual_size,
                pointer_to_raw_data: s.pointer_to_raw_data,
                size_of_raw_data: s.size_of_raw_data,
                virtual_address_va,
            },
        );
        i = i + 1;
    }
    Ok(out)
}

/// Reads section metadata from `PE` bytes.
pub fn inspect_pe_sections_bytes(bytes: &[u8]) -> (r: Result<Vec<PeSectionSummary>, PeError>)
    ensures
        match pe64_of(goblin_pe(bytes@)) {
            Err(t) => r matches Err(e) && e@ == t,
            Ok(pe) => sections_summarized(pe, r),
        },
{
    match parse_pe64(bytes) {
        Ok(pe) => pe_sections(&pe),
        Err(e) => Err(e),
    }
}

/// The size that a section takes in memory or in the file, whichever is larger.
pub open spec fn mapped_size(s: Section) -> int {
    if s.virtual_size < s.size_of_raw_data {
        s.size_of_raw_data as int
    } else {
        s.virtual_size as int
    }
}

/// A relative address lies in a section.
pub open spec fn in_section(s: Section, rva: u64) -> bool {
    s.virtual_address <= rva < s.virtual_address + mapped_size(s)
}

/// The offset in the file of a relative address: that in the first section that the
/// address lies in.
pub open spec fn file_offset(sections: Seq<Section>, rva: u64) -> Result<usize, Trouble>
    decreases sections.len(),
{
    if sections.len() == 0 {
        Err(said("RVA "@ + hex_padded(rva as nat, 8) + " is not inside any section"@))
    } else if in_section(sections[0], rva) {
        let offset = sections[0].pointer_to_raw_data + (rva - sections[0].virtual_address);
        if offset <= usize::MAX {
            Ok(offset as usize)
        } else {
            Err(said("raw file offset does not fit usize"@))
        }
    } else {
        file_offset(sections.skip(1), rva)
    }
}

/// The offset in the file of a 32-bit relative address.
pub fn rva_to_file_offset(pe: &ParsedPe, rva: u32) -> (r: Result<usize, PeError>)
    ensures
        pe_gives(file_offset(pe@.sections, rva as u64), r),
{
    rva_to_file_offset_u64(pe, rva as u64)
}

/// The offset in the file of a relative address.
pub fn rva_to_file_offset_u64(pe: &ParsedPe, rva: u64) -> (r: Result<usize, PeError>)
    ensures
        pe_gives(file_offset(pe@.sections, rva), r),
{
    let ghost all = pe@.sections;
    let mut i: usize = 0;
    proof {
        assert(all.skip(0) =~= all);
    }
    while i < pe.sections.len()
        invariant
            i <= all.len(),
            all == pe@.sections,
            all.len() == pe.sections@.len(),
            file_offset(all, rva) == file_offset(all.skip(i as int), rva),
        decreases all.len() - i,
    {
        let s = &pe.sections[i];
        proof {
            assert(all[i as int] == s@);
            assert(all.skip(i as int)[0] == s@);
            assert(all.skip(i as int).skip(1) =~= all.skip(i + 1));
        }
        let start: u64 = s.virtual_address as u64;
        let size: u64 = if s.virtual_size < s.size_of_raw_data {
            s.size_of_raw_data as u64
        } else {
            s.virtual_size as u64
        };
        if rva >= start && rva < start + size {
            let offset: u64 = s.pointer_to_raw_data as u64 + (rva - start);
            if offset <= usize::MAX as u64 {
                return Ok(offset as usize);
            }
            return Err(pe_error("raw file offset does not fit usize"));
        }
        i = i + 1;
    }
    let mut text = "RVA ".to_owned();
    push_hex_padded(&mut text, rva, 8);
    text.append(" is not inside any section");
    Err(pe_error_of(text))
}

} // verus!
