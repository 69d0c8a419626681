//! The headers of a PE image as plain values, and the parser that reads them.

use goblin::pe::PE;
use vstd::prelude::*;

use crate::pe::error::{because, pe_error, pe_error_from, said, PeError, Trouble};

verus! {

/// The header of a section.
#[derive(Debug)]
pub struct SectionHeader {
    /// Name, or why it is not text.
    pub name: Result<String, String>,
    /// Address in memory, relative to the image base.
    pub virtual_address: u32,
    /// Size in memory.
    pub virtual_size: u32,
    /// Offset in the file.
    pub pointer_to_raw_data: u32,
    /// Size in the file.
    pub size_of_raw_data: u32,
}

/// The header of a section as a mathematical value.
pub struct Section {
    /// Name, or why it is not text.
    pub name: Result<Seq<char>, Seq<char>>,
    /// Address in memory, relative to the image base.
    pub virtual_address: u32,
    /// Size in memory.
    pub virtual_size: u32,
    /// Offset in the file.
    pub pointer_to_raw_data: u32,
    /// Size in the file.
    pub size_of_raw_data: u32,
}

impl View for SectionHeader {
    type V = Section;

    open spec fn view(&self) -> Section {
        Section {
            name: match self.name {
                Ok(n) => Ok(n@),
                Err(e) => Err(e@),
            },
            virtual_address: self.virtual_address,
            virtual_size: self.virtual_size,
            pointer_to_raw_data: self.pointer_to_raw_data,
            size_of_raw_data: self.size_of_raw_data,
        }
    }
}

impl SectionHeader {
    /// A header with the given fields.
    pub fn new(
        name: Result<&str, String>,
        virtual_address: u32,
        virtual_size: u32,
        pointer_to_raw_data: u32,
        size_of_raw_data: u32,
    ) -> (s: SectionHeader)
        ensures
            s@ == (Section {
                name: match name {
                    Ok(n) => Ok(n@),
                    Err(e) => Err(e@),
                },
                virtual_address,
                virtual_size,
                pointer_to_raw_data,
                size_of_raw_data,
            }),
    {
        let name = match name {
            Ok(n) => Ok(n.to_owned()),
            Err(e) => Err(e),
        };
        SectionHeader { name, virtual_address, virtual_size, pointer_to_raw_data, size_of_raw_data }
    }
}

/// Sizes out of the optional header.
#[derive(Debug, Clone, Copy, PartialEq, Eq, Structural)]
pub struct ImageSizes {
    /// `SizeOfImage`.
    pub size_of_image: u32,
    /// `SizeOfHeaders`.
    pub size_of_headers: u32,
}

/// What the loader reads of a PE image.
#[derive(Debug)]
pub struct ParsedPe {
    /// Whether the image is `PE32+`.
    pub is_64: bool,
    /// Preferred image base.
    pub image_base: u64,
    /// `AddressOfEntryPoint`.
    pub entry: u32,
    /// COFF `Machine`.
    pub machine: u16,
    /// Sizes out of the optional header, if there is one.
    pub sizes: Option<ImageSizes>,
    /// Relative address of the import directory, if there is one.
    pub import_directory: Option<u32>,
    /// Headers of the sections.
    pub sections: Vec<SectionHeader>,
    /// Number of imported libraries.
    pub library_count: usize,
    /// Number of imported functions.
    pub import_count: usize,
}

/// What the loader reads of a PE image, as a mathematical value.
pub struct Pe {
    /// Whether the image is `PE32+`.
    pub is_64: bool,
    /// Preferred image base.
    pub image_base: u64,
    /// `AddressOfEntryPoint`.
    pub entry: u32,
    /// COFF `Machine`.
    pub machine: u16,
    /// Sizes out of the optional header, if there is one.
    pub sizes: Option<ImageSizes>,
    /// Relative address of the import directory, if there is one.
    pub import_directory: Option<u32>,
    /// Headers of the sections.
    pub sections: Seq<Section>,
    /// Number of imported libraries.
    pub library_count: usize,
    /// Number of imported functions.
    pub import_count: usize,
}

impl View for ParsedPe {
    type V = Pe;

    open spec fn view(&self) -> Pe {
        Pe {
            is_64: self.is_64,
            image_base: self.image_base,
            entry: self.entry,
            machine: self.machine,
            sizes: self.sizes,
            import_directory: self.import_directory,
            sections: self.sections@.map_values(|s: SectionHeader| s@),
            library_count: self.library_count,
            import_count: self.import_count,
        }
    }
}

impl ParsedPe {
    /// A value with the given fields.
    pub fn new(
        is_64: bool,
        image_base: u64,
        entry: u32,
        machine: u16,
        sizes: Option<ImageSizes>,
        import_directory: Option<u32>,
        sections: Vec<SectionHeader>,
        library_count: usize,
        import_count: usize,
    ) -> (p: ParsedPe)
        ensures
            p@ == (Pe {
                is_64,
                image_base,
                entry,
                machine,
                sizes,
                import_directory,
                sections: sections@.map_values(|s: SectionHeader| s@),
                library_count,
                import_count,
            }),
    {
        ParsedPe {
            is_64,
            image_base,
            entry,
            machine,
            sizes,
            import_directory,
            sections,
            library_count,
            import_count,
        }
    }
}

/// What `goblin::pe::PE::parse` reads in a file, or why it does not accept the file.
pub uninterp spec fn goblin_pe(bytes: Seq<u8>) -> Result<Pe, Seq<char>>;

/// Calls `goblin::pe::PE::parse` and takes over the fields that the loader reads, or
/// the text of its error. The claim is only that what comes back depends on the bytes
/// of the file alone; which files are accepted, and which of their bytes are read as
/// which field, is the parser's affair. A section's name, or the text of the error, is
/// what its method `name` returns.
///
/// The parser does not panic. It tests offsets before it reads, and adds up 32-bit
/// fields as `usize`, which is wide enough on a 64-bit host, but for the end of a
/// section, which it adds up in 32 bits for a debug log message (`find_offset`). The
/// `log` crate is limited to `info` at compile time, so no build makes that sum.
#[verifier::external_body]
fn parse(bytes: &[u8]) -> (r: Result<ParsedPe, String>)
    ensures
        match r {
            Ok(p) => goblin_pe(bytes@) == Ok::<Pe, Seq<char>>(p@),
            Err(e) => goblin_pe(bytes@) == Err::<Pe, Seq<char>>(e@),
        },
{
    let pe = PE::parse(bytes).map_err(|e| e.to_string())?;
    let header = pe.header.optional_header;
    let sizes = header.map(|h| ImageSizes {
        size_of_image: h.windows_fields.size_of_image, size_of_headers: h.windows_fields.size_of_headers });
    let import_directory = header.and_then(|h| Some(h.data_directories.get_import_table()?.virtual_address));
    let sections = pe.sections.iter().map(|s| SectionHeader::new(s.name().map_err(|e| e.to_string()),
        s.virtual_address, s.virtual_size, s.pointer_to_raw_data, s.size_of_raw_data));
    Ok(ParsedPe::new(pe.is_64, pe.image_base, pe.entry, pe.header.coff_header.machine, sizes,
        import_directory, sections.collect(), pe.libraries.len(), pe.imports.len()))
}

/// The headers of a PE64 file, or what is wrong with it.
pub open spec fn pe64_of(parsed: Result<Pe, Seq<char>>) -> Result<Pe, Trouble> {
    match parsed {
        Err(cause) => Err(because("failed to parse PE image"@, said(cause))),
        Ok(pe) => if pe.is_64 {
            Ok(pe)
        } else {
            Err(said("expected PE64 image, got PE32"@))
        },
    }
}

/// Accepts 64-bit images only.
pub fn require_pe64(parsed: Result<ParsedPe, String>) -> (r: Result<ParsedPe, PeError>)
    ensures
        match pe64_of(
            match parsed {
                Ok(p) => Ok(p@),
                Err(e) => Err(e@),
            },
        ) {
            Ok(pe) => r matches Ok(p) && p@ == pe,
            Err(t) => r matches Err(e) && e@ == t,
        },
{
    match parsed {
        Err(e) => Err(pe_error_from("failed to parse PE image", e)),
        Ok(pe) => if pe.is_64 {
            Ok(pe)
        } else {
            Err(pe_error("expected PE64 image, got PE32"))
        },
    }
}

/// Parses a PE64 file.
pub fn parse_pe64(bytes: &[u8]) -> (r: Result<ParsedPe, PeError>)
    ensures
        match pe64_of(goblin_pe(bytes@)) {
            Ok(pe) => r matches Ok(p) && p@ == pe,
            Err(t) => r matches Err(e) && e@ == t,
        },
{
    require_pe64(parse(bytes))
}

} // verus!
