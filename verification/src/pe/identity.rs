//! What a process is called, and what its image says about itself.

use vstd::prelude::*;
use vstd::string::{StrSliceExecFns, StringExecFns};

use crate::pe::error::{pe_error, said, PeError, Trouble};
use crate::pe::parsed::{goblin_pe, parse_pe64, pe64_of, ParsedPe, Pe};

verus! {

/// Loader identity of a PE64 image: the fields that the runtime takes from the file.
#[derive(Debug, Clone, PartialEq, Eq)]
pub struct PeIdentity {
    /// Host path used when the image was opened.
    pub path: String,
    /// Preferred `ImageBase` from the optional header.
    pub image_base: u64,
    /// `AddressOfEntryPoint` RVA.
    pub entry_rva: u64,
    /// Absolute entry VA: `image_base + entry_rva`.
    pub entry_va: u64,
    /// `SizeOfImage`.
    pub size_of_image: u64,
    /// `SizeOfHeaders`.
    pub size_of_headers: u32,
    /// COFF `Machine`.
    pub machine: u16,
    /// Always true: only PE32+ images are accepted.
    pub is_pe64: bool,
    /// Number of sections.
    pub section_count: usize,
}

/// Guest-visible process identity derived from the host PE path.
#[derive(Debug, Clone, PartialEq, Eq)]
pub struct ProcessIdentity {
    /// Basename used for command line and module file name.
    pub module_file_name: String,
    /// Guest full path of the main module.
    pub full_path: String,
    /// Guest current directory, the parent of `full_path`.
    pub current_directory: String,
    /// Default command line.
    pub command_line: String,
}

/// A path without the separators and the components `.` at its end.
pub open spec fn trimmed(path: Seq<char>) -> Seq<char>
    decreases path.len(),
{
    if path.len() == 0 {
        path
    } else if path.last() == '/' || (path.last() == '.' && (path.len() == 1 || path[path.len() - 2]
        == '/')) {
        trimmed(path.drop_last())
    } else {
        path
    }
}

/// What follows the last separator of a path.
pub open spec fn after_separator(path: Seq<char>) -> Seq<char>
    decreases path.len(),
{
    if path.len() == 0 || path.last() == '/' {
        Seq::empty()
    } else {
        after_separator(path.drop_last()).push(path.last())
    }
}

/// The final component of a path, if that is a name: there is none in an empty path
/// or in one that ends in `..`.
pub open spec fn file_name(path: Seq<char>) -> Option<Seq<char>> {
    let name = after_separator(trimmed(path));
    if name.len() == 0 || name == seq!['.', '.'] {
        None
    } else {
        Some(name)
    }
}

/// What follows the last separator is the end of the path.
proof fn lemma_after_separator(path: Seq<char>, start: int)
    requires
        0 <= start <= path.len(),
        start > 0 ==> path[start - 1] == '/',
        forall|k: int| start <= k < path.len() ==> path[k] != '/',
    ensures
        after_separator(path) == path.subrange(start, path.len() as int),
    decreases path.len(),
{
    if path.len() == 0 || path.last() == '/' {
        assert(start == path.len());
        assert(path.subrange(start, path.len() as int) =~= Seq::<char>::empty());
    } else {
        if start == path.len() {
            assert(false);
        }
        lemma_after_separator(path.drop_last(), start);
        assert(path.drop_last().subrange(start, path.len() - 1).push(path.last())
            =~= path.subrange(start, path.len() as int));
    }
}

/// The final component of a host path.
pub fn path_file_name(path: &str) -> (r: Option<&str>)
    ensures
        match file_name(path@) {
            Some(name) => r matches Some(s) && s@ == name,
            None => r is None,
        },
{
    let mut end: usize = path.unicode_len();
    proof {
        assert(path@.take(end as int) =~= path@);
    }
    while end > 0 && (path.get_char(end - 1) == '/' || (path.get_char(end - 1) == '.' && (end == 1
        || path.get_char(end - 2) == '/')))
        invariant
            end <= path@.len(),
            trimmed(path@.take(end as int)) == trimmed(path@),
        decreases end,
    {
        proof {
            let p = path@.take(end as int);
            assert(p.drop_last() =~= path@.take(end - 1));
        }
        end = end - 1;
    }
    let ghost whole = path@.take(end as int);
    assert(trimmed(path@) == whole);
    let mut start: usize = end;
    while start > 0 && path.get_char(start - 1) != '/'
        invariant
            start <= end,
            end <= path@.len(),
            whole == path@.take(end as int),
            forall|k: int| start <= k < end ==> whole[k] != '/',
        decreases start,
    {
        start = start - 1;
    }
    proof {
        lemma_after_separator(whole, start as int);
        assert(whole.subrange(start as int, whole.len() as int) =~= path@.subrange(
            start as int,
            end as int,
        ));
    }
    let ghost name = path@.subrange(start as int, end as int);
    if start == end {
        return None;
    }
    if end - start == 2 && path.get_char(start) == '.' && path.get_char(start + 1) == '.' {
        proof {
            assert(name =~= seq!['.', '.']);
        }
        return None;
    }
    proof {
        if name == seq!['.', '.'] {
            assert(name.len() == 2);
            assert(name[0] == '.');
            assert(name[1] == '.');
        }
    }
    Some(path.substring_char(start, end))
}

/// The name of the main module: the basename of the host path, or `app.exe` where it
/// has none.
pub open spec fn module_name(path: Seq<char>) -> Seq<char> {
    match file_name(path) {
        Some(name) => name,
        None => "app.exe"@,
    }
}

/// Builds guest process identity from a host PE path. The file is not looked at.
#[must_use]
pub fn process_identity_from_host_path(host_path: &str) -> (r: ProcessIdentity)
    ensures
        r.module_file_name@ == module_name(host_path@),
        r.full_path@ == "C:\\App\\"@ + module_name(host_path@),
        r.current_directory@ == "C:\\App"@,
        r.command_line@ == module_name(host_path@),
{
    let name: &str = match path_file_name(host_path) {
        Some(s) => s,
        None => "app.exe",
    };
    let mut full_path = "C:\\App\\".to_owned();
    full_path.append(name);
    ProcessIdentity {
        module_file_name: name.to_owned(),
        full_path,
        current_directory: "C:\\App".to_owned(),
        command_line: name.to_owned(),
    }
}

/// The error that an image without a usable identity gives.
pub open spec fn identity_error(pe: Pe) -> Option<Trouble> {
    if pe.image_base + pe.entry > u64::MAX {
        Some(said("entry point VA overflow"@))
    } else if pe.sizes is None {
        Some(said("PE image has no optional header"@))
    } else {
        None
    }
}

/// An identity is the one that the headers give.
pub open spec fn identifies(id: PeIdentity, path: Seq<char>, pe: Pe) -> bool {
    &&& id.path@ == path
    &&& id.image_base == pe.image_base
    &&& id.entry_rva == pe.entry
    &&& id.entry_va == pe.image_base + pe.entry
    &&& id.size_of_image == pe.sizes->0.size_of_image
    &&& id.size_of_headers == pe.sizes->0.size_of_headers
    &&& id.machine == pe.machine
    &&& id.is_pe64
    &&& id.section_count == pe.sections.len()
}

/// The loader identity that the headers of an image give.
pub fn pe_identity(path: &str, pe: &ParsedPe) -> (r: Result<PeIdentity, PeError>)
    ensures
        match identity_error(pe@) {
            Some(t) => r matches Err(e) && e@ == t,
            None => r matches Ok(id) && identifies(id, path@, pe@),
        },
{
    let entry_rva: u64 = pe.entry as u64;
    let entry_va: u64 = match pe.image_base.checked_add(entry_rva) {
        Some(va) => va,
        None => {
            return Err(pe_error("entry point VA overflow"));
        },
    };
    match pe.sizes {
        None => Err(pe_error("PE image has no optional header")),
        Some(sizes) => Ok(
            PeIdentity {
                path: path.to_owned(),
                image_base: pe.image_base,
                entry_rva,
                entry_va,
                size_of_image: sizes.size_of_image as u64,
                size_of_headers: sizes.size_of_headers,
                machine: pe.machine,
                is_pe64: true,
                section_count: pe.sections.len(),
            },
        ),
    }
}

/// Parses PE64 bytes and returns loader identity.
pub fn pe_identity_from_bytes(path: &str, bytes: &[u8]) -> (r: Result<PeIdentity, PeError>)
    ensures
        match pe64_of(goblin_pe(bytes@)) {
            Err(t) => r matches Err(e) && e@ == t,
            Ok(pe) => match identity_error(pe) {
                Some(t) => r matches Err(e) && e@ == t,
                None => r matches Ok(id) && identifies(id, path@, pe),
            },
        },
{
    match parse_pe64(bytes) {
        Ok(pe) => pe_identity(path, &pe),
        Err(e) => Err(e),
    }
}

/// Basic image information needed before loading the executable.
#[derive(Debug, Clone)]
pub struct PeImageSummary {
    /// Input file path.
    pub path: String,
    /// Whether the image is `PE64`.
    pub is_pe64: bool,
    /// `COFF` machine field.
    pub machine: u16,
    /// Preferred image base.
    pub image_base: u64,
    /// `AddressOfEntryPoint` RVA.
    pub entry_rva: u64,
    /// Absolute entry point virtual address.
    pub entry_point_va: u64,
    /// Number of sections.
    pub section_count: usize,
    /// Number of imported libraries.
    pub library_count: usize,
    /// Number of imported functions.
    pub import_count: usize,
}

/// A summary is the one that the headers give.
pub open spec fn summarizes(s: PeImageSummary, path: Seq<char>, pe: Pe) -> bool {
    &&& s.path@ == path
    &&& s.is_pe64
    &&& s.machine == pe.machine
    &&& s.image_base == pe.image_base
    &&& s.entry_rva == pe.entry
    &&& s.entry_point_va == pe.image_base + pe.entry
    &&& s.section_count == pe.sections.len()
    &&& s.library_count == pe.library_count
    &&& s.import_count == pe.import_count
}

/// Summarizes an image from its headers.
pub fn pe_summary(path: &str, pe: &ParsedPe) -> (r: Result<PeImageSummary, PeError>)
    ensures
        match identity_error(pe@) {
            Some(t) => r matches Err(e) && e@ == t,
            None => r matches Ok(s) && summarizes(s, path@, pe@),
        },
{
    match pe_identity(path, pe) {
        Ok(id) => Ok(
            PeImageSummary {
                path: id.path,
                is_pe64: id.is_pe64,
                machine: id.machine,
                image_base: id.image_base,
                entry_rva: id.entry_rva,
                entry_point_va: id.entry_va,
                section_count: id.section_count,
                library_count: pe.library_count,
                import_count: pe.import_count,
            },
        ),
        Err(e) => Err(e),
    }
}

/// Inspects a `PE` image from bytes.
pub fn inspect_pe_bytes(path: &str, bytes: &[u8]) -> (r: Result<PeImageSummary, PeError>)
    ensures
        match pe64_of(goblin_pe(bytes@)) {
            Err(t) => r matches Err(e) && e@ == t,
            Ok(pe) => match identity_error(pe) {
                Some(t) => r matches Err(e) && e@ == t,
                None => r matches Ok(s) && summarizes(s, path@, pe),
            },
        },
{
    match parse_pe64(bytes) {
        Ok(pe) => pe_summary(path, &pe),
        Err(e) => Err(e),
    }
}

} // verus!
