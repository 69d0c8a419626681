//! Imported functions of a loaded image: each slot of its address table is made to
//! hold an address by which the runtime recognizes the call.

use vstd::prelude::*;

use crate::endian::{
    bytes_round_trip, le_bytes, le_value, lemma_le_bytes_len, lemma_pow256, write_le,
};
use crate::pe::error::{pe_error, said, PeError, Trouble};
use crate::pe::image::{load_image, loaded_image, loaded_summary, overlaid, PeLoadedImageSummary};
use crate::pe::imports::{image_imports, imports_of, pe_imports, Import, PeImportSummary};
use crate::pe::parsed::{goblin_pe, parse_pe64, pe64_of, ParsedPe, Pe};
use crate::text::{dec, with_dec};

verus! {

/// Address of the first fake API target.
pub const FAKE_API_BASE: u64 = 0x0000_7000_0000_0000;

/// Distance between two fake API targets.
pub const FAKE_API_STRIDE: u64 = 0x10;

/// Patched fake import entry.
#[derive(Debug, Clone)]
pub struct PePatchedImport {
    /// Imported library name.
    pub library: String,
    /// Imported function name, or an `ORDINAL` label.
    pub name: String,
    /// Runtime `IAT` slot virtual address.
    pub iat_slot_va: u64,
    /// Runtime `IAT` slot relative virtual address.
    pub iat_slot_rva: u64,
    /// Fake API target virtual address written into the `IAT` slot.
    pub fake_target_va: u64,
}

/// A patched import as a mathematical value.
pub struct Patched {
    /// Imported library name.
    pub library: Seq<char>,
    /// Imported function name, or an `ORDINAL` label.
    pub name: Seq<char>,
    /// Runtime `IAT` slot virtual address.
    pub iat_slot_va: u64,
    /// Runtime `IAT` slot relative virtual address.
    pub iat_slot_rva: u64,
    /// Fake API target virtual address written into the `IAT` slot.
    pub fake_target_va: u64,
}

impl View for PePatchedImport {
    type V = Patched;

    open spec fn view(&self) -> Patched {
        Patched {
            library: self.library@,
            name: self.name@,
            iat_slot_va: self.iat_slot_va,
            iat_slot_rva: self.iat_slot_rva,
            fake_target_va: self.fake_target_va,
        }
    }
}

/// Fake API lookup entry used by the runtime dispatcher.
#[derive(Debug, Clone)]
pub struct PeFakeApiEntry {
    /// Fake API target virtual address.
    pub fake_target_va: u64,
    /// Imported library name.
    pub library: String,
    /// Imported function name, or an `ORDINAL` label.
    pub name: String,
    /// Runtime `IAT` slot virtual address.
    pub iat_slot_va: u64,
    /// Runtime `IAT` slot relative virtual address.
    pub iat_slot_rva: u64,
}

impl View for PeFakeApiEntry {
    type V = Patched;

    open spec fn view(&self) -> Patched {
        Patched {
            library: self.library@,
            name: self.name@,
            iat_slot_va: self.iat_slot_va,
            iat_slot_rva: self.iat_slot_rva,
            fake_target_va: self.fake_target_va,
        }
    }
}

/// The patched imports of a list.
pub open spec fn patched_of(v: Seq<PePatchedImport>) -> Seq<Patched> {
    v.map_values(|p: PePatchedImport| p@)
}

/// The entries of a lookup list.
pub open spec fn entries_of(v: Seq<PeFakeApiEntry>) -> Seq<Patched> {
    v.map_values(|p: PeFakeApiEntry| p@)
}

/// The fake target of the import number `index`.
pub open spec fn fake_target(index: int) -> int {
    FAKE_API_BASE + index * FAKE_API_STRIDE
}

/// What an import is called: its name, or its ordinal where it has none.
pub open spec fn import_label(i: Import) -> Seq<char> {
    if i.name.len() == 0 {
        "ORDINAL "@ + dec(i.ordinal as nat)
    } else {
        i.name
    }
}

/// The import number `index` once its slot is patched.
pub open spec fn patched_import(i: Import, index: int) -> Patched {
    Patched {
        library: i.library,
        name: import_label(i),
        iat_slot_va: i.iat_slot_va,
        iat_slot_rva: i.iat_slot_rva,
        fake_target_va: fake_target(index) as u64,
    }
}

/// Why the slot of the import number `index` cannot be patched.
pub open spec fn patch_error(size: nat, i: Import, index: int) -> Option<Trouble> {
    if index * FAKE_API_STRIDE > u64::MAX {
        Some(said("fake API index multiplication overflow"@))
    } else if fake_target(index) > u64::MAX {
        Some(said("fake API address overflow"@))
    } else if i.iat_slot_rva > usize::MAX {
        Some(said("IAT slot RVA does not fit usize"@))
    } else if i.iat_slot_rva + 8 > usize::MAX {
        Some(said("IAT slot write range overflow"@))
    } else if i.iat_slot_rva + 8 > size {
        Some(said("IAT slot is outside loaded image"@))
    } else {
        None
    }
}

/// An image after the slot of the import number `index` was patched.
pub open spec fn slot_patched(image: Seq<u8>, i: Import, index: int) -> Seq<u8> {
    overlaid(image, i.iat_slot_rva as int, le_bytes(fake_target(index), 8))
}

/// An image after the slots of the imports from number `index` on were patched, up
/// to the first that cannot be, and why that one cannot be.
pub open spec fn patched_image(image: Seq<u8>, imports: Seq<Import>, index: int) -> (
    Seq<u8>,
    Option<Trouble>,
)
    decreases imports.len() - index,
{
    if index < 0 || index >= imports.len() {
        (image, None)
    } else {
        match patch_error(image.len(), imports[index], index) {
            Some(t) => (image, Some(t)),
            None => patched_image(
                slot_patched(image, imports[index], index),
                imports,
                index + 1,
            ),
        }
    }
}

/// The patched imports of an image.
pub open spec fn patched_imports(imports: Seq<Import>) -> Seq<Patched> {
    Seq::new(imports.len(), |k: int| patched_import(imports[k], k))
}

/// Writes bytes into an image.
fn overlay(image: &mut [u8], at: usize, part: &Vec<u8>)
    requires
        at + part@.len() <= old(image)@.len(),
    ensures
        final(image)@ == overlaid(old(image)@, at as int, part@),
{
    let ghost before = image@;
    let end: usize = image.len();
    let mut i: usize = 0;
    assert(image@ =~= overlaid(before, at as int, part@.take(0)));
    while i < part.len()
        invariant
            i <= part@.len(),
            end == before.len(),
            at + part@.len() <= end,
            image@ == overlaid(before, at as int, part@.take(i as int)),
        decreases part@.len() - i,
    {
        image[at + i] = part[i];
        i = i + 1;
        assert(image@ =~= overlaid(before, at as int, part@.take(i as int)));
    }
    assert(part@.take(part@.len() as int) =~= part@);
}

/// What an import is called.
fn label(import: &PeImportSummary) -> (s: String)
    ensures
        s@ == import_label(import@),
{
    if import.name.as_str().is_empty() {
        with_dec("ORDINAL ", import.ordinal as u64)
    } else {
        import.name.as_str().to_owned()
    }
}

/// Patches `IAT` slots in an already loaded image.
pub fn patch_loaded_image_imports(image: &mut [u8], imports: &[PeImportSummary]) -> (r: Result<
    Vec<PePatchedImport>,
    PeError,
>)
    ensures
        final(image)@ == patched_image(old(image)@, imports_of(imports@), 0).0,
        match patched_image(old(image)@, imports_of(imports@), 0).1 {
            None => r matches Ok(v) && patched_of(v@) == patched_imports(imports_of(imports@)),
            Some(t) => r matches Err(e) && e@ == t,
        },
{
    let ghost all = imports_of(imports@);
    let ghost whole = patched_image(image@, all, 0);
    let mut out: Vec<PePatchedImport> = Vec::new();
    let mut index: usize = 0;
    while index < imports.len()
        invariant
            index <= imports@.len(),
            all == imports_of(imports@),
            whole == patched_image(old(image)@, all, 0),
            whole == patched_image(image@, all, index as int),
            out@.len() == index,
            forall|k: int| 0 <= k < index ==> (#[trigger] out@[k])@ == patched_import(all[k], k),
        decreases imports@.len() - index,
    {
        let import = &imports[index];
        assert(all[index as int] == import@);
        let step: u64 = match (index as u64).checked_mul(FAKE_API_STRIDE) {
            Some(s) => s,
            None => {
                return Err(pe_error("fake API index multiplication overflow"));
            },
        };
        let fake_target_va: u64 = match FAKE_API_BASE.checked_add(step) {
            Some(va) => va,
            None => {
                return Err(pe_error("fake API address overflow"));
            },
        };
        if import.iat_slot_rva > usize::MAX as u64 {
            return Err(pe_error("IAT slot RVA does not fit usize"));
        }
        let slot: usize = import.iat_slot_rva as usize;
        let slot_end: usize = match slot.checked_add(8) {
            Some(end) => end,
            None => {
                return Err(pe_error("IAT slot write range overflow"));
            },
        };
        if slot_end > image.len() {
            return Err(pe_error("IAT slot is outside loaded image"));
        }
        let bytes = write_le(fake_target_va, 8);
        overlay(image, slot, &bytes);
        out.push(
            PePatchedImport {
                library: import.library.as_str().to_owned(),
                name: label(import),
                iat_slot_va: import.iat_slot_va,
                iat_slot_rva: import.iat_slot_rva,
                fake_target_va,
            },
        );
        index = index + 1;
    }
    assert(patched_of(out@) =~= patched_imports(all));
    Ok(out)
}

/// Converts patched imports into fake API dispatcher lookup entries.
#[must_use]
pub fn build_fake_api_lookup(patched: &[PePatchedImport]) -> (r: Vec<PeFakeApiEntry>)
    ensures
        entries_of(r@) == patched_of(patched@),
{
    let mut out: Vec<PeFakeApiEntry> = Vec::new();
    let mut i: usize = 0;
    while i < patched.len()
        invariant
            i <= patched@.len(),
            out@.len() == i,
            forall|k: int| 0 <= k < i ==> (#[trigger] out@[k])@ == patched@[k]@,
        decreases patched@.len() - i,
    {
        let p = &patched[i];
        out.push(
            PeFakeApiEntry {
                fake_target_va: p.fake_target_va,
                library: p.library.as_str().to_owned(),
                name: p.name.as_str().to_owned(),
                iat_slot_va: p.iat_slot_va,
                iat_slot_rva: p.iat_slot_rva,
            },
        );
        i = i + 1;
    }
    assert(entries_of(out@) =~= patched_of(patched@));
    out
}

/// What loading an image and patching its imports gives.
pub open spec fn image_patched(
    pe: Pe,
    bytes: Seq<u8>,
    r: Result<(Vec<u8>, PeLoadedImageSummary, Vec<PePatchedImport>), PeError>,
) -> bool {
    match loaded_image(pe, bytes) {
        Err(t) => r matches Err(e) && e@ == t,
        Ok(image) => match image_imports(pe, bytes) {
            Err(t) => r matches Err(e) && e@ == t,
            Ok(imports) => match patched_image(image, imports, 0) {
                (_, Some(t)) => r matches Err(e) && e@ == t,
                (done, None) => r matches Ok(v) && v.0@ == done && v.1 == loaded_summary(pe)
                    && patched_of(v.2@) == patched_imports(imports),
            },
        },
    }
}

/// Loads an image whose headers are known and patches its imports.
pub fn load_image_with_fake_imports(pe: &ParsedPe, bytes: &[u8]) -> (r: Result<
    (Vec<u8>, PeLoadedImageSummary, Vec<PePatchedImport>),
    PeError,
>)
    ensures
        image_patched(pe@, bytes@, r),
{
    let (mut image, summary) = match load_image(pe, bytes) {
        Ok(v) => v,
        Err(e) => {
            return Err(e);
        },
    };
    let imports = match pe_imports(pe, bytes) {
        Ok(v) => v,
        Err(e) => {
            return Err(e);
        },
    };
    match patch_loaded_image_imports(image.as_mut_slice(), imports.as_slice()) {
        Ok(patched) => Ok((image, summary, patched)),
        Err(e) => Err(e),
    }
}

/// Builds a loaded image from the bytes of a file and patches `IAT` slots with fake
/// API addresses.
pub fn build_loaded_image_with_fake_imports(bytes: &[u8]) -> (r: Result<
    (Vec<u8>, PeLoadedImageSummary, Vec<PePatchedImport>),
    PeError,
>)
    ensures
        match pe64_of(goblin_pe(bytes@)) {
            Err(t) => r matches Err(e) && e@ == t,
            Ok(pe) => image_patched(pe, bytes@, r),
        },
{
    match parse_pe64(bytes) {
        Ok(pe) => load_image_with_fake_imports(&pe, bytes),
        Err(e) => Err(e),
    }
}

/// No two imports get the same fake target.
pub proof fn fake_targets_are_distinct(imports: Seq<Import>, a: int, b: int)
    requires
        0 <= a < b < imports.len(),
        fake_target(b) <= u64::MAX,
    ensures
        patched_imports(imports)[a].fake_target_va != patched_imports(imports)[b].fake_target_va,
{
    assert(fake_target(a) < fake_target(b)) by (nonlinear_arith)
        requires
            0 <= a < b,
            fake_target(a) == FAKE_API_BASE + a * FAKE_API_STRIDE,
            fake_target(b) == FAKE_API_BASE + b * FAKE_API_STRIDE,
            FAKE_API_STRIDE == 0x10,
    ;
}

/// Patching slots keeps the size of the image and the bytes outside all slots.
pub proof fn patching_leaves_the_rest(
    image: Seq<u8>,
    imports: Seq<Import>,
    index: int,
    at: int,
)
    requires
        0 <= index <= imports.len(),
        0 <= at < image.len(),
        forall|k: int|
            index <= k < imports.len() ==> !((#[trigger] imports[k]).iat_slot_rva <= at
                < imports[k].iat_slot_rva + 8),
    ensures
        patched_image(image, imports, index).0.len() == image.len(),
        patched_image(image, imports, index).0[at] == image[at],
    decreases imports.len() - index,
{
    if index < imports.len() && patch_error(image.len(), imports[index], index) is None {
        lemma_le_bytes_len(fake_target(index), 8);
        assert(!(imports[index].iat_slot_rva <= at < imports[index].iat_slot_rva + 8));
        patching_leaves_the_rest(
            slot_patched(image, imports[index], index),
            imports,
            index + 1,
            at,
        );
    }
}

/// After patching, the slot of an import reads back as the fake target that it is
/// listed with, unless a later slot covers it.
pub proof fn patched_slots_read_back(image: Seq<u8>, imports: Seq<Import>, k: int)
    requires
        patched_image(image, imports, 0).1 is None,
        0 <= k < imports.len(),
        forall|m: int|
            k < m < imports.len() ==> (#[trigger] imports[m]).iat_slot_rva + 8
                <= imports[k].iat_slot_rva || imports[k].iat_slot_rva + 8
                <= imports[m].iat_slot_rva,
    ensures
        imports[k].iat_slot_rva + 8 <= patched_image(image, imports, 0).0.len(),
        le_value(
            patched_image(image, imports, 0).0.subrange(
                imports[k].iat_slot_rva as int,
                imports[k].iat_slot_rva + 8,
            ),
        ) == patched_imports(imports)[k].fake_target_va,
{
    lemma_slot_reads_back(image, imports, 0, k);
}

/// The same, once the first `index` slots are patched.
proof fn lemma_slot_reads_back(image: Seq<u8>, imports: Seq<Import>, index: int, k: int)
    requires
        patched_image(image, imports, index).1 is None,
        0 <= index <= k < imports.len(),
        forall|m: int|
            k < m < imports.len() ==> (#[trigger] imports[m]).iat_slot_rva + 8
                <= imports[k].iat_slot_rva || imports[k].iat_slot_rva + 8
                <= imports[m].iat_slot_rva,
    ensures
        imports[k].iat_slot_rva + 8 <= patched_image(image, imports, index).0.len(),
        le_value(
            patched_image(image, imports, index).0.subrange(
                imports[k].iat_slot_rva as int,
                imports[k].iat_slot_rva + 8,
            ),
        ) == fake_target(k) as u64,
    decreases imports.len() - index,
{
    let next = slot_patched(image, imports[index], index);
    lemma_le_bytes_len(fake_target(index), 8);
    if index < k {
        lemma_slot_reads_back(next, imports, index + 1, k);
    } else {
        let done = patched_image(next, imports, index + 1).0;
        let slot = imports[k].iat_slot_rva as int;
        assert forall|at: int| slot <= at < slot + 8 implies done[at] == next[at] && done.len()
            == next.len() by {
            patching_leaves_the_rest(next, imports, index + 1, at);
        }
        assert(done[slot] == next[slot]);
        assert(done.subrange(slot, slot + 8) =~= le_bytes(fake_target(k), 8));
        bytes_round_trip(fake_target(k), 8);
        lemma_pow256();
    }
}

} // verus!
