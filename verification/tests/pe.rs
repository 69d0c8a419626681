//! Reading and loading of PE64 images.

use wie::pe::cstring::{read_c_string_at_offset, read_u16, read_u32, read_u64};
use wie::pe::identity::{
    inspect_pe_bytes, path_file_name, pe_identity, pe_identity_from_bytes, pe_summary,
    process_identity_from_host_path,
};
use wie::pe::image::{build_loaded_image_bytes, load_image, PeLoadedImageSummary};
use wie::pe::imports::{inspect_pe_imports_bytes, pe_imports, PeImportSummary};
use wie::pe::parsed::{parse_pe64, require_pe64, ImageSizes, ParsedPe, SectionHeader};
use wie::pe::patch::{
    build_fake_api_lookup, build_loaded_image_with_fake_imports, patch_loaded_image_imports,
};
use wie::pe::sections::{inspect_pe_sections_bytes, pe_sections, rva_to_file_offset};

fn put(b: &mut [u8], at: usize, v: u64, n: usize) {
    b[at..at + n].copy_from_slice(&v.to_le_bytes()[..n]);
}

fn put_text(b: &mut [u8], at: usize, s: &str) {
    b[at..at + s.len()].copy_from_slice(s.as_bytes());
    b[at + s.len()] = 0;
}

/// A file with a `.text` and an `.idata` section that imports one function by name
/// and one by ordinal.
fn sample() -> Vec<u8> {
    let mut b = vec![0u8; 0x600];
    b[0] = b'M';
    b[1] = b'Z';
    put(&mut b, 0x3c, 0x80, 4);
    b[0x80..0x84].copy_from_slice(b"PE\0\0");
    let coff = 0x84;
    put(&mut b, coff, 0x8664, 2);
    put(&mut b, coff + 2, 2, 2);
    put(&mut b, coff + 16, 240, 2);
    put(&mut b, coff + 18, 0x22, 2);
    let opt = coff + 20;
    put(&mut b, opt, 0x20b, 2);
    put(&mut b, opt + 16, 0x1010, 4);
    put(&mut b, opt + 20, 0x1000, 4);
    put(&mut b, opt + 24, 0x1_4000_0000, 8);
    put(&mut b, opt + 32, 0x1000, 4);
    put(&mut b, opt + 36, 0x200, 4);
    put(&mut b, opt + 56, 0x3000, 4);
    put(&mut b, opt + 60, 0x200, 4);
    put(&mut b, opt + 68, 3, 2);
    put(&mut b, opt + 108, 16, 4);
    put(&mut b, opt + 112 + 8, 0x2000, 4);
    put(&mut b, opt + 112 + 12, 40, 4);
    let sec = opt + 240;
    b[sec..sec + 5].copy_from_slice(b".text");
    put(&mut b, sec + 8, 0x100, 4);
    put(&mut b, sec + 12, 0x1000, 4);
    put(&mut b, sec + 16, 0x200, 4);
    put(&mut b, sec + 20, 0x200, 4);
    let sec = sec + 40;
    b[sec..sec + 6].copy_from_slice(b".idata");
    put(&mut b, sec + 8, 0x200, 4);
    put(&mut b, sec + 12, 0x2000, 4);
    put(&mut b, sec + 16, 0x200, 4);
    put(&mut b, sec + 20, 0x400, 4);
    b[0x210] = 0xc3;
    put(&mut b, 0x400, 0x2040, 4);
    put(&mut b, 0x40c, 0x2080, 4);
    put(&mut b, 0x410, 0x2060, 4);
    for table in [0x440, 0x460] {
        put(&mut b, table, 0x2090, 8);
        put(&mut b, table + 8, 0x8000_0000_0000_0007, 8);
    }
    put_text(&mut b, 0x480, "k.dll");
    put(&mut b, 0x490, 5, 2);
    put_text(&mut b, 0x492, "Foo");
    b
}

fn section(va: u32, vsize: u32, raw: u32, size: u32) -> SectionHeader {
    SectionHeader {
        name: Ok(String::from(".s")),
        virtual_address: va,
        virtual_size: vsize,
        pointer_to_raw_data: raw,
        size_of_raw_data: size,
    }
}

fn parsed(sections: Vec<SectionHeader>) -> ParsedPe {
    ParsedPe {
        is_64: true,
        image_base: 0x10_0000,
        entry: 0x10,
        machine: 0x8664,
        sizes: Some(ImageSizes { size_of_image: 0x40, size_of_headers: 4 }),
        import_directory: Some(0x10),
        sections,
        library_count: 3,
        import_count: 4,
    }
}

fn text<T>(r: Result<T, wie::pe::error::PeError>) -> String {
    match r {
        Ok(_) => panic!("expected an error"),
        Err(e) => e.message().to_owned(),
    }
}

#[test]
fn process_identity_uses_host_basename() {
    let id = process_identity_from_host_path(r"/tmp/games/heap_alloc.exe");
    assert_eq!(id.module_file_name, "heap_alloc.exe");
    assert_eq!(id.full_path, r"C:\App\heap_alloc.exe");
    assert_eq!(id.current_directory, r"C:\App");
    assert_eq!(id.command_line, "heap_alloc.exe");
}

#[test]
fn process_identity_no_basename_falls_back() {
    let id = process_identity_from_host_path(r"");
    assert_eq!(id.module_file_name, "app.exe");
}

#[test]
fn process_identity_no_extension() {
    let id = process_identity_from_host_path(r"my_binary");
    assert_eq!(id.module_file_name, "my_binary");
}

#[test]
fn process_identity_does_not_parse_pe() {
    let id = process_identity_from_host_path(r"/tmp/some_random_file.xyz");
    assert_eq!(id.module_file_name, "some_random_file.xyz");
}

#[test]
fn pe_identity_rejects_invalid_bytes() {
    let result = pe_identity_from_bytes("test.exe", b"not a PE");
    assert!(result.is_err());
    assert_eq!(text(result), "failed to parse PE image");
}

#[test]
fn refusals_name_their_cause() {
    let e = parse_pe64(b"MZ").unwrap_err();
    assert_eq!(e.message(), "failed to parse PE image");
    assert_eq!(e.causes, [goblin::pe::PE::parse(b"MZ").unwrap_err().to_string()]);
    let mut b = sample();
    let name = 0x84 + 20 + 240;
    b[name..name + 2].copy_from_slice(&[0xff, 0xff]);
    let e = inspect_pe_sections_bytes(&b).unwrap_err();
    assert_eq!(e.message(), "failed to read section name");
    let pe = goblin::pe::PE::parse(&b).unwrap();
    assert_eq!(e.causes, [pe.sections[0].name().unwrap_err().to_string()]);
}

#[test]
fn sections_may_end_past_32_bits() {
    log::set_max_level(log::LevelFilter::Trace);
    assert_eq!(log::STATIC_MAX_LEVEL, log::LevelFilter::Info);
    let mut b = sample();
    put(&mut b, 0x84 + 20 + 240 + 8, 0xffff_ffff, 4);
    let pe = parse_pe64(&b).unwrap();
    assert_eq!(pe.sections[0].virtual_size, u32::MAX);
    assert_eq!((pe.library_count, pe.import_count), (1, 2));
}

#[test]
fn final_components_follow_the_host_rules() {
    for path in [
        "", "/", ".", "..", "a/..", "a/b", "a/b/", "a/b/.", "a/b/./", "./a", "a//b//", "/a", "a/..b",
        "a/b..", "a/.hidden", "./", "../..", "x/./.", "a/\u{e9}t\u{e9}.exe",
    ] {
        let want = std::path::Path::new(path).file_name().and_then(|n| n.to_str());
        assert_eq!(path_file_name(path), want, "{path:?}");
    }
}

#[test]
fn identity_comes_from_the_headers() {
    let b = sample();
    let id = pe_identity_from_bytes("a/b.exe", &b).unwrap();
    assert_eq!(id.path, "a/b.exe");
    assert_eq!(id.image_base, 0x1_4000_0000);
    assert_eq!(id.entry_rva, 0x1010);
    assert_eq!(id.entry_va, 0x1_4000_1010);
    assert_eq!(id.size_of_image, 0x3000);
    assert_eq!(id.size_of_headers, 0x200);
    assert_eq!(id.machine, 0x8664);
    assert!(id.is_pe64);
    assert_eq!(id.section_count, 2);
    let s = inspect_pe_bytes("a/b.exe", &b).unwrap();
    assert_eq!(s.entry_point_va, 0x1_4000_1010);
    assert_eq!(s.library_count, 1);
    assert_eq!(s.import_count, 2);
}

#[test]
fn images_without_an_identity_are_refused() {
    let mut pe = parsed(Vec::new());
    pe.image_base = u64::MAX;
    assert_eq!(text(pe_identity("x", &pe)), "entry point VA overflow");
    pe.image_base = u64::MAX - 0x10;
    assert_eq!(pe_identity("x", &pe).unwrap().entry_va, u64::MAX);
    pe.sizes = None;
    assert_eq!(text(pe_summary("x", &pe)), "PE image has no optional header");
    pe.is_64 = false;
    assert_eq!(text(require_pe64(Ok(pe))), "expected PE64 image, got PE32");
    let refused = require_pe64(Err(String::from("why"))).unwrap_err();
    assert_eq!(refused.message(), "failed to parse PE image");
    assert_eq!(refused.causes, ["why"]);
}

#[test]
fn sections_are_summarized() {
    let v = inspect_pe_sections_bytes(&sample()).unwrap();
    assert_eq!(v.len(), 2);
    assert_eq!(v[0].name, ".text");
    assert_eq!(v[1].name, ".idata");
    assert_eq!(v[1].virtual_address_va, 0x1_4000_2000);
    assert_eq!(v[1].pointer_to_raw_data, 0x400);
    let mut bad = section(0, 0, 0, 0);
    bad.name = Err(String::from("why"));
    let e = pe_sections(&parsed(vec![bad])).unwrap_err();
    assert_eq!((e.message(), &e.causes[..]), ("failed to read section name", &[String::from("why")][..]));
    let mut pe = parsed(vec![section(0x10, 0, 0, 0)]);
    pe.image_base = u64::MAX - 0xf;
    assert_eq!(text(pe_sections(&pe)), "section VA overflow");
}

#[test]
fn addresses_are_mapped_by_the_first_section() {
    let pe = parsed(vec![section(0x10, 0x20, 0x100, 8), section(0x20, 0x20, 0x200, 0x40)]);
    assert_eq!(rva_to_file_offset(&pe, 0x10).unwrap(), 0x100);
    assert_eq!(rva_to_file_offset(&pe, 0x2f).unwrap(), 0x11f);
    assert_eq!(rva_to_file_offset(&pe, 0x30).unwrap(), 0x210);
    assert_eq!(rva_to_file_offset(&pe, 0x5f).unwrap(), 0x23f);
    assert_eq!(
        text(rva_to_file_offset(&pe, 0x60)),
        "RVA 0x00000060 is not inside any section"
    );
}

#[test]
fn numbers_and_strings_are_read() {
    let b = b"\x01\x02\x03\x04\x05\x06\x07\x08ab\0\xff\0cd";
    assert_eq!(read_u16(b, 1).unwrap(), 0x0302);
    assert_eq!(read_u32(b, 0).unwrap(), 0x0403_0201);
    assert_eq!(read_u64(b, 0).unwrap(), 0x0807_0605_0403_0201);
    assert_eq!(text(read_u32(b, 12)), "read range is outside file");
    assert_eq!(text(read_u64(b, usize::MAX)), "read range overflow");
    assert_eq!(read_c_string_at_offset(b, 8).unwrap(), "ab");
    assert_eq!(read_c_string_at_offset(b, 10).unwrap(), "");
    let e = read_c_string_at_offset(b, 11).unwrap_err();
    assert_eq!(e.message(), "C string is not valid UTF-8");
    assert_eq!(e.causes, [std::str::from_utf8(b"\xff").unwrap_err().to_string()]);
    assert_eq!(text(read_c_string_at_offset(b, 13)), "unterminated C string");
    assert_eq!(text(read_c_string_at_offset(b, 15)), "unterminated C string");
    assert_eq!(text(read_c_string_at_offset(b, 16)), "string offset is outside file");
    assert_eq!(read_c_string_at_offset("h\u{e9}\0".as_bytes(), 0).unwrap(), "h\u{e9}");
}

#[test]
fn imports_are_read_by_name_and_by_ordinal() {
    let v = inspect_pe_imports_bytes(&sample()).unwrap();
    assert_eq!(v.len(), 2);
    assert_eq!(v[0].library, "k.dll");
    assert_eq!(v[0].name, "Foo");
    assert_eq!(v[0].ordinal, 5);
    assert_eq!(v[0].iat_slot_rva, 0x2060);
    assert_eq!(v[0].iat_slot_va, 0x1_4000_2060);
    assert_eq!(v[0].hint_name_rva, Some(0x2090));
    assert_eq!(v[1].name, "");
    assert_eq!(v[1].ordinal, 7);
    assert_eq!(v[1].iat_slot_rva, 0x2068);
    assert_eq!(v[1].hint_name_rva, None);
}

#[test]
fn broken_import_directories_are_refused() {
    let mut pe = parsed(vec![section(0x10, 0x100, 0, 0x100)]);
    pe.import_directory = None;
    assert_eq!(text(pe_imports(&pe, &[])), "PE image has no import directory");
    pe.import_directory = Some(0);
    assert_eq!(pe_imports(&pe, &[]).unwrap().len(), 0);
    pe.import_directory = Some(8);
    assert_eq!(
        text(pe_imports(&pe, &[])),
        "failed to map import descriptor RVA 0x00000008"
    );
    pe.import_directory = Some(0x10);
    assert_eq!(text(pe_imports(&pe, &[0; 16])), "read range is outside file");
    assert_eq!(pe_imports(&pe, &[0; 20]).unwrap().len(), 0);
    let mut b = vec![0u8; 0x100];
    put(&mut b, 12, 0x1000, 4);
    assert_eq!(
        text(pe_imports(&pe, &b)),
        "failed to read DLL name at RVA 0x00001000"
    );
    let e = pe_imports(&pe, &b).unwrap_err();
    assert_eq!(e.causes, ["RVA 0x00001000 is not inside any section"]);
    put(&mut b, 12, 0x40, 4);
    b[0x30] = 0xff;
    let e = pe_imports(&pe, &b).unwrap_err();
    assert_eq!(e.message(), "failed to read DLL name at RVA 0x00000040");
    assert_eq!(e.causes[0], "C string is not valid UTF-8");
    assert_eq!(e.causes.len(), 2);
    b[0x30] = 0;
    put(&mut b, 16, 0x1000, 4);
    assert_eq!(
        text(pe_imports(&pe, &b)),
        "failed to map lookup thunk RVA 0x00001000"
    );
    put(&mut b, 16, 0x50, 4);
    put(&mut b, 0x40, 0x1_0000_0000, 8);
    assert_eq!(text(pe_imports(&pe, &b)), "hint/name RVA does not fit u32");
    put(&mut b, 0x40, 0x1000, 8);
    assert_eq!(
        text(pe_imports(&pe, &b)),
        "failed to map hint/name RVA 0x00001000"
    );
    put(&mut b, 0x40, 0x8000_0000_0000_0001, 8);
    pe.image_base = u64::MAX;
    assert_eq!(text(pe_imports(&pe, &b)), "IAT slot VA overflow");
}

#[test]
fn the_image_holds_headers_and_sections() {
    let b = sample();
    let (image, summary) = build_loaded_image_bytes(&b).unwrap();
    assert_eq!(image.len(), 0x3000);
    assert_eq!(image[..0x200], b[..0x200]);
    assert!(image[0x200..0x1000].iter().all(|x| *x == 0));
    assert_eq!(image[0x1000..0x1200], b[0x200..0x400]);
    assert_eq!(image[0x2000..0x2200], b[0x400..0x600]);
    assert_eq!(
        summary,
        PeLoadedImageSummary {
            image_base: 0x1_4000_0000,
            entry_rva: 0x1010,
            entry_point_va: 0x1_4000_1010,
            image_size: 0x3000,
            header_size: 0x200,
            section_count: 2,
        }
    );
    let id = summary.identity("p");
    assert_eq!(id.entry_va, 0x1_4000_1010);
    assert_eq!(id.machine, 0);
    assert_eq!(id.size_of_headers, 0x200);
}

#[test]
fn images_that_do_not_fit_are_refused() {
    let b = vec![7u8; 0x20];
    let mut pe = parsed(Vec::new());
    let image = load_image(&pe, &b).unwrap().0;
    assert_eq!(image[..4], [7, 7, 7, 7]);
    assert_eq!(image[4..], vec![0u8; 0x3c][..]);
    pe.sizes = Some(ImageSizes { size_of_image: 0x40, size_of_headers: 0x21 });
    assert_eq!(text(load_image(&pe, &b)), "size_of_headers is larger than file size");
    pe.sizes = Some(ImageSizes { size_of_image: 3, size_of_headers: 4 });
    assert_eq!(text(load_image(&pe, &b)), "failed to slice image headers");
    let pe = parsed(vec![section(0, 0, 0x1f, 2)]);
    assert_eq!(text(load_image(&pe, &b)), "section raw range is outside file");
    let pe = parsed(vec![section(0x3f, 0, 0, 2)]);
    assert_eq!(text(load_image(&pe, &b)), "section virtual range is outside image");
    let pe = parsed(vec![section(0xffff_ffff, 9, 0xffff_ffff, 0)]);
    assert!(load_image(&pe, &b).is_ok());
}

#[test]
fn imports_are_patched() {
    let b = sample();
    let (image, _, patched) = build_loaded_image_with_fake_imports(&b).unwrap();
    assert_eq!(patched.len(), 2);
    assert_eq!(patched[0].name, "Foo");
    assert_eq!(patched[0].fake_target_va, 0x7000_0000_0000);
    assert_eq!(patched[1].name, "ORDINAL 7");
    assert_eq!(patched[1].fake_target_va, 0x7000_0000_0010);
    assert_eq!(image[0x2060..0x2068], 0x7000_0000_0000u64.to_le_bytes());
    assert_eq!(image[0x2068..0x2070], 0x7000_0000_0010u64.to_le_bytes());
    let plain = build_loaded_image_bytes(&b).unwrap().0;
    assert_eq!(image[..0x2060], plain[..0x2060]);
    assert_eq!(image[0x2070..], plain[0x2070..]);
    let lookup = build_fake_api_lookup(&patched);
    assert_eq!(lookup.len(), 2);
    assert_eq!(lookup[1].library, "k.dll");
    assert_eq!(lookup[1].name, "ORDINAL 7");
    assert_eq!(lookup[1].fake_target_va, 0x7000_0000_0010);
    assert_eq!(lookup[1].iat_slot_va, 0x1_4000_2068);
}

#[test]
fn patching_stops_at_a_slot_outside_the_image() {
    let import = |rva: u64| PeImportSummary {
        library: String::from("l"),
        name: String::from("n"),
        ordinal: 0,
        iat_slot_va: rva,
        iat_slot_rva: rva,
        hint_name_rva: None,
    };
    let mut image = vec![0u8; 16];
    let r = patch_loaded_image_imports(&mut image, &[import(0), import(9)]);
    assert_eq!(text(r), "IAT slot is outside loaded image");
    assert_eq!(image[..8], 0x7000_0000_0000u64.to_le_bytes());
    assert_eq!(image[8..], [0u8; 8]);
    let r = patch_loaded_image_imports(&mut image, &[import(u64::MAX)]);
    assert_eq!(text(r), "IAT slot write range overflow");
}

#[test]
fn parsing_keeps_what_the_loader_reads() {
    let pe = parse_pe64(&sample()).unwrap();
    assert!(pe.is_64);
    assert_eq!(pe.import_directory, Some(0x2000));
    assert_eq!(pe.sizes, Some(ImageSizes { size_of_image: 0x3000, size_of_headers: 0x200 }));
    assert_eq!(pe.sections[0].name.as_deref(), Ok(".text"));
    assert_eq!(pe.sections[0].virtual_size, 0x100);
}
