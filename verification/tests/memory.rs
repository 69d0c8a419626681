use wie::mem::backend::{page_key, GuestMemBackend};
use wie::mem::guest::{GuestMemory, MemBackendKind};
use wie::mem::hashmap::HashMapBackend;
use wie::mem::hybrid::{HybridBackend, ARENA_THRESHOLD};
use wie::mem::mmap_arena::MmapArenaBackend;
use wie::mem::mmap_page::MmapPageBackend;
use wie::mem::model::PAGE_SIZE;
use wie::mem::region::{GuestRegion, RegionKind};

#[test]
fn mem_page_table_walk_matches_map() {
    let mut mem = GuestMemory::new();
    mem.map(0x10_0000, 0x2000, 7).expect("map");
    let k = page_key(0x10_0000);
    let p = mem.page_data_ptr_walk(k).expect("walk");
    assert_ne!(p, 0);
    let p2 = mem.page_data_ptr(k).expect("hash");
    assert_eq!(p, p2);
    assert!(mem.page_data_ptr_walk(k + 100).is_none());
}

#[test]
fn mem_page_table_high_va() {
    // Typical user stack-ish high canonical address.
    let mut mem = GuestMemory::new();
    let base = 0x0000_7fff_0000_0000_u64;
    mem.map(base, 0x1000, 7).expect("map high");
    let k = page_key(base);
    assert!(mem.page_data_ptr_walk(k).is_some());
}

#[test]
fn mod_page_table_walk_matches_map() {
    let mut mem = GuestMemory::with_kind(MemBackendKind::Hash);
    mem.map(0x10_0000, 0x2000, 7).expect("map");
    let k = page_key(0x10_0000);
    let p = mem.page_data_ptr_walk(k).expect("walk");
    assert_ne!(p, 0);
    let p2 = mem.page_data_ptr(k).expect("hash");
    assert_eq!(p, p2);
    assert!(mem.page_data_ptr_walk(k + 100).is_none());
}

#[test]
fn mod_page_table_high_va() {
    let mut mem = GuestMemory::with_kind(MemBackendKind::Hash);
    let base = 0x0000_7fff_0000_0000_u64;
    mem.map(base, 0x1000, 7).expect("map high");
    let k = page_key(base);
    assert!(mem.page_data_ptr_walk(k).is_some());
}

#[test]
fn region_registry_find() {
    let mut mem = GuestMemory::with_kind(MemBackendKind::Hash);
    mem.register_region(GuestRegion::new("stack", RegionKind::Stack, 0x2000_0000, 0x1_0000, 7));
    mem.map(0x2000_0000, 0x1_0000, 7).expect("map stack");
    assert_eq!(mem.find_region(0x2000_0800).expect("found").name, "stack");
    assert_eq!(mem.backend_name(), "hash");
}

#[test]
fn mmap_backend_host_base_on_register() {
    let mut mem = GuestMemory::with_kind(MemBackendKind::Mmap);
    mem.map(0x2000_0000, 0x1_0000, 7).expect("map stack");
    mem.register_region(GuestRegion::new("stack", RegionKind::Stack, 0x2000_0000, 0x1_0000, 7));
    let r = mem.find_region(0x2000_0800).expect("found");
    let hb = r.host_base.expect("host_base should be filled from arena");
    assert_ne!(hb, 0);
    let p = mem.page_data_ptr_walk(0x2000_0800 >> 12).expect("page");
    assert_ne!(p, 0);
    assert_eq!(mem.backend_name(), "mmap");
}

#[test]
fn hybrid_backend_name() {
    let mem = GuestMemory::with_kind(MemBackendKind::Hybrid);
    assert_eq!(mem.backend_name(), "hybrid");
}

#[test]
fn mmap_page_ptr_walk() {
    let mut mem = GuestMemory::with_kind(MemBackendKind::Mmap);
    mem.map(0x10_0000, 0x2000, 7).expect("map");
    let k = page_key(0x10_0000);
    let p = mem.page_data_ptr_walk(k).expect("walk");
    let p2 = mem.page_data_ptr(k).expect("ptr");
    assert_eq!(p, p2);
}

#[test]
fn large_map_uses_arena_small_uses_sparse() {
    let mut b = HybridBackend::new();
    b.map(0x50_0000, ARENA_THRESHOLD, 7).expect("large");
    b.map(0x60_0000, 0x1000, 7).expect("small");
    assert!(b.arenas.find_va(0x50_0000).is_some());
    assert!(b.arenas.find_va(0x60_0000).is_none());
    assert!(b.sparse.page_data_ptr_walk(0x60_0000 >> 12).is_some());
}

#[test]
fn write_read_both_stores() {
    let mut b = HybridBackend::new();
    b.map(0x70_0000, ARENA_THRESHOLD, 7).expect("arena");
    b.map(0x80_0000, 0x1000, 7).expect("sparse");
    b.write(0x70_0010, b"arena").expect("w1");
    b.write(0x80_0020, b"hash").expect("w2");
    let mut a = [0_u8; 5];
    let mut h = [0_u8; 4];
    b.read(0x70_0010, &mut a).expect("r1");
    b.read(0x80_0020, &mut h).expect("r2");
    assert_eq!(&a, b"arena");
    assert_eq!(&h, b"hash");
    assert!(b.page_data_ptr_walk(0x70_0000 >> 12).is_some());
    assert!(b.page_data_ptr_walk(0x80_0000 >> 12).is_some());
}

/// Simple xorshift64 for deterministic sequences.
struct XorShift64(u64);

impl XorShift64 {
    fn next_u64(&mut self) -> u64 {
        let mut x = self.0;
        x ^= x << 13;
        x ^= x >> 7;
        x ^= x << 17;
        self.0 = x;
        x
    }

    fn next_u32(&mut self) -> u32 {
        self.next_u64() as u32
    }

    fn gen_range(&mut self, max: u64) -> u64 {
        if max == 0 {
            0
        } else {
            self.next_u64() % max
        }
    }
}

#[derive(Clone, Copy)]
enum Op {
    MapPages { page: u32, pages: u32 },
    Write { page: u32, off: u16, len: u16, fill: u8 },
    Read { page: u32, off: u16, len: u16 },
}

fn apply<B: GuestMemBackend>(backend: &mut B, op: Op) -> Result<Option<Vec<u8>>, String> {
    const BASE: u64 = 0x10_0000;
    match op {
        Op::MapPages { page, pages } => {
            let addr = BASE.saturating_add(u64::from(page).saturating_mul(PAGE_SIZE));
            let size = usize::try_from(u64::from(pages).saturating_mul(PAGE_SIZE)).unwrap_or(0);
            backend
                .map(addr, size, 7)
                .map_err(|e| format!("map {addr:#x}+{size:#x}: {}", e.message()))?;
            Ok(None)
        }
        Op::Write { page, off, len, fill } => {
            let addr = BASE
                .saturating_add(u64::from(page).saturating_mul(PAGE_SIZE))
                .saturating_add(u64::from(off));
            let data = vec![fill; len as usize];
            backend
                .write(addr, &data)
                .map_err(|e| format!("write {addr:#x}: {}", e.message()))?;
            Ok(None)
        }
        Op::Read { page, off, len } => {
            let addr = BASE
                .saturating_add(u64::from(page).saturating_mul(PAGE_SIZE))
                .saturating_add(u64::from(off));
            let mut buf = vec![0_u8; len as usize];
            match backend.read(addr, &mut buf) {
                Ok(()) => Ok(Some(buf)),
                Err(e) => Err(format!("read {addr:#x}: {}", e.message())),
            }
        }
    }
}

fn gen_ops(rng: &mut XorShift64, n: usize) -> Vec<Op> {
    let mut ops = Vec::with_capacity(n.saturating_add(8));
    // Always map a working set first so reads/writes have a chance to succeed.
    ops.push(Op::MapPages { page: 0, pages: 16 });
    ops.push(Op::MapPages { page: 32, pages: 8 });
    for _ in 0..n {
        match rng.next_u32() % 10 {
            0 => {
                let page = rng.gen_range(64) as u32;
                let pages = 1 + (rng.gen_range(4) as u32);
                ops.push(Op::MapPages { page, pages });
            }
            1..=5 => {
                let page = rng.gen_range(48) as u32;
                let off = rng.gen_range(PAGE_SIZE) as u16;
                let room = PAGE_SIZE.saturating_sub(u64::from(off)).min(256);
                let len = 1 + rng.gen_range(room.max(1)) as u16;
                let fill = rng.next_u32() as u8;
                ops.push(Op::Write { page, off, len, fill });
            }
            _ => {
                let page = rng.gen_range(48) as u32;
                let off = rng.gen_range(PAGE_SIZE) as u16;
                let room = PAGE_SIZE.saturating_sub(u64::from(off)).min(256);
                let len = 1 + rng.gen_range(room.max(1)) as u16;
                ops.push(Op::Read { page, off, len });
            }
        }
    }
    ops
}

fn run_oracle_pair<A: GuestMemBackend, B: GuestMemBackend>(
    seed: u64,
    n_ops: usize,
    label: &str,
    mut a: A,
    mut b: B,
) {
    let mut rng = XorShift64(seed);
    let ops = gen_ops(&mut rng, n_ops);
    for (i, op) in ops.into_iter().enumerate() {
        let ra = apply(&mut a, op);
        let rb = apply(&mut b, op);
        match (ra, rb) {
            (Ok(Some(va)), Ok(Some(vb))) => {
                assert_eq!(va, vb, "seed={seed} op#{i} read mismatch ({label})");
            }
            // Both succeeded with no payload, or both failed (e.g. unmapped read).
            (Ok(None), Ok(None)) | (Err(_), Err(_)) => {}
            (la, lb) => {
                panic!("seed={seed} op#{i} outcome diverge ({label}): a={la:?} b={lb:?}");
            }
        }
    }
}

fn run_oracle_page(seed: u64, n_ops: usize) {
    run_oracle_pair(
        seed,
        n_ops,
        "hash vs mmap_page",
        HashMapBackend::new(),
        MmapPageBackend::new(),
    );
}

fn run_oracle_arena(seed: u64, n_ops: usize) {
    run_oracle_pair(
        seed,
        n_ops,
        "hash vs mmap_arena",
        HashMapBackend::new(),
        MmapArenaBackend::new(),
    );
}

#[test]
fn oracle_hash_vs_mmap_page_default_seed() {
    run_oracle_page(0x001E_BEEF_u64, 2_000);
}

#[test]
fn oracle_hash_vs_mmap_page_alt_seeds() {
    for seed in [1_u64, 42, 0xDEAD_BEEF, 0x00C0_FFEE] {
        run_oracle_page(seed, 500);
    }
}

#[test]
fn oracle_hash_vs_mmap_arena_default_seed() {
    run_oracle_arena(0x001E_BEEF_u64, 2_000);
}

#[test]
fn oracle_hash_vs_mmap_arena_alt_seeds() {
    for seed in [1_u64, 42, 0xDEAD_BEEF, 0x00C0_FFEE] {
        run_oracle_arena(seed, 500);
    }
}

#[test]
fn oracle_hash_vs_hybrid() {
    run_oracle_pair(
        0x001E_BEEF_u64,
        2_000,
        "hash vs hybrid",
        HashMapBackend::new(),
        HybridBackend::new(),
    );
}

#[test]
fn oracle_page_ptr_walk_agrees() {
    let mut a = HashMapBackend::new();
    let mut b = MmapPageBackend::new();
    let mut c = MmapArenaBackend::new();
    a.map(0x20_0000, 0x2000, 7).expect("hash map");
    b.map(0x20_0000, 0x2000, 7).expect("mmap_page map");
    c.map(0x20_0000, 0x2000, 7).expect("mmap_arena map");
    let payload = b"hello-oracle";
    a.write(0x20_0040, payload).expect("hash write");
    b.write(0x20_0040, payload).expect("mmap_page write");
    c.write(0x20_0040, payload).expect("mmap_arena write");
    let mut ha = [0_u8; 12];
    let mut hb = [0_u8; 12];
    let mut hc = [0_u8; 12];
    a.read(0x20_0040, &mut ha).expect("hash read");
    b.read(0x20_0040, &mut hb).expect("mmap_page read");
    c.read(0x20_0040, &mut hc).expect("mmap_arena read");
    assert_eq!(ha, hb);
    assert_eq!(ha, hc);
    assert!(a.page_data_ptr_walk(0x20_0000 >> 12).is_some());
    assert!(b.page_data_ptr_walk(0x20_0000 >> 12).is_some());
    assert!(c.page_data_ptr_walk(0x20_0000 >> 12).is_some());
    // Arena consecutive pages are contiguous in host VA.
    let p0 = c.page_data_ptr_walk(0x20_0000 >> 12).expect("c0");
    let p1 = c.page_data_ptr_walk(0x20_1000 >> 12).expect("c1");
    assert_eq!(p1 as usize - p0 as usize, PAGE_SIZE as usize);
}

#[test]
fn map_refusals_say_why() {
    let mut mem = GuestMemory::new();
    let text = |r: Result<(), wie::error::CpuError>| r.unwrap_err().message().to_string();
    assert_eq!(text(mem.map(0x1234, 0x1000, 7)), "mem_map address 0x1234 not page-aligned");
    assert_eq!(text(mem.map(0x1000, 0x123, 7)), "mem_map size 0x123 not page-aligned");
    assert_eq!(
        text(mem.map(0xffff_ffff_ffff_f000, 0x1000, 7)),
        "mem_map overflow at 0xfffffffffffff000+0x1000"
    );
    assert!(mem.map(0x1234, 0, 7).is_ok());
}

#[test]
fn unmapped_access_stops_at_the_first_hole() {
    for kind in [MemBackendKind::Hash, MemBackendKind::Mmap, MemBackendKind::Hybrid] {
        let mut mem = GuestMemory::with_kind(kind);
        mem.map(0x1000, 0x1000, 7).expect("map");
        let e = mem.write(0x1ffe, &[1, 2, 3, 4]).unwrap_err();
        assert_eq!(e.message(), "mem_write unmapped 0x2000");
        let mut out = [9_u8; 4];
        let e = mem.read(0x1ffe, &mut out).unwrap_err();
        assert_eq!(e.message(), "mem_read unmapped 0x2000");
        assert_eq!(out, [1, 2, 9, 9]);
        assert_eq!(mem.fetch(0x1ffe, 15).expect("fetch"), vec![1, 2]);
        assert_eq!(
            mem.fetch(0x2000, 15).unwrap_err().message(),
            "instruction fetch unmapped 0x2000"
        );
        assert!(mem.fetch(0x2000, 0).expect("nothing").is_empty());
    }
}

#[test]
fn mapping_again_keeps_data() {
    for kind in [MemBackendKind::Hash, MemBackendKind::Mmap, MemBackendKind::Hybrid] {
        let mut mem = GuestMemory::with_kind(kind);
        mem.map(0x1_0000, 0x1000, 7).expect("map");
        mem.write(0x1_0ff0, b"kept").expect("write");
        mem.map(0, 0x4_0000, 5).expect("map over");
        let mut out = [0_u8; 4];
        mem.read(0x1_0ff0, &mut out).expect("read");
        assert_eq!(&out, b"kept");
        mem.read(0x3_fffc, &mut out).expect("read end");
        assert_eq!(out, [0; 4]);
    }
}

#[test]
fn release_and_decommit() {
    let mut b = HybridBackend::new();
    b.map(0x10_0000, ARENA_THRESHOLD, 7).expect("arena");
    b.map(0x20_0000, 0x2000, 7).expect("sparse");
    b.write(0x10_0000, b"aaaa").expect("write");
    b.write(0x20_0000, b"bbbb").expect("write");
    let mut out = [9_u8; 4];
    b.discard_range(0x10_0000, 0x1000).expect("discard");
    b.read(0x10_0000, &mut out).expect("zeroed");
    assert_eq!(out, [0; 4]);
    b.discard_range(0x20_0000, 0x1000).expect("discard");
    assert!(b.read(0x20_0000, &mut out).is_err());
    assert!(b.read(0x20_1000, &mut out).is_ok());
    // Only the exact arena is released.
    b.unmap_range(0x10_0000, 0x1000);
    assert!(b.read(0x10_0000, &mut out).is_ok());
    b.unmap_range(0x10_0000, ARENA_THRESHOLD);
    assert!(b.read(0x10_0000, &mut out).is_err());
}

#[test]
fn backend_setting() {
    assert_eq!(MemBackendKind::from_setting(Some("HASH")), MemBackendKind::Hash);
    assert_eq!(MemBackendKind::from_setting(Some("mmap")), MemBackendKind::Mmap);
    assert_eq!(MemBackendKind::from_setting(Some("Mmap_Page")), MemBackendKind::Mmap);
    assert_eq!(MemBackendKind::from_setting(Some("hybrid")), MemBackendKind::Hybrid);
    assert_eq!(MemBackendKind::from_setting(Some("other")), MemBackendKind::Hybrid);
    assert_eq!(MemBackendKind::from_setting(None), MemBackendKind::Hybrid);
}

#[test]
fn walk_counts_36_bits_of_the_key() {
    let mut b = HashMapBackend::new();
    b.map(0x5000, 0x1000, 7).expect("map");
    let p = b.page_data_ptr_walk(5).expect("own key");
    assert_eq!(b.page_data_ptr_walk(5 + (1 << 36)), Some(p));
    assert!(b.page_data_ptr_walk(6).is_none());
    let mut byte = [0_u8; 1];
    assert!(b.read((5 + (1 << 36)) << 12, &mut byte).is_err());
}
