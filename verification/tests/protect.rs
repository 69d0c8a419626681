use wie::mem::protect::{
    allows, allows_execute, allows_read, allows_write, is_supported_protect, page_protect_from_rwx,
    rwx_from_page_protect, AccessKind, PAGE_EXECUTE, PAGE_EXECUTE_READ, PAGE_EXECUTE_READWRITE,
    PAGE_NOACCESS, PAGE_READONLY, PAGE_READWRITE,
};
use wie::perm;

#[test]
fn rwx_all_roundtrips_to_erw() {
    let p = page_protect_from_rwx(perm::ALL);
    assert_eq!(p, PAGE_EXECUTE_READWRITE);
    assert!(allows_read(p) && allows_write(p) && allows_execute(p));
    assert_eq!(rwx_from_page_protect(p), perm::ALL);
}

#[test]
fn readonly_denies_write_and_exec() {
    let p = page_protect_from_rwx(perm::READ);
    assert_eq!(p, PAGE_READONLY);
    assert!(allows_read(p));
    assert!(!allows_write(p));
    assert!(!allows_execute(p));
}

#[test]
fn execute_read_allows_fetch_not_write() {
    let p = page_protect_from_rwx(perm::READ | perm::EXEC);
    assert_eq!(p, PAGE_EXECUTE_READ);
    assert!(allows(p, AccessKind::Read));
    assert!(allows(p, AccessKind::Execute));
    assert!(!allows(p, AccessKind::Write));
}

#[test]
fn execute_only_allows_fetch_not_data_read() {
    let p = PAGE_EXECUTE;
    assert!(allows_execute(p));
    assert!(!allows_read(p));
    assert!(!allows_write(p));
}

#[test]
fn every_rights_triple() {
    let table = [
        (0, PAGE_NOACCESS),
        (1, PAGE_READONLY),
        (2, PAGE_READWRITE),
        (3, PAGE_READWRITE),
        (4, PAGE_EXECUTE),
        (5, PAGE_EXECUTE_READ),
        (6, PAGE_EXECUTE_READWRITE),
        (7, PAGE_EXECUTE_READWRITE),
    ];
    for (rwx, protect) in table {
        assert_eq!(page_protect_from_rwx(rwx), protect);
        assert!(is_supported_protect(protect));
        assert_eq!(page_protect_from_rwx(rwx_from_page_protect(protect)), protect);
    }
    assert!(!is_supported_protect(0));
    assert!(!is_supported_protect(0x08));
    assert_eq!(rwx_from_page_protect(0x80), 0);
}
