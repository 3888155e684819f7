use mlhook::defs::Error;
use mlhook::defs::MEM_N;
use mlhook::defs::MEM_R;
use mlhook::defs::MEM_RW;
use mlhook::defs::MEM_W;
use mlhook::defs::MEM_X;
use mlhook::defs::MEM_XR;
use mlhook::defs::MEM_XRW;
use mlhook::memory::allocate;
use mlhook::memory::copy;
use mlhook::memory::fill;
use mlhook::memory::flush;
use mlhook::memory::free;
use mlhook::memory::mask;
use mlhook::memory::query;
use mlhook::memory::read_bytes;
use mlhook::memory::Memory;
use mlhook::memory::Region;

#[test]
fn query_unmapped() {
    let mem = Memory::new();
    assert!(matches!(query(&mem, 0x1000), Err(Error::ItemNotFound)));
}

#[test]
fn allocate_and_query() {
    let mut mem = Memory::new();
    let base = allocate(&mut mem, 0x1000, MEM_RW, 0).unwrap();
    let info = query(&mem, base).unwrap();
    assert_eq!(info.base, base);
    assert_eq!(info.size, 0x1000);
    assert_eq!(info.mask, MEM_RW);
    assert!(info.path.is_none());
    let bytes = read_bytes(&mem, base, 16).unwrap();
    assert_eq!(bytes, vec![0u8; 16]);
}

#[test]
fn allocate_zero_size() {
    let mut mem = Memory::new();
    assert!(matches!(allocate(&mut mem, 0, MEM_RW, 0), Err(Error::InvalidArgument)));
}

#[test]
fn protection_roundtrip_on_copy() {
    // A page mapped read-execute: the write succeeds under
    // widen-then-restore and the mask afterwards is untouched.
    let mut mem = Memory::new();
    let p = allocate(&mut mem, 0x1000, MEM_XR, 0).unwrap();
    let before = query(&mem, p).unwrap().mask;
    assert_eq!(before, MEM_XR);
    copy(&mut mem, p, &[1, 2, 3, 4]).unwrap();
    assert_eq!(query(&mem, p).unwrap().mask, MEM_XR);
    assert_eq!(read_bytes(&mem, p, 4).unwrap(), vec![1, 2, 3, 4]);
}

#[test]
fn fill_preserves_mask() {
    let mut mem = Memory::new();
    let p = allocate(&mut mem, 64, MEM_R, 0).unwrap();
    fill(&mut mem, p + 8, 4, 0xAB).unwrap();
    assert_eq!(query(&mem, p).unwrap().mask, MEM_R);
    assert_eq!(read_bytes(&mem, p + 6, 8).unwrap(), vec![0, 0, 0xAB, 0xAB, 0xAB, 0xAB, 0, 0]);
}

#[test]
fn copy_refused_on_inaccessible() {
    let mut mem = Memory::new();
    let p = allocate(&mut mem, 64, MEM_N, 0).unwrap();
    assert!(matches!(copy(&mut mem, p, &[1]), Err(Error::InvalidAccess)));
}

#[test]
fn copy_refused_past_region_end() {
    let mut mem = Memory::new();
    let p = allocate(&mut mem, 8, MEM_RW, 0).unwrap();
    assert!(matches!(copy(&mut mem, p + 4, &[0; 8]), Err(Error::InvalidArgument)));
}

#[test]
fn copy_refused_unmapped() {
    let mut mem = Memory::new();
    assert!(matches!(copy(&mut mem, 0x5000, &[1]), Err(Error::ItemNotFound)));
}

#[test]
fn mask_changes_protection() {
    let mut mem = Memory::new();
    let p = allocate(&mut mem, 0x1000, MEM_R, 0).unwrap();
    mask(&mut mem, p, 0x1000, MEM_RW).unwrap();
    assert_eq!(query(&mem, p).unwrap().mask, MEM_RW);
    copy(&mut mem, p, &[9]).unwrap();
    assert_eq!(query(&mem, p).unwrap().mask, MEM_RW);
}

#[test]
fn free_unmaps() {
    let mut mem = Memory::new();
    let p = allocate(&mut mem, 0x1000, MEM_RW, 0).unwrap();
    free(&mut mem, p).unwrap();
    assert!(matches!(query(&mem, p), Err(Error::ItemNotFound)));
    assert!(matches!(free(&mut mem, p), Err(Error::ItemNotFound)));
}

#[test]
fn flush_checks_access() {
    let mut mem = Memory::new();
    let p = allocate(&mut mem, 64, MEM_XR, 0).unwrap();
    assert!(flush(&mem, p, 16).is_ok());
    let q = allocate(&mut mem, 64, MEM_N, 0).unwrap();
    assert!(matches!(flush(&mem, q, 16), Err(Error::InvalidAccess)));
    assert!(matches!(flush(&mem, 0x1, 16), Err(Error::ItemNotFound)));
}

#[test]
fn regions_do_not_overlap() {
    let mut mem = Memory::new();
    let a = allocate(&mut mem, 0x1000, MEM_RW, 0).unwrap();
    let b = allocate(&mut mem, 0x1000, MEM_RW, 0).unwrap();
    assert!(b >= a + 0x1000);
    copy(&mut mem, a, &[7; 8]).unwrap();
    assert_eq!(read_bytes(&mem, b, 8).unwrap(), vec![0; 8]);
}

#[test]
fn handmade_region_with_path() {
    let mem = Memory {
        regions: vec![Region {
            base: 0x400000,
            mask: MEM_XR,
            path: Some(String::from("/usr/bin/app")),
            data: vec![0x90; 32],
        }],
    };
    let info = query(&mem, 0x400010).unwrap();
    assert_eq!(info.base, 0x400000);
    assert_eq!(info.path.as_deref(), Some("/usr/bin/app"));
}

#[test]
fn mask_bits_compose() {
    assert_eq!(MEM_R | MEM_W, MEM_RW);
    assert_eq!(MEM_X | MEM_R, MEM_XR);
    assert_eq!(MEM_X | MEM_R | MEM_W, MEM_XRW);
    assert_eq!(MEM_N, 0);
}
