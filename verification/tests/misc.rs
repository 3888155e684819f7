use mlhook::defs::Bool;
use mlhook::defs::Error;
use mlhook::defs::MEM_N;
use mlhook::defs::MEM_R;
use mlhook::defs::MEM_RW;
use mlhook::defs::MEM_W;
use mlhook::defs::MEM_X;
use mlhook::defs::MEM_XR;
use mlhook::defs::MEM_XRW;
use mlhook::ext::ExtMap;
use mlhook::ldpath::add_linker_path;
use mlhook::ldpath::remove_linker_path;
use mlhook::loader::ModuleKind;
use mlhook::maps::from_address;
use mlhook::maps::from_path;
use mlhook::maps::parse_line;
use mlhook::maps::parse_maps;
use mlhook::protect::get_os_protection;
use mlhook::protect::get_os_protection_windows;
use mlhook::protect::wrap_protection;
use mlhook::protect::wrap_protection_windows;
use mlhook::protect::PAGE_EXECUTE_READ;
use mlhook::protect::PAGE_EXECUTE_READWRITE;
use mlhook::protect::PAGE_NOACCESS;
use mlhook::protect::PAGE_READONLY;

#[test]
fn ext_map_semantics() {
    let mut m = ExtMap::new();
    assert!(m.insert_ext(0x1000, 7));
    assert!(!m.insert_ext(0x2000, 7)); // present: overwritten, reported false
    assert_eq!(m.ext_from_base(7), 0x2000);
    assert_eq!(m.ext_from_base(8), 0); // absent: null
    assert!(m.remove_ext(7));
    assert!(!m.remove_ext(7));
    assert_eq!(m.ext_from_base(7), 0);
}

#[test]
fn error_ordinals_order() {
    // The declaration order is the ABI: Success first.
    assert_eq!(Error::Success as u32, 0);
    assert_eq!(Error::ItemNotFound as u32, 1);
    assert_eq!(Error::InvalidAccess as u32, 2);
    assert_eq!(Error::InvalidArgument as u32, 3);
    assert_eq!(Error::InvalidData as u32, 4);
    assert_eq!(Error::NoMemory as u32, 5);
    assert!(matches!(Bool::True, Bool::True));
    assert!(matches!(ModuleKind::Binary, ModuleKind::Binary));
}

#[test]
fn posix_protection_translation() {
    assert_eq!(get_os_protection(MEM_N), 0);
    assert_eq!(get_os_protection(MEM_XR), 0x5);
    assert_eq!(get_os_protection(MEM_XRW), 0x7);
    assert_eq!(wrap_protection(0x5), MEM_XR);
    assert_eq!(wrap_protection(0x2), MEM_W);
    for m in [MEM_N, MEM_R, MEM_RW, MEM_X, MEM_XR, MEM_XRW] {
        assert_eq!(wrap_protection(get_os_protection(m)), m);
    }
}

#[test]
fn windows_protection_translation() {
    assert_eq!(get_os_protection_windows(MEM_N), Some(PAGE_NOACCESS));
    assert_eq!(get_os_protection_windows(MEM_R), Some(PAGE_READONLY));
    assert_eq!(get_os_protection_windows(MEM_XRW), Some(PAGE_EXECUTE_READWRITE));
    assert_eq!(get_os_protection_windows(MEM_W), None); // write-only has no encoding
    assert_eq!(wrap_protection_windows(PAGE_EXECUTE_READ), MEM_XR);
    // Modifier flags are masked out before comparison.
    assert_eq!(wrap_protection_windows(PAGE_READONLY | 0x100), MEM_R); // guard
    assert_eq!(wrap_protection_windows(PAGE_EXECUTE_READWRITE | 0x200), MEM_XRW); // nocache
    for m in [MEM_N, MEM_R, MEM_RW, MEM_X, MEM_XR, MEM_XRW] {
        assert_eq!(wrap_protection_windows(get_os_protection_windows(m).unwrap()), m);
    }
}

#[test]
fn maps_line_with_path() {
    let line = b"7f5a1c000000-7f5a1c021000 r-xp 00001000 08:01 1048576 /usr/lib/libc.so";
    let m = parse_line(line).unwrap();
    assert_eq!(m.base, 0x7f5a_1c00_0000);
    assert_eq!(m.end, 0x7f5a_1c02_1000);
    assert_eq!(m.flags, MEM_XR);
    assert!(!m.is_shared);
    assert_eq!(m.offset, 0x1000);
    assert_eq!(m.major_device, 8);
    assert_eq!(m.minor_device, 1);
    assert_eq!(m.inode, 1048576);
    assert_eq!(m.path.as_deref(), Some("/usr/lib/libc.so"));
}

#[test]
fn maps_line_without_path() {
    let m = parse_line(b"55e000-55e400 rw-s 00000000 00:00 0").unwrap();
    assert_eq!(m.base, 0x55e000);
    assert_eq!(m.end, 0x55e400);
    assert_eq!(m.flags, MEM_RW);
    assert!(m.is_shared);
    assert_eq!(m.inode, 0);
    assert!(m.path.is_none());
}

#[test]
fn maps_line_malformed() {
    assert!(parse_line(b"").is_none());
    assert!(parse_line(b"not a mapping at all").is_none());
    assert!(parse_line(b"1000-2000 rw").is_none()); // permission field too short
    assert!(parse_line(b"1000-2000 rw-p 0 08:01").is_none()); // inode missing
}

#[test]
fn maps_listing_lookup() {
    let lines: Vec<Vec<u8>> = vec![
        b"1000-2000 r--p 00000000 00:00 0".to_vec(),
        b"2000-3000 r-xp 00000000 08:01 42 /bin/tool".to_vec(),
    ];
    let maps = parse_maps(&lines).unwrap();
    assert_eq!(maps.len(), 2);

    let hit = from_address(&maps, 0x2800).unwrap();
    assert_eq!(hit.base, 0x2000);
    assert!(from_address(&maps, 0x3000).is_none());
    assert!(from_address(&maps, 0x0FFF).is_none());

    let byp = from_path(&maps, &String::from("/bin/tool")).unwrap();
    assert_eq!(byp.base, 0x2000);
    assert!(from_path(&maps, &String::from("/bin/other")).is_none());
}

#[test]
fn maps_listing_rejects_bad_line() {
    let lines: Vec<Vec<u8>> = vec![
        b"1000-2000 r--p 00000000 00:00 0".to_vec(),
        b"oops".to_vec(),
    ];
    assert!(parse_maps(&lines).is_none());
}

#[test]
fn linker_path_add() {
    assert_eq!(add_linker_path(b"/a:/b", b"/c"), b"/a:/b:/c".to_vec());
    // An empty list is one empty element, as the loader reports it.
    assert_eq!(add_linker_path(b"", b"/c"), b":/c".to_vec());
}

#[test]
fn linker_path_remove() {
    assert_eq!(remove_linker_path(b"/a:/b:/c", b"/b"), Some(b"/a:/c".to_vec()));
    assert_eq!(remove_linker_path(b"/a:/b:/c", b"/a"), Some(b"/b:/c".to_vec()));
    assert_eq!(remove_linker_path(b"/a:/b:/c", b"/c"), Some(b"/a:/b".to_vec()));
    assert_eq!(remove_linker_path(b"/a", b"/a"), Some(b"".to_vec()));
    assert_eq!(remove_linker_path(b"/a:/b", b"/x"), None);
    // Only the first of two equal elements leaves.
    assert_eq!(remove_linker_path(b"/a:/a:/b", b"/a"), Some(b"/a:/b".to_vec()));
}
