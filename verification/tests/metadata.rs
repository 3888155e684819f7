use mlhook::defs::Error;
use mlhook::loader::dump_pe;
use mlhook::loader::parse_ml_image;

fn push_u16(v: &mut Vec<u8>, x: u16) {
    v.extend_from_slice(&x.to_le_bytes());
}

fn push_u32(v: &mut Vec<u8>, x: u32) {
    v.extend_from_slice(&x.to_le_bytes());
}

fn push_u64(v: &mut Vec<u8>, x: u64) {
    v.extend_from_slice(&x.to_le_bytes());
}

const IMAGE_BASE: u64 = 0x1_4000_0000;

/// A minimal PE64 with one section named `name`, mapped at RVA 0x1000,
/// raw data of 0x200 bytes at file offset 0x200 holding `payload`.
fn build_pe(name: &[u8; 8], payload: &[u8]) -> Vec<u8> {
    assert!(payload.len() <= 0x200);
    let mut v = Vec::new();
    // DOS header: MZ, then e_lfanew = 0x80 at offset 0x3C.
    v.extend_from_slice(b"MZ");
    v.resize(0x3C, 0);
    push_u32(&mut v, 0x80);
    v.resize(0x80, 0);
    // PE signature and COFF header.
    v.extend_from_slice(b"PE\0\0");
    push_u16(&mut v, 0x8664); // machine: x86-64
    push_u16(&mut v, 1); // one section
    push_u32(&mut v, 0); // timestamp
    push_u32(&mut v, 0); // symbol table
    push_u32(&mut v, 0); // symbol count
    push_u16(&mut v, 240); // optional header size
    push_u16(&mut v, 0x0022); // executable, large-address-aware
    // Optional header (PE32+).
    push_u16(&mut v, 0x020B); // magic
    v.push(14); // linker major
    v.push(0); // linker minor
    push_u32(&mut v, 0x200); // size of code
    push_u32(&mut v, 0); // size of initialized data
    push_u32(&mut v, 0); // size of uninitialized data
    push_u32(&mut v, 0x1000); // entry point
    push_u32(&mut v, 0x1000); // base of code
    push_u64(&mut v, IMAGE_BASE);
    push_u32(&mut v, 0x1000); // section alignment
    push_u32(&mut v, 0x200); // file alignment
    push_u16(&mut v, 6); // OS major
    push_u16(&mut v, 0);
    push_u16(&mut v, 0); // image version
    push_u16(&mut v, 0);
    push_u16(&mut v, 6); // subsystem version
    push_u16(&mut v, 0);
    push_u32(&mut v, 0); // win32 version
    push_u32(&mut v, 0x2000); // size of image
    push_u32(&mut v, 0x200); // size of headers
    push_u32(&mut v, 0); // checksum
    push_u16(&mut v, 3); // subsystem: console
    push_u16(&mut v, 0); // dll characteristics
    push_u64(&mut v, 0x100000); // stack reserve
    push_u64(&mut v, 0x1000); // stack commit
    push_u64(&mut v, 0x100000); // heap reserve
    push_u64(&mut v, 0x1000); // heap commit
    push_u32(&mut v, 0); // loader flags
    push_u32(&mut v, 16); // data directory count
    for _ in 0..16 {
        push_u32(&mut v, 0);
        push_u32(&mut v, 0);
    }
    // Section header.
    v.extend_from_slice(name);
    push_u32(&mut v, 0x200); // virtual size
    push_u32(&mut v, 0x1000); // virtual address
    push_u32(&mut v, 0x200); // size of raw data
    push_u32(&mut v, 0x200); // pointer to raw data
    push_u32(&mut v, 0); // relocations
    push_u32(&mut v, 0); // line numbers
    push_u16(&mut v, 0); // relocation count
    push_u16(&mut v, 0); // line number count
    push_u32(&mut v, 0x4000_0040); // initialized data, readable
    // Section raw data.
    v.resize(0x200, 0);
    v.extend_from_slice(payload);
    v.resize(0x400, 0);
    v
}

/// `.mldyn` payload: one record `{addr, sym -> "foo", record -> ""}` and
/// a zero terminator; the strings live at raw offsets 0x40 and 0x44 of
/// the section.
fn dyn_payload() -> Vec<u8> {
    let mut p = Vec::new();
    push_u64(&mut p, 0x1000); // addr
    push_u64(&mut p, IMAGE_BASE + 0x1000 + 0x40); // sym VA
    push_u64(&mut p, IMAGE_BASE + 0x1000 + 0x44); // record VA
    // Terminator record.
    for _ in 0..3 {
        push_u64(&mut p, 0);
    }
    p.resize(0x40, 0);
    p.extend_from_slice(b"foo\0");
    p.push(0); // the empty record string
    p
}

#[test]
fn metadata_parse_pe64() {
    let image = build_pe(b".mldyn\0\0", &dyn_payload());
    let load_offset: usize = 0x1_5000_0000;
    let (dyns, hooks) = dump_pe(load_offset, &image).unwrap();
    assert_eq!(dyns.len(), 1);
    assert_eq!(dyns[0].address, load_offset - IMAGE_BASE as usize + 0x1000);
    assert_eq!(dyns[0].sym, "foo");
    assert_eq!(dyns[0].record, "");
    assert!(hooks.dispatchers.is_empty());
    assert!(hooks.hooks.is_empty());
    assert!(hooks.locking_hooks.is_empty());
}

#[test]
fn metadata_parse_verbatim_without_offset() {
    let image = build_pe(b".mldyn\0\0", &dyn_payload());
    let (dyns, _) = parse_ml_image(0, &image).unwrap();
    assert_eq!(dyns.len(), 1);
    assert_eq!(dyns[0].address, 0x1000);
    assert_eq!(dyns[0].sym, "foo");
}

#[test]
fn zero_terminator_gives_empty_table() {
    // The very first record carries a zero primary field.
    let mut p = Vec::new();
    for _ in 0..3 {
        push_u64(&mut p, 0);
    }
    let image = build_pe(b".mldyn\0\0", &p);
    let (dyns, _) = parse_ml_image(0, &image).unwrap();
    assert!(dyns.is_empty());

    let image = build_pe(b".mlhook\0", &p);
    let (_, hooks) = parse_ml_image(0, &image).unwrap();
    assert!(hooks.dispatchers.is_empty());
    assert!(hooks.hooks.is_empty());
    assert!(hooks.locking_hooks.is_empty());
}

fn hook_record(p: &mut Vec<u8>, target: u64, callback: u64, flags: u64) {
    push_u64(p, target);
    push_u64(p, callback);
    push_u64(p, flags);
}

#[test]
fn hooks_bucketed_by_flags() {
    let mut p = Vec::new();
    hook_record(&mut p, 0x1000, 0x2000, 0x01 | 0x02); // dispatcher, dynamic
    hook_record(&mut p, 0x1100, 0x2100, 0x04 | 0x08); // locking, preload
    hook_record(&mut p, 0x1200, 0x2200, 0x20); // plain, priority
    hook_record(&mut p, 0x1300, 0x2300, 0x10); // plain, optional
    hook_record(&mut p, 0, 0, 0);
    let image = build_pe(b".mlhook\0", &p);
    let (_, hooks) = parse_ml_image(0, &image).unwrap();

    assert_eq!(hooks.dispatchers.len(), 1);
    let d = &hooks.dispatchers[0];
    assert_eq!((d.target, d.callback), (0x1000, 0x2000));
    assert!(d.dispatcher && d.dynamic);
    // A dispatcher record forces every other option off.
    assert!(!d.locking && !d.preload && !d.optional && !d.priority);

    assert_eq!(hooks.locking_hooks.len(), 1);
    let l = &hooks.locking_hooks[0];
    assert_eq!((l.target, l.callback), (0x1100, 0x2100));
    assert!(l.locking && l.preload && !l.dispatcher && !l.dynamic);

    assert_eq!(hooks.hooks.len(), 2);
    assert_eq!(hooks.hooks[0].target, 0x1200);
    assert!(hooks.hooks[0].priority && !hooks.hooks[0].optional);
    assert_eq!(hooks.hooks[1].target, 0x1300);
    assert!(hooks.hooks[1].optional && !hooks.hooks[1].priority);
}

#[test]
fn bucketing_ignores_record_order() {
    // Two records with the same flag bits land in the same bucket, in
    // input order, wherever they stand among the others.
    let mut p1 = Vec::new();
    hook_record(&mut p1, 0x1000, 0x2000, 0x20);
    hook_record(&mut p1, 0x1100, 0x2100, 0x01);
    hook_record(&mut p1, 0x1200, 0x2200, 0x20);
    hook_record(&mut p1, 0, 0, 0);
    let (_, t1) = parse_ml_image(0, &build_pe(b".mlhook\0", &p1)).unwrap();

    let mut p2 = Vec::new();
    hook_record(&mut p2, 0x1100, 0x2100, 0x01);
    hook_record(&mut p2, 0x1000, 0x2000, 0x20);
    hook_record(&mut p2, 0x1200, 0x2200, 0x20);
    hook_record(&mut p2, 0, 0, 0);
    let (_, t2) = parse_ml_image(0, &build_pe(b".mlhook\0", &p2)).unwrap();

    assert_eq!(t1.hooks, t2.hooks);
    assert_eq!(t1.dispatchers, t2.dispatchers);
}

#[test]
fn missing_symbol_string_is_fatal() {
    // The sym field points outside every section.
    let mut p = Vec::new();
    push_u64(&mut p, 0x1000);
    push_u64(&mut p, 0x999); // resolves to no section
    push_u64(&mut p, 0);
    for _ in 0..3 {
        push_u64(&mut p, 0);
    }
    let image = build_pe(b".mldyn\0\0", &p);
    assert!(matches!(parse_ml_image(0, &image), Err(Error::InvalidData)));
}

#[test]
fn unknown_format_rejected() {
    assert!(matches!(parse_ml_image(0, b"garbage"), Err(Error::InvalidData)));
    assert!(matches!(parse_ml_image(0, b""), Err(Error::InvalidData)));
}

#[test]
fn malformed_pe_rejected() {
    // The MZ magic alone is not a loadable image.
    assert!(matches!(parse_ml_image(0, b"MZ\0\0"), Err(Error::InvalidData)));
}

/// A minimal ELF64 with no sections at all.
fn build_empty_elf() -> Vec<u8> {
    let mut v = Vec::new();
    v.extend_from_slice(&[0x7F, 0x45, 0x4C, 0x46, 2, 1, 1, 0]);
    v.resize(16, 0);
    push_u16(&mut v, 2); // ET_EXEC
    push_u16(&mut v, 0x3E); // x86-64
    push_u32(&mut v, 1); // version
    push_u64(&mut v, 0); // entry
    push_u64(&mut v, 0); // phoff
    push_u64(&mut v, 0); // shoff
    push_u32(&mut v, 0); // flags
    push_u16(&mut v, 64); // ehsize
    push_u16(&mut v, 56); // phentsize
    push_u16(&mut v, 0); // phnum
    push_u16(&mut v, 64); // shentsize
    push_u16(&mut v, 0); // shnum
    push_u16(&mut v, 0); // shstrndx
    v
}

#[test]
fn elf_without_metadata_sections() {
    let image = build_empty_elf();
    let (dyns, hooks) = parse_ml_image(0, &image).unwrap();
    assert!(dyns.is_empty());
    assert!(hooks.dispatchers.is_empty() && hooks.hooks.is_empty());
}
