use mlhook::arch::get_jump_data;
use mlhook::defs::Error;
use mlhook::defs::MEM_XR;
use mlhook::hook::place;
use mlhook::hook::place_internal;
use mlhook::hook::remove;
use mlhook::hook::HookType;
use mlhook::memory::query;
use mlhook::memory::read_bytes;
use mlhook::memory::Memory;
use mlhook::memory::Region;
use mlhook::tramp::make_trampoline;
use mlhook::tramp::TrampolineBuffer;
use mlhook::tramp::BUFFER_SIZE;

fn code_region(base: u64, bytes: Vec<u8>) -> Memory {
    Memory { regions: vec![Region { base, mask: MEM_XR, path: None, data: bytes }] }
}

#[test]
fn inline_hook_x86_64() {
    // Target prolog: push rbp; mov rbp,rsp; sub rsp,0x20; NOP filler
    // behind it so the probe decodes cleanly.
    let from: u64 = 0x400000;
    let to: u64 = 0x1234_5678_9ABC_DEF0;
    let mut body = vec![0x55, 0x48, 0x89, 0xE5, 0x48, 0x83, 0xEC, 0x20];
    body.extend(std::iter::repeat(0x90).take(56));
    let mut mem = code_region(from, body.clone());

    let hd = place_internal(&mut mem, from, to).unwrap();
    assert!(matches!(hd.hook_type, HookType::Inline));
    assert_eq!(hd.offset, 0);
    assert_eq!(hd.original, body[..14].to_vec());

    let jump = get_jump_data(to);
    assert_eq!(read_bytes(&mem, from, 14).unwrap(), jump);
    // The rest of the region is untouched, and so is the protection.
    assert_eq!(read_bytes(&mem, from + 14, 50).unwrap(), body[14..].to_vec());
    assert_eq!(query(&mem, from).unwrap().mask, MEM_XR);
}

#[test]
fn backjump_hook_with_nop_padding() {
    // Fourteen NOPs precede the function; the prolog has only five
    // decodable bytes before a ret, too short for the inline jump.
    let base: u64 = 0x400000;
    let from: u64 = base + 14;
    let to: u64 = 0x7777_0000;
    let mut body = vec![0x90; 14];
    body.extend_from_slice(&[0x55, 0x48, 0x89, 0xE5, 0xC3]);
    body.extend(std::iter::repeat(0x55).take(45));
    let mut mem = code_region(base, body.clone());

    let hd = place_internal(&mut mem, from, to).unwrap();
    assert!(matches!(hd.hook_type, HookType::Backjump));
    assert_eq!(hd.offset, 14);
    assert_eq!(hd.original, body[..16].to_vec());

    // The jump sits in the padding, the prolog holds `jmp rel8 -16`.
    assert_eq!(read_bytes(&mem, from - 14, 14).unwrap(), get_jump_data(to));
    assert_eq!(read_bytes(&mem, from, 2).unwrap(), vec![0xEB, 0xF0]);
}

#[test]
fn trap_fallback() {
    // Prolog is a bare ret and nothing before it is padding: only one
    // byte may be overwritten, so a truncated trap goes in.
    let from: u64 = 0x400000;
    let mut body = vec![0xC3];
    body.extend(std::iter::repeat(0x55).take(63));
    let mut mem = code_region(from, body.clone());

    let hd = place_internal(&mut mem, from, 0x5000).unwrap();
    assert!(matches!(hd.hook_type, HookType::Trap));
    assert_eq!(hd.offset, 0);
    assert_eq!(hd.original, vec![0xC3]);
    assert_eq!(read_bytes(&mem, from, 2).unwrap(), vec![0x0F, 0x55]);
}

#[test]
fn no_room_for_any_strategy() {
    // Nothing decodes: no budget at all, no strategy fits.
    let from: u64 = 0x400000;
    let mut mem = code_region(from, vec![0x06; 64]);
    assert!(matches!(place_internal(&mut mem, from, 0x5000), Err(Error::NoMemory)));
}

#[test]
fn place_internal_unmapped() {
    let mut mem = Memory::new();
    assert!(matches!(place_internal(&mut mem, 0x400000, 0x5000), Err(Error::ItemNotFound)));
}

#[test]
fn round_trip_patch() {
    // Applying a hook and writing the saved bytes back restores the
    // region bit for bit.
    let from: u64 = 0x400000;
    let mut body = vec![0x55, 0x48, 0x89, 0xE5, 0x48, 0x83, 0xEC, 0x20];
    body.extend(std::iter::repeat(0x90).take(56));
    let mut mem = code_region(from, body.clone());
    let snapshot = read_bytes(&mem, from, 64).unwrap();

    let hd = place_internal(&mut mem, from, 0xAABB_CCDD).unwrap();
    assert_ne!(read_bytes(&mem, from, 64).unwrap(), snapshot);
    remove(&mut mem, from, &hd).unwrap();
    assert_eq!(read_bytes(&mem, from, 64).unwrap(), snapshot);
    assert_eq!(query(&mem, from).unwrap().mask, MEM_XR);
}

#[test]
fn round_trip_patch_backjump() {
    let base: u64 = 0x400000;
    let from: u64 = base + 14;
    let mut body = vec![0x90; 14];
    body.extend_from_slice(&[0x55, 0x48, 0x89, 0xE5, 0xC3]);
    body.extend(std::iter::repeat(0x55).take(45));
    let mut mem = code_region(base, body.clone());
    let snapshot = read_bytes(&mem, base, 64).unwrap();

    let hd = place_internal(&mut mem, from, 0x9000).unwrap();
    remove(&mut mem, from, &hd).unwrap();
    assert_eq!(read_bytes(&mem, base, 64).unwrap(), snapshot);
}

#[test]
fn place_public_writes_jump() {
    let from: u64 = 0x400000;
    let mut mem = code_region(from, vec![0; 64]);
    let n = place(&mut mem, from, 0xCAFE).unwrap();
    assert_eq!(n, 14);
    assert_eq!(read_bytes(&mem, from, 14).unwrap(), get_jump_data(0xCAFE));
    assert_eq!(query(&mem, from).unwrap().mask, MEM_XR);
}

#[test]
fn place_public_unmapped() {
    let mut mem = Memory::new();
    assert!(matches!(place(&mut mem, 0x400000, 0xCAFE), Err(Error::ItemNotFound)));
}

#[test]
fn trampoline_exhaustion() {
    // A full-capacity arena refuses one more byte and keeps its state.
    let mut buf = TrampolineBuffer::new(0x7000_0000, BUFFER_SIZE);
    let chunk = vec![0x90u8; BUFFER_SIZE];
    assert_eq!(buf.insert_data(&chunk), Ok(0x7000_0000));
    let before = buf.get_pointer();
    assert_eq!(buf.insert_data(&[0x90]), Err(Error::NoMemory));
    assert_eq!(buf.get_pointer(), before);
}

#[test]
fn trampoline_is_monotonic() {
    let mut buf = TrampolineBuffer::new(0x7000_0000, 32);
    assert_eq!(buf.insert_data(&[1, 2, 3]), Ok(0x7000_0000));
    assert_eq!(buf.insert_data(&[4, 5]), Ok(0x7000_0003));
    assert_eq!(buf.get_pointer(), 0x7000_0005);
}

#[test]
fn trampoline_resumes_original() {
    // The trampoline holds the relocated prolog followed by a jump back
    // to the first byte after the displaced bytes.
    let mut buf = TrampolineBuffer::new(0x7000_0000, 64);
    let original = [0x55, 0x48, 0x89, 0xE5];
    let from: u64 = 0x400000;
    let t = make_trampoline(&mut buf, &original, from).unwrap();
    assert_eq!(t, 0x7000_0000);
    let mut want = original.to_vec();
    want.extend(get_jump_data(from + 4));
    assert_eq!(buf.data, want);
}
