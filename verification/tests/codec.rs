use mlhook::arch::get_backjump_data;
use mlhook::arch::get_jump_data;
use mlhook::arch::get_overwrite_size;
use mlhook::arch::get_padding_size;
use mlhook::arch::get_trap_data;
use mlhook::arch::max_insn_size;
use mlhook::arch::max_jump_size;
use mlhook::arch::relocate;
use mlhook::defs::Error;

#[test]
fn jump_encoding_exact() {
    let j = get_jump_data(0x1234_5678_9ABC_DEF0);
    assert_eq!(
        j,
        vec![
            0x68, 0xF0, 0xDE, 0xBC, 0x9A, // push imm32 (low half)
            0xC7, 0x44, 0x24, 0x04, 0x78, 0x56, 0x34, 0x12, // mov [rsp+4], imm32 (high half)
            0xC3, // ret
        ]
    );
    assert_eq!(j.len(), 14);
}

#[test]
fn jump_sizes() {
    assert_eq!(max_jump_size(), 14);
    assert_eq!(max_insn_size(), 15);
    assert_eq!(get_jump_data(0).len(), 14);
}

#[test]
fn trap_encoding() {
    assert_eq!(get_trap_data(), vec![0x0F, 0x0B]);
}

#[test]
fn backjump_encoding() {
    // A branch 14 bytes backwards: displacement -(14 + 2) = -16.
    assert_eq!(get_backjump_data(14), vec![0xEB, 0xF0]);
    assert_eq!(get_backjump_data(0), vec![0xEB, 0xFE]);
}

#[test]
fn overwrite_size_plain_prolog() {
    // push rbp; mov rbp,rsp; sub rsp,0x20; then NOP filler: everything
    // decodes and nothing redirects, so the whole buffer is budget.
    let mut buf = vec![0x55, 0x48, 0x89, 0xE5, 0x48, 0x83, 0xEC, 0x20];
    buf.extend(std::iter::repeat(0x90).take(21));
    assert_eq!(get_overwrite_size(&buf), 29);
}

#[test]
fn overwrite_size_stops_after_ret() {
    // ret alone.
    assert_eq!(get_overwrite_size(&[0xC3]), 1);
    // ret followed by padding: the padding still counts.
    assert_eq!(get_overwrite_size(&[0xC3, 0x90, 0x90]), 3);
    // ret followed by a non-padding instruction: stop right after the ret.
    assert_eq!(get_overwrite_size(&[0xC3, 0x55, 0x90]), 1);
}

#[test]
fn overwrite_size_stops_on_invalid() {
    // push es is invalid in 64-bit mode.
    assert_eq!(get_overwrite_size(&[0x06, 0x90]), 0);
    assert_eq!(get_overwrite_size(&[0x55, 0x06, 0x90]), 1);
}

#[test]
fn overwrite_size_bounded() {
    let buf = [0x48, 0x89, 0xE5, 0x48];
    assert!(get_overwrite_size(&buf) <= buf.len());
    assert_eq!(get_overwrite_size(&[]), 0);
}

#[test]
fn padding_all_nops() {
    let buf = [0x90u8; 14];
    assert_eq!(get_padding_size(&buf), 14);
}

#[test]
fn padding_int3() {
    assert_eq!(get_padding_size(&[0xCC, 0xCC, 0x90]), 3);
}

#[test]
fn padding_multibyte_nop() {
    // The three-byte NOP `0F 1F 00`, recognized from its reversed tail.
    assert_eq!(get_padding_size(&[0x0F, 0x1F, 0x00]), 3);
    assert_eq!(get_padding_size(&[0x90, 0x0F, 0x1F, 0x00]), 4);
}

#[test]
fn padding_none() {
    assert_eq!(get_padding_size(&[0x55, 0x41]), 0);
    assert_eq!(get_padding_size(&[]), 0);
}

#[test]
fn padding_bounded() {
    let buf = [0x90, 0x55, 0x90, 0x90];
    assert!(get_padding_size(&buf) <= buf.len());
}

#[test]
fn relocate_identity_on_position_independent_code() {
    // push rbp; mov rbp,rsp: no IP-relative operand, so re-anchoring
    // anywhere reproduces the bytes.
    let buf = vec![0x55, 0x48, 0x89, 0xE5];
    assert_eq!(relocate(&buf, 0x7000_0000).unwrap(), buf);
    assert_eq!(relocate(&buf, 0x1234_5678_9ABC).unwrap(), buf);
    assert_eq!(relocate(&buf, 0).unwrap(), buf);
}

#[test]
fn relocate_rejects_invalid() {
    assert_eq!(relocate(&[0x06], 0x1000), Err(Error::InvalidData));
    assert_eq!(relocate(&[0x55, 0x06], 0x1000), Err(Error::InvalidData));
}

#[test]
fn relocate_adjusts_ip_relative() {
    // lea rax, [rip+0]: 48 8D 05 00 00 00 00, moved to a new anchor the
    // displacement must change so it keeps addressing the old target.
    let buf = vec![0x48, 0x8D, 0x05, 0x00, 0x00, 0x00, 0x00];
    let out = relocate(&buf, 0x10).unwrap();
    assert_ne!(out, buf);
}
