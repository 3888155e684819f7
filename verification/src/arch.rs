//! x86-64 instruction codec for prolog patching: redirect encodings, the
//! overwrite-budget scanner, the trailing-padding scanner, and block
//! relocation of displaced instructions.
//!
//! The redirect encodings (absolute jump, short back-jump, trap) are fixed
//! byte patterns stated exactly. Decoding arbitrary instruction bytes is
//! delegated to iced_x86 behind trusted items.

use vstd::prelude::*;

use iced_x86::BlockEncoder;
use iced_x86::BlockEncoderOptions;
use iced_x86::Code;
use iced_x86::Decoder;
use iced_x86::DecoderOptions;
use iced_x86::FlowControl;
use iced_x86::Instruction;
use iced_x86::InstructionBlock;

use crate::defs::Error;

verus! {

/// Upper bound, in bytes, of one decoded x86 instruction.
pub fn max_insn_size() -> (r: usize)
    ensures
        r == 15,
{
    15
}

/// The absolute redirect to `target`: push the low half, patch the high half
/// of the pushed stack word, return. Position-independent and clobbers no
/// register.
pub open spec fn spec_jump_data(target: u64) -> Seq<u8> {
    seq![
        0x68u8,
        (target & 0xff) as u8,
        ((target >> 8) & 0xff) as u8,
        ((target >> 16) & 0xff) as u8,
        ((target >> 24) & 0xff) as u8,
        0xC7u8,
        0x44u8,
        0x24u8,
        0x04u8,
        ((target >> 32) & 0xff) as u8,
        ((target >> 40) & 0xff) as u8,
        ((target >> 48) & 0xff) as u8,
        ((target >> 56) & 0xff) as u8,
        0xC3u8,
    ]
}

/// Encode an absolute redirect to `target`: `push imm32` with the low 32 bits,
/// `mov dword [rsp+4], imm32` with the high 32 bits, then `ret`.
pub fn get_jump_data(target: u64) -> (r: Vec<u8>)
    ensures
        r@ == spec_jump_data(target),
        r@.len() == 14,
{
    let mut v: Vec<u8> = Vec::new();
    v.push(0x68u8);
    v.push((target & 0xff) as u8);
    v.push(((target >> 8) & 0xff) as u8);
    v.push(((target >> 16) & 0xff) as u8);
    v.push(((target >> 24) & 0xff) as u8);
    v.push(0xC7u8);
    v.push(0x44u8);
    v.push(0x24u8);
    v.push(0x04u8);
    v.push(((target >> 32) & 0xff) as u8);
    v.push(((target >> 40) & 0xff) as u8);
    v.push(((target >> 48) & 0xff) as u8);
    v.push(((target >> 56) & 0xff) as u8);
    v.push(0xC3u8);
    proof {
        assert(v@ =~= spec_jump_data(target));
    }
    v
}

/// Length of a jump encoded against a null target; constant for this
/// architecture.
pub fn max_jump_size() -> (r: usize)
    ensures
        r == spec_jump_data(0).len(),
        r == 14,
{
    14
}

/// The canonical trap: `ud2`, which reliably raises a handleable
/// illegal-instruction fault.
pub open spec fn spec_trap_data() -> Seq<u8> {
    seq![0x0Fu8, 0x0Bu8]
}

/// Encode the canonical trap instruction (`ud2`).
pub fn get_trap_data() -> (r: Vec<u8>)
    ensures
        r@ == spec_trap_data(),
        r@.len() == 2,
{
    let mut v: Vec<u8> = Vec::new();
    v.push(0x0Fu8);
    v.push(0x0Bu8);
    proof {
        assert(v@ =~= spec_trap_data());
    }
    v
}

/// Displacement byte of a short branch that lands `offset` bytes before the
/// branch's own first byte: the branch is 2 bytes long and the displacement
/// counts from its end, so the byte is `-(offset + 2)` modulo 256.
pub open spec fn spec_backjump_disp(offset: u8) -> u8 {
    ((254 - offset as int) % 256) as u8
}

/// The short relative branch backwards by `offset` bytes: `jmp rel8`.
pub open spec fn spec_backjump_data(offset: u8) -> Seq<u8> {
    seq![0xEBu8, spec_backjump_disp(offset)]
}

/// Encode a short relative branch that jumps backwards by `offset` bytes
/// from its own first byte.
pub fn get_backjump_data(offset: u8) -> (r: Vec<u8>)
    ensures
        r@ == spec_backjump_data(offset),
        r@.len() == 2,
{
    let disp: u8 = if offset == 255 {
        255
    } else if offset == 254 {
        0
    } else {
        254 - offset
    };
    proof {
        assert(disp == spec_backjump_disp(offset));
    }
    let mut v: Vec<u8> = Vec::new();
    v.push(0xEBu8);
    v.push(disp);
    proof {
        assert(v@ =~= spec_backjump_data(offset));
    }
    v
}

/// What the decoder reports about the one instruction found at a given
/// position of a byte buffer.
#[derive(Clone, Copy, Debug)]
pub struct InsnFacts {
    /// Length in bytes of the decoded instruction (1 to 15).
    pub len: usize,
    /// The bytes do not decode to a valid instruction.
    pub invalid: bool,
    /// The instruction unconditionally redirects control flow
    /// (a jump or a return).
    pub redirects: bool,
    /// The instruction is a padding filler (a NOP form or `int3`).
    pub padding: bool,
}

pub uninterp spec fn insn_at(buf: Seq<u8>, pos: int) -> InsnFacts;

/// Relies on iced_x86's `Decoder` and `Instruction`: decoding at a position
/// of a byte buffer depends on those bytes alone; a decode with at least one
/// byte available consumes between 1 byte and the smaller of 15 and the
/// bytes that remain; `flow_control` classes unconditional jumps, indirect
/// jumps and returns; `code` identifies the NOP and `int3` fillers.
#[verifier::external_body]
fn read_insn(buf: &[u8], pos: usize) -> (r: InsnFacts)
    requires
        pos < buf@.len(),
    ensures
        r == insn_at(buf@, pos as int),
        1 <= r.len,
        pos + r.len <= buf@.len(),
{
    let mut decoder = Decoder::new(64, &buf[pos..], DecoderOptions::NONE);
    let insn = decoder.decode();
    let fc = insn.flow_control();
    let redirects = matches!(fc, FlowControl::UnconditionalBranch | FlowControl::IndirectBranch | FlowControl::Return);
    let padding = matches!(insn.code(), Code::Nop_rm16 | Code::Nop_rm32 | Code::Nop_rm64 | Code::Nopw | Code::Nopd | Code::Nopq | Code::Int3);
    InsnFacts { len: insn.len(), invalid: insn.is_invalid(), redirects, padding }
}

/// Where the overwrite-budget scan that has reached `pos` (with `redirected`
/// telling whether a control-flow redirect was already crossed) finally
/// stops: instruction lengths accumulate until the first invalid
/// instruction, or until anything but padding follows a redirect.
pub open spec fn spec_overwrite_size(buf: Seq<u8>, pos: int, redirected: bool) -> int
    decreases buf.len() - pos,
{
    if pos < 0 || pos >= buf.len() {
        pos
    } else {
        let f = insn_at(buf, pos);
        if f.invalid || (redirected && !f.padding) {
            pos
        } else if f.len < 1 || pos + f.len > buf.len() {
            pos
        } else {
            spec_overwrite_size(buf, pos + f.len, redirected || f.redirects)
        }
    }
}

/// The overwrite budget is the sum of the lengths of a prefix of
/// validly-decoded instructions, so it never exceeds the buffer's length.
pub proof fn lemma_overwrite_size_bounds(buf: Seq<u8>, pos: int, redirected: bool)
    requires
        0 <= pos <= buf.len(),
    ensures
        pos <= spec_overwrite_size(buf, pos, redirected) <= buf.len(),
    decreases buf.len() - pos,
{
    if pos < buf.len() {
        let f = insn_at(buf, pos);
        if !(f.invalid || (redirected && !f.padding)) && 1 <= f.len && pos + f.len <= buf.len() {
            lemma_overwrite_size_bounds(buf, pos + f.len, redirected || f.redirects);
        }
    }
}

/// Decode forward through `buffer` and return the safe overwrite budget:
/// the total length of the instructions up to and including the first one
/// that redirects control flow (plus any padding that directly follows it),
/// stopping short of any invalid instruction.
pub fn get_overwrite_size(buffer: &[u8]) -> (r: usize)
    ensures
        r == spec_overwrite_size(buffer@, 0, false),
        r <= buffer@.len(),
{
    let mut pos: usize = 0;
    let mut redirected: bool = false;
    loop
        invariant
            pos <= buffer@.len(),
            spec_overwrite_size(buffer@, 0, false) == spec_overwrite_size(
                buffer@,
                pos as int,
                redirected,
            ),
        decreases buffer@.len() - pos,
    {
        if pos >= buffer.len() {
            return pos;
        }
        let f = read_insn(buffer, pos);
        if f.invalid || (redirected && !f.padding) {
            return pos;
        }
        redirected = redirected || f.redirects;
        pos = pos + f.len;
    }
}

/// Where the backwards padding scan stops, having already counted `size`
/// padding bytes, with `i` bytes of `buf` still unscanned and the multi-byte
/// NOP detector in `state`. Single-byte fillers (`0x90`, `0xCC`) always
/// count; a multi-byte NOP is recognized from its reversed tail
/// (any byte, then `0x1F`, then `0x0F`) and counts three bytes at once.
pub open spec fn spec_padding_size(buf: Seq<u8>, i: int, state: int, size: int) -> int
    decreases i,
{
    if i <= 0 {
        size
    } else {
        let b = buf[i - 1];
        if b == 0x90 || b == 0xCC {
            spec_padding_size(buf, i - 1, state, size + 1)
        } else if b == 0x0F && state == 2 {
            spec_padding_size(buf, i - 1, 0, size + 3)
        } else if b == 0x1F && state == 1 {
            spec_padding_size(buf, i - 1, 2, size)
        } else if state == 0 {
            spec_padding_size(buf, i - 1, 1, size)
        } else {
            size
        }
    }
}

/// The padding count never exceeds the number of scanned bytes plus the
/// credit still held by the multi-byte NOP detector.
pub proof fn lemma_padding_size_bound(buf: Seq<u8>, i: int, state: int, size: int)
    requires
        0 <= i <= buf.len(),
        0 <= state <= 2,
        size >= 0,
    ensures
        spec_padding_size(buf, i, state, size) <= size + i + state,
    decreases i,
{
    if i > 0 {
        let b = buf[i - 1];
        if b == 0x90 || b == 0xCC {
            lemma_padding_size_bound(buf, i - 1, state, size + 1);
        } else if b == 0x0F && state == 2 {
            lemma_padding_size_bound(buf, i - 1, 0, size + 3);
        } else if b == 0x1F && state == 1 {
            lemma_padding_size_bound(buf, i - 1, 2, size);
        } else if state == 0 {
            lemma_padding_size_bound(buf, i - 1, 1, size);
        }
    }
}

/// The padding count of any buffer is at most the buffer's length.
pub proof fn lemma_padding_size_within(buf: Seq<u8>)
    ensures
        spec_padding_size(buf, buf.len() as int, 0, 0) <= buf.len(),
{
    lemma_padding_size_bound(buf, buf.len() as int, 0, 0);
}

/// A buffer made only of single-byte NOPs counts as padding in full.
pub proof fn lemma_padding_all_nops(buf: Seq<u8>, i: int, state: int, size: int)
    requires
        0 <= i <= buf.len(),
        forall|j: int| 0 <= j < buf.len() ==> buf[j] == 0x90,
    ensures
        spec_padding_size(buf, i, state, size) == size + i,
    decreases i,
{
    if i > 0 {
        lemma_padding_all_nops(buf, i - 1, state, size + 1);
    }
}

/// Scan `buffer` backwards from its end and count how many of its trailing
/// bytes are padding: single-byte fillers (`0x90` NOP, `0xCC` `int3`) and
/// the multi-byte `0F 1F /0` NOP family, recognized by a small state
/// machine over the reversed byte stream.
pub fn get_padding_size(buffer: &[u8]) -> (r: usize)
    ensures
        r == spec_padding_size(buffer@, buffer@.len() as int, 0, 0),
        r <= buffer@.len(),
{
    let mut i: usize = buffer.len();
    let mut state: usize = 0;
    let mut size: usize = 0;
    proof {
        lemma_padding_size_bound(buffer@, buffer@.len() as int, 0, 0);
    }
    loop
        invariant
            i <= buffer@.len(),
            state <= 2,
            size + state <= buffer@.len() - i,
            spec_padding_size(buffer@, buffer@.len() as int, 0, 0) == spec_padding_size(
                buffer@,
                i as int,
                state as int,
                size as int,
            ),
        decreases i,
    {
        if i == 0 {
            return size;
        }
        let b = buffer[i - 1];
        if b == 0x90 || b == 0xCC {
            size = size + 1;
            i = i - 1;
        } else if b == 0x0F && state == 2 {
            size = size + 3;
            state = 0;
            i = i - 1;
        } else if b == 0x1F && state == 1 {
            state = 2;
            i = i - 1;
        } else if state == 0 {
            state = 1;
            i = i - 1;
        } else {
            return size;
        }
    }
}

/// Whether every instruction of `buf` from `pos` onwards decodes validly
/// through the end of the buffer.
pub open spec fn spec_decodes_cleanly(buf: Seq<u8>, pos: int) -> bool
    decreases buf.len() - pos,
{
    if pos < 0 || pos >= buf.len() {
        true
    } else {
        let f = insn_at(buf, pos);
        if f.invalid {
            false
        } else if f.len < 1 || pos + f.len > buf.len() {
            true
        } else {
            spec_decodes_cleanly(buf, pos + f.len)
        }
    }
}

pub uninterp spec fn relocated(buf: Seq<u8>, to: u64) -> Option<Seq<u8>>;

/// Relies on iced_x86's `BlockEncoder`: re-encoding the instructions of a
/// byte block at a new anchor address, adjusting IP-relative displacements,
/// depends on the bytes and the address alone; `None` reports an encoding
/// failure.
#[verifier::external_body]
fn encode_block_at(buffer: &[u8], to: u64) -> (r: Option<Vec<u8>>)
    ensures
        r is Some <==> relocated(buffer@, to) is Some,
        r matches Some(v) ==> relocated(buffer@, to) == Some(v@),
{
    let mut decoder = Decoder::new(64, buffer, DecoderOptions::NONE);
    let insns: Vec<Instruction> = decoder.iter().collect();
    let block = InstructionBlock::new(&insns, to);
    match BlockEncoder::encode(64, block, BlockEncoderOptions::NONE) {
        Ok(res) => Some(res.code_buffer),
        Err(_) => None,
    }
}

/// Decode the instructions of `buffer` and re-encode them as one block
/// anchored at `to`, adjusting IP-relative displacements. Fails with
/// `InvalidData` if any instruction fails to decode, or if the block cannot
/// be re-encoded at the new address.
pub fn relocate(buffer: &[u8], to: u64) -> (r: Result<Vec<u8>, Error>)
    ensures
        r is Ok <==> (spec_decodes_cleanly(buffer@, 0) && relocated(buffer@, to) is Some),
        r matches Ok(v) ==> relocated(buffer@, to) == Some(v@),
        r matches Err(e) ==> e == Error::InvalidData,
{
    let mut pos: usize = 0;
    loop
        invariant
            pos <= buffer@.len(),
            spec_decodes_cleanly(buffer@, 0) == spec_decodes_cleanly(buffer@, pos as int),
        decreases buffer@.len() - pos,
    {
        if pos >= buffer.len() {
            return match encode_block_at(buffer, to) {
                Some(v) => Ok(v),
                None => Err(Error::InvalidData),
            };
        }
        let f = read_insn(buffer, pos);
        if f.invalid {
            return Err(Error::InvalidData);
        }
        pos = pos + f.len;
    }
}

} // verus!
