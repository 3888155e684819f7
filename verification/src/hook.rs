//! Hook installer: choose the first patching strategy that fits the
//! target's prolog (inline jump, padding-assisted back-jump, software
//! trap), apply it through the protection-aware memory layer, and keep the
//! displaced bytes so the patch can be undone.

use vstd::prelude::*;
use vstd::slice::slice_to_vec;

use crate::arch;
use crate::defs::Error;
use crate::memory::access_error;
use crate::memory::can_access;
use crate::memory::copy;
use crate::memory::flush;
use crate::memory::lemma_region_index_unique;
use crate::memory::read_bytes;
use crate::memory::read_val;
use crate::memory::spec_write;
use crate::memory::updated_region;
use crate::memory::Memory;

verus! {

/// The strategy a placed hook used.
#[derive(Clone, Copy, PartialEq, Eq, Structural, Debug)]
pub enum HookType {
    Inline,
    Backjump,
    Trap,
}

/// What a placed hook left behind: the strategy, how many bytes before the
/// target the patch starts, and the displaced original bytes.
pub struct HookData {
    pub hook_type: HookType,
    pub offset: usize,
    pub original: Vec<u8>,
}

/// Bundle the outcome of a placement.
pub fn build_hook_data(hook_type: HookType, offset: usize, original: &[u8]) -> (r: HookData)
    ensures
        r.hook_type == hook_type,
        r.offset == offset,
        r.original@ == original@,
{
    HookData { hook_type, offset, original: slice_to_vec(original) }
}

/// The bytes of `patch` were laid over the region containing `w`, at `w`;
/// the region's protection mask and everything else stay.
pub open spec fn mem_written(m0: Memory, m1: Memory, w: u64, patch: Seq<u8>) -> bool {
    let i = m0.region_index(w);
    let reg = m0.regions@[i];
    updated_region(m0.regions@, m1.regions@, i, spec_write(reg.data@, w - reg.base, patch), reg.mask)
}

/// How many prolog bytes the installer probes: one full jump plus one
/// maximal instruction.
pub open spec fn spec_probe_len() -> int {
    29
}

/// The overwrite budget measured on the probed prolog bytes.
pub open spec fn spec_prolog_max(m: Memory, from: u64) -> int {
    arch::spec_overwrite_size(read_val(m, from, spec_probe_len()), 0, false)
}

/// The outcome of the trap strategy: write as much of the trap encoding as
/// the overwrite budget admits (a truncated trap still faults), or report
/// `NoMemory` when not even one byte may be overwritten.
pub open spec fn trap_spec(
    m0: Memory,
    m1: Memory,
    from: u64,
    pmax: int,
    r: Result<HookData, Error>,
) -> bool {
    if pmax < 1 {
        r == Err::<HookData, Error>(Error::NoMemory) && m1 == m0
    } else {
        let n = if pmax < 2 {
            pmax
        } else {
            2
        };
        match r {
            Ok(hd) => hd.hook_type == HookType::Trap && hd.offset == 0 && hd.original@ == read_val(
                m0,
                from,
                n,
            ) && mem_written(m0, m1, from, arch::spec_trap_data().take(n)),
            Err(_) => false,
        }
    }
}

/// The full outcome of `place_internal`: the first strategy that fits is
/// taken; every read and write goes through the checked memory layer and a
/// refused access surfaces as that access's error with nothing written.
/// A target whose address is too low to have any preceding padding skips
/// the back-jump attempt.
pub open spec fn place_spec(
    m0: Memory,
    m1: Memory,
    from: u64,
    to: u64,
    r: Result<HookData, Error>,
) -> bool {
    if !can_access(m0, from, spec_probe_len()) {
        r == Err::<HookData, Error>(access_error(m0, from, spec_probe_len())) && m1 == m0
    } else {
        let pmax = spec_prolog_max(m0, from);
        if 14 <= pmax {
            match r {
                Ok(hd) => hd.hook_type == HookType::Inline && hd.offset == 0 && hd.original@
                    == read_val(m0, from, 14) && mem_written(m0, m1, from, arch::spec_jump_data(to)),
                Err(_) => false,
            }
        } else if 2 <= pmax && from >= 14 {
            let w = (from - 14) as u64;
            if !can_access(m0, w, 14) {
                r == Err::<HookData, Error>(access_error(m0, w, 14)) && m1 == m0
            } else if 14 <= arch::spec_padding_size(read_val(m0, w, 14), 14, 0, 0) {
                if !can_access(m0, w, 16) {
                    r == Err::<HookData, Error>(access_error(m0, w, 16)) && m1 == m0
                } else {
                    match r {
                        Ok(hd) => hd.hook_type == HookType::Backjump && hd.offset == 14
                            && hd.original@ == read_val(m0, w, 16) && mem_written(
                            m0,
                            m1,
                            w,
                            arch::spec_jump_data(to) + arch::spec_backjump_data(14),
                        ),
                        Err(_) => false,
                    }
                }
            } else {
                trap_spec(m0, m1, from, pmax, r)
            }
        } else {
            trap_spec(m0, m1, from, pmax, r)
        }
    }
}

/// Place a hook at `from` redirecting to `to`, choosing the first strategy
/// that fits: inline jump over the prolog, back-jump through the padding
/// that precedes the function, or a software trap. Returns the strategy,
/// the patch's start offset before `from`, and the displaced bytes.
pub fn place_internal(mem: &mut Memory, from: u64, to: u64) -> (r: Result<HookData, Error>)
    requires
        old(mem).wf(),
    ensures
        final(mem).wf(),
        place_spec(*old(mem), *final(mem), from, to, r),
{
    let ghost m0 = *old(mem);
    let jump = arch::get_jump_data(to);
    let probe_len = jump.len() + arch::max_insn_size();
    let probe = match read_bytes(mem, from, probe_len) {
        Ok(v) => v,
        Err(e) => {
            return Err(e);
        },
    };
    let prolog_max = arch::get_overwrite_size(probe.as_slice());
    let ghost i = m0.region_index(from);

    // Inline: the whole jump fits over decodable prolog bytes.
    if jump.len() <= prolog_max {
        let original = match read_bytes(mem, from, jump.len()) {
            Ok(v) => v,
            Err(_) => {
                proof {
                    assert(false);
                }
                return Err(Error::InvalidData);
            },
        };
        match copy(mem, from, jump.as_slice()) {
            Ok(()) => (),
            Err(_) => {
                proof {
                    assert(false);
                }
                return Err(Error::InvalidData);
            },
        }
        proof {
            lemma_region_index_unique(*mem, from, i);
        }
        match flush(mem, from, 14) {
            Ok(()) => (),
            Err(_) => {
                proof {
                    assert(false);
                }
                return Err(Error::InvalidData);
            },
        }
        return Ok(build_hook_data(HookType::Inline, 0, original.as_slice()));
    }

    // Back-jump: a short branch fits the prolog and enough padding
    // precedes the function to hold the jump itself.
    let backsize = jump.len();
    let mut back = arch::get_backjump_data(backsize as u8);
    if back.len() <= prolog_max && from >= 14 {
        let w = from - 14;
        let pre = match read_bytes(mem, w, backsize) {
            Ok(v) => v,
            Err(e) => {
                return Err(e);
            },
        };
        let padding_max = arch::get_padding_size(pre.as_slice());
        if backsize <= padding_max {
            let mut payload = jump;
            payload.append(&mut back);
            let original = match read_bytes(mem, w, payload.len()) {
                Ok(v) => v,
                Err(e) => {
                    return Err(e);
                },
            };
            match copy(mem, w, payload.as_slice()) {
                Ok(()) => (),
                Err(_) => {
                    proof {
                        assert(false);
                    }
                    return Err(Error::InvalidData);
                },
            }
            proof {
                lemma_region_index_unique(*mem, w, m0.region_index(w));
            }
            match flush(mem, w, 16) {
                Ok(()) => (),
                Err(_) => {
                    proof {
                        assert(false);
                    }
                    return Err(Error::InvalidData);
                },
            }
            return Ok(build_hook_data(HookType::Backjump, backsize, original.as_slice()));
        }
    }

    // Trap: overwrite with as much of the trap encoding as fits.
    let mut trap = arch::get_trap_data();
    let n = if prolog_max >= trap.len() {
        trap.len()
    } else {
        prolog_max
    };
    if n >= 1 {
        trap.truncate(n);
        let original = match read_bytes(mem, from, n) {
            Ok(v) => v,
            Err(_) => {
                proof {
                    assert(false);
                }
                return Err(Error::InvalidData);
            },
        };
        match copy(mem, from, trap.as_slice()) {
            Ok(()) => (),
            Err(_) => {
                proof {
                    assert(false);
                }
                return Err(Error::InvalidData);
            },
        }
        proof {
            lemma_region_index_unique(*mem, from, i);
        }
        match flush(mem, from, n) {
            Ok(()) => (),
            Err(_) => {
                proof {
                    assert(false);
                }
                return Err(Error::InvalidData);
            },
        }
        return Ok(build_hook_data(HookType::Trap, 0, original.as_slice()));
    }
    Err(Error::NoMemory)
}

/// Unconditionally write a jump to `to` over the bytes at `from`; succeeds
/// exactly when the page can be written under widen-then-restore. Returns
/// the number of bytes written.
pub fn place(mem: &mut Memory, from: u64, to: u64) -> (r: Result<usize, Error>)
    requires
        old(mem).wf(),
    ensures
        final(mem).wf(),
        match r {
            Ok(n) => n == 14 && can_access(*old(mem), from, 14) && mem_written(
                *old(mem),
                *final(mem),
                from,
                arch::spec_jump_data(to),
            ),
            Err(e) => *final(mem) == *old(mem) && !can_access(*old(mem), from, 14) && e
                == access_error(*old(mem), from, 14),
        },
{
    let jump = arch::get_jump_data(to);
    match copy(mem, from, jump.as_slice()) {
        Ok(()) => Ok(jump.len()),
        Err(e) => Err(e),
    }
}

/// Undo a placement: write the saved bytes back at `from` minus the
/// patch's start offset, then flush.
pub fn remove(mem: &mut Memory, from: u64, data: &HookData) -> (r: Result<(), Error>)
    requires
        old(mem).wf(),
        from >= data.offset,
    ensures
        final(mem).wf(),
        match r {
            Ok(()) => can_access(*old(mem), (from - data.offset) as u64, data.original@.len() as int)
                && mem_written(*old(mem), *final(mem), (from - data.offset) as u64, data.original@),
            Err(e) => *final(mem) == *old(mem) && !can_access(
                *old(mem),
                (from - data.offset) as u64,
                data.original@.len() as int,
            ) && e == access_error(
                *old(mem),
                (from - data.offset) as u64,
                data.original@.len() as int,
            ),
        },
{
    let w = from - data.offset as u64;
    let ghost i = old(mem).region_index(w);
    match copy(mem, w, data.original.as_slice()) {
        Ok(()) => {
            proof {
                lemma_region_index_unique(*mem, w, i);
            }
            match flush(mem, w, data.original.len()) {
                Ok(()) => (),
                Err(_) => {
                    proof {
                        assert(false);
                    }
                },
            }
            Ok(())
        },
        Err(e) => Err(e),
    }
}

/// Writing any patch and then writing the displaced bytes back restores
/// the byte image exactly: the region ends with its original bytes and
/// protection mask, and no other region was touched.
pub proof fn lemma_round_trip(m0: Memory, m1: Memory, m2: Memory, w: u64, patch: Seq<u8>)
    requires
        m0.wf(),
        m1.wf(),
        can_access(m0, w, patch.len() as int),
        mem_written(m0, m1, w, patch),
        mem_written(m1, m2, w, read_val(m0, w, patch.len() as int)),
    ensures
        updated_region(
            m0.regions@,
            m2.regions@,
            m0.region_index(w),
            m0.regions@[m0.region_index(w)].data@,
            m0.regions@[m0.region_index(w)].mask,
        ),
{
    let i = m0.region_index(w);
    let reg = m0.regions@[i];
    lemma_region_index_unique(m1, w, i);
    let d0 = reg.data@;
    let off = w - reg.base;
    let d1 = spec_write(d0, off, patch);
    let orig = read_val(m0, w, patch.len() as int);
    let d2 = spec_write(d1, off, orig);
    assert(d2 =~= d0);
}

} // verus!
