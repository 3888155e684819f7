//! Protection-mask translation between the engine's `R`/`W`/`X` bits and
//! the two operating-system encodings: the POSIX `mprotect` bits and the
//! Windows page-protection constants. Both directions are stated exactly
//! and the round trip over the six meaningful masks is proved.

use vstd::prelude::*;

use crate::defs::MEM_N;
use crate::defs::MEM_R;
use crate::defs::MEM_RW;
use crate::defs::MEM_W;
use crate::defs::MEM_X;
use crate::defs::MEM_XR;
use crate::defs::MEM_XRW;

verus! {

/// POSIX `PROT_READ`.
pub const PROT_READ: u32 = 0x1;

/// POSIX `PROT_WRITE`.
pub const PROT_WRITE: u32 = 0x2;

/// POSIX `PROT_EXEC`.
pub const PROT_EXEC: u32 = 0x4;

/// The POSIX protection bits a mask translates to, bit by bit.
pub open spec fn spec_os_protection_posix(mask: u32) -> u32 {
    (if mask & MEM_R == MEM_R {
        PROT_READ
    } else {
        0u32
    }) | (if mask & MEM_W == MEM_W {
        PROT_WRITE
    } else {
        0u32
    }) | (if mask & MEM_X == MEM_X {
        PROT_EXEC
    } else {
        0u32
    })
}

/// Translate an engine mask to the POSIX `mprotect` bits.
pub fn get_os_protection(mask: u32) -> (r: u32)
    ensures
        r == spec_os_protection_posix(mask),
{
    let a: u32 = if mask & MEM_R == MEM_R {
        PROT_READ
    } else {
        0
    };
    let b: u32 = if mask & MEM_W == MEM_W {
        PROT_WRITE
    } else {
        0
    };
    let c: u32 = if mask & MEM_X == MEM_X {
        PROT_EXEC
    } else {
        0
    };
    a | b | c
}

/// The engine mask a set of POSIX protection bits translates to.
pub open spec fn spec_wrap_protection_posix(p: u32) -> u32 {
    (if p & PROT_READ == PROT_READ {
        MEM_R
    } else {
        MEM_N
    }) | (if p & PROT_WRITE == PROT_WRITE {
        MEM_W
    } else {
        MEM_N
    }) | (if p & PROT_EXEC == PROT_EXEC {
        MEM_X
    } else {
        MEM_N
    })
}

/// Translate POSIX protection bits back to an engine mask.
pub fn wrap_protection(p: u32) -> (r: u32)
    ensures
        r == spec_wrap_protection_posix(p),
{
    let a: u32 = if p & PROT_READ == PROT_READ {
        MEM_R
    } else {
        MEM_N
    };
    let b: u32 = if p & PROT_WRITE == PROT_WRITE {
        MEM_W
    } else {
        MEM_N
    };
    let c: u32 = if p & PROT_EXEC == PROT_EXEC {
        MEM_X
    } else {
        MEM_N
    };
    a | b | c
}

/// The POSIX translation round-trips on every meaningful mask.
pub proof fn lemma_posix_round_trip()
    ensures
        spec_wrap_protection_posix(spec_os_protection_posix(MEM_N)) == MEM_N,
        spec_wrap_protection_posix(spec_os_protection_posix(MEM_R)) == MEM_R,
        spec_wrap_protection_posix(spec_os_protection_posix(MEM_RW)) == MEM_RW,
        spec_wrap_protection_posix(spec_os_protection_posix(MEM_X)) == MEM_X,
        spec_wrap_protection_posix(spec_os_protection_posix(MEM_XR)) == MEM_XR,
        spec_wrap_protection_posix(spec_os_protection_posix(MEM_XRW)) == MEM_XRW,
{
    assert(spec_wrap_protection_posix(spec_os_protection_posix(MEM_N)) == MEM_N) by (bit_vector);
    assert(spec_wrap_protection_posix(spec_os_protection_posix(MEM_R)) == MEM_R) by (bit_vector);
    assert(spec_wrap_protection_posix(spec_os_protection_posix(MEM_RW)) == MEM_RW) by (bit_vector);
    assert(spec_wrap_protection_posix(spec_os_protection_posix(MEM_X)) == MEM_X) by (bit_vector);
    assert(spec_wrap_protection_posix(spec_os_protection_posix(MEM_XR)) == MEM_XR) by (bit_vector);
    assert(spec_wrap_protection_posix(spec_os_protection_posix(MEM_XRW)) == MEM_XRW)
        by (bit_vector);
}

/// Windows `PAGE_NOACCESS`.
pub const PAGE_NOACCESS: u32 = 0x01;

/// Windows `PAGE_READONLY`.
pub const PAGE_READONLY: u32 = 0x02;

/// Windows `PAGE_READWRITE`.
pub const PAGE_READWRITE: u32 = 0x04;

/// Windows `PAGE_WRITECOPY`.
pub const PAGE_WRITECOPY: u32 = 0x08;

/// Windows `PAGE_EXECUTE`.
pub const PAGE_EXECUTE: u32 = 0x10;

/// Windows `PAGE_EXECUTE_READ`.
pub const PAGE_EXECUTE_READ: u32 = 0x20;

/// Windows `PAGE_EXECUTE_READWRITE`.
pub const PAGE_EXECUTE_READWRITE: u32 = 0x40;

/// Windows `PAGE_EXECUTE_WRITECOPY`.
pub const PAGE_EXECUTE_WRITECOPY: u32 = 0x80;

/// The complement of the Windows modifier flags `PAGE_GUARD`,
/// `PAGE_NOCACHE`, `PAGE_WRITECOMBINE` and `PAGE_TARGETS_NO_UPDATE`,
/// which are masked out before a protection value is compared.
pub const PAGE_BASE_MASK: u32 = 0xBFFFF8FF;

/// The Windows page protection an engine mask translates to: a direct
/// six-entry table; any other combination has no Windows encoding.
pub open spec fn spec_os_protection_windows(mask: u32) -> Option<u32> {
    if mask == MEM_N {
        Some(PAGE_NOACCESS)
    } else if mask == MEM_R {
        Some(PAGE_READONLY)
    } else if mask == MEM_RW {
        Some(PAGE_READWRITE)
    } else if mask == MEM_X {
        Some(PAGE_EXECUTE)
    } else if mask == MEM_XR {
        Some(PAGE_EXECUTE_READ)
    } else if mask == MEM_XRW {
        Some(PAGE_EXECUTE_READWRITE)
    } else {
        None
    }
}

/// Translate an engine mask to a Windows page protection.
pub fn get_os_protection_windows(mask: u32) -> (r: Option<u32>)
    ensures
        r == spec_os_protection_windows(mask),
{
    if mask == MEM_N {
        Some(PAGE_NOACCESS)
    } else if mask == MEM_R {
        Some(PAGE_READONLY)
    } else if mask == MEM_RW {
        Some(PAGE_READWRITE)
    } else if mask == MEM_X {
        Some(PAGE_EXECUTE)
    } else if mask == MEM_XR {
        Some(PAGE_EXECUTE_READ)
    } else if mask == MEM_XRW {
        Some(PAGE_EXECUTE_READWRITE)
    } else {
        None
    }
}

/// The engine mask a Windows page protection translates to, after its
/// modifier flags are masked out: each base protection contributes its
/// read, write and execute bits.
pub open spec fn spec_wrap_protection_windows(p: u32) -> u32 {
    let q = p & PAGE_BASE_MASK;
    (if q == PAGE_READONLY || q == PAGE_READWRITE || q == PAGE_WRITECOPY || q == PAGE_EXECUTE_READ
        || q == PAGE_EXECUTE_READWRITE {
        MEM_R
    } else {
        MEM_N
    }) | (if q == PAGE_READWRITE || q == PAGE_WRITECOPY || q == PAGE_EXECUTE_READWRITE || q
        == PAGE_EXECUTE_WRITECOPY {
        MEM_W
    } else {
        MEM_N
    }) | (if q == PAGE_EXECUTE || q == PAGE_EXECUTE_READ || q == PAGE_EXECUTE_READWRITE || q
        == PAGE_EXECUTE_WRITECOPY {
        MEM_X
    } else {
        MEM_N
    })
}

/// Translate a Windows page protection back to an engine mask.
pub fn wrap_protection_windows(p: u32) -> (r: u32)
    ensures
        r == spec_wrap_protection_windows(p),
{
    let q = p & PAGE_BASE_MASK;
    let a: u32 = if q == PAGE_READONLY || q == PAGE_READWRITE || q == PAGE_WRITECOPY || q
        == PAGE_EXECUTE_READ || q == PAGE_EXECUTE_READWRITE {
        MEM_R
    } else {
        MEM_N
    };
    let b: u32 = if q == PAGE_READWRITE || q == PAGE_WRITECOPY || q == PAGE_EXECUTE_READWRITE || q
        == PAGE_EXECUTE_WRITECOPY {
        MEM_W
    } else {
        MEM_N
    };
    let c: u32 = if q == PAGE_EXECUTE || q == PAGE_EXECUTE_READ || q == PAGE_EXECUTE_READWRITE || q
        == PAGE_EXECUTE_WRITECOPY {
        MEM_X
    } else {
        MEM_N
    };
    a | b | c
}

/// The Windows translation round-trips on every mask it encodes.
pub proof fn lemma_windows_round_trip()
    ensures
        spec_wrap_protection_windows(PAGE_NOACCESS) == MEM_N,
        spec_wrap_protection_windows(PAGE_READONLY) == MEM_R,
        spec_wrap_protection_windows(PAGE_READWRITE) == MEM_RW,
        spec_wrap_protection_windows(PAGE_EXECUTE) == MEM_X,
        spec_wrap_protection_windows(PAGE_EXECUTE_READ) == MEM_XR,
        spec_wrap_protection_windows(PAGE_EXECUTE_READWRITE) == MEM_XRW,
{
    assert(0x01u32 & 0xBFFFF8FFu32 == 0x01u32) by (bit_vector);
    assert(0x02u32 & 0xBFFFF8FFu32 == 0x02u32) by (bit_vector);
    assert(0x04u32 & 0xBFFFF8FFu32 == 0x04u32) by (bit_vector);
    assert(0x10u32 & 0xBFFFF8FFu32 == 0x10u32) by (bit_vector);
    assert(0x20u32 & 0xBFFFF8FFu32 == 0x20u32) by (bit_vector);
    assert(0x40u32 & 0xBFFFF8FFu32 == 0x40u32) by (bit_vector);
    assert(1u32 | 2u32 == 3u32) by (bit_vector);
    assert(0u32 | 0u32 | 0u32 == 0u32) by (bit_vector);
    assert(1u32 | 0u32 | 0u32 == 1u32) by (bit_vector);
    assert(1u32 | 2u32 | 0u32 == 3u32) by (bit_vector);
    assert(0u32 | 0u32 | 4u32 == 4u32) by (bit_vector);
    assert(1u32 | 0u32 | 4u32 == 5u32) by (bit_vector);
    assert(1u32 | 2u32 | 4u32 == 7u32) by (bit_vector);
    assert(4u32 | 1u32 == 5u32) by (bit_vector);
    assert(4u32 | 1u32 | 2u32 == 7u32) by (bit_vector);
}

} // verus!
