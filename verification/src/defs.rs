//! Shared definitions: the engine-wide error enumeration, the C-ABI
//! boolean, and the protection-mask bits used by the memory layer.

use vstd::prelude::*;

verus! {

/// Engine-wide error kind. The declaration order is part of the ABI:
/// `Success` is first and every fallible operation reports exactly one kind.
#[derive(Clone, Copy, PartialEq, Eq, Structural, Debug)]
pub enum Error {
    Success,
    ItemNotFound,
    InvalidAccess,
    InvalidArgument,
    InvalidData,
    NoMemory,
}

/// C-ABI boolean returned by the host-facing record APIs.
#[derive(Clone, Copy, PartialEq, Eq, Structural, Debug)]
pub enum Bool {
    True,
    False,
}

/// No access.
pub const MEM_N: u32 = 0x00;

/// Read permission bit.
pub const MEM_R: u32 = 0x01;

/// Write permission bit.
pub const MEM_W: u32 = 0x02;

/// Execute permission bit.
pub const MEM_X: u32 = 0x04;

/// Read and write.
pub const MEM_RW: u32 = MEM_R | MEM_W;

/// Execute and read.
pub const MEM_XR: u32 = MEM_X | MEM_R;

/// Execute, read and write.
pub const MEM_XRW: u32 = MEM_X | MEM_R | MEM_W;

} // verus!
